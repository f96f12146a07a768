//! What holds of setting up Codex: setting it up again changes nothing, and each of the
//! adapter's blocks stands once.
use vstd::prelude::*;

use crate::http::codex;
use crate::text;
use crate::text::CharClass;

verus! {

// ---------------------------------------------------------------------------
// White space at the ends of a line
// ---------------------------------------------------------------------------

/// Whether a text begins with this once its white space is off.
spec fn starts(line: Seq<char>, key: Seq<char>) -> bool {
    text::begins(text::trimmed_start(line), key)
}

/// Whether a text has no white space and is not empty.
spec fn solid(key: Seq<char>) -> bool {
    key.len() > 0 && forall|i: int| 0 <= i < key.len() ==> !text::whitespace(#[trigger] key[i])
}

proof fn lemma_head(line: Seq<char>, c: char)
    requires
        text::whitespace(c),
    ensures
        text::trimmed_start(seq![c] + line) == text::trimmed_start(line),
{
    assert((seq![c] + line).skip(1) =~= line);
}

proof fn lemma_tail_start(line: Seq<char>, c: char)
    requires
        text::whitespace(c),
    ensures
        text::trimmed_start(line).len() == 0 ==> text::trimmed_start(line.push(c)).len() == 0,
        text::trimmed_start(line).len() > 0 ==> text::trimmed_start(line.push(c))
            == text::trimmed_start(line).push(c),
    decreases line.len(),
{
    if line.len() == 0 {
        assert(line.push(c).skip(1) =~= Seq::empty());
        assert(text::trimmed_start(line.push(c).skip(1)).len() == 0);
    } else {
        assert(line.push(c)[0] == line[0]);
        if text::whitespace(line[0]) {
            lemma_tail_start(line.skip(1), c);
            assert(line.push(c).skip(1) =~= line.skip(1).push(c));
        }
    }
}

proof fn lemma_begins_push(s: Seq<char>, c: char, key: Seq<char>)
    requires
        solid(key),
        text::whitespace(c),
    ensures
        text::begins(s.push(c), key) == text::begins(s, key),
{
    let k = key.len() as int;
    if k <= s.len() {
        assert(s.push(c).take(k) =~= s.take(k));
    } else if text::begins(s.push(c), key) {
        assert(s.push(c).take(k)[k - 1] == c);
    }
}

proof fn lemma_tail_starts(line: Seq<char>, c: char, key: Seq<char>)
    requires
        solid(key),
        text::whitespace(c),
    ensures
        starts(line.push(c), key) == starts(line, key),
{
    lemma_tail_start(line, c);
    lemma_begins_push(text::trimmed_start(line), c, key);
}

proof fn lemma_equals_solid()
    ensures
        solid("="@),
        solid("["@),
        forall|i: int| 0 <= i < codex::root_keys().len() ==> solid(#[trigger] codex::root_keys()[i]),
{
    reveal_strlit("=");
    reveal_strlit("[");
    reveal_strlit("model_provider");
    reveal_strlit("model");
    reveal_strlit("review_model");
    reveal_strlit("model_reasoning_effort");
    reveal_strlit("disable_response_storage");
    reveal_strlit("network_access");
    reveal_strlit("model_context_window");
    reveal_strlit("model_auto_compact_token_limit");
}

proof fn lemma_tail_sets(line: Seq<char>, c: char, key: Seq<char>)
    requires
        solid(key),
        solid("="@),
        text::whitespace(c),
    ensures
        codex::sets_key(line.push(c), key) == codex::sets_key(line, key),
{
    let t = text::trimmed_start(line);
    let k = key.len() as int;
    lemma_tail_start(line, c);
    lemma_begins_push(t, c, key);
    if text::begins(t, key) {
        assert(t.push(c).skip(k) =~= t.skip(k).push(c));
        lemma_tail_starts(t.skip(k), c, "="@);
    }
}

/// Whether two lines are alike: both open a section or both do not, and both set a root
/// key that the adapter sets or both do not.
spec fn alike(a: Seq<char>, b: Seq<char>) -> bool {
    &&& codex::opens_section(a) == codex::opens_section(b)
    &&& codex::sets_one(a, codex::root_keys()) == codex::sets_one(b, codex::root_keys())
}

proof fn lemma_tail_alike(line: Seq<char>, c: char)
    requires
        text::whitespace(c),
    ensures
        alike(line.push(c), line),
{
    lemma_equals_solid();
    lemma_tail_starts(line, c, "["@);
    let keys = codex::root_keys();
    assert forall|i: int| 0 <= i < keys.len() implies codex::sets_key(
        line.push(c),
        #[trigger] keys[i],
    ) == codex::sets_key(line, keys[i]) by {
        lemma_tail_sets(line, c, keys[i]);
    }
    if codex::sets_one(line, keys) {
        let i = choose|i: int| 0 <= i < keys.len() && codex::sets_key(line, #[trigger] keys[i]);
        assert(codex::sets_key(line.push(c), keys[i]));
    }
    if codex::sets_one(line.push(c), keys) {
        let i = choose|i: int|
            0 <= i < keys.len() && codex::sets_key(line.push(c), #[trigger] keys[i]);
        assert(codex::sets_key(line, keys[i]));
    }
}

proof fn lemma_head_alike(line: Seq<char>, c: char)
    requires
        text::whitespace(c),
    ensures
        alike(seq![c] + line, line),
{
    lemma_head(line, c);
    let keys = codex::root_keys();
    assert forall|i: int| 0 <= i < keys.len() implies codex::sets_key(
        seq![c] + line,
        #[trigger] keys[i],
    ) == codex::sets_key(line, keys[i]) by {}
    if codex::sets_one(line, keys) {
        let i = choose|i: int| 0 <= i < keys.len() && codex::sets_key(line, #[trigger] keys[i]);
        assert(codex::sets_key(seq![c] + line, keys[i]));
    }
    if codex::sets_one(seq![c] + line, keys) {
        let i = choose|i: int|
            0 <= i < keys.len() && codex::sets_key(seq![c] + line, #[trigger] keys[i]);
        assert(codex::sets_key(line, keys[i]));
    }
}

proof fn lemma_return_alike(line: Seq<char>)
    ensures
        alike(text::without_return(line), line),
{
    if line.len() > 0 && line[line.len() - 1] == '\r' {
        let front = line.take(line.len() - 1);
        assert(line =~= front.push('\r'));
        lemma_tail_alike(front, '\r');
    }
}

proof fn lemma_empty_is_plain()
    ensures
        !codex::opens_section(Seq::empty()),
{
    reveal_strlit("[");
}

// ---------------------------------------------------------------------------
// Lines that are all kept
// ---------------------------------------------------------------------------

/// Whether no line before the first section sets a root key that the adapter sets.
spec fn all_kept(lines: Seq<Seq<char>>) -> bool {
    forall|i: int|
        0 <= i < lines.len() && codex::in_root(lines.take(i + 1)) ==> !codex::sets_one(
            #[trigger] lines[i],
            codex::root_keys(),
        )
}

proof fn lemma_all_kept(lines: Seq<Seq<char>>)
    requires
        all_kept(lines),
    ensures
        codex::kept_lines(lines) == lines,
    decreases lines.len(),
{
    if lines.len() > 0 {
        let n = lines.len() - 1;
        let before = lines.take(n);
        lemma_all_kept_prefix(lines, n);
        lemma_all_kept(before);
        assert(lines.take(n + 1) =~= lines);
        assert(!(codex::in_root(lines) && codex::sets_one(lines[n], codex::root_keys())));
        assert(before.push(lines[n]) =~= lines);
    } else {
        assert(lines =~= Seq::empty());
    }
}

proof fn lemma_all_kept_prefix(lines: Seq<Seq<char>>, n: int)
    requires
        all_kept(lines),
        0 <= n <= lines.len(),
    ensures
        all_kept(lines.take(n)),
{
    let front = lines.take(n);
    assert forall|i: int| 0 <= i < front.len() && codex::in_root(front.take(i + 1)) implies !codex::sets_one(
        #[trigger] front[i],
        codex::root_keys(),
    ) by {
        assert(front.take(i + 1) =~= lines.take(i + 1));
        assert(front[i] == lines[i]);
    }
}

proof fn lemma_all_kept_behind(first: Seq<char>, rest: Seq<Seq<char>>)
    requires
        all_kept(seq![first] + rest),
        !codex::opens_section(first),
    ensures
        all_kept(rest),
{
    let all = seq![first] + rest;
    assert forall|i: int| 0 <= i < rest.len() && codex::in_root(rest.take(i + 1)) implies !codex::sets_one(
        #[trigger] rest[i],
        codex::root_keys(),
    ) by {
        let front = all.take(i + 2);
        assert forall|k: int| 0 <= k < front.len() implies !codex::opens_section(
            #[trigger] front[k],
        ) by {
            if k > 0 {
                assert(front[k] == rest.take(i + 1)[k - 1]);
            }
        }
        assert(all[i + 1] == rest[i]);
    }
}

proof fn lemma_all_kept_alike(a: Seq<Seq<char>>, b: Seq<Seq<char>>)
    requires
        all_kept(a),
        a.len() == b.len(),
        forall|i: int| 0 <= i < a.len() ==> alike(#[trigger] a[i], b[i]),
    ensures
        all_kept(b),
{
    assert forall|i: int| 0 <= i < b.len() && codex::in_root(b.take(i + 1)) implies !codex::sets_one(
        #[trigger] b[i],
        codex::root_keys(),
    ) by {
        let front = a.take(i + 1);
        assert forall|k: int| 0 <= k < front.len() implies !codex::opens_section(
            #[trigger] front[k],
        ) by {
            assert(alike(a[k], b[k]));
            assert(!codex::opens_section(b.take(i + 1)[k]));
        }
        assert(alike(a[i], b[i]));
    }
}

/// Lines that are all kept are all kept with the last one changed for one that is alike.
proof fn lemma_all_kept_last(front: Seq<Seq<char>>, a: Seq<char>, b: Seq<char>)
    requires
        all_kept(front + seq![a]),
        alike(a, b),
    ensures
        all_kept(front + seq![b]),
        all_kept(front),
{
    let all = front + seq![a];
    lemma_all_kept_prefix(all, front.len() as int);
    assert(all.take(front.len() as int) =~= front);
    assert forall|i: int| 0 <= i < all.len() implies alike(
        #[trigger] all[i],
        (front + seq![b])[i],
    ) by {}
    lemma_all_kept_alike(all, front + seq![b]);
}

// ---------------------------------------------------------------------------
// Lines
// ---------------------------------------------------------------------------

/// Whether a text holds no line feed.
spec fn one_line(s: Seq<char>) -> bool {
    forall|i: int| 0 <= i < s.len() ==> #[trigger] s[i] != '\n'
}

proof fn lemma_first_feed(a: Seq<char>, b: Seq<char>)
    requires
        one_line(a),
    ensures
        text::class_from(a + seq!['\n'] + b, CharClass::Only('\n'), 0) == Some(a.len() as int),
{
    let s = a + seq!['\n'] + b;
    text::lemma_class_from(s, CharClass::Only('\n'), 0);
    assert(s[a.len() as int] == '\n');
    if let Some(i) = text::class_from(s, CharClass::Only('\n'), 0) {
        if i < a.len() {
            assert(s[i] == a[i]);
        }
    }
}

proof fn lemma_lines_first(a: Seq<char>, b: Seq<char>)
    requires
        one_line(a),
    ensures
        text::lines(a + seq!['\n'] + b) == seq![text::without_return(a)] + text::lines(b),
{
    let s = a + seq!['\n'] + b;
    lemma_first_feed(a, b);
    assert(s.take(a.len() as int) =~= a);
    assert(s.skip(a.len() as int + 1) =~= b);
}

proof fn lemma_lines_single(a: Seq<char>)
    requires
        one_line(a),
    ensures
        text::lines(a) == (if a.len() == 0 {
            Seq::<Seq<char>>::empty()
        } else {
            seq![a]
        }),
        text::lines(a + seq!['\n']) == seq![text::without_return(a)],
{
    text::lemma_class_from(a, CharClass::Only('\n'), 0);
    let b = Seq::<char>::empty();
    assert(a + seq!['\n'] + b =~= a + seq!['\n']);
    lemma_lines_first(a, b);
    assert(text::lines(b) =~= Seq::empty());
    assert(seq![text::without_return(a)] + Seq::<Seq<char>>::empty() =~= seq![
        text::without_return(a),
    ]);
}

/// The lines before and behind a line feed are the lines of the whole.
proof fn lemma_lines_split(a: Seq<char>, b: Seq<char>)
    ensures
        text::lines(a + seq!['\n'] + b) == text::lines(a + seq!['\n']) + text::lines(b),
    decreases a.len(),
{
    text::lemma_class_from(a, CharClass::Only('\n'), 0);
    match text::class_from(a, CharClass::Only('\n'), 0) {
        None => {
            assert(one_line(a)) by {
                assert forall|i: int| 0 <= i < a.len() implies #[trigger] a[i] != '\n' by {
                    assert(!CharClass::Only('\n').holds(a[i]));
                }
            }
            lemma_lines_first(a, b);
            lemma_lines_single(a);
        },
        Some(i) => {
            let first = a.take(i);
            let rest = a.skip(i + 1);
            assert(one_line(first)) by {
                assert forall|k: int| 0 <= k < first.len() implies #[trigger] first[k] != '\n' by {
                    assert(!CharClass::Only('\n').holds(a[k]));
                }
            }
            assert(a + seq!['\n'] + b =~= first + seq!['\n'] + (rest + seq!['\n'] + b));
            assert(a + seq!['\n'] =~= first + seq!['\n'] + (rest + seq!['\n']));
            lemma_lines_first(first, rest + seq!['\n'] + b);
            lemma_lines_first(first, rest + seq!['\n']);
            lemma_lines_split(rest, b);
            assert(text::lines(a + seq!['\n'] + b) =~= text::lines(a + seq!['\n']) + text::lines(b));
        },
    }
}

/// No line of a text holds a line feed.
proof fn lemma_lines_are_single(s: Seq<char>, i: int)
    requires
        0 <= i < text::lines(s).len(),
    ensures
        one_line(text::lines(s)[i]),
    decreases s.len(),
{
    text::lemma_class_from(s, CharClass::Only('\n'), 0);
    if s.len() > 0 {
        match text::class_from(s, CharClass::Only('\n'), 0) {
            None => {
                assert forall|k: int| 0 <= k < s.len() implies #[trigger] s[k] != '\n' by {
                    assert(!CharClass::Only('\n').holds(s[k]));
                }
            },
            Some(at) => {
                let first = s.take(at);
                if i == 0 {
                    assert forall|k: int|
                        0 <= k < text::without_return(first).len() implies #[trigger] text::without_return(
                        first,
                    )[k] != '\n' by {
                        assert(!CharClass::Only('\n').holds(s[k]));
                    }
                } else {
                    lemma_lines_are_single(s.skip(at + 1), i - 1);
                }
            },
        }
    }
}

/// A text is one line, or there is a last line feed in it.
proof fn lemma_last_feed(s: Seq<char>) -> (parts: (Seq<char>, Seq<char>))
    ensures
        one_line(s) || (s == parts.0 + seq!['\n'] + parts.1 && one_line(parts.1)),
    decreases s.len(),
{
    if s.len() == 0 {
        (s, s)
    } else {
        let n = s.len() - 1;
        let front = s.take(n);
        if s[n] == '\n' {
            assert(s =~= front + seq!['\n'] + Seq::<char>::empty());
            (front, Seq::empty())
        } else {
            let (a, b) = lemma_last_feed(front);
            if one_line(front) {
                assert forall|i: int| 0 <= i < s.len() implies #[trigger] s[i] != '\n' by {
                    if i < n {
                        assert(front[i] == s[i]);
                    }
                }
                (a, b)
            } else {
                let last = b.push(s[n]);
                assert(front == a + seq!['\n'] + b);
                assert(s =~= front.push(s[n]));
                assert(s =~= a + seq!['\n'] + last);
                assert forall|i: int| 0 <= i < last.len() implies #[trigger] last[i] != '\n' by {
                    if i < b.len() {
                        assert(last[i] == b[i]);
                    }
                }
                (a, last)
            }
        }
    }
}

// ---------------------------------------------------------------------------
// Trimming keeps lines kept
// ---------------------------------------------------------------------------

proof fn lemma_kept_without_first(s: Seq<char>)
    requires
        s.len() > 0,
        text::whitespace(s[0]),
        all_kept(text::lines(s)),
    ensures
        all_kept(text::lines(s.skip(1))),
{
    let c = s[0];
    let rest = s.skip(1);
    lemma_empty_is_plain();
    if c == '\n' {
        let none = Seq::<char>::empty();
        assert(s =~= none + seq!['\n'] + rest);
        lemma_lines_first(none, rest);
        lemma_all_kept_behind(none, text::lines(rest));
    } else {
        text::lemma_class_from(rest, CharClass::Only('\n'), 0);
        match text::class_from(rest, CharClass::Only('\n'), 0) {
            None => {
                assert(one_line(rest)) by {
                    assert forall|i: int| 0 <= i < rest.len() implies #[trigger] rest[i] != '\n' by {
                        assert(!CharClass::Only('\n').holds(rest[i]));
                    }
                }
                assert(one_line(s)) by {
                    assert forall|i: int| 0 <= i < s.len() implies #[trigger] s[i] != '\n' by {
                        if i > 0 {
                            assert(rest[i - 1] == s[i]);
                        }
                    }
                }
                lemma_lines_single(rest);
                lemma_lines_single(s);
                assert(s =~= seq![c] + rest);
                lemma_head_alike(rest, c);
                if rest.len() > 0 {
                    lemma_all_kept_alike(seq![s], seq![rest]);
                }
            },
            Some(i) => {
                let line = rest.take(i);
                let behind = rest.skip(i + 1);
                assert(one_line(line)) by {
                    assert forall|k: int| 0 <= k < line.len() implies #[trigger] line[k] != '\n' by {
                        assert(!CharClass::Only('\n').holds(rest[k]));
                    }
                }
                let longer = seq![c] + line;
                assert(one_line(longer)) by {
                    assert forall|k: int| 0 <= k < longer.len() implies #[trigger] longer[k]
                        != '\n' by {
                        if k > 0 {
                            assert(longer[k] == line[k - 1]);
                        }
                    }
                }
                assert(rest =~= line + seq!['\n'] + behind);
                assert(s =~= longer + seq!['\n'] + behind);
                lemma_lines_first(line, behind);
                lemma_lines_first(longer, behind);
                lemma_return_alike(line);
                lemma_return_alike(longer);
                lemma_head_alike(line, c);
                let a = seq![text::without_return(longer)] + text::lines(behind);
                let b = seq![text::without_return(line)] + text::lines(behind);
                assert forall|k: int| 0 <= k < a.len() implies alike(#[trigger] a[k], b[k]) by {}
                lemma_all_kept_alike(a, b);
            },
        }
    }
}

proof fn lemma_kept_without_last(s: Seq<char>)
    requires
        s.len() > 0,
        text::whitespace(s[s.len() - 1]),
        all_kept(text::lines(s)),
    ensures
        all_kept(text::lines(s.take(s.len() - 1))),
{
    let n = s.len() - 1;
    let c = s[n];
    let front = s.take(n);
    assert(s =~= front.push(c));
    let (a, b) = lemma_last_feed(front);
    let (head, last) = if one_line(front) {
        (Seq::<Seq<char>>::empty(), front)
    } else {
        (text::lines(a + seq!['\n']), b)
    };
    assert(text::lines(front) =~= head + text::lines(last)) by {
        if !one_line(front) {
            lemma_lines_split(a, b);
        }
    }
    lemma_lines_single(last);
    lemma_return_alike(last);
    lemma_tail_alike(last, c);
    let longer = last.push(c);
    if c == '\n' {
        assert(text::lines(s) =~= head + seq![text::without_return(last)]) by {
            assert(longer =~= last + seq!['\n']);
            if !one_line(front) {
                assert(s =~= a + seq!['\n'] + longer);
                lemma_lines_split(a, longer);
            } else {
                assert(s =~= longer);
            }
        }
        lemma_all_kept_last(head, text::without_return(last), last);
    } else {
        assert(one_line(longer)) by {
            assert forall|k: int| 0 <= k < longer.len() implies #[trigger] longer[k] != '\n' by {
                if k < last.len() {
                    assert(longer[k] == last[k]);
                }
            }
        }
        lemma_lines_single(longer);
        assert(text::lines(s) =~= head + seq![longer]) by {
            if !one_line(front) {
                assert(s =~= a + seq!['\n'] + longer);
                lemma_lines_split(a, longer);
            } else {
                assert(s =~= longer);
            }
        }
        lemma_all_kept_last(head, longer, last);
    }
    if last.len() == 0 {
        assert(text::lines(front) =~= head);
    } else {
        assert(text::lines(front) =~= head + seq![last]);
    }
}

proof fn lemma_kept_trimmed_start(s: Seq<char>)
    requires
        all_kept(text::lines(s)),
    ensures
        all_kept(text::lines(text::trimmed_start(s))),
    decreases s.len(),
{
    if s.len() > 0 && text::whitespace(s[0]) {
        lemma_kept_without_first(s);
        lemma_kept_trimmed_start(s.skip(1));
    }
}

proof fn lemma_kept_trimmed_end(s: Seq<char>)
    requires
        all_kept(text::lines(s)),
    ensures
        all_kept(text::lines(text::trimmed_end(s))),
    decreases s.len(),
{
    if s.len() > 0 && text::whitespace(s[s.len() - 1]) {
        lemma_kept_without_last(s);
        lemma_kept_trimmed_end(s.take(s.len() - 1));
    }
}

// ---------------------------------------------------------------------------
// Joining lines
// ---------------------------------------------------------------------------

/// The lines of lines that were joined, each ended by a line feed.
proof fn lemma_lines_joined(lines: Seq<Seq<char>>)
    requires
        lines.len() > 0,
        forall|i: int| 0 <= i < lines.len() ==> one_line(#[trigger] lines[i]),
    ensures
        text::lines(text::joined(lines, "\n"@) + seq!['\n']) == lines.map_values(
            |l: Seq<char>| text::without_return(l),
        ),
    decreases lines.len(),
{
    reveal_strlit("\n");
    let n = lines.len() - 1;
    let last = lines[n];
    let whole = text::joined(lines, "\n"@);
    let cut = lines.map_values(|l: Seq<char>| text::without_return(l));
    lemma_lines_single(last);
    if n == 0 {
        assert(cut =~= seq![text::without_return(last)]);
    } else {
        let before = lines.take(n);
        assert forall|i: int| 0 <= i < before.len() implies one_line(#[trigger] before[i]) by {
            assert(before[i] == lines[i]);
        }
        lemma_lines_joined(before);
        let head = text::joined(before, "\n"@);
        assert("\n"@ =~= seq!['\n']);
        assert(whole + seq!['\n'] =~= head + seq!['\n'] + (last + seq!['\n']));
        lemma_lines_split(head, last + seq!['\n']);
        assert(cut =~= before.map_values(|l: Seq<char>| text::without_return(l)) + seq![
            text::without_return(last),
        ]);
    }
}

/// Lines that are all kept are so once they are joined.
proof fn lemma_kept_joined(lines: Seq<Seq<char>>)
    requires
        forall|i: int| 0 <= i < lines.len() ==> one_line(#[trigger] lines[i]),
        all_kept(lines),
    ensures
        all_kept(text::lines(text::joined(lines, "\n"@))),
{
    let whole = text::joined(lines, "\n"@);
    if lines.len() > 0 {
        lemma_lines_joined(lines);
        let cut = lines.map_values(|l: Seq<char>| text::without_return(l));
        assert forall|i: int| 0 <= i < lines.len() implies alike(#[trigger] lines[i], cut[i]) by {
            lemma_return_alike(lines[i]);
        }
        lemma_all_kept_alike(lines, cut);
        let ended = whole + seq!['\n'];
        lemma_kept_without_last(ended);
        assert(ended.take(ended.len() - 1) =~= whole);
    } else {
        assert(text::lines(whole) =~= Seq::empty());
    }
}

/// The lines that are kept of a text hold no line feed.
proof fn lemma_kept_are_single(lines: Seq<Seq<char>>)
    requires
        forall|i: int| 0 <= i < lines.len() ==> one_line(#[trigger] lines[i]),
    ensures
        forall|i: int|
            0 <= i < codex::kept_lines(lines).len() ==> one_line(
                #[trigger] codex::kept_lines(lines)[i],
            ),
    decreases lines.len(),
{
    if lines.len() > 0 {
        let before = lines.take(lines.len() - 1);
        assert forall|i: int| 0 <= i < before.len() implies one_line(#[trigger] before[i]) by {
            assert(before[i] == lines[i]);
        }
        lemma_kept_are_single(before);
        assert(one_line(lines[lines.len() - 1]));
        let earlier = codex::kept_lines(before);
        let kept = codex::kept_lines(lines);
        assert forall|i: int| 0 <= i < kept.len() implies one_line(#[trigger] kept[i]) by {
            if i < earlier.len() {
                assert(kept[i] == earlier[i]);
            } else {
                assert(kept[i] == lines[lines.len() - 1]);
            }
        }
    }
}

proof fn lemma_joined_front(first: Seq<char>, rest: Seq<Seq<char>>, sep: Seq<char>)
    requires
        rest.len() > 0,
    ensures
        text::joined(seq![first] + rest, sep) == first + sep + text::joined(rest, sep),
    decreases rest.len(),
{
    let all = seq![first] + rest;
    let n = rest.len() - 1;
    assert(all[all.len() - 1] == rest[n]);
    if n == 0 {
        assert(all.take(1) =~= seq![first]);
        assert(text::joined(seq![first], sep) == first);
    } else {
        lemma_joined_front(first, rest.take(n), sep);
        assert(all.take(all.len() - 1) =~= seq![first] + rest.take(n));
        assert(text::joined(all, sep) =~= first + sep + text::joined(rest, sep));
    }
}

/// A text is its lines joined, if it does not end with a line feed and has no carriage
/// return before one.
proof fn lemma_join_lines(s: Seq<char>)
    requires
        s.len() > 0 ==> s[s.len() - 1] != '\n',
        !text::has(s, "\r\n"@),
    ensures
        text::joined(text::lines(s), "\n"@) == s,
        s.len() > 0 ==> text::lines(s).len() > 0,
    decreases s.len(),
{
    reveal_strlit("\n");
    reveal_strlit("\r\n");
    if s.len() > 0 {
        text::lemma_class_from(s, CharClass::Only('\n'), 0);
        match text::class_from(s, CharClass::Only('\n'), 0) {
            None => {
                assert(text::joined(seq![s], "\n"@) == s);
            },
            Some(i) => {
                let first = s.take(i);
                let rest = s.skip(i + 1);
                assert(text::without_return(first) == first) by {
                    if i > 0 && first[i - 1] == '\r' {
                        assert(s.subrange(i - 1, i + 1) =~= "\r\n"@);
                        assert(text::occurs(s, "\r\n"@, i - 1));
                    }
                }
                assert(!text::has(rest, "\r\n"@)) by {
                    if text::has(rest, "\r\n"@) {
                        let k = choose|k: int| text::occurs(rest, "\r\n"@, k);
                        assert(s.subrange(i + 1 + k, i + 1 + k + 2) =~= rest.subrange(k, k + 2));
                        assert(text::occurs(s, "\r\n"@, i + 1 + k));
                    }
                }
                assert(rest.len() > 0);
                assert(rest[rest.len() - 1] == s[s.len() - 1]);
                lemma_join_lines(rest);
                lemma_joined_front(first, text::lines(rest), "\n"@);
                assert("\n"@ =~= seq!['\n']);
                assert(s =~= first + "\n"@ + rest);
            },
        }
    }
}

// ---------------------------------------------------------------------------
// What is left of a config
// ---------------------------------------------------------------------------

proof fn lemma_trimmed_ends(s: Seq<char>)
    ensures
        text::trimmed(s).len() > 0 ==> !text::whitespace(text::trimmed(s)[0])
            && !text::whitespace(text::trimmed(s)[text::trimmed(s).len() - 1]),
{
    lemma_trimmed_start_end(s);
    lemma_trimmed_end_ends(text::trimmed_start(s));
}

proof fn lemma_trimmed_start_end(s: Seq<char>)
    ensures
        text::trimmed_start(s).len() > 0 ==> !text::whitespace(text::trimmed_start(s)[0]),
    decreases s.len(),
{
    if s.len() > 0 && text::whitespace(s[0]) {
        lemma_trimmed_start_end(s.skip(1));
    }
}

proof fn lemma_trimmed_end_ends(s: Seq<char>)
    ensures
        text::trimmed_end(s).len() > 0 ==> !text::whitespace(
            text::trimmed_end(s)[text::trimmed_end(s).len() - 1],
        ) && text::trimmed_end(s)[0] == s[0],
    decreases s.len(),
{
    if s.len() > 0 && text::whitespace(s[s.len() - 1]) {
        lemma_trimmed_end_ends(s.take(s.len() - 1));
    }
}

/// What is left of a config sets none of the adapter's root keys.
proof fn lemma_own_config_kept(existing: Seq<char>)
    ensures
        all_kept(text::lines(codex::own_config(existing))),
{
    let s = codex::without_block(
        codex::without_block(existing, codex::ROOT_BEGIN@, codex::ROOT_END@),
        codex::PROVIDER_BEGIN@,
        codex::PROVIDER_END@,
    );
    let lines = text::lines(s);
    assert forall|i: int| 0 <= i < lines.len() implies one_line(#[trigger] lines[i]) by {
        lemma_lines_are_single(s, i);
    }
    let kept = codex::kept_lines(lines);
    lemma_kept_are_single(lines);
    codex::lemma_kept_lines(lines);
    lemma_kept_joined(kept);
    let joined = text::joined(kept, "\n"@);
    lemma_kept_trimmed_start(joined);
    lemma_kept_trimmed_end(text::trimmed_start(joined));
}

/// Taking the root keys out of what is left of a config, with empty lines behind it,
/// leaves it.
proof fn lemma_nothing_to_take(body: Seq<char>)
    requires
        all_kept(text::lines(body)),
        body.len() > 0,
        !text::whitespace(body[0]),
        !text::whitespace(body[body.len() - 1]),
        !text::has(body, "\r\n"@),
    ensures
        text::trimmed(codex::without_root_keys(body + "\n\n"@)) == body,
{
    reveal_strlit("\n\n");
    reveal_strlit("\n");
    let feed = seq!['\n'];
    assert("\n\n"@ =~= feed + feed);
    assert("\n"@ =~= feed);
    assert(body + "\n\n"@ =~= body + feed + feed);
    lemma_lines_split(body, feed);
    let none = Seq::<char>::empty();
    assert(none + feed =~= feed);
    lemma_lines_single(none);
    assert(text::lines(feed) =~= seq![none]);
    let (a, b) = lemma_last_feed(body);
    assert(text::lines(body + feed) =~= text::lines(body)) by {
        if one_line(body) {
            lemma_lines_single(body);
        } else {
            assert(b.len() > 0) by {
                if b.len() == 0 {
                    assert(body =~= a + feed);
                    assert(body[body.len() - 1] == '\n');
                }
            }
            assert(b[b.len() - 1] == body[body.len() - 1]);
            lemma_lines_split(a, b);
            assert(body + feed =~= a + feed + (b + feed));
            lemma_lines_split(a, b + feed);
            lemma_lines_single(b);
        }
    }
    let lines = text::lines(body) + seq![none];
    assert(text::lines(body + "\n\n"@) == lines);
    assert(all_kept(lines)) by {
        assert forall|i: int| 0 <= i < lines.len() && codex::in_root(lines.take(i + 1)) implies !codex::sets_one(
            #[trigger] lines[i],
            codex::root_keys(),
        ) by {
            if i < text::lines(body).len() {
                assert(lines.take(i + 1) =~= text::lines(body).take(i + 1));
                assert(lines[i] == text::lines(body)[i]);
            } else {
                lemma_empty_sets_nothing();
            }
        }
    }
    lemma_all_kept(lines);
    lemma_join_lines(body);
    assert(lines.take(lines.len() - 1) =~= text::lines(body));
    let joined = text::joined(lines, "\n"@);
    assert(joined =~= body.push('\n'));
    assert(text::trimmed_start(joined) == joined);
    assert(joined.take(joined.len() - 1) =~= body);
    assert(text::trimmed_end(body) == body);
}

proof fn lemma_empty_sets_nothing()
    ensures
        !codex::sets_one(Seq::empty(), codex::root_keys()),
{
    lemma_equals_solid();
    let keys = codex::root_keys();
    assert forall|i: int| 0 <= i < keys.len() implies !codex::sets_key(
        Seq::empty(),
        #[trigger] keys[i],
    ) by {
        assert(solid(keys[i]));
    }
}

// ---------------------------------------------------------------------------
// Setting up again
// ---------------------------------------------------------------------------

/// Whether a block begins and ends with its markers, and its end stands in it only once.
pub open spec fn well_marked(block: Seq<char>, begin: Seq<char>, end: Seq<char>) -> bool {
    &&& text::begins(block, begin)
    &&& text::first(block, end) == Some(block.len() - end.len())
}

proof fn lemma_first_in_front(a: Seq<char>, b: Seq<char>, p: Seq<char>)
    requires
        text::first(a, p) is Some,
    ensures
        text::first(a + b, p) == text::first(a, p),
{
    text::lemma_first_from(a, p, 0);
    text::lemma_first_from(a + b, p, 0);
    let k = text::first(a, p)->0;
    assert((a + b).subrange(k, k + p.len()) =~= a.subrange(k, k + p.len()));
    assert(text::occurs(a + b, p, k));
    let j = text::first(a + b, p)->0;
    assert((a + b).subrange(j, j + p.len()) =~= a.subrange(j, j + p.len()));
    assert(text::occurs(a, p, j));
}

/// The adapter's root block is taken off the front.
proof fn lemma_root_taken_off(root: Seq<char>, behind: Seq<char>)
    requires
        well_marked(root, codex::ROOT_BEGIN@, codex::ROOT_END@),
        behind.len() > 0,
        behind[0] != '\r',
        behind[0] != '\n',
    ensures
        codex::without_block(
            root + "\n\n"@ + behind,
            codex::ROOT_BEGIN@,
            codex::ROOT_END@,
        ) == behind,
{
    reveal_strlit("\n\n");
    let s = root + "\n\n"@ + behind;
    let begin = codex::ROOT_BEGIN@;
    let end = codex::ROOT_END@;
    assert(s =~= root + ("\n\n"@ + behind));
    assert(s.subrange(0, begin.len() as int) =~= root.take(begin.len() as int));
    text::lemma_first_from(s, begin, 0);
    assert(text::occurs(s, begin, 0));
    assert(s.skip(0) =~= s);
    lemma_first_in_front(root, "\n\n"@ + behind, end);
    assert(s.take(0) =~= Seq::empty());
    assert(text::trimmed_end(Seq::empty()) =~= Seq::empty());
    let tail = "\n\n"@ + behind;
    assert(s.skip(root.len() as int) =~= tail);
    assert(tail.skip(1).skip(1) =~= behind);
    assert(tail[0] == '\n' && tail.skip(1)[0] == '\n');
    assert(text::dropped_front(behind, CharClass::LineEnd) == behind);
    assert(text::dropped_front(tail.skip(1), CharClass::LineEnd) == behind);
    assert(text::dropped_front(tail, CharClass::LineEnd) == behind);
}

/// The adapter's provider block is taken off the back.
proof fn lemma_provider_taken_off(body: Seq<char>, provider: Seq<char>)
    requires
        well_marked(provider, codex::PROVIDER_BEGIN@, codex::PROVIDER_END@),
        body.len() > 0 ==> !text::whitespace(body[body.len() - 1]),
        !text::has(body, codex::PROVIDER_BEGIN@),
    ensures
        codex::without_block(
            (if body.len() == 0 {
                body
            } else {
                body + "\n\n"@
            }) + provider + "\n"@,
            codex::PROVIDER_BEGIN@,
            codex::PROVIDER_END@,
        ) == (if body.len() == 0 {
            body
        } else {
            body + "\n\n"@
        }),
{
    reveal_strlit("\n\n");
    reveal_strlit("\n");
    let begin = codex::PROVIDER_BEGIN@;
    let end = codex::PROVIDER_END@;
    let head = if body.len() == 0 {
        body
    } else {
        body + "\n\n"@
    };
    let s = head + provider + "\n"@;
    let k = head.len() as int;
    lemma_marker_is_one_line();
    assert(s.subrange(k, k + begin.len()) =~= provider.take(begin.len() as int));
    assert(text::occurs(s, begin, k));
    assert forall|j: int| 0 <= j < k implies !#[trigger] text::occurs(s, begin, j) by {
        if text::occurs(s, begin, j) {
            if j + begin.len() <= body.len() {
                assert(s.subrange(j, j + begin.len()) =~= body.subrange(j, j + begin.len()));
                assert(text::occurs(body, begin, j));
            } else {
                let at = if j < body.len() {
                    body.len() as int
                } else {
                    j
                };
                assert(s[at] == '\n');
                assert(s.subrange(j, j + begin.len())[at - j] == s[at]);
                assert(begin[at - j] == '\n');
            }
        }
    }
    text::lemma_first_from(s, begin, 0);
    assert(text::first(s, begin) == Some(k));
    let block = s.skip(k);
    assert(block =~= provider + "\n"@);
    lemma_first_in_front(provider, "\n"@, end);
    assert(s.take(k) =~= head);
    assert(text::trimmed_end(head) =~= body) by {
        if body.len() > 0 {
            assert(head.take(head.len() - 1) =~= body.push('\n'));
            assert(body.push('\n').take(body.len() as int) =~= body);
            assert(text::trimmed_end(body) == body);
            assert(text::trimmed_end(body.push('\n')) == body);
        }
    }
    let tail = s.skip(k + provider.len());
    assert(tail =~= "\n"@);
    assert(tail.skip(1) =~= Seq::empty());
    assert(tail[0] == '\n');
    assert(text::dropped_front(tail.skip(1), CharClass::LineEnd) =~= Seq::empty());
    assert(text::dropped_front(tail, CharClass::LineEnd) =~= Seq::empty());
    assert(body + "\n\n"@ + Seq::<char>::empty() =~= body + "\n\n"@);
}

proof fn lemma_marker_is_one_line()
    ensures
        one_line(codex::PROVIDER_BEGIN@),
        codex::PROVIDER_BEGIN@.len() > 0,
        codex::PROVIDER_BEGIN@[0] == '#',
{
    reveal_strlit("# BEGIN model-toolcall-adapter provider");
}

/// Setting up Codex replaces what an earlier setup did: it comes to the same as without
/// that one, whatever blocks are set, and so setting up again with the same blocks changes
/// nothing. The earlier blocks must not hold their own end markers early, what is left of
/// the config no provider block of the adapter, and none of its lines may end with a
/// carriage return.
pub proof fn lemma_set_up_again(
    existing: Seq<char>,
    root: Seq<char>,
    provider: Seq<char>,
    next_root: Seq<char>,
    next_provider: Seq<char>,
)
    requires
        well_marked(text::trimmed_end(root), codex::ROOT_BEGIN@, codex::ROOT_END@),
        well_marked(text::trimmed_end(provider), codex::PROVIDER_BEGIN@, codex::PROVIDER_END@),
        !text::has(codex::own_config(existing), codex::PROVIDER_BEGIN@),
        !text::has(codex::own_config(existing), "\r\n"@),
    ensures
        codex::with_blocks(codex::with_blocks(existing, root, provider), next_root, next_provider)
            == codex::with_blocks(existing, next_root, next_provider),
{
    let body = codex::own_config(existing);
    let r = text::trimmed_end(root);
    let p = text::trimmed_end(provider);
    let next = codex::with_blocks(existing, root, provider);
    let head = if body.len() == 0 {
        body
    } else {
        body + "\n\n"@
    };
    let behind = head + p + "\n"@;
    assert(next =~= r + "\n\n"@ + behind);
    lemma_marker_is_one_line();
    lemma_trimmed_ends(
        codex::without_root_keys(
            codex::without_block(
                codex::without_block(existing, codex::ROOT_BEGIN@, codex::ROOT_END@),
                codex::PROVIDER_BEGIN@,
                codex::PROVIDER_END@,
            ),
        ),
    );
    assert(p[0] == '#') by {
        assert(p.take(codex::PROVIDER_BEGIN@.len() as int)[0] == p[0]);
    }
    assert(behind[0] == if body.len() == 0 {
        p[0]
    } else {
        body[0]
    });
    lemma_root_taken_off(r, behind);
    lemma_provider_taken_off(body, p);
    if body.len() == 0 {
        assert(text::lines(body) =~= Seq::empty());
        assert(codex::kept_lines(Seq::empty()) =~= Seq::empty());
        assert(text::joined(Seq::<Seq<char>>::empty(), "\n"@) =~= body);
        assert(text::trimmed(body) =~= body);
    } else {
        lemma_own_config_kept(existing);
        lemma_nothing_to_take(body);
    }
    assert(codex::own_config(next) == body);
}

/// Whether a text holds no `#`.
pub open spec fn without_hash(s: Seq<char>) -> bool {
    forall|i: int| 0 <= i < s.len() ==> #[trigger] s[i] != '#'
}

/// Whether a marker holds one `#`, at its start, and does not end with white space.
spec fn is_marker(s: Seq<char>) -> bool {
    &&& s.len() > 2
    &&& s[0] == '#'
    &&& forall|i: int| 0 < i < s.len() ==> #[trigger] s[i] != '#'
    &&& !text::whitespace(s[s.len() - 1])
}

proof fn lemma_marked(begin: Seq<char>, middle: Seq<char>, end: Seq<char>)
    requires
        is_marker(begin),
        is_marker(end),
        begin[2] != end[2],
        without_hash(middle),
    ensures
        well_marked(text::trimmed_end(begin + middle + end + "\n"@), begin, end),
        is_block(text::trimmed_end(begin + middle + end + "\n"@), begin, end),
{
    let block = begin + middle + end;
    lemma_block_trimmed(begin + middle, end);
    assert(block.take(begin.len() as int) =~= begin);
    let k = block.len() - end.len();
    assert(text::occurs(block, end, k)) by {
        assert(block.subrange(k, k + end.len()) =~= end);
    }
    assert forall|j: int| 0 <= j < k implies !#[trigger] text::occurs(block, end, j) by {
        lemma_no_early_end(begin, middle, end, j);
    }
    text::lemma_first_at(block, end, k);
}

proof fn lemma_block_trimmed(front: Seq<char>, end: Seq<char>)
    requires
        end.len() > 0,
        !text::whitespace(end[end.len() - 1]),
    ensures
        text::trimmed_end(front + end + "\n"@) == front + end,
{
    reveal_strlit("\n");
    let block = front + end;
    let whole = block + "\n"@;
    assert(whole.take(whole.len() - 1) =~= block);
    assert(block[block.len() - 1] == end[end.len() - 1]);
    assert(text::trimmed_end(block) == block);
}

proof fn lemma_no_early_end(begin: Seq<char>, middle: Seq<char>, end: Seq<char>, j: int)
    requires
        is_marker(begin),
        is_marker(end),
        begin[2] != end[2],
        without_hash(middle),
        0 <= j < begin.len() + middle.len(),
    ensures
        !text::occurs(begin + middle + end, end, j),
{
    let block = begin + middle + end;
    if text::occurs(block, end, j) {
        assert(block.subrange(j, j + end.len())[0] == block[j]);
        assert(block[j] == '#');
        if j == 0 {
            assert(block.subrange(j, j + end.len())[2] == block[2]);
            assert(block[2] == begin[2]);
        } else if j < begin.len() {
            assert(block[j] == begin[j]);
        } else {
            assert(block[j] == middle[j - begin.len()]);
        }
    }
}

proof fn lemma_markers()
    ensures
        is_marker(codex::ROOT_BEGIN@),
        is_marker(codex::ROOT_END@),
        is_marker(codex::PROVIDER_BEGIN@),
        is_marker(codex::PROVIDER_END@),
        codex::ROOT_BEGIN@[2] != codex::ROOT_END@[2],
        codex::PROVIDER_BEGIN@[2] != codex::PROVIDER_END@[2],
{
    reveal_strlit("# BEGIN model-toolcall-adapter root");
    reveal_strlit("# END model-toolcall-adapter root");
    reveal_strlit("# BEGIN model-toolcall-adapter provider");
    reveal_strlit("# END model-toolcall-adapter provider");
}

/// The adapter's own blocks hold their markers where they should.
proof fn lemma_blocks_marked(provider: Seq<char>, model: Seq<char>, base_url: Seq<char>)
    requires
        without_hash(provider),
        without_hash(model),
        without_hash(base_url),
    ensures
        well_marked(
            text::trimmed_end(codex::root_block(provider, model)),
            codex::ROOT_BEGIN@,
            codex::ROOT_END@,
        ),
        well_marked(
            text::trimmed_end(codex::provider_block(provider, base_url)),
            codex::PROVIDER_BEGIN@,
            codex::PROVIDER_END@,
        ),
        is_block(
            text::trimmed_end(codex::root_block(provider, model)),
            codex::ROOT_BEGIN@,
            codex::ROOT_END@,
        ),
        is_block(
            text::trimmed_end(codex::provider_block(provider, base_url)),
            codex::PROVIDER_BEGIN@,
            codex::PROVIDER_END@,
        ),
{
    reveal_strlit("\nmodel_provider = \"");
    reveal_strlit("\"\nmodel = \"");
    reveal_strlit("\"\nreview_model = \"");
    reveal_strlit(
        "\"\nmodel_reasoning_effort = \"xhigh\"\ndisable_response_storage = true\nnetwork_access = \"enabled\"\nmodel_context_window = 1000000\nmodel_auto_compact_token_limit = 900000\n",
    );
    reveal_strlit("\n[model_providers.");
    reveal_strlit("]\nname = \"");
    reveal_strlit("\"\nbase_url = \"");
    reveal_strlit("\"\nwire_api = \"responses\"\nrequires_openai_auth = true\n");
    lemma_markers();
    let root_middle = "\nmodel_provider = \""@ + provider + "\"\nmodel = \""@ + model
        + "\"\nreview_model = \""@ + model
        + "\"\nmodel_reasoning_effort = \"xhigh\"\ndisable_response_storage = true\nnetwork_access = \"enabled\"\nmodel_context_window = 1000000\nmodel_auto_compact_token_limit = 900000\n"@;
    lemma_marked(codex::ROOT_BEGIN@, root_middle, codex::ROOT_END@);
    assert(codex::root_block(provider, model) =~= codex::ROOT_BEGIN@ + root_middle
        + codex::ROOT_END@ + "\n"@);
    let provider_middle = "\n[model_providers."@ + provider + "]\nname = \""@ + provider
        + "\"\nbase_url = \""@ + base_url
        + "\"\nwire_api = \"responses\"\nrequires_openai_auth = true\n"@;
    lemma_marked(codex::PROVIDER_BEGIN@, provider_middle, codex::PROVIDER_END@);
    assert(codex::provider_block(provider, base_url) =~= codex::PROVIDER_BEGIN@ + provider_middle
        + codex::PROVIDER_END@ + "\n"@);
}

// ---------------------------------------------------------------------------
// What is left of a config that no setup has touched
// ---------------------------------------------------------------------------

/// Whether a line ends with a carriage return.
spec fn ends_return(line: Seq<char>) -> bool {
    line.len() > 0 && line[line.len() - 1] == '\r'
}

/// Of the lines of a text without a doubled carriage return before a line feed, only the
/// last can end with one.
proof fn lemma_lines_returns(s: Seq<char>)
    requires
        !text::has(s, "\r\r\n"@),
    ensures
        forall|i: int|
            0 <= i < text::lines(s).len() - 1 ==> !ends_return(#[trigger] text::lines(s)[i]),
    decreases s.len(),
{
    reveal_strlit("\r\r\n");
    if s.len() > 0 {
        text::lemma_class_from(s, CharClass::Only('\n'), 0);
        if let Some(k) = text::class_from(s, CharClass::Only('\n'), 0) {
            let whole = s.take(k);
            let first = text::without_return(whole);
            let rest = s.skip(k + 1);
            let lines = text::lines(s);
            assert(lines == seq![first] + text::lines(rest));
            assert(!ends_return(first)) by {
                if ends_return(first) {
                    if whole[k - 1] == '\r' {
                        assert(first == whole.take(k - 1));
                        assert(s.subrange(k - 2, k + 1) =~= "\r\r\n"@);
                        assert(text::occurs(s, "\r\r\n"@, k - 2));
                    }
                }
            }
            assert(!text::has(rest, "\r\r\n"@)) by {
                if text::has(rest, "\r\r\n"@) {
                    assert(rest =~= s.subrange(k + 1, s.len() as int));
                    text::lemma_has_part(s, k + 1, s.len() as int, "\r\r\n"@);
                }
            }
            lemma_lines_returns(rest);
            assert forall|i: int| 0 <= i < lines.len() - 1 implies !ends_return(
                #[trigger] lines[i],
            ) by {
                if i > 0 {
                    assert(lines[i] == text::lines(rest)[i - 1]);
                }
            }
        }
    }
}

/// A line that is kept is one of the lines.
proof fn lemma_kept_among(lines: Seq<Seq<char>>, i: int) -> (j: int)
    requires
        0 <= i < codex::kept_lines(lines).len(),
    ensures
        0 <= j < lines.len(),
        lines[j] == codex::kept_lines(lines)[i],
    decreases lines.len(),
{
    let n = lines.len() - 1;
    let before = lines.take(n);
    if i < codex::kept_lines(before).len() {
        let j = lemma_kept_among(before, i);
        assert(before[j] == lines[j]);
        j
    } else {
        n
    }
}

/// Of the lines that are kept, only the last can end with a carriage return.
proof fn lemma_kept_returns(lines: Seq<Seq<char>>)
    requires
        forall|i: int| 0 <= i < lines.len() - 1 ==> !ends_return(#[trigger] lines[i]),
    ensures
        forall|i: int|
            0 <= i < codex::kept_lines(lines).len() - 1 ==> !ends_return(
                #[trigger] codex::kept_lines(lines)[i],
            ),
{
    let kept = codex::kept_lines(lines);
    if lines.len() > 0 {
        let n = lines.len() - 1;
        let before = lines.take(n);
        assert forall|i: int| 0 <= i < kept.len() - 1 implies !ends_return(#[trigger] kept[i]) by {
            assert(kept[i] == codex::kept_lines(before)[i]);
            let j = lemma_kept_among(before, i);
            assert(before[j] == lines[j]);
        }
    }
}

/// Lines of which only the last can end with a carriage return hold none before a line
/// feed once they are joined.
proof fn lemma_joined_returns(lines: Seq<Seq<char>>)
    requires
        forall|i: int| 0 <= i < lines.len() ==> one_line(#[trigger] lines[i]),
        forall|i: int| 0 <= i < lines.len() - 1 ==> !ends_return(#[trigger] lines[i]),
    ensures
        !text::has(text::joined(lines, "\n"@), "\r\n"@),
    decreases lines.len(),
{
    reveal_strlit("\n");
    reveal_strlit("\r\n");
    let whole = text::joined(lines, "\n"@);
    if text::has(whole, "\r\n"@) {
        let k = choose|k: int| text::occurs(whole, "\r\n"@, k);
        assert(whole.subrange(k, k + 2)[0] == whole[k]);
        assert(whole.subrange(k, k + 2)[1] == whole[k + 1]);
        if lines.len() > 1 {
            let n = lines.len() - 1;
            let before = lines.take(n);
            let head = text::joined(before, "\n"@);
            let last = lines[n];
            assert forall|i: int| 0 <= i < before.len() implies one_line(#[trigger] before[i]) by {
                assert(before[i] == lines[i]);
            }
            assert forall|i: int| 0 <= i < before.len() - 1 implies !ends_return(
                #[trigger] before[i],
            ) by {
                assert(before[i] == lines[i]);
            }
            lemma_joined_returns(before);
            if k + 1 < head.len() {
                assert(head.subrange(k, k + 2) =~= whole.subrange(k, k + 2));
                assert(text::occurs(head, "\r\n"@, k));
            } else if k + 1 == head.len() {
                assert(head[k] == '\r');
                lemma_joined_end(before);
                assert(before[n - 1] == lines[n - 1]);
            } else {
                assert(one_line(lines[n]));
                assert(whole[k + 1] == last[k + 1 - head.len() - 1]);
            }
        } else {
            assert(one_line(lines[0]));
        }
    }
}

/// Lines that were joined end with a carriage return only if the last of them does.
proof fn lemma_joined_end(lines: Seq<Seq<char>>)
    requires
        lines.len() > 0,
    ensures
        ends_return(text::joined(lines, "\n"@)) ==> ends_return(lines[lines.len() - 1]),
{
    reveal_strlit("\n");
    let whole = text::joined(lines, "\n"@);
    let last = lines[lines.len() - 1];
    if lines.len() > 1 && last.len() > 0 {
        assert(whole[whole.len() - 1] == last[last.len() - 1]);
    }
}

/// A text of one line that stands in lines that were joined stands in one of them.
proof fn lemma_joined_line(lines: Seq<Seq<char>>, p: Seq<char>) -> (i: int)
    requires
        p.len() > 0,
        one_line(p),
        text::has(text::joined(lines, "\n"@), p),
    ensures
        0 <= i < lines.len(),
        text::has(lines[i], p),
    decreases lines.len(),
{
    reveal_strlit("\n");
    if lines.len() == 0 {
        let k = choose|k: int| text::occurs(text::joined(lines, "\n"@), p, k);
        0
    } else if lines.len() == 1 {
        0
    } else {
        let n = lines.len() - 1;
        let before = lines.take(n);
        let head = text::joined(before, "\n"@);
        assert("\n"@ =~= seq!['\n']);
        text::lemma_has_split(head, '\n', lines[n], p);
        if text::has(lines[n], p) {
            n
        } else {
            let i = lemma_joined_line(before, p);
            assert(before[i] == lines[i]);
            i
        }
    }
}

/// What stands in a line of a text stands in the text.
proof fn lemma_line_has(s: Seq<char>, i: int, p: Seq<char>)
    requires
        0 <= i < text::lines(s).len(),
        text::has(text::lines(s)[i], p),
    ensures
        text::has(s, p),
    decreases s.len(),
{
    text::lemma_class_from(s, CharClass::Only('\n'), 0);
    match text::class_from(s, CharClass::Only('\n'), 0) {
        None => {},
        Some(k) => {
            let whole = s.take(k);
            let rest = s.skip(k + 1);
            if i == 0 {
                let to = text::without_return(whole).len() as int;
                assert(text::without_return(whole) =~= s.subrange(0, to));
                text::lemma_has_part(s, 0, to, p);
            } else {
                lemma_line_has(rest, i - 1, p);
                assert(rest =~= s.subrange(k + 1, s.len() as int));
                text::lemma_has_part(s, k + 1, s.len() as int, p);
            }
        },
    }
}

/// What is left of a config without the adapter's markers holds none either, and no
/// carriage return before a line feed if the config has no doubled one.
proof fn lemma_own_config_clean(existing: Seq<char>)
    requires
        !text::has(existing, codex::ROOT_BEGIN@),
        !text::has(existing, codex::PROVIDER_BEGIN@),
        !text::has(existing, "\r\r\n"@),
    ensures
        !text::has(codex::own_config(existing), codex::ROOT_BEGIN@),
        !text::has(codex::own_config(existing), codex::PROVIDER_BEGIN@),
        !text::has(codex::own_config(existing), "\r\n"@),
{
    let lines = text::lines(existing);
    let kept = codex::kept_lines(lines);
    let left = text::joined(kept, "\n"@);
    text::lemma_has_first(existing, codex::ROOT_BEGIN@);
    text::lemma_has_first(existing, codex::PROVIDER_BEGIN@);
    assert(codex::own_config(existing) == text::trimmed(left));
    lemma_markers();
    lemma_marker_lines();
    if text::has(text::trimmed(left), codex::ROOT_BEGIN@) {
        text::lemma_has_trimmed(left, codex::ROOT_BEGIN@);
        let i = lemma_joined_line(kept, codex::ROOT_BEGIN@);
        let j = lemma_kept_among(lines, i);
        lemma_line_has(existing, j, codex::ROOT_BEGIN@);
    }
    if text::has(text::trimmed(left), codex::PROVIDER_BEGIN@) {
        text::lemma_has_trimmed(left, codex::PROVIDER_BEGIN@);
        let i = lemma_joined_line(kept, codex::PROVIDER_BEGIN@);
        let j = lemma_kept_among(lines, i);
        lemma_line_has(existing, j, codex::PROVIDER_BEGIN@);
    }
    assert forall|i: int| 0 <= i < lines.len() implies one_line(#[trigger] lines[i]) by {
        lemma_lines_are_single(existing, i);
    }
    lemma_kept_are_single(lines);
    lemma_lines_returns(existing);
    lemma_kept_returns(lines);
    lemma_joined_returns(kept);
    if text::has(text::trimmed(left), "\r\n"@) {
        text::lemma_has_trimmed(left, "\r\n"@);
    }
}

proof fn lemma_marker_lines()
    ensures
        one_line(codex::ROOT_BEGIN@),
        one_line(codex::PROVIDER_BEGIN@),
        codex::ROOT_BEGIN@.len() > 31,
        codex::PROVIDER_BEGIN@.len() > 31,
        codex::ROOT_BEGIN@[31] != codex::PROVIDER_BEGIN@[31],
        codex::ROOT_BEGIN@[2] != codex::PROVIDER_END@[2],
        codex::PROVIDER_BEGIN@[2] != codex::ROOT_END@[2],
{
    reveal_strlit("# BEGIN model-toolcall-adapter root");
    reveal_strlit("# END model-toolcall-adapter root");
    reveal_strlit("# BEGIN model-toolcall-adapter provider");
    reveal_strlit("# END model-toolcall-adapter provider");
}

// ---------------------------------------------------------------------------
// Each block stands once
// ---------------------------------------------------------------------------

/// Whether `p` stands at one place of `s`, and at no other.
pub open spec fn stands_once(s: Seq<char>, p: Seq<char>) -> bool {
    exists|i: int|
        #[trigger] text::occurs(s, p, i) && forall|j: int| #[trigger]
            text::occurs(s, p, j) ==> j == i
}

/// Whether a text is a block between these markers that holds no other.
spec fn is_block(block: Seq<char>, begin: Seq<char>, end: Seq<char>) -> bool {
    exists|middle: Seq<char>| without_hash(middle) && block == #[trigger] (begin + middle + end)
}

/// A marker that differs from the one at the end of a block stands only at its start.
proof fn lemma_block_markers(
    block: Seq<char>,
    begin: Seq<char>,
    end: Seq<char>,
    p: Seq<char>,
    i: int,
)
    requires
        is_block(block, begin, end),
        is_marker(begin),
        is_marker(end),
        is_marker(p),
        p[2] != end[2],
        text::occurs(block, p, i),
    ensures
        i == 0,
{
    let middle = choose|middle: Seq<char>|
        without_hash(middle) && block == #[trigger] (begin + middle + end);
    let k = begin.len() + middle.len();
    assert(block.subrange(i, i + p.len())[0] == block[i]);
    assert(block.subrange(i, i + p.len())[2] == block[i + 2]);
    assert(block[i] == '#');
    if 0 < i < begin.len() {
        assert(block[i] == begin[i]);
    } else if begin.len() <= i < k {
        assert(block[i] == middle[i - begin.len()]);
    } else if i > k {
        assert(block[i] == end[i - k]);
    } else if i == k {
        assert(block[i + 2] == end[2]);
    }
}

/// The marker of another block does not stand in a block.
proof fn lemma_other_marker(block: Seq<char>, begin: Seq<char>, end: Seq<char>, p: Seq<char>)
    requires
        is_block(block, begin, end),
        is_marker(begin),
        is_marker(end),
        is_marker(p),
        p[2] != end[2],
        p.len() > 31,
        begin.len() > 31,
        p[31] != begin[31],
    ensures
        !text::has(block, p),
{
    if text::has(block, p) {
        let i = choose|i: int| text::occurs(block, p, i);
        lemma_block_markers(block, begin, end, p, i);
        assert(block.subrange(0, p.len() as int)[31] == block[31]);
        let middle = choose|middle: Seq<char>|
            without_hash(middle) && block == #[trigger] (begin + middle + end);
        assert(block[31] == begin[31]);
    }
}

/// A block stands where its begin marker does, and so as often.
proof fn lemma_block_once(s: Seq<char>, block: Seq<char>, begin: Seq<char>, at: int)
    requires
        text::begins(block, begin),
        text::occurs(s, block, at),
        forall|j: int| #[trigger] text::occurs(s, begin, j) ==> j == at,
    ensures
        stands_once(s, block),
        stands_once(s, begin),
{
    assert forall|j: int| #[trigger] text::occurs(s, block, j) implies text::occurs(s, begin, j) by {
        assert(s.subrange(j, j + begin.len()) =~= s.subrange(j, j + block.len()).take(
            begin.len() as int,
        ));
    }
    assert(text::occurs(s, begin, at));
}

/// What `p` stands in of a text that is followed by an empty line and another.
proof fn lemma_occurs_apart(x: Seq<char>, y: Seq<char>, p: Seq<char>, i: int)
    requires
        p.len() > 0,
        one_line(p),
        text::occurs(x + "\n\n"@ + y, p, i),
    ensures
        text::occurs(x, p, i) || text::occurs(y, p, i - x.len() - 2),
{
    reveal_strlit("\n\n");
    let none = Seq::<char>::empty();
    let rest = none + seq!['\n'] + y;
    assert(x + "\n\n"@ + y =~= x + seq!['\n'] + rest);
    text::lemma_occurs_split(x, '\n', rest, p, i);
    if !text::occurs(x, p, i) {
        text::lemma_occurs_split(none, '\n', y, p, i - x.len() - 1);
    }
}

/// In a config that is set up, each of the adapter's blocks and begin markers stands once.
proof fn lemma_stand_once(body: Seq<char>, root: Seq<char>, provider: Seq<char>)
    requires
        is_block(root, codex::ROOT_BEGIN@, codex::ROOT_END@),
        is_block(provider, codex::PROVIDER_BEGIN@, codex::PROVIDER_END@),
        !text::has(body, codex::ROOT_BEGIN@),
        !text::has(body, codex::PROVIDER_BEGIN@),
    ensures
        ({
            let head = if body.len() == 0 {
                body
            } else {
                body + "\n\n"@
            };
            let s = root + "\n\n"@ + (head + provider + "\n"@);
            &&& stands_once(s, root)
            &&& stands_once(s, provider)
            &&& stands_once(s, codex::ROOT_BEGIN@)
            &&& stands_once(s, codex::PROVIDER_BEGIN@)
        }),
{
    reveal_strlit("\n");
    let head = if body.len() == 0 {
        body
    } else {
        body + "\n\n"@
    };
    let tail = provider + "\n"@;
    let behind = head + provider + "\n"@;
    let s = root + "\n\n"@ + behind;
    let a = codex::ROOT_BEGIN@;
    let b = codex::PROVIDER_BEGIN@;
    let at = (root.len() + "\n\n"@.len() + head.len()) as int;
    let none = Seq::<char>::empty();
    lemma_markers();
    lemma_marker_lines();
    lemma_block_begins(root, a, codex::ROOT_END@);
    lemma_block_begins(provider, b, codex::PROVIDER_END@);
    lemma_other_marker(root, a, codex::ROOT_END@, b);
    lemma_other_marker(provider, b, codex::PROVIDER_END@, a);
    assert(tail =~= provider + seq!['\n'] + none);
    assert(behind =~= head + tail);
    assert forall|j: int, p: Seq<char>|
        (p == a || p == b) && #[trigger] text::occurs(s, p, j) implies text::occurs(root, p, j) || (
    text::occurs(provider, p, j - at)) by {
        reveal_strlit("\n\n");
        lemma_occurs_apart(root, behind, p, j);
        if !text::occurs(root, p, j) {
            let k = j - root.len() - 2;
            if body.len() == 0 {
                assert(behind =~= tail);
            } else {
                assert(behind =~= body + "\n\n"@ + tail);
                lemma_occurs_apart(body, tail, p, k);
                assert(!text::occurs(body, p, k));
            }
            let m = j - at;
            assert(text::occurs(tail, p, m));
            text::lemma_occurs_split(provider, '\n', none, p, m);
        }
    }
    assert forall|j: int| #[trigger] text::occurs(s, a, j) implies j == 0 by {
        assert(!text::occurs(provider, a, j - at));
        lemma_block_markers(root, a, codex::ROOT_END@, a, j);
    }
    assert forall|j: int| #[trigger] text::occurs(s, b, j) implies j == at by {
        assert(!text::occurs(root, b, j));
        lemma_block_markers(provider, b, codex::PROVIDER_END@, b, j - at);
    }
    assert(s.subrange(0, root.len() as int) =~= root);
    assert(s.subrange(at, at + provider.len()) =~= provider);
    lemma_block_once(s, root, a, 0);
    lemma_block_once(s, provider, b, at);
}

proof fn lemma_block_begins(block: Seq<char>, begin: Seq<char>, end: Seq<char>)
    requires
        is_block(block, begin, end),
    ensures
        text::begins(block, begin),
{
    let middle = choose|middle: Seq<char>|
        without_hash(middle) && block == #[trigger] (begin + middle + end);
    assert(block.take(begin.len() as int) =~= begin);
}

/// Setting up Codex again for the same provider, model and address changes nothing, and
/// setting it up with other blocks comes to the same as if it had not been set up before.
/// The provider, model and address must hold no `#`, and the config none of the adapter's
/// begin markers and no doubled carriage return before a line feed.
pub proof fn lemma_codex_set_up_again(
    existing: Seq<char>,
    provider: Seq<char>,
    model: Seq<char>,
    base_url: Seq<char>,
    next_root: Seq<char>,
    next_provider: Seq<char>,
)
    requires
        without_hash(provider),
        without_hash(model),
        without_hash(base_url),
        !text::has(existing, codex::ROOT_BEGIN@),
        !text::has(existing, codex::PROVIDER_BEGIN@),
        !text::has(existing, "\r\r\n"@),
    ensures
        ({
            let root = codex::root_block(provider, model);
            let block = codex::provider_block(provider, base_url);
            let next = codex::with_blocks(existing, root, block);
            &&& codex::with_blocks(next, root, block) == next
            &&& codex::with_blocks(next, next_root, next_provider) == codex::with_blocks(
                existing,
                next_root,
                next_provider,
            )
        }),
{
    let root = codex::root_block(provider, model);
    let block = codex::provider_block(provider, base_url);
    lemma_blocks_marked(provider, model, base_url);
    lemma_own_config_clean(existing);
    lemma_set_up_again(existing, root, block, root, block);
    lemma_set_up_again(existing, root, block, next_root, next_provider);
}

/// In a config that is set up, each of the adapter's blocks stands exactly once, and so
/// does each begin marker.
pub proof fn lemma_codex_blocks_once(
    existing: Seq<char>,
    provider: Seq<char>,
    model: Seq<char>,
    base_url: Seq<char>,
)
    requires
        without_hash(provider),
        without_hash(model),
        without_hash(base_url),
        !text::has(existing, codex::ROOT_BEGIN@),
        !text::has(existing, codex::PROVIDER_BEGIN@),
        !text::has(existing, "\r\r\n"@),
    ensures
        ({
            let root = codex::root_block(provider, model);
            let block = codex::provider_block(provider, base_url);
            let next = codex::with_blocks(existing, root, block);
            &&& stands_once(next, text::trimmed_end(root))
            &&& stands_once(next, text::trimmed_end(block))
            &&& stands_once(next, codex::ROOT_BEGIN@)
            &&& stands_once(next, codex::PROVIDER_BEGIN@)
        }),
{
    let root = codex::root_block(provider, model);
    let block = codex::provider_block(provider, base_url);
    let body = codex::own_config(existing);
    let next = codex::with_blocks(existing, root, block);
    let r = text::trimmed_end(root);
    let p = text::trimmed_end(block);
    let head = if body.len() == 0 {
        body
    } else {
        body + "\n\n"@
    };
    lemma_blocks_marked(provider, model, base_url);
    lemma_own_config_clean(existing);
    lemma_stand_once(body, r, p);
    assert(next =~= r + "\n\n"@ + (head + p + "\n"@));
}

} // verus!
