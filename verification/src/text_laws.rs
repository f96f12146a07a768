//! What holds of text: what trimming, case folding, joining, splitting into lines and
//! writing numbers do to it.
use vstd::prelude::*;

use crate::text;
use crate::text::CharClass;

verus! {

/// In ASCII, the space and the five control characters from the tab to the carriage return
/// are white space, and nothing else is.
pub proof fn lemma_white_space(c: char)
    requires
        c <= '\u{7f}',
    ensures
        text::whitespace(c) <==> (c == ' ' || c == '\t' || c == '\n' || c == '\u{b}' || c
            == '\u{c}' || c == '\r'),
{
}

/// How far the characters of a class reach at the front.
pub proof fn lemma_front(s: Seq<char>, class: CharClass) -> (i: int)
    ensures
        0 <= i <= s.len(),
        text::dropped_front(s, class) == s.skip(i),
        forall|k: int| 0 <= k < i ==> class.holds(#[trigger] s[k]),
        i < s.len() ==> !class.holds(s[i]),
    decreases s.len(),
{
    if s.len() > 0 && class.holds(s[0]) {
        let rest = s.skip(1);
        let i = lemma_front(rest, class);
        assert(rest.skip(i) =~= s.skip(i + 1));
        assert forall|k: int| 0 <= k < i + 1 implies class.holds(#[trigger] s[k]) by {
            if k > 0 {
                assert(rest[k - 1] == s[k]);
            }
        }
        i + 1
    } else {
        assert(s.skip(0) =~= s);
        0
    }
}

/// How far the characters of a class reach at the back.
pub proof fn lemma_back(s: Seq<char>, class: CharClass) -> (j: int)
    ensures
        0 <= j <= s.len(),
        text::dropped_back(s, class) == s.take(j),
        forall|k: int| j <= k < s.len() ==> class.holds(#[trigger] s[k]),
        j > 0 ==> !class.holds(s[j - 1]),
    decreases s.len(),
{
    if s.len() > 0 && class.holds(s[s.len() - 1]) {
        let rest = s.take(s.len() - 1);
        let j = lemma_back(rest, class);
        assert(rest.take(j) =~= s.take(j));
        assert forall|k: int| j <= k < s.len() implies class.holds(#[trigger] s[k]) by {
            if k < s.len() - 1 {
                assert(rest[k] == s[k]);
            }
        }
        if j > 0 {
            assert(rest[j - 1] == s[j - 1]);
        }
        j
    } else {
        assert(s.take(s.len() as int) =~= s);
        s.len() as int
    }
}

/// Characters of a class behind a text that does not end with one are all that is taken off
/// its end.
pub proof fn lemma_back_of(s: Seq<char>, tail: Seq<char>, class: CharClass)
    requires
        forall|k: int| 0 <= k < tail.len() ==> class.holds(#[trigger] tail[k]),
        s.len() > 0 ==> !class.holds(s[s.len() - 1]),
    ensures
        text::dropped_back(s + tail, class) == s,
{
    let all = s + tail;
    let j = lemma_back(all, class);
    if j > s.len() {
        assert(all[j - 1] == tail[j - 1 - s.len()]);
    }
    if j < s.len() {
        assert(class.holds(all[s.len() - 1]));
        assert(all[s.len() - 1] == s[s.len() - 1]);
    }
    assert(all.take(j) =~= s);
}

/// Characters of a class before a text that does not begin with one are all that is taken
/// off its front.
pub proof fn lemma_front_of(head: Seq<char>, s: Seq<char>, class: CharClass)
    requires
        forall|k: int| 0 <= k < head.len() ==> class.holds(#[trigger] head[k]),
        s.len() > 0 ==> !class.holds(s[0]),
    ensures
        text::dropped_front(head + s, class) == s,
{
    let all = head + s;
    let i = lemma_front(all, class);
    if i < head.len() {
        assert(all[i] == head[i]);
    }
    if i > head.len() {
        assert(class.holds(all[head.len() as int]));
        assert(all[head.len() as int] == s[0]);
    }
    assert(all.skip(i) =~= s);
}

/// White space round a text that neither begins nor ends with any is all that trimming
/// takes off.
pub proof fn lemma_trims(head: Seq<char>, s: Seq<char>, tail: Seq<char>)
    requires
        forall|k: int| 0 <= k < head.len() ==> text::whitespace(#[trigger] head[k]),
        forall|k: int| 0 <= k < tail.len() ==> text::whitespace(#[trigger] tail[k]),
        s.len() > 0 ==> !text::whitespace(s[0]) && !text::whitespace(s[s.len() - 1]),
    ensures
        text::trimmed(head + s + tail) == s,
        text::blank(head + tail),
        text::trimmed(s) == s,
{
    let class = CharClass::Whitespace;
    let none = Seq::<char>::empty();
    let spaces = head + tail;
    assert forall|k: int| 0 <= k < spaces.len() implies class.holds(#[trigger] spaces[k]) by {
        if k >= head.len() {
            assert(spaces[k] == tail[k - head.len()]);
        } else {
            assert(spaces[k] == head[k]);
        }
    }
    lemma_front_of(spaces, none, class);
    assert(spaces + none =~= spaces);
    lemma_back_of(none, none, class);
    assert(none + none =~= none);
    if s.len() > 0 {
        assert(head + s + tail =~= head + (s + tail));
        assert((s + tail)[0] == s[0]);
        lemma_front_of(head, s + tail, class);
        lemma_back_of(s, tail, class);
        lemma_front_of(none, s, class);
        assert(none + s =~= s);
        lemma_back_of(s, none, class);
        assert(s + none =~= s);
    } else {
        assert(head + s + tail =~= spaces);
        assert(s =~= none);
    }
}

/// Making a text small turns its capitals of ASCII into the letters that stand 32 places
/// behind them, making it large does the reverse, and neither touches anything else.
pub proof fn lemma_case(s: Seq<char>, i: int)
    requires
        0 <= i < s.len(),
    ensures
        text::lowered(s).len() == s.len(),
        text::uppered(s).len() == s.len(),
        'A' <= s[i] <= 'Z' ==> text::lowered(s)[i] as int == s[i] as int + 32 && text::uppered(
            s,
        )[i] == s[i],
        'a' <= s[i] <= 'z' ==> text::uppered(s)[i] as int == s[i] as int - 32 && text::lowered(
            s,
        )[i] == s[i],
        s[i] < 'A' || 'Z' < s[i] < 'a' || 'z' < s[i] ==> text::lowered(s)[i] == s[i]
            && text::uppered(s)[i] == s[i],
{
}

/// Two texts of which one is the other made small or large are the same but for case.
pub proof fn lemma_same_but_for_case(s: Seq<char>)
    ensures
        text::same_ignoring_case(s, text::lowered(s)),
        text::same_ignoring_case(s, text::uppered(s)),
{
    assert(text::lowered(text::lowered(s)) =~= text::lowered(s)) by {
        assert forall|i: int| 0 <= i < s.len() implies text::lower_char(
            #[trigger] text::lowered(s)[i],
        ) == text::lowered(s)[i] by {
            lemma_case(s, i);
        }
    }
    assert(text::lowered(text::uppered(s)) =~= text::lowered(s)) by {
        assert forall|i: int| 0 <= i < s.len() implies text::lower_char(
            #[trigger] text::uppered(s)[i],
        ) == text::lowered(s)[i] by {
            lemma_case(s, i);
        }
    }
}

/// One more part of a joined text comes behind the separator.
pub proof fn lemma_joined(parts: Seq<Seq<char>>, part: Seq<char>, sep: Seq<char>)
    ensures
        text::joined(Seq::empty(), sep).len() == 0,
        text::joined(seq![part], sep) == part,
        parts.len() > 0 ==> text::joined(parts.push(part), sep) == text::joined(parts, sep) + sep
            + part,
{
    assert(parts.push(part).take(parts.len() as int) =~= parts);
}

/// A line feed ends a line, with a carriage return before it or without, and the rest is
/// split further; what no line feed ends is one line.
pub proof fn lemma_lines(line: Seq<char>, rest: Seq<char>)
    requires
        forall|k: int| 0 <= k < line.len() ==> #[trigger] line[k] != '\n',
        line.len() > 0 ==> line[line.len() - 1] != '\r',
    ensures
        text::lines(line + "\n"@ + rest) == seq![line] + text::lines(rest),
        text::lines(line + "\r\n"@ + rest) == seq![line] + text::lines(rest),
        line.len() > 0 ==> text::lines(line) == seq![line],
        text::lines(Seq::empty()).len() == 0,
{
    reveal_strlit("\n");
    reveal_strlit("\r\n");
    let class = CharClass::Only('\n');
    let n = line.len() as int;
    let a = line + "\n"@ + rest;
    assert(a[n] == '\n');
    assert forall|k: int| 0 <= k < n implies !class.holds(#[trigger] a[k]) by {
        assert(a[k] == line[k]);
    }
    text::lemma_class_at(a, class, n);
    assert(a.take(n) =~= line);
    assert(a.skip(n + 1) =~= rest);
    let b = line + "\r\n"@ + rest;
    assert(b[n] == '\r' && b[n + 1] == '\n');
    assert forall|k: int| 0 <= k < n + 1 implies !class.holds(#[trigger] b[k]) by {
        if k < n {
            assert(b[k] == line[k]);
        }
    }
    text::lemma_class_at(b, class, n + 1);
    assert(b.take(n + 1).take(n) =~= line);
    assert(b.skip(n + 2) =~= rest);
    text::lemma_class_from(line, class, 0);
    if let Some(k) = text::class_from(line, class, 0) {
        assert(line[k] == '\n');
    }
}

/// The number that digits say.
pub open spec fn number(digits: Seq<char>) -> int
    decreases digits.len(),
{
    if digits.len() == 0 {
        0
    } else {
        number(digits.take(digits.len() - 1)) * 10 + (digits[digits.len() - 1] as int - '0' as int)
    }
}

/// What a number is written as says that number, in digits only and without zeros before it.
pub proof fn lemma_decimal(n: nat)
    ensures
        number(text::decimal(n)) == n,
        text::decimal(n).len() > 0,
        forall|k: int| 0 <= k < text::decimal(n).len() ==> '0' <= #[trigger] text::decimal(n)[k]
            <= '9',
        n > 0 ==> text::decimal(n)[0] != '0',
    decreases n,
{
    let s = text::decimal(n);
    if n < 10 {
        assert(s.take(0) =~= Seq::empty());
        assert(number(s.take(0)) == 0);
        assert(s[0] as int == '0' as int + n);
    } else {
        let front = text::decimal(n / 10);
        lemma_decimal(n / 10);
        assert(s.take(s.len() - 1) =~= front);
        assert(s[s.len() - 1] as int == '0' as int + n % 10);
        assert forall|k: int| 0 <= k < s.len() implies '0' <= #[trigger] s[k] <= '9' by {
            if k < s.len() - 1 {
                assert(s[k] == front[k]);
            }
        }
        assert(s[0] == front[0]);
    }
}

/// A suffix is taken off as often as it stands at the end of a text, and nothing else is.
pub proof fn lemma_suffix(s: Seq<char>, p: Seq<char>)
    requires
        p.len() > 0,
    ensures
        text::without_suffix(s + p, p) == text::without_suffix(s, p),
        !text::ends(s, p) ==> text::without_suffix(s, p) == s,
{
    let all = s + p;
    assert(all.skip(all.len() - p.len()) =~= p);
    assert(all.take(all.len() - p.len()) =~= s);
}

/// A character takes one byte up to the end of ASCII, two below the 2^11th, three below the
/// 2^16th, and four from there on, and a text as many as its characters together.
pub proof fn lemma_bytes(s: Seq<char>, c: char)
    ensures
        text::byte_len(Seq::empty()) == 0,
        text::byte_len(s.push(c)) == text::byte_len(s) + text::width(c),
        (c as u32) < 0x80 ==> text::width(c) == 1,
        0x80 <= (c as u32) < 0x800 ==> text::width(c) == 2,
        0x800 <= (c as u32) < 0x1_0000 ==> text::width(c) == 3,
        0x1_0000 <= (c as u32) ==> text::width(c) == 4,
{
    assert(s.push(c) =~= s + seq![c]);
    text::lemma_byte_len_concat(s, seq![c]);
    text::lemma_byte_len_one(c);
}

} // verus!
