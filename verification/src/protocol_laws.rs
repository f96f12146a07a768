//! What holds of reading tool calls: those that are written as the protocol asks are
//! read as they were meant.
use vstd::prelude::*;

use crate::json;
use crate::json::JsonView;
use crate::protocol;
use crate::text;
use crate::text::CharClass;
use crate::types::{CallView, ContentView};

verus! {

/// A tool call as the protocol asks for it: an opening tag of this name with the id and
/// the name, the body, and the closing tag.
pub open spec fn written_call(
    tag_name: Seq<char>,
    id: Seq<char>,
    name: Seq<char>,
    body: Seq<char>,
) -> Seq<char> {
    opening_tag(tag_name, id, name) + body + closing_tag(tag_name)
}

/// The opening tag of a call.
pub open spec fn opening_tag(tag_name: Seq<char>, id: Seq<char>, name: Seq<char>) -> Seq<char> {
    "<"@ + tag_name + " id=\""@ + id + "\" name=\""@ + name + "\">"@
}

/// The closing tag of a call.
pub open spec fn closing_tag(tag_name: Seq<char>) -> Seq<char> {
    "</"@ + tag_name + ">"@
}

/// Whether a text can stand between quotes in a tag.
pub open spec fn quotable(s: Seq<char>) -> bool {
    forall|i: int| 0 <= i < s.len() ==> s[i] != '"' && s[i] != '>'
}

/// The arguments of a call with this body: what the body holds under `arguments`, or else
/// under `args`, or else under `input`, and the whole body if it has none of these.
pub open spec fn meant_arguments(value: JsonView) -> Seq<char> {
    if value.get("arguments"@) is Some {
        json::compact(value.get("arguments"@)->0)
    } else if value.get("args"@) is Some {
        json::compact(value.get("args"@)->0)
    } else if value.get("input"@) is Some {
        json::compact(value.get("input"@)->0)
    } else {
        json::compact(value)
    }
}

/// A call that is read off a value has the arguments that the value gives it under
/// `arguments`, or else under `args`, or else under `input`: by a tag all of the value if
/// it has none of these, and an empty object where the value itself is the call.
pub proof fn lemma_arguments(tag: Seq<char>, value: JsonView, n: nat, given: JsonView)
    requires
        ({
            ||| value.get("arguments"@) == Some(given)
            ||| value.get("arguments"@) is None && value.get("args"@) == Some(given)
            ||| value.get("arguments"@) is None && value.get("args"@) is None && value.get("input"@)
                == Some(given)
        }),
    ensures
        protocol::call_with_value(tag, value, n) matches Some(call) ==> call.arguments
            == json::compact(given),
        value.get("tool_call"@) is None && value.get("toolCall"@) is None && value.get(
            "function_call"@,
        ) is None ==> (protocol::call_in_value(value) matches Some(call) ==> {
            &&& given matches JsonView::Text(raw) ==> call.arguments == raw
            &&& !(given is Text) ==> call.arguments == json::compact(given)
        }),
        protocol::listed_call(value, n) matches Some(call) ==> {
            &&& given matches JsonView::Text(raw) ==> call.arguments == protocol::cleaned(raw)
            &&& !(given is Text) ==> call.arguments == json::compact(given)
        },
{
    lemma_call_keys(value);
}

/// A call without arguments: by a tag it has all of the value as its arguments; as a value
/// of its own, or in a list, an empty object, unless a listed one gives them to its
/// function.
pub proof fn lemma_no_arguments(tag: Seq<char>, value: JsonView, n: nat)
    requires
        value.get("arguments"@) is None,
        value.get("args"@) is None,
        value.get("input"@) is None,
    ensures
        protocol::call_with_value(tag, value, n) matches Some(call) ==> call.arguments
            == json::compact(value),
        value.get("tool_call"@) is None && value.get("toolCall"@) is None && value.get(
            "function_call"@,
        ) is None ==> (protocol::call_in_value(value) matches Some(call) ==> call.arguments
            == json::compact(JsonView::Object(Seq::empty()))),
        protocol::listed_call(value, n) matches Some(call) ==> {
            &&& value.get("function"@) is None ==> call.arguments == json::compact(
                JsonView::Object(Seq::empty()),
            )
            &&& value.get("function"@) matches Some(function) ==> {
                &&& function.get("arguments"@) matches Some(JsonView::Text(raw)) ==> call.arguments
                    == protocol::cleaned(raw)
                &&& function.get("arguments"@) matches Some(given) ==> !(given is Text)
                    ==> call.arguments == json::compact(given)
                &&& function.get("arguments"@) is None ==> call.arguments == json::compact(
                    JsonView::Object(Seq::empty()),
                )
            }
        },
{
    lemma_call_keys(value);
}

/// A value that holds a call under none of the keys for one is itself the call.
proof fn lemma_call_keys(value: JsonView)
    ensures
        protocol::first_member(value, seq!["tool_call"@, "toolCall"@, "function_call"@]) == (
        if value.get("tool_call"@) is Some {
            value.get("tool_call"@)
        } else if value.get("toolCall"@) is Some {
            value.get("toolCall"@)
        } else {
            value.get("function_call"@)
        }),
        protocol::first_member(value, seq!["tool_calls"@, "toolCalls"@, "tools"@]) == (
        if value.get("tool_calls"@) is Some {
            value.get("tool_calls"@)
        } else if value.get("toolCalls"@) is Some {
            value.get("toolCalls"@)
        } else {
            value.get("tools"@)
        }),
{
    reveal_with_fuel(protocol::first_member, 4);
    let one = seq!["tool_call"@, "toolCall"@, "function_call"@];
    assert(one.skip(1)[0] == "toolCall"@ && one.skip(1).skip(1)[0] == "function_call"@);
    let many = seq!["tool_calls"@, "toolCalls"@, "tools"@];
    assert(many.skip(1)[0] == "toolCalls"@ && many.skip(1).skip(1)[0] == "tools"@);
}

/// The name and the id of a call are those that it gives: a tag before the value, a value
/// before the function that it holds. A call without a name is none; one without an id is
/// numbered.
pub proof fn lemma_name_and_id(tag: Seq<char>, value: JsonView, n: nat, s: Seq<char>)
    ensures
        protocol::attribute(tag, "name"@) == Some(s) ==> (protocol::call_with_value(
            tag,
            value,
            n,
        ) matches Some(call) && call.name == s),
        protocol::attribute(tag, "name"@) is None && value.get("name"@) == Some(JsonView::Text(s))
            ==> (protocol::call_with_value(tag, value, n) matches Some(call) && call.name == s),
        protocol::attribute(tag, "name"@) is None && value.get("name"@) is None
            ==> protocol::call_with_value(tag, value, n) is None,
        protocol::call_with_value(tag, value, n) matches Some(call) ==> {
            &&& protocol::attribute(tag, "id"@) matches Some(id) ==> call.id == id
            &&& protocol::attribute(tag, "id"@) is None ==> call.id == "call_"@ + text::decimal(n)
        },
        value.get("name"@) == Some(JsonView::Text(s)) ==> (protocol::listed_call(
            value,
            n,
        ) matches Some(call) && call.name == s),
        value.get("name"@) is None && (value.get("function"@) matches Some(function)
            && function.get("name"@) == Some(JsonView::Text(s))) ==> (protocol::listed_call(
            value,
            n,
        ) matches Some(call) && call.name == s),
        protocol::listed_call(value, n) matches Some(call) ==> {
            &&& value.get("id"@) matches Some(JsonView::Text(id)) ==> call.id == id
            &&& value.get("id"@) is None ==> call.id == "call_"@ + text::decimal(n)
        },
{
}

/// A call alone may stand by itself or under `tool_call`, `toolCall` or `function_call`;
/// it has the name and the id that it gives there, the first id if it gives none.
pub proof fn lemma_lone_call(value: JsonView, call: JsonView, name: Seq<char>)
    requires
        ({
            ||| value.get("tool_call"@) == Some(call)
            ||| value.get("tool_call"@) is None && value.get("toolCall"@) == Some(call)
            ||| value.get("tool_call"@) is None && value.get("toolCall"@) is None && value.get(
                "function_call"@,
            ) == Some(call)
            ||| value.get("tool_call"@) is None && value.get("toolCall"@) is None && value.get(
                "function_call"@,
            ) is None && value == call
        }),
    ensures
        call.get("name"@) == Some(JsonView::Text(name)) ==> (protocol::call_in_value(
            value,
        ) matches Some(made) && {
            &&& made.name == name
            &&& call.get("id"@) matches Some(JsonView::Text(id)) ==> made.id == id
            &&& call.get("id"@) is None ==> made.id == "call_1"@
            &&& call.get("arguments"@) matches Some(JsonView::Text(raw)) ==> made.arguments == raw
            &&& call.get("arguments"@) matches Some(given) ==> !(given is Text) ==> made.arguments
                == json::compact(given)
        }),
        call.get("name"@) is None ==> protocol::call_in_value(value) is None,
{
    lemma_call_keys(value);
}

/// Calls may be listed under `tool_calls`, `toolCalls` or `tools`. Each that has a name is
/// read, in their order, and numbered by its place.
pub proof fn lemma_listed(value: JsonView, items: Seq<JsonView>)
    requires
        ({
            let list = Some(JsonView::Array(items));
            ||| value.get("tool_calls"@) == list
            ||| value.get("tool_calls"@) is None && value.get("toolCalls"@) == list
            ||| value.get("tool_calls"@) is None && value.get("toolCalls"@) is None && value.get(
                "tools"@,
            ) == list
        }),
        forall|i: int|
            0 <= i < items.len() ==> (#[trigger] items[i]).get("name"@) matches Some(
                JsonView::Text(_),
            ),
    ensures
        protocol::calls_in_value(value).len() == items.len(),
        forall|i: int|
            0 <= i < items.len() ==> Some(#[trigger] protocol::calls_in_value(value)[i])
                == protocol::listed_call(items[i], (i + 1) as nat),
{
    lemma_call_keys(value);
    lemma_listed_all(items);
}

proof fn lemma_listed_all(items: Seq<JsonView>)
    requires
        forall|i: int|
            0 <= i < items.len() ==> (#[trigger] items[i]).get("name"@) matches Some(
                JsonView::Text(_),
            ),
    ensures
        protocol::listed_calls(items).len() == items.len(),
        forall|i: int|
            0 <= i < items.len() ==> Some(#[trigger] protocol::listed_calls(items)[i])
                == protocol::listed_call(items[i], (i + 1) as nat),
    decreases items.len(),
{
    if items.len() > 0 {
        let n = items.len() - 1;
        let before = items.take(n);
        assert forall|i: int| 0 <= i < before.len() implies (#[trigger] before[i]).get(
            "name"@,
        ) matches Some(JsonView::Text(_)) by {
            assert(before[i] == items[i]);
        }
        lemma_listed_all(before);
        assert(items[n].get("name"@) matches Some(JsonView::Text(_)));
        let all = protocol::listed_calls(items);
        let earlier = protocol::listed_calls(before);
        assert forall|i: int| 0 <= i < items.len() implies Some(#[trigger] all[i])
            == protocol::listed_call(items[i], (i + 1) as nat) by {
            if i < n {
                assert(all[i] == earlier[i]);
                assert(before[i] == items[i]);
            }
        }
    }
}

/// A text without white space at its ends is not trimmed.
proof fn lemma_trimmed_solid(s: Seq<char>)
    requires
        s.len() > 0,
        !text::whitespace(s[0]),
        !text::whitespace(s[s.len() - 1]),
    ensures
        text::trimmed_start(s) == s,
        text::trimmed_end(s) == s,
        text::trimmed(s) == s,
{
}

/// Where no opening tag stands before an index, none is found before it.
proof fn lemma_open_not_before(s: Seq<char>, tags: Seq<(Seq<char>, Seq<char>)>, k: int)
    requires
        forall|t: int, i: int|
            0 <= t < tags.len() && 0 <= i < k ==> !#[trigger] text::occurs(s, tags[t].0, i),
    ensures
        protocol::first_open(s, tags) matches Some((i, _)) ==> k <= i,
    decreases tags.len(),
{
    if tags.len() > 0 {
        let n = tags.len() - 1;
        let before = tags.take(n);
        assert forall|t: int, i: int| 0 <= t < before.len() && 0 <= i < k implies !#[trigger] text::occurs(
            s,
            before[t].0,
            i,
        ) by {
            assert(before[t] == tags[t]);
        }
        lemma_open_not_before(s, before, k);
        text::lemma_first_from(s, tags[n].0, 0);
        if let Some(i) = text::first(s, tags[n].0) {
            assert(text::occurs(s, tags[n].0, i));
        }
    }
}

/// Of the opening tags the one that stands first is found, the first listed of those that
/// stand there.
proof fn lemma_open_at(s: Seq<char>, tags: Seq<(Seq<char>, Seq<char>)>, which: int, k: int)
    requires
        0 <= which < tags.len(),
        0 <= k,
        text::occurs(s, tags[which].0, k),
        forall|t: int| 0 <= t < which ==> !text::occurs(s, (#[trigger] tags[t]).0, k),
        forall|t: int, i: int|
            0 <= t < tags.len() && 0 <= i < k ==> !#[trigger] text::occurs(s, tags[t].0, i),
    ensures
        protocol::first_open(s, tags) == Some((k, tags[which].1)),
    decreases tags.len(),
{
    let n = tags.len() - 1;
    let before = tags.take(n);
    assert forall|t: int, i: int| 0 <= t < before.len() && 0 <= i < k implies !#[trigger] text::occurs(
        s,
        before[t].0,
        i,
    ) by {
        assert(before[t] == tags[t]);
    }
    text::lemma_first_from(s, tags[n].0, 0);
    if which < n {
        assert forall|t: int| 0 <= t < which implies !text::occurs(s, (#[trigger] before[t]).0, k) by {
            assert(before[t] == tags[t]);
        }
        assert(before[which] == tags[which]);
        lemma_open_at(s, before, which, k);
        if let Some(i) = text::first(s, tags[n].0) {
            assert(text::occurs(s, tags[n].0, i));
        }
    } else {
        assert forall|j: int| 0 <= j < k implies !#[trigger] text::occurs(s, tags[n].0, j) by {}
        text::lemma_first_at(s, tags[n].0, k);
        assert forall|t: int, i: int|
            0 <= t < before.len() && 0 <= i < k + 1 implies !#[trigger] text::occurs(
            s,
            before[t].0,
            i,
        ) by {
            assert(before[t] == tags[t]);
            if i == k {
                assert(!text::occurs(s, (tags[t]).0, k));
            }
        }
        lemma_open_not_before(s, before, k + 1);
    }
}

/// Whether a text holds nothing that opens a tool call.
pub open spec fn opens_none(s: Seq<char>) -> bool {
    forall|t: int|
        0 <= t < protocol::tool_tags().len() ==> !text::has(s, (#[trigger] protocol::tool_tags()[t]).0)
}

/// No opening tag stands partly in a text that holds none and partly in a tag behind it.
proof fn lemma_none_across(before: Seq<char>, behind: Seq<char>)
    requires
        opens_none(before),
        behind.len() > 0,
        behind[0] == '<',
    ensures
        forall|t: int, i: int|
            0 <= t < protocol::tool_tags().len() && 0 <= i < before.len()
                ==> !#[trigger] text::occurs(before + behind, protocol::tool_tags()[t].0, i),
{
    let tags = protocol::tool_tags();
    let s = before + behind;
    lemma_tags();
    assert forall|t: int, i: int|
        0 <= t < tags.len() && 0 <= i < before.len() implies !#[trigger] text::occurs(
        s,
        tags[t].0,
        i,
    ) by {
        let open = tags[t].0;
        if text::occurs(s, open, i) {
            if i + open.len() <= before.len() {
                assert(before.subrange(i, i + open.len()) =~= s.subrange(i, i + open.len()));
                assert(text::occurs(before, open, i));
                assert(text::has(before, tags[t].0));
            } else {
                let at = before.len() - i;
                assert(s.subrange(i, i + open.len())[at] == behind[0]);
                assert(open[at] == '<');
            }
        }
    }
}

/// The attributes of an opening tag are its id and its name.
proof fn lemma_attributes(tag_name: Seq<char>, id: Seq<char>, name: Seq<char>)
    requires
        tag_name.len() > 0,
        forall|i: int|
            0 <= i < tag_name.len() ==> !text::whitespace(#[trigger] tag_name[i]) && tag_name[i]
                != '<',
        quotable(id),
        quotable(name),
    ensures
        protocol::attributes(opening_tag(tag_name, id, name)) == seq![("id"@, id), ("name"@, name)],
{
    reveal_strlit("<");
    reveal_strlit(" id=\"");
    reveal_strlit("\" name=\"");
    reveal_strlit("\">");
    reveal_strlit("id");
    reveal_strlit("name");
    let tag = opening_tag(tag_name, id, name);
    let n = tag_name.len();
    lemma_trimmed_solid(tag);
    let opened = text::dropped_front(tag, CharClass::Only('<'));
    assert(opened =~= tag.skip(1)) by {
        assert(tag.skip(1)[0] == tag_name[0]);
        assert(text::dropped_front(tag.skip(1), CharClass::Only('<')) == tag.skip(1));
    }
    let without_gt = text::dropped_back(opened, CharClass::Only('>'));
    let inner = tag.subrange(1, tag.len() - 1);
    assert(without_gt =~= inner) by {
        assert(opened.take(opened.len() - 1) =~= inner);
        assert(inner[inner.len() - 1] == '"');
        assert(text::dropped_back(inner, CharClass::Only('>')) == inner);
    }
    assert(text::dropped_back(inner, CharClass::Only('/')) == inner);
    assert(inner[0] == tag_name[0]);
    lemma_trimmed_solid(inner);
    assert forall|j: int| 0 <= j < n implies !CharClass::Whitespace.holds(#[trigger] inner[j]) by {
        assert(inner[j] == tag_name[j]);
    }
    assert(inner[n as int] == ' ');
    text::lemma_class_at(inner, CharClass::Whitespace, n as int);
    let pairs = inner.skip(n as int + 1);
    let tail = "name=\""@ + name + "\""@;
    reveal_strlit("name=\"");
    reveal_strlit("\"");
    let behind = seq![' '] + tail;
    assert(pairs =~= "id"@ + seq!['=', '"'] + id + seq!['"'] + behind);
    assert(text::trimmed_start(behind) == tail) by {
        assert(behind.skip(1) =~= tail);
        assert(text::trimmed_start(tail) == tail);
    }
    lemma_quoted_pair(pairs, "id"@, id, behind, tail);
    assert(tail =~= "name"@ + seq!['=', '"'] + name + seq!['"'] + Seq::<char>::empty());
    lemma_quoted_pair(tail, "name"@, name, Seq::empty(), Seq::empty());
    assert(protocol::quoted_pairs(Seq::empty()) =~= Seq::empty());
    assert(protocol::quoted_pairs(pairs) =~= seq![("id"@, id), ("name"@, name)]);
}

/// A pair in quotes is read, and then what is behind it.
proof fn lemma_quoted_pair(
    s: Seq<char>,
    key: Seq<char>,
    value: Seq<char>,
    behind: Seq<char>,
    rest: Seq<char>,
)
    requires
        s == key + seq!['=', '"'] + value + seq!['"'] + behind,
        rest == text::trimmed_start(behind),
        key.len() > 0,
        forall|i: int| 0 <= i < key.len() ==> !text::whitespace(#[trigger] key[i]) && key[i] != '=',
        quotable(value),
    ensures
        protocol::quoted_pairs(s) == seq![(key, value)] + protocol::quoted_pairs(rest),
{
    let k = key.len() as int;
    assert forall|j: int| 0 <= j < k implies !CharClass::Only('=').holds(#[trigger] s[j]) by {
        assert(s[j] == key[j]);
    }
    assert(s[k] == '=');
    text::lemma_class_at(s, CharClass::Only('='), k);
    assert(s.take(k) =~= key);
    lemma_trimmed_solid(key);
    let quoted = s.skip(k + 1);
    assert(quoted =~= seq!['"'] + value + seq!['"'] + behind);
    assert(text::trimmed_start(quoted) == quoted);
    let inside = quoted.skip(1);
    assert(inside =~= value + seq!['"'] + behind);
    assert forall|j: int| 0 <= j < value.len() implies !CharClass::Only('"').holds(
        #[trigger] inside[j],
    ) by {
        assert(inside[j] == value[j]);
    }
    assert(inside[value.len() as int] == '"');
    text::lemma_class_at(inside, CharClass::Only('"'), value.len() as int);
    assert(inside.take(value.len() as int) =~= value);
    assert(inside.skip(value.len() as int + 1) =~= behind);
}

/// A body in braces, as an object in JSON is written, is read as it stands: but for white
/// space around it nothing is taken off.
pub proof fn lemma_braced_body(s: Seq<char>)
    requires
        json::braced(text::trimmed(s)),
    ensures
        protocol::cleaned(s) == text::trimmed(s),
        protocol::jsonish(s) == json::parsed(text::trimmed(s)),
{
    let body = text::trimmed(s);
    reveal_strlit("```json");
    reveal_strlit("```");
    lemma_trimmed_solid(body);
    assert(!text::begins(body, "```json"@)) by {
        if text::begins(body, "```json"@) {
            assert(body.take("```json"@.len() as int)[0] == '{');
        }
    }
    assert(!text::begins(body, "```"@)) by {
        if text::begins(body, "```"@) {
            assert(body.take("```"@.len() as int)[0] == '{');
        }
    }
    assert(!text::ends(body, "```"@)) by {
        if text::ends(body, "```"@) {
            assert(body.skip(body.len() - "```"@.len())["```"@.len() - 1] == '}');
        }
    }
    text::lemma_class_at(body, CharClass::Only('{'), 0);
    assert(body.subrange(0, body.len() as int) =~= body);
}

/// Whether `core`, which is in braces, stands in `t` at `k` as all from the first opening
/// to the last closing brace.
spec fn holds_core(t: Seq<char>, core: Seq<char>, k: int) -> bool {
    &&& json::braced(core)
    &&& 0 <= k
    &&& k + core.len() <= t.len()
    &&& t.subrange(k, k + core.len()) == core
    &&& forall|j: int| 0 <= j < k ==> #[trigger] t[j] != '{'
    &&& forall|j: int| k + core.len() <= j < t.len() ==> #[trigger] t[j] != '}'
}

proof fn lemma_core_ends(t: Seq<char>, core: Seq<char>, k: int)
    requires
        holds_core(t, core, k),
    ensures
        t[k] == '{',
        t[k + core.len() - 1] == '}',
{
    assert(t.subrange(k, k + core.len())[0] == t[k]);
    assert(t.subrange(k, k + core.len())[core.len() - 1] == t[k + core.len() - 1]);
}

proof fn lemma_core_skip(t: Seq<char>, core: Seq<char>, k: int, n: int)
    requires
        holds_core(t, core, k),
        0 <= n <= k,
    ensures
        holds_core(t.skip(n), core, k - n),
{
    let u = t.skip(n);
    assert(u.subrange(k - n, k - n + core.len()) =~= t.subrange(k, k + core.len()));
}

proof fn lemma_core_take(t: Seq<char>, core: Seq<char>, k: int, n: int)
    requires
        holds_core(t, core, k),
        k + core.len() <= n <= t.len(),
    ensures
        holds_core(t.take(n), core, k),
{
    let u = t.take(n);
    assert(u.subrange(k, k + core.len()) =~= t.subrange(k, k + core.len()));
}

/// White space at the front does not touch the braces.
proof fn lemma_core_trimmed_start(t: Seq<char>, core: Seq<char>, k: int) -> (at: int)
    requires
        holds_core(t, core, k),
    ensures
        holds_core(text::trimmed_start(t), core, at),
    decreases t.len(),
{
    lemma_core_ends(t, core, k);
    if text::whitespace(t[0]) {
        lemma_core_skip(t, core, k, 1);
        lemma_core_trimmed_start(t.skip(1), core, k - 1)
    } else {
        k
    }
}

/// White space at the back does not touch the braces.
proof fn lemma_core_trimmed_end(t: Seq<char>, core: Seq<char>, k: int)
    requires
        holds_core(t, core, k),
    ensures
        holds_core(text::trimmed_end(t), core, k),
    decreases t.len(),
{
    lemma_core_ends(t, core, k);
    if text::whitespace(t[t.len() - 1]) {
        lemma_core_take(t, core, k, t.len() - 1);
        lemma_core_trimmed_end(t.take(t.len() - 1), core, k);
    }
}

proof fn lemma_core_trimmed(t: Seq<char>, core: Seq<char>, k: int) -> (at: int)
    requires
        holds_core(t, core, k),
    ensures
        holds_core(text::trimmed(t), core, at),
{
    let at = lemma_core_trimmed_start(t, core, k);
    lemma_core_trimmed_end(text::trimmed_start(t), core, at);
    at
}

/// A prefix without braces does not touch them.
proof fn lemma_core_prefix(t: Seq<char>, core: Seq<char>, k: int, prefix: Seq<char>)
    requires
        holds_core(t, core, k),
        text::begins(t, prefix),
        forall|j: int| 0 <= j < prefix.len() ==> #[trigger] prefix[j] != '{',
    ensures
        holds_core(t.skip(prefix.len() as int), core, k - prefix.len()),
{
    lemma_core_ends(t, core, k);
    if k < prefix.len() {
        assert(t.take(prefix.len() as int)[k] == prefix[k]);
    }
    lemma_core_skip(t, core, k, prefix.len() as int);
}

/// A suffix without braces does not touch them.
proof fn lemma_core_suffix(t: Seq<char>, core: Seq<char>, k: int, suffix: Seq<char>)
    requires
        holds_core(t, core, k),
        text::ends(t, suffix),
        forall|j: int| 0 <= j < suffix.len() ==> #[trigger] suffix[j] != '}',
    ensures
        holds_core(t.take(t.len() - suffix.len()), core, k),
{
    let n = t.len() - suffix.len();
    lemma_core_ends(t, core, k);
    let last = k + core.len() - 1;
    if n <= last {
        assert(t.skip(n)[last - n] == suffix[last - n]);
    }
    lemma_core_take(t, core, k, n);
}

/// What a text with braces is cleaned to.
proof fn lemma_core_cleaned(s: Seq<char>, core: Seq<char>, k: int)
    requires
        holds_core(s, core, k),
    ensures
        protocol::cleaned(s) == core,
{
    reveal_strlit("```json");
    reveal_strlit("```");
    let t = text::trimmed(s);
    let a = lemma_core_trimmed(s, core, k);
    let opened = if text::begins(t, "```json"@) {
        t.skip("```json"@.len() as int)
    } else if text::begins(t, "```"@) {
        t.skip("```"@.len() as int)
    } else {
        t
    };
    let b = if text::begins(t, "```json"@) {
        lemma_core_prefix(t, core, a, "```json"@);
        a - "```json"@.len()
    } else if text::begins(t, "```"@) {
        lemma_core_prefix(t, core, a, "```"@);
        a - "```"@.len()
    } else {
        a
    };
    assert(holds_core(opened, core, b));
    let closed_off = if text::ends(opened, "```"@) {
        opened.take(opened.len() - "```"@.len())
    } else {
        opened
    };
    if text::ends(opened, "```"@) {
        lemma_core_suffix(opened, core, b, "```"@);
    }
    let inner = text::trimmed(closed_off);
    let at = lemma_core_trimmed(closed_off, core, b);
    lemma_core_ends(inner, core, at);
    text::lemma_class_at(inner, CharClass::Only('{'), at);
    text::lemma_last_index(inner, '}');
    let last = at + core.len() - 1;
    assert(text::last_index(inner, '}') == Some(last)) by {
        assert(inner[last] == '}');
    }
}

/// Where an opening brace stands before a closing one, cleaning leaves exactly what is
/// from the first opening to the last closing brace, whatever fence or prose is around
/// it; and cleaning that again changes nothing.
pub proof fn lemma_cleaned_to_braces(s: Seq<char>, i: int, j: int)
    requires
        protocol::outer_braces(s, i, j),
        i < j,
    ensures
        protocol::cleaned(s) == s.subrange(i, j + 1),
        protocol::cleaned(protocol::cleaned(s)) == protocol::cleaned(s),
{
    let core = s.subrange(i, j + 1);
    text::lemma_class_from(s, CharClass::Only('{'), 0);
    text::lemma_last_index(s, '}');
    assert forall|k: int| 0 <= k < i implies #[trigger] s[k] != '{' by {
        assert(!CharClass::Only('{').holds(s[k]));
    }
    assert(holds_core(s, core, i));
    lemma_core_cleaned(s, core, i);
    assert(core.subrange(0, core.len() as int) =~= core);
    assert(holds_core(core, core, 0));
    lemma_core_cleaned(core, core, 0);
}

/// A closing tag stands where it was put, if it does not stand in the body.
proof fn lemma_close_found(body: Seq<char>, close: Seq<char>, behind: Seq<char>)
    requires
        close.len() > 0,
        close[0] == '<',
        forall|i: int| 0 < i < close.len() ==> #[trigger] close[i] != '<',
        !text::has(body, close),
    ensures
        text::first(body + close + behind, close) == Some(body.len() as int),
{
    let s = body + close + behind;
    let k = body.len() as int;
    assert(s.subrange(k, k + close.len()) =~= close);
    assert forall|j: int| 0 <= j < k implies !#[trigger] text::occurs(s, close, j) by {
        if text::occurs(s, close, j) {
            if j + close.len() <= k {
                assert(body.subrange(j, j + close.len()) =~= s.subrange(j, j + close.len()));
                assert(text::occurs(body, close, j));
            } else {
                assert(s.subrange(j, j + close.len())[k - j] == s[k]);
                assert(s[k] == close[0]);
                assert(close[k - j] == '<');
            }
        }
    }
    text::lemma_first_at(s, close, k);
}

/// Every opening tag is a word, and begins where it has its angle bracket, if it has one.
proof fn lemma_tags()
    ensures
        forall|t: int|
            0 <= t < protocol::tool_tags().len() ==> (#[trigger] protocol::tool_tags()[t]).0.len()
                > 0,
        forall|t: int, i: int|
            0 <= t < protocol::tool_tags().len() && 0 < i < protocol::tool_tags()[t].0.len()
                ==> #[trigger] protocol::tool_tags()[t].0[i] != '<',
{
    reveal_strlit("<tool_call");
    reveal_strlit("tool_call");
    reveal_strlit("<previous_tool_call");
    reveal_strlit("previous_tool_call");
    reveal_strlit("<tool_invoke");
    reveal_strlit("tool_invoke");
    reveal_strlit("<aeon_tool_call");
    reveal_strlit("aeon_tool_call");
}

/// A tool call in a longer text, with what stands before it: it has an id and a name, and
/// a body that says this value.
pub struct WrittenCall {
    pub before: Seq<char>,
    pub id: Seq<char>,
    pub name: Seq<char>,
    pub body: Seq<char>,
    pub value: JsonView,
}

impl WrittenCall {
    /// The call as the protocol asks for it.
    pub open spec fn text(self) -> Seq<char> {
        written_call("tool_call"@, self.id, self.name, self.body)
    }

    /// The call that is meant.
    pub open spec fn meant(self) -> CallView {
        CallView { id: self.id, name: self.name, arguments: meant_arguments(self.value) }
    }

    /// Whether the call can be told from what is around it: nothing before it opens a
    /// call, its id and name can stand in quotes, and it is closed by the closing tag
    /// that it has, and not in its body.
    pub open spec fn clear(self, behind: Seq<char>) -> bool {
        &&& opens_none(self.before)
        &&& quotable(self.id)
        &&& quotable(self.name)
        &&& !text::has(self.body, "</tool_call>"@)
        &&& closed_by(
            opening_tag("tool_call"@, self.id, self.name),
            self.body,
            "</tool_call>"@,
            behind,
        )
    }
}

/// Whether what `tag` opened is closed by `close`, which stands behind the body. That is
/// so unless the id or the name holds a word that stands for another kind of call, whose
/// closing tag counts instead.
pub open spec fn closed_by(
    tag: Seq<char>,
    body: Seq<char>,
    close: Seq<char>,
    behind: Seq<char>,
) -> bool {
    protocol::closing(tag, body + close + behind, close) == close
}

/// The text that these calls stand in, with this behind the last.
pub open spec fn text_with(calls: Seq<WrittenCall>, behind: Seq<char>) -> Seq<char>
    decreases calls.len(),
{
    if calls.len() == 0 {
        behind
    } else {
        calls[0].before + calls[0].text() + text_with(calls.skip(1), behind)
    }
}

/// Whether each of these calls can be told from what is around it.
pub open spec fn all_clear(calls: Seq<WrittenCall>, behind: Seq<char>) -> bool
    decreases calls.len(),
{
    calls.len() == 0 || {
        &&& calls[0].clear(text_with(calls.skip(1), behind))
        &&& all_clear(calls.skip(1), behind)
    }
}

/// The calls that are meant.
pub open spec fn meant_calls(calls: Seq<WrittenCall>) -> Seq<CallView> {
    calls.map_values(|call: WrittenCall| call.meant())
}

/// Calls that are written as the protocol asks are all read, in their order and as they
/// were meant: with their ids, names and arguments. What else the model wrote before,
/// between and behind them does not matter, as long as it opens no call.
pub proof fn lemma_written_calls_are_read(calls: Seq<WrittenCall>, behind: Seq<char>)
    requires
        calls.len() > 0,
        all_clear(calls, behind),
        opens_none(behind),
    ensures
        (forall|i: int|
            0 <= i < calls.len() ==> protocol::jsonish((#[trigger] calls[i]).body) == Some(
                calls[i].value,
            )) ==> protocol::calls_in(text_with(calls, behind)) == meant_calls(calls),
{
    if forall|i: int|
        0 <= i < calls.len() ==> protocol::jsonish((#[trigger] calls[i]).body) == Some(
            calls[i].value,
        ) {
        lemma_tagged_calls(calls, behind, 0);
    }
}

/// The calls that stand as tags in the text with these calls.
proof fn lemma_tagged_calls(calls: Seq<WrittenCall>, behind: Seq<char>, found: nat)
    requires
        all_clear(calls, behind),
        opens_none(behind),
        forall|i: int|
            0 <= i < calls.len() ==> protocol::jsonish((#[trigger] calls[i]).body) == Some(
                calls[i].value,
            ),
    ensures
        protocol::tagged_calls(text_with(calls, behind), found) == meant_calls(calls),
    decreases calls.len(),
{
    if calls.len() == 0 {
        lemma_no_open(behind, protocol::tool_tags());
        assert(meant_calls(calls) =~= Seq::empty());
    } else {
        let call = calls[0];
        let rest = text_with(calls.skip(1), behind);
        assert forall|i: int| 0 <= i < calls.skip(1).len() implies protocol::jsonish(
            (#[trigger] calls.skip(1)[i]).body,
        ) == Some(calls.skip(1)[i].value) by {
            assert(calls.skip(1)[i] == calls[i + 1]);
        }
        lemma_tagged_calls(calls.skip(1), behind, found + 1);
        lemma_plain_open(call, rest);
        lemma_call_read(
            call.before,
            "tool_call"@,
            call.id,
            call.name,
            call.body,
            call.value,
            rest,
            found,
        );
        assert(meant_calls(calls) =~= seq![call.meant()] + meant_calls(calls.skip(1)));
    }
}

/// A call that can be told from what is around it is opened where it stands.
proof fn lemma_plain_open(call: WrittenCall, behind: Seq<char>)
    requires
        call.clear(behind),
    ensures
        protocol::first_open(call.before + call.text() + behind, protocol::tool_tags()) == Some(
            (call.before.len() as int, "</tool_call>"@),
        ),
        closing_tag("tool_call"@) == "</tool_call>"@,
        forall|i: int|
            0 <= i < "tool_call"@.len() ==> !text::whitespace(#[trigger] "tool_call"@[i])
                && "tool_call"@[i] != '<' && "tool_call"@[i] != '>',
        "tool_call"@.len() > 0,
{
    reveal_strlit("tool_call");
    reveal_strlit("<tool_call");
    reveal_strlit("</tool_call>");
    reveal_strlit("<");
    reveal_strlit("</");
    reveal_strlit(">");
    let s = call.before + call.text() + behind;
    let k = call.before.len() as int;
    assert(closing_tag("tool_call"@) =~= "</tool_call>"@);
    assert(s =~= call.before + (call.text() + behind));
    lemma_none_across(call.before, call.text() + behind);
    assert(s.subrange(k, k + "<tool_call"@.len()) =~= "<tool_call"@);
    assert(text::occurs(s, protocol::tool_tags()[0].0, k));
    lemma_open_at(s, protocol::tool_tags(), 0, k);
}

/// A text that is one call, written as the protocol asks, is read as that call.
pub proof fn lemma_written_call_is_read(
    id: Seq<char>,
    name: Seq<char>,
    body: Seq<char>,
    value: JsonView,
)
    requires
        quotable(id),
        quotable(name),
        !text::has(body, "</tool_call>"@),
        closed_by(opening_tag("tool_call"@, id, name), body, "</tool_call>"@, Seq::empty()),
    ensures
        protocol::jsonish(body) == Some(value) ==> protocol::calls_in(
            written_call("tool_call"@, id, name, body),
        ) == seq![CallView { id, name, arguments: meant_arguments(value) }],
{
    let none = Seq::<char>::empty();
    let call = WrittenCall { before: none, id, name, body, value };
    let calls = seq![call];
    lemma_nothing_opens();
    assert(calls.skip(1) =~= Seq::empty());
    assert(text_with(calls.skip(1), none) =~= none);
    assert(all_clear(calls.skip(1), none));
    lemma_written_calls_are_read(calls, none);
    assert(text_with(calls, none) =~= call.text());
    assert(meant_calls(calls) =~= seq![call.meant()]);
}

/// Whether an earlier call with this id, name and body can be told from its tags as a
/// prompt shows it: id and name can stand in quotes, and it is closed by its own closing
/// tag, and not in its body.
pub open spec fn shown_clearly(id: Seq<char>, name: Seq<char>, body: Seq<char>) -> bool {
    &&& quotable(id)
    &&& quotable(name)
    &&& !text::has(body, "</previous_tool_call>"@)
    &&& closed_by(
        opening_tag("previous_tool_call"@, id, name),
        body,
        "</previous_tool_call>"@,
        Seq::empty(),
    )
}

/// An earlier call as a prompt shows it is read as that call, should the model repeat
/// it: with its id, its name and its arguments. That the text of an object is in braces
/// and reads back is known of every object that `json::reads_back` admits.
pub proof fn lemma_previous_call_is_read(id: Seq<char>, name: Seq<char>, input: JsonView)
    requires
        shown_clearly(id, name, json::compact(input)),
    ensures
        protocol::jsonish(json::compact(input)) == Some(input) ==> protocol::calls_in(
            ContentView::ToolUse { id, name, input }.prompt_text(),
        ) == seq![CallView { id, name, arguments: meant_arguments(input) }],
        json::braced(json::compact(input)) && json::parsed(json::compact(input)) == Some(input)
            ==> protocol::jsonish(json::compact(input)) == Some(input),
{
    let none = Seq::<char>::empty();
    let body = json::compact(input);
    let s = none + written_call("previous_tool_call"@, id, name, body) + none;
    let call = CallView { id, name, arguments: meant_arguments(input) };
    if json::braced(body) {
        lemma_trimmed_solid(body);
        lemma_braced_body(body);
    }
    lemma_previous_text(id, name, input);
    assert(s =~= written_call("previous_tool_call"@, id, name, body));
    if protocol::jsonish(body) == Some(input) {
        lemma_previous_open(s);
        lemma_call_read(none, "previous_tool_call"@, id, name, body, input, none, 0);
        lemma_nothing_opens();
        lemma_no_open(none, protocol::tool_tags());
        assert(protocol::tagged_calls(s, 0) =~= seq![call]);
    }
}

/// A text that holds a character stands in no text that does not.
proof fn lemma_has_char(s: Seq<char>, p: Seq<char>, k: int)
    requires
        0 <= k < p.len(),
        forall|i: int| 0 <= i < s.len() ==> #[trigger] s[i] != p[k],
    ensures
        !text::has(s, p),
{
    if text::has(s, p) {
        let i = choose|i: int| text::occurs(s, p, i);
        assert(s.subrange(i, i + p.len())[k] == s[i + k]);
    }
}

/// A word that is long and has no quote stands in the tag of an earlier call only if it
/// stands in the id, in the name, or before them.
proof fn lemma_tag_word(id: Seq<char>, name: Seq<char>, p: Seq<char>)
    requires
        p.len() > 6,
        forall|i: int| 0 <= i < p.len() ==> #[trigger] p[i] != '"',
        text::has(opening_tag("previous_tool_call"@, id, name), p),
    ensures
        text::has("<previous_tool_call id="@, p) || text::has(id, p) || text::has(name, p),
{
    reveal_strlit("<");
    reveal_strlit("previous_tool_call");
    reveal_strlit("<previous_tool_call id=");
    reveal_strlit(" id=\"");
    reveal_strlit("\" name=\"");
    reveal_strlit("\">");
    let head = "<previous_tool_call id="@;
    let mid = seq![' ', 'n', 'a', 'm', 'e', '='];
    let end = seq!['>'];
    let tag = opening_tag("previous_tool_call"@, id, name);
    let c = name + seq!['"'] + end;
    let b = mid + seq!['"'] + c;
    let a = id + seq!['"'] + b;
    assert(tag =~= head + seq!['"'] + a);
    text::lemma_has_split(head, '"', a, p);
    if text::has(a, p) {
        text::lemma_has_split(id, '"', b, p);
        if text::has(b, p) {
            text::lemma_has_split(mid, '"', c, p);
            assert(!text::has(mid, p));
            text::lemma_has_split(name, '"', end, p);
            assert(!text::has(end, p));
        }
    }
}

/// A call is shown clearly if its id and name can stand in quotes and do not hold
/// `tool_`, and its body does not hold `</`.
pub proof fn lemma_shown_clearly(id: Seq<char>, name: Seq<char>, body: Seq<char>)
    requires
        quotable(id),
        quotable(name),
        !text::has(id, "tool_"@),
        !text::has(name, "tool_"@),
        !text::has(body, "</"@),
    ensures
        shown_clearly(id, name, body),
{
    let tag = opening_tag("previous_tool_call"@, id, name);
    lemma_other_words(id, name);
    lemma_plain_close(body);
    assert(body + "</previous_tool_call>"@ + Seq::<char>::empty() =~= body
        + "</previous_tool_call>"@);
    assert(!text::has(tag, "aeon_tool_call"@));
}

/// The tag of an earlier call names no other kind of call unless its id or name does.
proof fn lemma_other_words(id: Seq<char>, name: Seq<char>)
    requires
        !text::has(id, "tool_"@),
        !text::has(name, "tool_"@),
    ensures
        !text::has(opening_tag("previous_tool_call"@, id, name), "aeon_tool_call"@),
        !text::has(opening_tag("previous_tool_call"@, id, name), "tool_invoke"@),
{
    reveal_strlit("tool_");
    reveal_strlit("aeon_tool_call");
    reveal_strlit("tool_invoke");
    reveal_strlit("<previous_tool_call id=");
    let head = "<previous_tool_call id="@;
    let none = Seq::<char>::empty();
    let tag = opening_tag("previous_tool_call"@, id, name);
    assert("aeon_tool_call"@ =~= seq!['a', 'e', 'o', 'n', '_'] + "tool_"@ + seq!['c', 'a', 'l', 'l']);
    text::lemma_has_between(seq!['a', 'e', 'o', 'n', '_'], "tool_"@, seq!['c', 'a', 'l', 'l']);
    assert("tool_invoke"@ =~= none + "tool_"@ + seq!['i', 'n', 'v', 'o', 'k', 'e']);
    text::lemma_has_between(none, "tool_"@, seq!['i', 'n', 'v', 'o', 'k', 'e']);
    lemma_has_char(head, "aeon_tool_call"@, 3);
    lemma_has_char(head, "tool_invoke"@, 9);
    if text::has(tag, "aeon_tool_call"@) {
        lemma_tag_word(id, name, "aeon_tool_call"@);
        if text::has(id, "aeon_tool_call"@) {
            text::lemma_has_within(id, "aeon_tool_call"@, "tool_"@);
        } else {
            text::lemma_has_within(name, "aeon_tool_call"@, "tool_"@);
        }
    }
    if text::has(tag, "tool_invoke"@) {
        lemma_tag_word(id, name, "tool_invoke"@);
        if text::has(id, "tool_invoke"@) {
            text::lemma_has_within(id, "tool_invoke"@, "tool_"@);
        } else {
            text::lemma_has_within(name, "tool_invoke"@, "tool_"@);
        }
    }
}

/// A body without `</` holds no closing tag, and with the one of an earlier call behind
/// it none of another.
proof fn lemma_plain_close(body: Seq<char>)
    requires
        !text::has(body, "</"@),
    ensures
        !text::has(body, "</previous_tool_call>"@),
        !text::has(body + "</previous_tool_call>"@, "</tool_call>"@),
{
    reveal_strlit("</");
    reveal_strlit("</previous_tool_call>");
    reveal_strlit("</tool_call>");
    let close = "</previous_tool_call>"@;
    let other = "</tool_call>"@;
    let n = body.len() as int;
    if text::has(body, close) {
        let i = choose|i: int| text::occurs(body, close, i);
        assert(body.subrange(i, i + close.len()).take(2) =~= "</"@);
        assert(body.subrange(i, i + 2) =~= body.subrange(i, i + close.len()).take(2));
        assert(text::occurs(body, "</"@, i));
    }
    let s = body + close;
    if text::has(s, other) {
        let i = choose|i: int| text::occurs(s, other, i);
        let found = s.subrange(i, i + other.len());
        assert(found[0] == s[i] && found[1] == s[i + 1] && found[2] == s[i + 2]);
        if i + 1 < n {
            assert(body.subrange(i, i + 2) =~= "</"@);
            assert(text::occurs(body, "</"@, i));
        } else if i + 1 == n {
            assert(s[n] == '<');
        } else {
            assert(s[i] == close[i - n]);
            assert(i - n == 0);
            assert(s[i + 2] == close[2]);
        }
    }
}

/// Nothing opens no call.
proof fn lemma_nothing_opens()
    ensures
        opens_none(Seq::empty()),
{
    lemma_tags();
}

/// An earlier call as a prompt shows it is a call with a tag of its own.
proof fn lemma_previous_text(id: Seq<char>, name: Seq<char>, input: JsonView)
    ensures
        (ContentView::ToolUse { id, name, input }).prompt_text() == written_call(
            "previous_tool_call"@,
            id,
            name,
            json::compact(input),
        ),
        closing_tag("previous_tool_call"@) == "</previous_tool_call>"@,
        "previous_tool_call"@.len() > 0,
        forall|i: int|
            0 <= i < "previous_tool_call"@.len() ==> !text::whitespace(
                #[trigger] "previous_tool_call"@[i],
            ) && "previous_tool_call"@[i] != '<' && "previous_tool_call"@[i] != '>',
        ({
            let s = written_call("previous_tool_call"@, id, name, json::compact(input));
            &&& s.len() >= "<previous_tool_call"@.len()
            &&& s.subrange(0, "<previous_tool_call"@.len() as int) == "<previous_tool_call"@
        }),
{
    reveal_strlit("previous_tool_call");
    reveal_strlit("<previous_tool_call");
    reveal_strlit("</previous_tool_call>");
    reveal_strlit("<");
    reveal_strlit("</");
    reveal_strlit(">");
    reveal_strlit("<previous_tool_call id=\"");
    reveal_strlit(" id=\"");
    reveal_strlit("\" name=\"");
    reveal_strlit("\">");
    let s = written_call("previous_tool_call"@, id, name, json::compact(input));
    assert(closing_tag("previous_tool_call"@) =~= "</previous_tool_call>"@);
    assert("<previous_tool_call id=\""@ =~= "<"@ + "previous_tool_call"@ + " id=\""@);
    assert(ContentView::ToolUse { id, name, input }.prompt_text() =~= s);
    assert(s.subrange(0, "<previous_tool_call"@.len() as int) =~= "<previous_tool_call"@);
}

/// A text that begins with the tag of an earlier call opens with it.
proof fn lemma_previous_open(s: Seq<char>)
    requires
        s.len() >= "<previous_tool_call"@.len(),
        s.subrange(0, "<previous_tool_call"@.len() as int) == "<previous_tool_call"@,
    ensures
        protocol::first_open(s, protocol::tool_tags()) == Some((0int, "</previous_tool_call>"@)),
{
    reveal_strlit("<previous_tool_call");
    reveal_strlit("<tool_call");
    reveal_strlit("tool_call");
    let tags = protocol::tool_tags();
    assert(s[0] == s.subrange(0, "<previous_tool_call"@.len() as int)[0]);
    assert(s[1] == s.subrange(0, "<previous_tool_call"@.len() as int)[1]);
    assert(text::occurs(s, tags[2].0, 0));
    assert(!text::occurs(s, "<tool_call"@, 0)) by {
        if text::occurs(s, "<tool_call"@, 0) {
            assert(s.subrange(0, "<tool_call"@.len() as int)[1] == s[1]);
        }
    }
    assert(!text::occurs(s, "tool_call"@, 0)) by {
        if text::occurs(s, "tool_call"@, 0) {
            assert(s.subrange(0, "tool_call"@.len() as int)[0] == s[0]);
        }
    }
    assert forall|t: int| 0 <= t < 2 implies !text::occurs(s, (#[trigger] tags[t]).0, 0) by {}
    lemma_open_at(s, tags, 2, 0);
}

/// A call whose opening tag is found is read, and then what is behind it.
proof fn lemma_call_read(
    before: Seq<char>,
    tag_name: Seq<char>,
    id: Seq<char>,
    name: Seq<char>,
    body: Seq<char>,
    value: JsonView,
    behind: Seq<char>,
    found: nat,
)
    requires
        quotable(id),
        quotable(name),
        tag_name.len() > 0,
        forall|i: int|
            0 <= i < tag_name.len() ==> !text::whitespace(#[trigger] tag_name[i]) && tag_name[i]
                != '<' && tag_name[i] != '>',
        !text::has(body, closing_tag(tag_name)),
        protocol::first_open(
            before + written_call(tag_name, id, name, body) + behind,
            protocol::tool_tags(),
        ) == Some((before.len() as int, closing_tag(tag_name))),
        closed_by(opening_tag(tag_name, id, name), body, closing_tag(tag_name), behind),
        protocol::jsonish(body) == Some(value),
    ensures
        protocol::tagged_calls(
            before + written_call(tag_name, id, name, body) + behind,
            found,
        ) == seq![CallView { id, name, arguments: meant_arguments(value) }]
            + protocol::tagged_calls(behind, found + 1),
{
    reveal_strlit("</");
    reveal_strlit(">");
    let tag = opening_tag(tag_name, id, name);
    let close = closing_tag(tag_name);
    assert(before + written_call(tag_name, id, name, body) + behind =~= before + (tag + (body
        + close + behind)));
    lemma_tag_end(tag_name, id, name, body + close + behind);
    assert forall|i: int| 0 < i < close.len() implies #[trigger] close[i] != '<' by {
        if 2 <= i < 2 + tag_name.len() {
            assert(close[i] == tag_name[i - 2]);
        }
    }
    lemma_close_found(body, close, behind);
    lemma_call_made(tag_name, id, name, body, value, found + 1);
    lemma_one_call(
        before,
        tag,
        body,
        close,
        behind,
        CallView { id, name, arguments: meant_arguments(value) },
        found,
    );
}

/// A text that goes on with a call by a tag has that call, and then what is behind it.
proof fn lemma_one_call(
    before: Seq<char>,
    tag: Seq<char>,
    body: Seq<char>,
    close: Seq<char>,
    behind: Seq<char>,
    call: CallView,
    found: nat,
)
    requires
        protocol::first_open(
            before + (tag + (body + close + behind)),
            protocol::tool_tags(),
        ) == Some((before.len() as int, close)),
        text::class_from(tag + (body + close + behind), CharClass::Only('>'), 0) == Some(
            tag.len() - 1,
        ),
        !protocol::self_closing(tag),
        protocol::closing(tag, body + close + behind, close) == close,
        text::first(body + close + behind, close) == Some(body.len() as int),
        protocol::call_with_body(tag, body, found + 1) == Some(call),
    ensures
        protocol::tagged_calls(before + (tag + (body + close + behind)), found) == seq![call]
            + protocol::tagged_calls(behind, found + 1),
{
    let after = body + close + behind;
    let s = before + (tag + after);
    let end = tag.len() - 1;
    let opened = tag + after;
    assert(s.skip(before.len() as int) =~= opened);
    assert(opened.take(end + 1) =~= tag);
    assert(opened.skip(end + 1) =~= after);
    assert(after.take(body.len() as int) =~= body);
    assert(after.skip((body.len() + close.len()) as int) =~= behind);
    assert(protocol::at_most_one(Some(call)) =~= seq![call]);
}

/// An opening tag ends at its first `>`, and does not close itself.
proof fn lemma_tag_end(tag_name: Seq<char>, id: Seq<char>, name: Seq<char>, behind: Seq<char>)
    requires
        quotable(id),
        quotable(name),
        tag_name.len() > 0,
        forall|i: int|
            0 <= i < tag_name.len() ==> !text::whitespace(#[trigger] tag_name[i]) && tag_name[i]
                != '<' && tag_name[i] != '>',
    ensures
        text::class_from(opening_tag(tag_name, id, name) + behind, CharClass::Only('>'), 0) == Some(
            opening_tag(tag_name, id, name).len() - 1,
        ),
        !protocol::self_closing(opening_tag(tag_name, id, name)),
{
    reveal_strlit("<");
    reveal_strlit("/>");
    reveal_strlit(" id=\"");
    reveal_strlit("\" name=\"");
    reveal_strlit("\">");
    let tag = opening_tag(tag_name, id, name);
    let s = tag + behind;
    let end = tag.len() - 1;
    assert(s[end] == '>');
    assert forall|j: int| 0 <= j < end implies !CharClass::Only('>').holds(#[trigger] s[j]) by {
        assert(s[j] == tag[j]);
        let a = 1 + tag_name.len() as int;
        let b = a + 5;
        let c = b + id.len() as int;
        let d = c + 8;
        if 1 <= j < a {
            assert(tag[j] == tag_name[j - 1]);
        } else if b <= j < c {
            assert(tag[j] == id[j - b]);
        } else if d <= j < d + name.len() {
            assert(tag[j] == name[j - d]);
        }
    }
    text::lemma_class_at(s, CharClass::Only('>'), end);
    lemma_trimmed_solid(tag);
    if text::ends(tag, "/>"@) {
        assert(tag.skip(tag.len() - 2)[0] == tag[tag.len() - 2]);
    }
}

/// The call that an opening tag makes with its body.
proof fn lemma_call_made(
    tag_name: Seq<char>,
    id: Seq<char>,
    name: Seq<char>,
    body: Seq<char>,
    value: JsonView,
    n: nat,
)
    requires
        quotable(id),
        quotable(name),
        tag_name.len() > 0,
        forall|i: int|
            0 <= i < tag_name.len() ==> !text::whitespace(#[trigger] tag_name[i]) && tag_name[i]
                != '<',
        protocol::jsonish(body) == Some(value),
    ensures
        protocol::call_with_body(opening_tag(tag_name, id, name), body, n) == Some(
            CallView { id, name, arguments: meant_arguments(value) },
        ),
{
    reveal_strlit("id");
    reveal_strlit("name");
    lemma_attributes(tag_name, id, name);
    let pairs = seq![("id"@, id), ("name"@, name)];
    assert("id"@.len() != "name"@.len());
    reveal_with_fuel(protocol::value_for, 3);
    assert(pairs.skip(1)[0] == ("name"@, name));
}

/// What a model says in plain words makes no call: a text that names no tag, is no JSON
/// and has no fenced block.
pub proof fn lemma_prose_makes_no_call(s: Seq<char>)
    requires
        opens_none(s),
        protocol::fenced(s) is None,
    ensures
        protocol::jsonish(s) is None ==> protocol::calls_in(s) == Seq::<CallView>::empty(),
{
    lemma_no_open(s, protocol::tool_tags());
}

proof fn lemma_no_open(s: Seq<char>, tags: Seq<(Seq<char>, Seq<char>)>)
    requires
        forall|j: int| 0 <= j < tags.len() ==> !text::has(s, (#[trigger] tags[j]).0),
    ensures
        protocol::first_open(s, tags) is None,
    decreases tags.len(),
{
    if tags.len() > 0 {
        let n = tags.len() - 1;
        let before = tags.take(n);
        assert forall|j: int| 0 <= j < before.len() implies !text::has(
            s,
            (#[trigger] before[j]).0,
        ) by {
            assert(before[j] == tags[j]);
        }
        lemma_no_open(s, before);
        text::lemma_has_first(s, tags[n].0);
        assert(!text::has(s, tags[n].0));
    }
}

// ---------------------------------------------------------------------------
// Other ways to call
// ---------------------------------------------------------------------------

/// The words that open a call, each with the tag that closes it.
pub open spec fn opening_words() -> Seq<(Seq<char>, Seq<char>)> {
    seq![
        ("<tool_call"@, "</tool_call>"@),
        ("tool_call"@, "</tool_call>"@),
        ("<previous_tool_call"@, "</previous_tool_call>"@),
        ("previous_tool_call"@, "</previous_tool_call>"@),
        ("<tool_invoke"@, "</tool_invoke>"@),
        ("tool_invoke"@, "</tool_invoke>"@),
        ("<aeon_tool_call"@, "</aeon_tool_call>"@),
        ("aeon_tool_call"@, "</aeon_tool_call>"@),
    ]
}

/// A call is opened where the first of the words stands that open one, by the first of those
/// that stand there, and by nothing else.
pub proof fn lemma_opening(s: Seq<char>, which: int, k: int)
    requires
        0 <= which < 8,
        0 <= k,
        text::occurs(s, opening_words()[which].0, k),
        forall|t: int| 0 <= t < which ==> !text::occurs(s, (#[trigger] opening_words()[t]).0, k),
        forall|t: int, i: int|
            0 <= t < 8 && 0 <= i < k ==> !#[trigger] text::occurs(s, opening_words()[t].0, i),
    ensures
        protocol::first_open(s, protocol::tool_tags()) == Some((k, opening_words()[which].1)),
{
    let tags = protocol::tool_tags();
    let words = opening_words();
    assert forall|t: int| 0 <= t < 8 implies #[trigger] tags[t] == words[t] by {}
    assert(tags[8].0 == words[6].0 && tags[9].0 == words[7].0);
    assert forall|t: int| 0 <= t < which implies !text::occurs(s, (#[trigger] tags[t]).0, k) by {
        assert(!text::occurs(s, words[t].0, k));
    }
    assert forall|t: int, i: int| 0 <= t < tags.len() && 0 <= i < k implies !#[trigger] text::occurs(
        s,
        tags[t].0,
        i,
    ) by {
        if t < 8 {
            assert(!text::occurs(s, words[t].0, i));
        } else {
            assert(!text::occurs(s, words[t - 2].0, i));
        }
    }
    lemma_open_at(s, tags, which, k);
}

/// A text that holds none of the words that open a call makes none by tags.
pub proof fn lemma_unopened(s: Seq<char>)
    requires
        forall|t: int| 0 <= t < 8 ==> !text::has(s, (#[trigger] opening_words()[t]).0),
    ensures
        opens_none(s),
        forall|found: nat| protocol::tagged_calls(s, found).len() == 0,
{
    let tags = protocol::tool_tags();
    let words = opening_words();
    assert forall|t: int| 0 <= t < tags.len() implies !text::has(s, (#[trigger] tags[t]).0) by {
        if t < 8 {
            assert(!text::has(s, words[t].0));
        } else {
            assert(!text::has(s, words[t - 2].0));
        }
    }
    lemma_no_open(s, tags);
}

/// What closes a call: an `aeon_tool_call` its own closing tag, or else the one in the
/// plural; a `tool_invoke` its own; a `previous_tool_call` that of a call if one follows; and
/// each other what its opening word is closed by.
pub proof fn lemma_closing(tag: Seq<char>, after: Seq<char>, usual: Seq<char>)
    ensures
        ({
            let close = protocol::closing(tag, after, usual);
            let aeon = text::has(tag, "aeon_tool_call"@) && (text::has(after, "</aeon_tool_call>"@)
                || text::has(after, "</aeon_tool_calls>"@));
            &&& text::has(tag, "aeon_tool_call"@) && text::has(after, "</aeon_tool_call>"@) ==> close
                == "</aeon_tool_call>"@
            &&& text::has(tag, "aeon_tool_call"@) && !text::has(after, "</aeon_tool_call>"@)
                && text::has(after, "</aeon_tool_calls>"@) ==> close == "</aeon_tool_calls>"@
            &&& !aeon && text::has(tag, "tool_invoke"@) ==> close == "</tool_invoke>"@
            &&& !aeon && !text::has(tag, "tool_invoke"@) && text::has(tag, "previous_tool_call"@)
                && text::has(after, "</tool_call>"@) ==> close == "</tool_call>"@
            &&& !text::has(tag, "aeon_tool_call"@) && !text::has(tag, "tool_invoke"@) && !text::has(
                tag,
                "previous_tool_call"@,
            ) ==> close == usual
            &&& !aeon && !text::has(tag, "tool_invoke"@) && !text::has(after, "</tool_call>"@)
                ==> close == usual
        }),
{
}

/// What a tag opens is read up to what closes it: the call that the tag and the body make, if
/// they make one, and then those behind.
pub proof fn lemma_tag_read(
    before: Seq<char>,
    tag: Seq<char>,
    body: Seq<char>,
    close: Seq<char>,
    behind: Seq<char>,
    which: int,
    found: nat,
)
    requires
        0 <= which < 8,
        ({
            let s = before + (tag + (body + close + behind));
            let k = before.len() as int;
            &&& text::occurs(s, opening_words()[which].0, k)
            &&& forall|t: int|
                0 <= t < which ==> !text::occurs(s, (#[trigger] opening_words()[t]).0, k)
            &&& forall|t: int, i: int|
                0 <= t < 8 && 0 <= i < k ==> !#[trigger] text::occurs(s, opening_words()[t].0, i)
        }),
        tag.len() > 1,
        tag[tag.len() - 1] == '>',
        tag[tag.len() - 2] != '/',
        forall|j: int| 0 <= j < tag.len() - 1 ==> #[trigger] tag[j] != '>',
        protocol::closing(tag, body + close + behind, opening_words()[which].1) == close,
        close.len() > 0,
        close[0] == '<',
        forall|i: int| 0 < i < close.len() ==> #[trigger] close[i] != '<',
        !text::has(body, close),
    ensures
        ({
            let rest = protocol::tagged_calls(before + (tag + (body + close + behind)), found);
            match protocol::call_with_body(tag, body, found + 1) {
                Some(call) => rest == seq![call] + protocol::tagged_calls(behind, found + 1),
                None => rest == protocol::tagged_calls(behind, found),
            }
        }),
{
    reveal_strlit("/>");
    let after = body + close + behind;
    let s = before + (tag + after);
    let end = tag.len() - 1;
    let opened = tag + after;
    lemma_opening(s, which, before.len() as int);
    assert(s.skip(before.len() as int) =~= opened);
    assert forall|j: int| 0 <= j < end implies !CharClass::Only('>').holds(#[trigger] opened[j]) by {
        assert(opened[j] == tag[j]);
    }
    assert(opened[end] == '>');
    text::lemma_class_at(opened, CharClass::Only('>'), end);
    assert(opened.take(end + 1) =~= tag);
    assert(opened.skip(end + 1) =~= after);
    assert(text::trimmed_end(tag) == tag);
    if text::ends(tag, "/>"@) {
        assert(tag.skip(tag.len() - 2)[0] == tag[tag.len() - 2]);
    }
    lemma_close_found(body, close, behind);
    assert(after.take(body.len() as int) =~= body);
    assert(after.skip((body.len() + close.len()) as int) =~= behind);
    let call = protocol::call_with_body(tag, body, found + 1);
    let one = protocol::at_most_one(call);
    assert(call is None ==> one + protocol::tagged_calls(behind, found)
        =~= protocol::tagged_calls(behind, found));
}

/// The tag of a call that closes itself.
pub open spec fn closed_tag(name: Seq<char>, key: Seq<char>, value: Seq<char>) -> Seq<char> {
    "<tool_call name=\""@ + name + "\" "@ + key + "=\""@ + value + "\"/>"@
}

/// A tag that closes itself is a call with the name that it gives, and its other attributes
/// as the arguments.
pub proof fn lemma_closed_tag(
    name: Seq<char>,
    key: Seq<char>,
    value: Seq<char>,
    behind: Seq<char>,
    found: nat,
)
    requires
        quotable(name),
        quotable(value),
        key.len() > 0,
        key != "id"@,
        key != "name"@,
        forall|i: int|
            0 <= i < key.len() ==> !text::whitespace(#[trigger] key[i]) && key[i] != '=' && key[i]
                != '>',
    ensures
        protocol::tagged_calls(closed_tag(name, key, value) + behind, found) == seq![
            CallView {
                id: "call_"@ + text::decimal(found + 1),
                name,
                arguments: json::compact(JsonView::object(seq![(key, JsonView::Text(value))])),
            },
        ] + protocol::tagged_calls(behind, found + 1),
{
    reveal_strlit("<tool_call");
    reveal_strlit("<tool_call name=\"");
    reveal_strlit("\" ");
    reveal_strlit("=\"");
    reveal_strlit("\"/>");
    reveal_strlit("/>");
    reveal_strlit("id");
    reveal_strlit("name");
    let tag = closed_tag(name, key, value);
    let s = tag + behind;
    let end = tag.len() - 1;
    assert(s.subrange(0, 10) =~= "<tool_call"@);
    assert(text::occurs(s, opening_words()[0].0, 0));
    lemma_opening(s, 0, 0);
    assert(s.skip(0) =~= s);
    let b = 17int;
    let c = b + name.len();
    let d = c + 2;
    let e = d + key.len();
    let f = e + 2;
    assert forall|j: int| 0 <= j < end implies !CharClass::Only('>').holds(#[trigger] s[j]) by {
        assert(s[j] == tag[j]);
        if b <= j < c {
            assert(tag[j] == name[j - b]);
        } else if d <= j < e {
            assert(tag[j] == key[j - d]);
        } else if f <= j < f + value.len() {
            assert(tag[j] == value[j - f]);
        }
    }
    assert(s[end] == '>');
    text::lemma_class_at(s, CharClass::Only('>'), end);
    assert(s.take(end + 1) =~= tag);
    assert(s.skip(end + 1) =~= behind);
    lemma_trimmed_solid(tag);
    assert(tag.skip(tag.len() - 2) =~= "/>"@);
    lemma_closed_attributes(name, key, value);
    let pairs = seq![("name"@, name), (key, value)];
    assert("id"@.len() != "name"@.len());
    reveal_with_fuel(protocol::value_for, 3);
    assert(pairs.skip(1)[0] == (key, value));
    assert(pairs.take(1)[0] == ("name"@, name));
    assert(pairs.take(1).take(0).len() == 0);
    reveal_with_fuel(protocol::argument_members, 3);
    assert(protocol::argument_members(pairs) =~= seq![(key, JsonView::Text(value))]);
}

proof fn lemma_closed_attributes(name: Seq<char>, key: Seq<char>, value: Seq<char>)
    requires
        quotable(name),
        quotable(value),
        key.len() > 0,
        forall|i: int|
            0 <= i < key.len() ==> !text::whitespace(#[trigger] key[i]) && key[i] != '=' && key[i]
                != '>',
    ensures
        protocol::attributes(closed_tag(name, key, value)) == seq![("name"@, name), (key, value)],
{
    reveal_strlit("<tool_call name=\"");
    reveal_strlit("\" ");
    reveal_strlit("=\"");
    reveal_strlit("\"/>");
    reveal_strlit("name");
    let tag = closed_tag(name, key, value);
    lemma_trimmed_solid(tag);
    let opened = text::dropped_front(tag, CharClass::Only('<'));
    assert(opened =~= tag.skip(1)) by {
        assert(tag.skip(1)[0] == 't');
        assert(text::dropped_front(tag.skip(1), CharClass::Only('<')) == tag.skip(1));
    }
    let without_gt = text::dropped_back(opened, CharClass::Only('>'));
    let slashed = tag.subrange(1, tag.len() - 1);
    assert(without_gt =~= slashed) by {
        assert(opened.take(opened.len() - 1) =~= slashed);
        assert(slashed[slashed.len() - 1] == '/');
        assert(text::dropped_back(slashed, CharClass::Only('>')) == slashed);
    }
    let inner = tag.subrange(1, tag.len() - 2);
    assert(text::dropped_back(slashed, CharClass::Only('/')) =~= inner) by {
        assert(slashed.take(slashed.len() - 1) =~= inner);
        assert(inner[inner.len() - 1] == '"');
        assert(text::dropped_back(inner, CharClass::Only('/')) == inner);
    }
    assert(inner[0] == 't');
    lemma_trimmed_solid(inner);
    assert forall|j: int| 0 <= j < 9 implies !CharClass::Whitespace.holds(#[trigger] inner[j]) by {
        assert(inner[j] == "<tool_call name=\""@[j + 1]);
    }
    assert(inner[9] == ' ');
    text::lemma_class_at(inner, CharClass::Whitespace, 9);
    let pairs = inner.skip(10);
    let tail = key + seq!['=', '"'] + value + seq!['"'];
    let behind = seq![' '] + tail;
    assert(pairs =~= "name"@ + seq!['=', '"'] + name + seq!['"'] + behind);
    assert(text::trimmed_start(behind) == tail) by {
        assert(behind.skip(1) =~= tail);
        assert(tail[0] == key[0]);
        assert(text::trimmed_start(tail) == tail);
    }
    lemma_quoted_pair(pairs, "name"@, name, behind, tail);
    assert(tail =~= key + seq!['=', '"'] + value + seq!['"'] + Seq::<char>::empty());
    lemma_quoted_pair(tail, key, value, Seq::empty(), Seq::empty());
    assert(protocol::quoted_pairs(Seq::empty()) =~= Seq::empty());
    assert(protocol::quoted_pairs(pairs) =~= seq![("name"@, name), (key, value)]);
}

/// A text that is JSON and opens no call by a tag makes the calls that it lists, or else the
/// one that it is.
pub proof fn lemma_json_calls(s: Seq<char>, value: JsonView)
    requires
        opens_none(s),
        protocol::jsonish(s) == Some(value),
    ensures
        protocol::calls_in_value(value).len() > 0 ==> protocol::calls_in(s)
            == protocol::calls_in_value(value),
        protocol::calls_in_value(value).len() == 0 && protocol::fenced(s) is None ==> (
        protocol::call_in_value(value) matches Some(call) ==> protocol::calls_in(s) == seq![call]),
{
    lemma_no_open(s, protocol::tool_tags());
}

/// A text that opens no call by a tag and is not JSON itself makes the calls that its block
/// lists, or else the one that its block is.
pub proof fn lemma_block_calls(s: Seq<char>, block: Seq<char>, value: JsonView)
    requires
        opens_none(s),
        protocol::jsonish(s) is None,
        protocol::fenced(s) == Some(block),
        protocol::jsonish(block) == Some(value),
    ensures
        protocol::calls_in_value(value).len() > 0 ==> protocol::calls_in(s)
            == protocol::calls_in_value(value),
        protocol::calls_in_value(value).len() == 0 ==> (protocol::call_in_value(value) matches Some(
            call,
        ) ==> protocol::calls_in(s) == seq![call]),
{
    lemma_no_open(s, protocol::tool_tags());
}

/// A block is what stands between a line that begins with its fence and the next fence.
pub proof fn lemma_fenced(before: Seq<char>, body: Seq<char>, behind: Seq<char>)
    requires
        forall|k: int| 0 <= k < before.len() ==> #[trigger] before[k] != '`',
        forall|k: int| 0 <= k < body.len() ==> #[trigger] body[k] != '`',
    ensures
        protocol::fenced(before + "```json\n"@ + body + "```"@ + behind) == Some(body),
{
    reveal_strlit("```json\n");
    reveal_strlit("```json");
    reveal_strlit("```");
    let s = before + "```json\n"@ + body + "```"@ + behind;
    let i = before.len() as int;
    assert(s.subrange(i, i + 7) =~= "```json"@);
    assert forall|j: int| 0 <= j < i implies !#[trigger] text::occurs(s, "```json"@, j) by {
        if text::occurs(s, "```json"@, j) {
            assert(s.subrange(j, j + 7)[0] == before[j]);
        }
    }
    text::lemma_first_at(s, "```json"@, i);
    let block = s.skip(i);
    assert(block =~= "```json\n"@ + body + "```"@ + behind);
    assert forall|j: int| 0 <= j < 7 implies !CharClass::Only('\n').holds(#[trigger] block[j]) by {
        assert(block[j] == "```json\n"@[j]);
    }
    assert(block[7] == '\n');
    text::lemma_class_at(block, CharClass::Only('\n'), 7);
    let inside = block.skip(8);
    assert(inside =~= body + "```"@ + behind);
    let n = body.len() as int;
    assert(inside.subrange(n, n + 3) =~= "```"@);
    assert forall|j: int| 0 <= j < n implies !#[trigger] text::occurs(inside, "```"@, j) by {
        if text::occurs(inside, "```"@, j) {
            assert(inside.subrange(j, j + 3)[0] == body[j]);
        }
    }
    text::lemma_first_at(inside, "```"@, n);
    assert(inside.take(n) =~= body);
}

/// A body without braces is read without the fence around it and without white space: one
/// of three backquotes, with the word `json` behind the first three or without.
pub proof fn lemma_unfenced(body: Seq<char>)
    requires
        forall|k: int|
            0 <= k < body.len() ==> #[trigger] body[k] != '`' && body[k] != '{' && body[k] != '}',
    ensures
        protocol::cleaned("```json"@ + body + "```"@) == text::trimmed(body),
        !text::begins(body, "json"@) ==> protocol::cleaned("```"@ + body + "```"@) == text::trimmed(
            body,
        ),
        protocol::cleaned(body) == text::trimmed(body),
{
    reveal_strlit("```json");
    reveal_strlit("```");
    reveal_strlit("json");
    let a = "```json"@ + body + "```"@;
    lemma_trimmed_solid(a);
    assert(a.take("```json"@.len() as int) =~= "```json"@);
    let opened = a.skip("```json"@.len() as int);
    assert(opened =~= body + "```"@);
    lemma_fence_closed(body);
    lemma_no_braces(body);
    let b = "```"@ + body + "```"@;
    lemma_trimmed_solid(b);
    assert(b.take("```"@.len() as int) =~= "```"@);
    assert(b.skip("```"@.len() as int) =~= body + "```"@);
    if text::begins(b, "```json"@) {
        assert(b.take(7).skip(3) =~= "json"@);
        if body.len() >= 4 {
            assert(body.take(4) =~= b.take(7).skip(3));
        } else {
            assert(b.take(7)[3int + body.len()] == b[3int + body.len()]);
            assert(b[3int + body.len()] == '`');
            assert("```json"@[3int + body.len()] != '`');
        }
    }
    let t = text::trimmed(body);
    assert(t.len() > 0 ==> t[0] != '`' && t[t.len() - 1] != '`') by {
        lemma_part_of_trimmed(body);
    }
    if text::begins(t, "```json"@) {
        assert(t.take(7)[0] == t[0]);
    }
    if text::begins(t, "```"@) {
        assert(t.take(3)[0] == t[0]);
    }
    if text::ends(t, "```"@) {
        assert(t.skip(t.len() - 3)[2] == t[t.len() - 1]);
    }
    assert(text::trimmed(t) == t) by {
        lemma_part_of_trimmed(body);
    }
}

/// What is left of a text by trimming is a part of it, and is not trimmed further.
proof fn lemma_part_of_trimmed(s: Seq<char>)
    ensures
        forall|k: int|
            0 <= k < text::trimmed(s).len() ==> s.contains(#[trigger] text::trimmed(s)[k]),
        text::trimmed(text::trimmed(s)) == text::trimmed(s),
{
    let class = CharClass::Whitespace;
    let i = crate::text_laws::lemma_front(s, class);
    let front = s.skip(i);
    let j = crate::text_laws::lemma_back(front, class);
    let t = front.take(j);
    assert(text::trimmed(s) == t);
    assert forall|k: int| 0 <= k < t.len() implies s.contains(#[trigger] t[k]) by {
        assert(t[k] == s[i + k]);
    }
    if t.len() > 0 {
        assert(t[0] == s[i] && t[t.len() - 1] == front[j - 1]);
        lemma_trimmed_solid(t);
    }
}

proof fn lemma_fence_closed(body: Seq<char>)
    ensures
        text::ends(body + "```"@, "```"@),
        (body + "```"@).take((body + "```"@).len() - "```"@.len()) == body,
{
    let s = body + "```"@;
    assert(s.skip(s.len() - "```"@.len()) =~= "```"@);
    assert(s.take(s.len() - "```"@.len()) =~= body);
}

proof fn lemma_no_braces(body: Seq<char>)
    requires
        forall|k: int| 0 <= k < body.len() ==> #[trigger] body[k] != '{' && body[k] != '}',
    ensures
        text::class_from(text::trimmed(body), CharClass::Only('{'), 0) is None,
        text::class_from(text::trimmed(text::trimmed(body)), CharClass::Only('{'), 0) is None,
{
    lemma_part_of_trimmed(body);
    let t = text::trimmed(body);
    text::lemma_class_from(t, CharClass::Only('{'), 0);
    if let Some(k) = text::class_from(t, CharClass::Only('{'), 0) {
        assert(body.contains(t[k]));
    }
}

/// An attribute is a key, but for white space around it, and a value between quotes of
/// either kind; what is behind it is read in the same way, and a key without a quoted value
/// ends the attributes.
pub proof fn lemma_attribute_read(
    key: Seq<char>,
    quote: char,
    value: Seq<char>,
    behind: Seq<char>,
    other: char,
)
    requires
        quote == '"' || quote == '\'',
        !text::blank(key),
        forall|k: int| 0 <= k < key.len() ==> #[trigger] key[k] != '=',
        forall|k: int| 0 <= k < value.len() ==> #[trigger] value[k] != quote,
        other != '"',
        other != '\'',
        !text::whitespace(other),
    ensures
        protocol::quoted_pairs(key + seq!['=', quote] + value + seq![quote] + behind) == seq![
            (text::trimmed(key), value),
        ] + protocol::quoted_pairs(text::trimmed_start(behind)),
        protocol::quoted_pairs(key + seq!['=', ' ', quote] + value + seq![quote] + behind) == seq![
            (text::trimmed(key), value),
        ] + protocol::quoted_pairs(text::trimmed_start(behind)),
        protocol::quoted_pairs(key + seq!['=', other] + value).len() == 0,
        protocol::quoted_pairs(key).len() == 0,
{
    let n = key.len() as int;
    let equals = CharClass::Only('=');
    let inside = value + seq![quote] + behind;
    let quoted = seq![quote] + inside;
    assert(quoted.skip(1) =~= inside);
    assert(text::trimmed_start(quoted) == quoted);
    assert forall|j: int| 0 <= j < value.len() implies !CharClass::Only(quote).holds(
        #[trigger] inside[j],
    ) by {
        assert(inside[j] == value[j]);
    }
    assert(inside[value.len() as int] == quote);
    text::lemma_class_at(inside, CharClass::Only(quote), value.len() as int);
    assert(inside.take(value.len() as int) =~= value);
    assert(inside.skip(value.len() as int + 1) =~= behind);
    let a = key + seq!['=', quote] + value + seq![quote] + behind;
    assert(a.take(n) =~= key);
    lemma_key_ends(key, a);
    assert(a.skip(n + 1) =~= quoted);
    let b = key + seq!['=', ' ', quote] + value + seq![quote] + behind;
    assert(b.take(n) =~= key);
    lemma_key_ends(key, b);
    assert(b.skip(n + 1) =~= seq![' '] + quoted);
    assert((seq![' '] + quoted).skip(1) =~= quoted);
    assert(text::trimmed_start(seq![' '] + quoted) == quoted);
    let c = key + seq!['=', other] + value;
    assert(c.take(n) =~= key);
    lemma_key_ends(key, c);
    let bare = c.skip(n + 1);
    assert(bare[0] == other);
    assert(text::trimmed_start(bare) == bare);
    text::lemma_class_from(key, equals, 0);
    if let Some(k) = text::class_from(key, equals, 0) {
        assert(key[k] == '=');
    }
}

/// A key ends at the first equals sign.
proof fn lemma_key_ends(key: Seq<char>, s: Seq<char>)
    requires
        s.len() > key.len(),
        s.take(key.len() as int) == key,
        s[key.len() as int] == '=',
        forall|k: int| 0 <= k < key.len() ==> #[trigger] key[k] != '=',
    ensures
        text::class_from(s, CharClass::Only('='), 0) == Some(key.len() as int),
{
    assert forall|j: int| 0 <= j < key.len() implies !CharClass::Only('=').holds(
        #[trigger] s[j],
    ) by {
        assert(s.take(key.len() as int)[j] == key[j]);
    }
    text::lemma_class_at(s, CharClass::Only('='), key.len() as int);
}

/// A block whose fence names another language, or none, is read where no fence names JSON.
pub proof fn lemma_other_fence(
    before: Seq<char>,
    language: Seq<char>,
    body: Seq<char>,
    behind: Seq<char>,
)
    requires
        forall|k: int| 0 <= k < before.len() ==> #[trigger] before[k] != '`',
        forall|k: int| 0 <= k < language.len() ==> #[trigger] language[k] != '\n',
        forall|k: int| 0 <= k < body.len() ==> #[trigger] body[k] != '`',
        !text::has(before + "```"@ + language + "\n"@ + body + "```"@ + behind, "```json"@),
    ensures
        protocol::fenced(before + "```"@ + language + "\n"@ + body + "```"@ + behind) == Some(body),
{
    reveal_strlit("```");
    reveal_strlit("\n");
    let s = before + "```"@ + language + "\n"@ + body + "```"@ + behind;
    let i = before.len() as int;
    text::lemma_has_first(s, "```json"@);
    assert(s.subrange(i, i + 3) =~= "```"@);
    assert forall|j: int| 0 <= j < i implies !#[trigger] text::occurs(s, "```"@, j) by {
        if text::occurs(s, "```"@, j) {
            assert(s.subrange(j, j + 3)[0] == before[j]);
        }
    }
    text::lemma_first_at(s, "```"@, i);
    let block = s.skip(i);
    let m = 3 + language.len() as int;
    assert(block =~= "```"@ + language + "\n"@ + body + "```"@ + behind);
    assert forall|j: int| 0 <= j < m implies !CharClass::Only('\n').holds(#[trigger] block[j]) by {
        if j >= 3 {
            assert(block[j] == language[j - 3]);
        }
    }
    assert(block[m] == '\n');
    text::lemma_class_at(block, CharClass::Only('\n'), m);
    let inside = block.skip(m + 1);
    assert(inside =~= body + "```"@ + behind);
    let n = body.len() as int;
    assert(inside.subrange(n, n + 3) =~= "```"@);
    assert forall|j: int| 0 <= j < n implies !#[trigger] text::occurs(inside, "```"@, j) by {
        if text::occurs(inside, "```"@, j) {
            assert(inside.subrange(j, j + 3)[0] == body[j]);
        }
    }
    text::lemma_first_at(inside, "```"@, n);
    assert(inside.take(n) =~= body);
}

} // verus!
