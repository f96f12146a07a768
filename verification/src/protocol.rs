//! Tool calls in the text of a model that knows no tools: what the prompt says of
//! them, and how they are read off what the model wrote.
use vstd::prelude::*;

use crate::json;
use crate::json::{Json, JsonObject, JsonView};
use crate::protocol_laws;
use crate::text;
use crate::text::CharClass;
use crate::types::{CallView, ParsedToolCall, ToolDefinition, ToolView};
use crate::views;

verus! {

// ---------------------------------------------------------------------------
// What the calls of a text are
// ---------------------------------------------------------------------------

/// How a tool call may open, each with the tag that closes it. Of two that open at
/// one place, the one listed first counts.
pub open spec fn tool_tags() -> Seq<(Seq<char>, Seq<char>)> {
    seq![
        ("<tool_call"@, "</tool_call>"@),
        ("tool_call"@, "</tool_call>"@),
        ("<previous_tool_call"@, "</previous_tool_call>"@),
        ("previous_tool_call"@, "</previous_tool_call>"@),
        ("<tool_invoke"@, "</tool_invoke>"@),
        ("tool_invoke"@, "</tool_invoke>"@),
        ("<aeon_tool_call"@, "</aeon_tool_call>"@),
        ("aeon_tool_call"@, "</aeon_tool_call>"@),
        ("<aeon_tool_call"@, "</aeon_tool_calls>"@),
        ("aeon_tool_call"@, "</aeon_tool_calls>"@),
    ]
}

/// Where the first of these opening tags stands, with the tag that closes it.
pub open spec fn first_open(s: Seq<char>, tags: Seq<(Seq<char>, Seq<char>)>) -> Option<
    (int, Seq<char>),
>
    decreases tags.len(),
{
    if tags.len() == 0 {
        None
    } else {
        let earlier = first_open(s, tags.take(tags.len() - 1));
        let (open, close) = tags[tags.len() - 1];
        match text::first(s, open) {
            None => earlier,
            Some(i) => match earlier {
                Some((j, _)) if j <= i => earlier,
                _ => Some((i, close)),
            },
        }
    }
}

/// The tag that closes the call that `tag` opened, in view of what follows it.
pub open spec fn closing(tag: Seq<char>, after: Seq<char>, usual: Seq<char>) -> Seq<char> {
    let aeon = text::has(tag, "aeon_tool_call"@);
    if aeon && text::has(after, "</aeon_tool_call>"@) {
        "</aeon_tool_call>"@
    } else if aeon && text::has(after, "</aeon_tool_calls>"@) {
        "</aeon_tool_calls>"@
    } else if text::has(tag, "tool_invoke"@) {
        "</tool_invoke>"@
    } else if text::has(tag, "previous_tool_call"@) && text::has(after, "</tool_call>"@) {
        "</tool_call>"@
    } else {
        usual
    }
}

/// The pairs `key="value"` of `s`, up to the first that has no quoted value. The
/// quotes may be single; a pair without a key is left out.
pub open spec fn quoted_pairs(s: Seq<char>) -> Seq<(Seq<char>, Seq<char>)>
    decreases s.len(),
{
    match text::class_from(s, CharClass::Only('='), 0) {
        None => Seq::empty(),
        Some(eq) => {
            let key = text::trimmed(s.take(eq));
            let quoted = text::trimmed_start(s.skip(eq + 1));
            if quoted.len() > 0 && (quoted[0] == '"' || quoted[0] == '\'') {
                let value = quoted.skip(1);
                match text::class_from(value, CharClass::Only(quoted[0]), 0) {
                    None => Seq::empty(),
                    Some(end) => {
                        let pair = if key.len() > 0 {
                            seq![(key, value.take(end))]
                        } else {
                            Seq::empty()
                        };
                        let rest = text::trimmed_start(value.skip(end + 1));
                        proof {
                            text::lemma_class_from(s, CharClass::Only('='), 0);
                            text::lemma_class_from(value, CharClass::Only(quoted[0]), 0);
                            text::lemma_dropped_front_len(s.skip(eq + 1), CharClass::Whitespace);
                            text::lemma_dropped_front_len(
                                value.skip(end + 1),
                                CharClass::Whitespace,
                            );
                        }
                        pair + quoted_pairs(rest)
                    },
                }
            } else {
                Seq::empty()
            }
        },
    }
}

/// The attributes of an opening tag.
pub open spec fn attributes(tag: Seq<char>) -> Seq<(Seq<char>, Seq<char>)> {
    let opened = text::dropped_front(text::trimmed(tag), CharClass::Only('<'));
    let closed_off = text::dropped_back(
        text::dropped_back(opened, CharClass::Only('>')),
        CharClass::Only('/'),
    );
    let inner = text::trimmed(closed_off);
    match text::class_from(inner, CharClass::Whitespace, 0) {
        Some(i) => quoted_pairs(inner.skip(i + 1)),
        None => Seq::empty(),
    }
}

/// The value of the first pair with this key.
pub open spec fn value_for(pairs: Seq<(Seq<char>, Seq<char>)>, key: Seq<char>) -> Option<Seq<char>>
    decreases pairs.len(),
{
    if pairs.len() == 0 {
        None
    } else if pairs[0].0 == key {
        Some(pairs[0].1)
    } else {
        value_for(pairs.skip(1), key)
    }
}

/// The value of an attribute of an opening tag.
pub open spec fn attribute(tag: Seq<char>, key: Seq<char>) -> Option<Seq<char>> {
    value_for(attributes(tag), key)
}

/// The id of a call that has none of its own.
pub open spec fn numbered_id(n: nat) -> Seq<char> {
    "call_"@ + text::decimal(n)
}

/// Whether an opening tag closes itself.
pub open spec fn self_closing(tag: Seq<char>) -> bool {
    text::ends(text::trimmed_end(tag), "/>"@)
}

/// `s` without the fence that a code block has around it, and then only what
/// stands between the first opening and the last closing brace.
pub open spec fn cleaned(s: Seq<char>) -> Seq<char> {
    let t = text::trimmed(s);
    let opened = if text::begins(t, "```json"@) {
        t.skip("```json"@.len() as int)
    } else if text::begins(t, "```"@) {
        t.skip("```"@.len() as int)
    } else {
        t
    };
    let closed_off = if text::ends(opened, "```"@) {
        opened.take(opened.len() - "```"@.len())
    } else {
        opened
    };
    let inner = text::trimmed(closed_off);
    match (text::class_from(inner, CharClass::Only('{'), 0), text::last_index(inner, '}')) {
        (Some(start), Some(end)) if start <= end => inner.subrange(start, end + 1),
        _ => inner,
    }
}

/// Whether the first opening brace of `s` is at `i`, and its last closing brace at `j`.
pub open spec fn outer_braces(s: Seq<char>, i: int, j: int) -> bool {
    text::class_from(s, CharClass::Only('{'), 0) == Some(i) && text::last_index(s, '}') == Some(j)
}

/// The JSON value in `s`, be it fenced or surrounded by other text.
pub open spec fn jsonish(s: Seq<char>) -> Option<JsonView> {
    json::parsed(cleaned(s))
}

/// The arguments that a call gives under one of their usual names.
pub open spec fn arguments_of(call: JsonView) -> Option<JsonView> {
    match call.get("arguments"@) {
        Some(value) => Some(value),
        None => match call.get("args"@) {
            Some(value) => Some(value),
            None => call.get("input"@),
        },
    }
}

/// The call that an opening tag makes with a body that says this value. The name may
/// stand in the tag or in the value.
pub open spec fn call_with_value(tag: Seq<char>, value: JsonView, n: nat) -> Option<CallView> {
    let name = match attribute(tag, "name"@) {
        Some(name) => Some(name),
        None => value.text_at("name"@),
    };
    match name {
        None => None,
        Some(name) => Some(
            CallView {
                id: match attribute(tag, "id"@) {
                    Some(id) => id,
                    None => numbered_id(n),
                },
                name,
                arguments: json::compact(
                    match arguments_of(value) {
                        Some(arguments) => arguments,
                        None => value,
                    },
                ),
            },
        ),
    }
}

/// The call that an opening tag makes with the body that follows it.
pub open spec fn call_with_body(tag: Seq<char>, body: Seq<char>, n: nat) -> Option<CallView> {
    match jsonish(body) {
        None => None,
        Some(value) => call_with_value(tag, value, n),
    }
}

/// The attributes that are arguments of the call: all but its id and name.
pub open spec fn argument_members(pairs: Seq<(Seq<char>, Seq<char>)>) -> Seq<(Seq<char>, JsonView)>
    decreases pairs.len(),
{
    if pairs.len() == 0 {
        Seq::empty()
    } else {
        let (key, value) = pairs[pairs.len() - 1];
        let earlier = argument_members(pairs.take(pairs.len() - 1));
        if key == "id"@ || key == "name"@ {
            earlier
        } else {
            earlier.push((key, JsonView::Text(value)))
        }
    }
}

/// The call that a tag makes which closes itself.
pub open spec fn call_without_body(tag: Seq<char>, n: nat) -> Option<CallView> {
    match attribute(tag, "name"@) {
        None => None,
        Some(name) => Some(
            CallView {
                id: match attribute(tag, "id"@) {
                    Some(id) => id,
                    None => numbered_id(n),
                },
                name,
                arguments: json::compact(JsonView::object(argument_members(attributes(tag)))),
            },
        ),
    }
}

/// The calls of `found`, if it is one.
pub open spec fn at_most_one(found: Option<CallView>) -> Seq<CallView> {
    match found {
        Some(call) => seq![call],
        None => Seq::empty(),
    }
}

/// The calls that stand in `s` as tags, after `found` others. A tag that is not
/// closed ends the search; a call that cannot be read is passed over.
pub open spec fn tagged_calls(s: Seq<char>, found: nat) -> Seq<CallView>
    decreases s.len(),
{
    match first_open(s, tool_tags()) {
        None => Seq::empty(),
        Some((start, usual)) => {
            let opened = s.skip(start);
            match text::class_from(opened, CharClass::Only('>'), 0) {
                None => Seq::empty(),
                Some(end) => {
                    let tag = opened.take(end + 1);
                    let after = opened.skip(end + 1);
                    proof {
                        lemma_first_open(s, tool_tags());
                        text::lemma_class_from(opened, CharClass::Only('>'), 0);
                    }
                    if self_closing(tag) {
                        let call = at_most_one(call_without_body(tag, found + 1));
                        call + tagged_calls(after, found + call.len())
                    } else {
                        let close = closing(tag, after, usual);
                        match text::first(after, close) {
                            None => Seq::empty(),
                            Some(at) => {
                                let call = at_most_one(
                                    call_with_body(tag, after.take(at), found + 1),
                                );
                                proof {
                                    text::lemma_first_from(after, close, 0);
                                }
                                call + tagged_calls(
                                    after.skip(at + close.len()),
                                    found + call.len(),
                                )
                            },
                        }
                    }
                },
            }
        },
    }
}

/// The opening tag that was found stands in the text.
pub proof fn lemma_first_open(s: Seq<char>, tags: Seq<(Seq<char>, Seq<char>)>)
    ensures
        first_open(s, tags) matches Some((i, _)) ==> 0 <= i <= s.len(),
    decreases tags.len(),
{
    if tags.len() > 0 {
        lemma_first_open(s, tags.take(tags.len() - 1));
        text::lemma_first_from(s, tags[tags.len() - 1].0, 0);
    }
}

/// `value`'s member with the first of these keys that it has.
pub open spec fn first_member(value: JsonView, keys: Seq<Seq<char>>) -> Option<JsonView>
    decreases keys.len(),
{
    if keys.len() == 0 {
        None
    } else {
        match value.get(keys[0]) {
            Some(member) => Some(member),
            None => first_member(value, keys.skip(1)),
        }
    }
}

/// The one call that a value is, by itself or under one of its usual keys.
pub open spec fn call_in_value(value: JsonView) -> Option<CallView> {
    let call = match first_member(value, seq!["tool_call"@, "toolCall"@, "function_call"@]) {
        Some(call) => call,
        None => value,
    };
    match call.text_at("name"@) {
        None => None,
        Some(name) => Some(
            CallView {
                id: match call.text_at("id"@) {
                    Some(id) => id,
                    None => "call_1"@,
                },
                name,
                arguments: match arguments_of(call) {
                    Some(JsonView::Text(raw)) => raw,
                    Some(arguments) => json::compact(arguments),
                    None => json::compact(JsonView::empty_object()),
                },
            },
        ),
    }
}

/// The one call that `s` is as JSON.
pub open spec fn single_call(s: Seq<char>) -> Option<CallView> {
    match jsonish(s) {
        None => None,
        Some(value) => call_in_value(value),
    }
}

/// The `n`th call of a list of calls, unless it has no name.
pub open spec fn listed_call(call: JsonView, n: nat) -> Option<CallView> {
    let name = match call.text_at("name"@) {
        Some(name) => Some(name),
        None => match call.get("function"@) {
            Some(function) => function.text_at("name"@),
            None => None,
        },
    };
    let arguments = match arguments_of(call) {
        Some(arguments) => Some(arguments),
        None => match call.get("function"@) {
            Some(function) => function.get("arguments"@),
            None => None,
        },
    };
    match name {
        None => None,
        Some(name) => Some(
            CallView {
                id: match call.text_at("id"@) {
                    Some(id) => id,
                    None => numbered_id(n),
                },
                name,
                arguments: match arguments {
                    Some(JsonView::Text(raw)) => cleaned(raw),
                    Some(arguments) => json::compact(arguments),
                    None => json::compact(JsonView::empty_object()),
                },
            },
        ),
    }
}

/// The calls of a list of calls, without those that have no name.
pub open spec fn listed_calls(items: Seq<JsonView>) -> Seq<CallView>
    decreases items.len(),
{
    if items.len() == 0 {
        Seq::empty()
    } else {
        listed_calls(items.take(items.len() - 1)) + at_most_one(
            listed_call(items[items.len() - 1], items.len()),
        )
    }
}

/// The calls that a value lists under one of the usual keys.
pub open spec fn calls_in_value(value: JsonView) -> Seq<CallView> {
    match first_member(value, seq!["tool_calls"@, "toolCalls"@, "tools"@]) {
        Some(JsonView::Array(items)) => listed_calls(items),
        _ => Seq::empty(),
    }
}

/// The calls that `s` lists as JSON.
pub open spec fn array_calls(s: Seq<char>) -> Seq<CallView> {
    match jsonish(s) {
        None => Seq::empty(),
        Some(value) => calls_in_value(value),
    }
}

/// What stands in the first fenced block of `s`, a JSON block before others: from
/// the line after the fence, or right after it if no line follows.
pub open spec fn fenced(s: Seq<char>) -> Option<Seq<char>> {
    let marker = match text::first(s, "```json"@) {
        Some(i) => Some(i),
        None => text::first(s, "```"@),
    };
    match marker {
        None => None,
        Some(i) => {
            let block = s.skip(i);
            let body = match text::class_from(block, CharClass::Only('\n'), 0) {
                Some(k) => block.skip(k + 1),
                None => block.skip(3),
            };
            match text::first(body, "```"@) {
                Some(end) => Some(body.take(end)),
                None => None,
            }
        },
    }
}

/// The tool calls in what a model wrote: those given by tags; without any, those
/// of a list in JSON; without any, those of such a list in a fenced block;
/// without any, the one call in JSON, fenced or not.
pub open spec fn calls_in(s: Seq<char>) -> Seq<CallView> {
    let tagged = tagged_calls(s, 0);
    let listed = array_calls(s);
    let listed_in_block = match fenced(s) {
        Some(block) => array_calls(block),
        None => Seq::empty(),
    };
    if tagged.len() > 0 {
        tagged
    } else if listed.len() > 0 {
        listed
    } else if listed_in_block.len() > 0 {
        listed_in_block
    } else {
        match single_call(s) {
            Some(call) => seq![call],
            None => match fenced(s) {
                Some(block) => at_most_one(single_call(block)),
                None => Seq::empty(),
            },
        }
    }
}

// ---------------------------------------------------------------------------
// Reading the calls
// ---------------------------------------------------------------------------

/// The views of pairs of texts.
pub open spec fn pairs_of(pairs: Seq<(String, String)>) -> Seq<(Seq<char>, Seq<char>)> {
    pairs.map_values(|p: (String, String)| (p.0@, p.1@))
}

/// The pairs `key="value"` of `s`, up to the first that has no quoted value.
fn find_quoted_pairs(s: &[char]) -> (r: Vec<(String, String)>)
    ensures
        pairs_of(r@) == quoted_pairs(s@),
{
    let mut found: Vec<(String, String)> = Vec::new();
    let mut rest = s;
    assert(pairs_of(found@) + quoted_pairs(rest@) =~= quoted_pairs(s@));
    loop
        invariant
            pairs_of(found@) + quoted_pairs(rest@) == quoted_pairs(s@),
        decreases rest@.len(),
    {
        let eq = match text::find_class(rest, CharClass::Only('=')) {
            Some(eq) => eq,
            None => {
                assert(pairs_of(found@) =~= quoted_pairs(s@));
                return found;
            },
        };
        let key = text::trim(text::before(rest, eq));
        let quoted = text::trim_start(text::after(rest, eq + 1));
        if quoted.len() == 0 || (quoted[0] != '"' && quoted[0] != '\'') {
            assert(pairs_of(found@) =~= quoted_pairs(s@));
            return found;
        }
        let value = text::after(quoted, 1);
        let end = match text::find_class(value, CharClass::Only(quoted[0])) {
            Some(end) => end,
            None => {
                assert(pairs_of(found@) =~= quoted_pairs(s@));
                return found;
            },
        };
        let ghost before = found@;
        let ghost whole = rest@;
        let value_text = text::before(value, end);
        if key.len() > 0 {
            found.push((text::string_of(key), text::string_of(value_text)));
            assert(pairs_of(found@) =~= pairs_of(before).push((key@, value_text@)));
        }
        proof {
            text::lemma_dropped_front_len(rest@.skip(eq + 1), CharClass::Whitespace);
            text::lemma_dropped_front_len(value@.skip(end + 1), CharClass::Whitespace);
        }
        rest = text::trim_start(text::after(value, end + 1));
        assert(pairs_of(found@) + quoted_pairs(rest@) =~= pairs_of(before) + quoted_pairs(whole));
    }
}

/// The attributes of an opening tag.
fn attrs(open_tag: &[char]) -> (r: Vec<(String, String)>)
    ensures
        pairs_of(r@) == attributes(open_tag@),
{
    let opened = text::drop_front(text::trim(open_tag), CharClass::Only('<'));
    let closed_off = text::drop_back(
        text::drop_back(opened, CharClass::Only('>')),
        CharClass::Only('/'),
    );
    let inner = text::trim(closed_off);
    match text::find_class(inner, CharClass::Whitespace) {
        Some(i) => find_quoted_pairs(text::after(inner, i + 1)),
        None => {
            let none: Vec<(String, String)> = Vec::new();
            assert(pairs_of(none@) =~= Seq::empty());
            none
        },
    }
}

/// The value of an attribute of an opening tag.
fn attr(open_tag: &[char], key: &str) -> (r: Option<String>)
    ensures
        views::of_option(r) == attribute(open_tag@, key@),
{
    let pairs = attrs(open_tag);
    let ghost all = pairs_of(pairs@);
    let mut i: usize = 0;
    assert(all.skip(0) =~= all);
    while i < pairs.len()
        invariant
            i <= pairs@.len(),
            all == pairs_of(pairs@),
            value_for(all.skip(i as int), key@) == value_for(all, key@),
            all == attributes(open_tag@),
        decreases pairs.len() - i,
    {
        if text::same(pairs[i].0.as_str(), key) {
            return Some(pairs[i].1.clone());
        }
        assert(all.skip(i as int).skip(1) =~= all.skip(i + 1));
        i += 1;
    }
    None
}

/// Whether an opening tag closes itself.
fn is_self_closing_tag(open_tag: &[char]) -> (r: bool)
    ensures
        r == self_closing(open_tag@),
{
    text::ends_with_text(text::trim_end(open_tag), "/>")
}

/// The tag that closes the call that `open_tag` opened.
fn best_close_tag(open_tag: &[char], after_open: &[char], fallback: &'static str) -> (r:
    &'static str)
    ensures
        r@ == closing(open_tag@, after_open@, fallback@),
{
    if text::has_text(open_tag, "aeon_tool_call") {
        if text::has_text(after_open, "</aeon_tool_call>") {
            return "</aeon_tool_call>";
        }
        if text::has_text(after_open, "</aeon_tool_calls>") {
            return "</aeon_tool_calls>";
        }
    }
    if text::has_text(open_tag, "tool_invoke") {
        return "</tool_invoke>";
    }
    if text::has_text(open_tag, "previous_tool_call") && text::has_text(
        after_open,
        "</tool_call>",
    ) {
        return "</tool_call>";
    }
    fallback
}

/// `raw` without a fence around it, and then only what its outer braces hold. Where an
/// opening brace stands before a closing one, that is exactly what is from the first
/// opening to the last closing brace, and cleaning it again changes nothing.
pub fn clean_jsonish(raw: &str) -> (r: String)
    ensures
        r@ == cleaned(raw@),
        forall|i: int, j: int|
            i < j && #[trigger] outer_braces(raw@, i, j) ==> r@ == raw@.subrange(i, j + 1)
                && cleaned(r@) == r@,
{
    let chars = text::chars_of(raw);
    let r = clean(chars.as_slice());
    proof {
        assert forall|i: int, j: int| i < j && #[trigger] outer_braces(raw@, i, j) implies r@
            == raw@.subrange(i, j + 1) && cleaned(r@) == r@ by {
            protocol_laws::lemma_cleaned_to_braces(raw@, i, j);
        }
    }
    r
}

/// `raw` without a fence around it, and then only what its outer braces hold.
fn clean(raw: &[char]) -> (r: String)
    ensures
        r@ == cleaned(raw@),
{
    proof {
        reveal_strlit("```json");
        reveal_strlit("```");
    }
    let trimmed = text::trim(raw);
    let opened = if text::begins_with_text(trimmed, "```json") {
        text::after(trimmed, 7)
    } else if text::begins_with_text(trimmed, "```") {
        text::after(trimmed, 3)
    } else {
        trimmed
    };
    let closed_off = if text::ends_with_text(opened, "```") {
        text::before(opened, opened.len() - 3)
    } else {
        opened
    };
    let inner = text::trim(closed_off);
    if let (Some(start), Some(end)) = (
        text::find_class(inner, CharClass::Only('{')),
        text::find_last(inner, '}'),
    ) {
        if start <= end {
            return text::string_of(vstd::slice::slice_subrange(inner, start, end + 1));
        }
    }
    text::string_of(inner)
}

/// Reads the JSON value in `raw`, be it fenced or surrounded by other text.
fn parse_jsonish(raw: &[char]) -> (r: Option<Json>)
    ensures
        views::of_option(r) == jsonish(raw@),
{
    json::parse_json(clean(raw).as_str())
}

/// The id of a call that has none of its own.
fn numbered(n: usize) -> (r: String)
    ensures
        r@ == numbered_id(n as nat),
{
    let mut id = "call_".to_owned();
    id.append(text::decimal_of(n as u64).as_str());
    id
}

/// The arguments that a call gives under one of their usual names.
fn find_arguments(call: &Json) -> (r: Option<&Json>)
    ensures
        views::of_option(r) == arguments_of(call@),
{
    match call.get("arguments") {
        Some(value) => Some(value),
        None => match call.get("args") {
            Some(value) => Some(value),
            None => call.get("input"),
        },
    }
}

/// The call that an opening tag makes with a body that says this value.
pub fn tagged_call(open_tag: &[char], value: &Json, index: usize) -> (r: Option<ParsedToolCall>)
    ensures
        views::of_option(r) == call_with_value(open_tag@, value@, index as nat),
{
    let name = match attr(open_tag, "name") {
        Some(name) => name,
        None => match value.text_at("name") {
            Some(name) => name.to_owned(),
            None => {
                return None;
            },
        },
    };
    let id = match attr(open_tag, "id") {
        Some(id) => id,
        None => numbered(index),
    };
    let arguments = match find_arguments(value) {
        Some(arguments) => arguments.to_text(),
        None => value.to_text(),
    };
    Some(ParsedToolCall { id, name, arguments })
}

/// The call that an opening tag makes with the body that follows it.
fn parse_one(open_tag: &[char], body: &[char], index: usize) -> (r: Option<ParsedToolCall>)
    ensures
        views::of_option(r) == call_with_body(open_tag@, body@, index as nat),
{
    match parse_jsonish(body) {
        Some(value) => tagged_call(open_tag, &value, index),
        None => None,
    }
}

/// The attributes that are arguments of the call, as a JSON object.
fn attribute_arguments(pairs: &Vec<(String, String)>) -> (r: JsonObject)
    ensures
        r@ == json::collected(argument_members(pairs_of(pairs@))),
{
    let ghost all = pairs_of(pairs@);
    let mut object = JsonObject::new();
    let mut i: usize = 0;
    assert(argument_members(all.take(0)) =~= Seq::empty());
    while i < pairs.len()
        invariant
            i <= pairs@.len(),
            all == pairs_of(pairs@),
            object@ == json::collected(argument_members(all.take(i as int))),
        decreases pairs.len() - i,
    {
        let ghost next = all.take(i + 1);
        assert(next.take(i as int) =~= all.take(i as int));
        let key = &pairs[i].0;
        let value = &pairs[i].1;
        if !text::same(key.as_str(), "id") && !text::same(key.as_str(), "name") {
            let ghost earlier = argument_members(all.take(i as int));
            let ghost members = earlier.push((key@, JsonView::Text(value@)));
            assert(members.take(members.len() - 1) =~= earlier);
            object = object.with(key.clone(), Json::Text(value.clone()));
        }
        i += 1;
    }
    assert(all.take(i as int) =~= all);
    object
}

/// The call that a tag makes which closes itself.
fn parse_self_closing(open_tag: &[char], index: usize) -> (r: Option<ParsedToolCall>)
    ensures
        views::of_option(r) == call_without_body(open_tag@, index as nat),
{
    let name = match attr(open_tag, "name") {
        Some(name) => name,
        None => {
            return None;
        },
    };
    let id = match attr(open_tag, "id") {
        Some(id) => id,
        None => numbered(index),
    };
    let arguments = Json::Object(attribute_arguments(&attrs(open_tag))).to_text();
    Some(ParsedToolCall { id, name, arguments })
}

/// The views of a list of tags.
spec fn tag_views(tags: Seq<(&'static str, &'static str)>) -> Seq<(Seq<char>, Seq<char>)> {
    tags.map_values(|t: (&'static str, &'static str)| (t.0@, t.1@))
}

/// How a tool call may open, each with the tag that closes it.
fn tool_tag_list() -> (r: Vec<(&'static str, &'static str)>)
    ensures
        tag_views(r@) == tool_tags(),
{
    let tags = vec![
        ("<tool_call", "</tool_call>"),
        ("tool_call", "</tool_call>"),
        ("<previous_tool_call", "</previous_tool_call>"),
        ("previous_tool_call", "</previous_tool_call>"),
        ("<tool_invoke", "</tool_invoke>"),
        ("tool_invoke", "</tool_invoke>"),
        ("<aeon_tool_call", "</aeon_tool_call>"),
        ("aeon_tool_call", "</aeon_tool_call>"),
        ("<aeon_tool_call", "</aeon_tool_calls>"),
        ("aeon_tool_call", "</aeon_tool_calls>"),
    ];
    assert(tag_views(tags@) =~= tool_tags());
    tags
}

/// Where the first opening tag stands, with the tag that closes it.
fn next_tool_open(s: &[char]) -> (r: Option<(usize, &'static str)>)
    ensures
        r matches Some((i, close)) ==> i <= s@.len() && first_open(s@, tool_tags()) == Some(
            (i as int, close@),
        ),
        r is None ==> first_open(s@, tool_tags()) is None,
{
    let tags = tool_tag_list();
    let ghost all = tag_views(tags@);
    let mut best: Option<(usize, &'static str)> = None;
    let mut k: usize = 0;
    while k < tags.len()
        invariant
            k <= tags@.len(),
            all == tag_views(tags@),
            best matches Some((i, close)) ==> i <= s@.len() && first_open(s@, all.take(k as int))
                == Some((i as int, close@)),
            best is None ==> first_open(s@, all.take(k as int)) is None,
        decreases tags.len() - k,
    {
        let ghost next = all.take(k + 1);
        assert(next.take(k as int) =~= all.take(k as int));
        assert(next[k as int] == all[k as int]);
        match text::find_text(s, tags[k].0) {
            None => {},
            Some(i) => match best {
                Some((j, _)) if j <= i => {},
                _ => {
                    best = Some((i, tags[k].1));
                },
            },
        }
        k += 1;
    }
    assert(all.take(k as int) =~= all);
    best
}

/// The calls that stand in `s` as tags.
fn collect_xml_tool_calls(s: &[char]) -> (r: Vec<ParsedToolCall>)
    ensures
        views::of_list(r@) == tagged_calls(s@, 0),
{
    let mut out: Vec<ParsedToolCall> = Vec::new();
    let mut rest = s;
    assert(views::of_list(out@) + tagged_calls(rest@, 0) =~= tagged_calls(s@, 0));
    loop
        invariant
            views::of_list(out@) + tagged_calls(rest@, out@.len()) == tagged_calls(s@, 0),
            out@.len() + rest@.len() <= s@.len(),
        decreases rest@.len(),
    {
        let ghost whole = rest@;
        let ghost before = out@;
        assert(s.len() == s@.len());
        let (start, usual) = match next_tool_open(rest) {
            Some(found) => found,
            None => {
                assert(views::of_list(out@) =~= tagged_calls(s@, 0));
                return out;
            },
        };
        let opened = text::after(rest, start);
        let end = match text::find_class(opened, CharClass::Only('>')) {
            Some(end) => end,
            None => {
                assert(views::of_list(out@) =~= tagged_calls(s@, 0));
                return out;
            },
        };
        let tag = text::before(opened, end + 1);
        let after_open = text::after(opened, end + 1);
        let (call, next) = if is_self_closing_tag(tag) {
            (parse_self_closing(tag, out.len() + 1), after_open)
        } else {
            let close = best_close_tag(tag, after_open, usual);
            let at = match text::find_text(after_open, close) {
                Some(at) => at,
                None => {
                    assert(views::of_list(out@) =~= tagged_calls(s@, 0));
                    return out;
                },
            };
            let body = text::before(after_open, at);
            let close_len = text::chars_of(close).len();
            (parse_one(tag, body, out.len() + 1), text::after(after_open, at + close_len))
        };
        let ghost made = at_most_one(views::of_option(call));
        if let Some(call) = call {
            out.push(call);
        }
        assert(views::of_list(out@) =~= views::of_list(before) + made);
        rest = next;
        assert(tagged_calls(whole, before.len()) == made + tagged_calls(rest@, out@.len()));
        assert(views::of_list(out@) + tagged_calls(rest@, out@.len()) =~= views::of_list(before)
            + tagged_calls(whole, before.len()));
    }
}

/// The one call that a value is.
pub fn value_call(value: &Json) -> (r: Option<ParsedToolCall>)
    ensures
        views::of_option(r) == call_in_value(value@),
{
    proof {
        reveal_with_fuel(first_member, 4);
    }
    let ghost keys = seq!["tool_call"@, "toolCall"@, "function_call"@];
    assert(keys.skip(1)[0] == "toolCall"@ && keys.skip(1).skip(1)[0] == "function_call"@);
    let call = match value.get("tool_call") {
        Some(call) => call,
        None => match value.get("toolCall") {
            Some(call) => call,
            None => match value.get("function_call") {
                Some(call) => call,
                None => value,
            },
        },
    };
    let name = match call.text_at("name") {
        Some(name) => name.to_owned(),
        None => {
            return None;
        },
    };
    let id = match call.text_at("id") {
        Some(id) => id.to_owned(),
        None => "call_1".to_owned(),
    };
    let arguments = match find_arguments(call) {
        Some(Json::Text(raw)) => raw.clone(),
        Some(arguments) => arguments.to_text(),
        None => Json::empty_object().to_text(),
    };
    Some(ParsedToolCall { id, name, arguments })
}

/// The one call that `s` is as JSON.
fn parse_json_tool_call(s: &[char]) -> (r: Option<ParsedToolCall>)
    ensures
        views::of_option(r) == single_call(s@),
{
    match parse_jsonish(s) {
        Some(value) => value_call(&value),
        None => None,
    }
}

/// The arguments of a call as text; those that are text are cleaned.
fn normalize_arguments(args: &Json) -> (r: String)
    ensures
        r@ == match args@ {
            JsonView::Text(raw) => cleaned(raw),
            other => json::compact(other),
        },
{
    match args {
        Json::Text(raw) => clean_jsonish(raw.as_str()),
        other => other.to_text(),
    }
}

/// The call at this place of a list of calls, unless it has no name.
pub fn parse_listed(call: &Json, index: usize) -> (r: Option<ParsedToolCall>)
    ensures
        views::of_option(r) == listed_call(call@, index as nat),
{
    let function = call.get("function");
    let name = match call.text_at("name") {
        Some(name) => name.to_owned(),
        None => match function {
            Some(function) => match function.text_at("name") {
                Some(name) => name.to_owned(),
                None => {
                    return None;
                },
            },
            None => {
                return None;
            },
        },
    };
    let id = match call.text_at("id") {
        Some(id) => id.to_owned(),
        None => numbered(index),
    };
    let args = match find_arguments(call) {
        Some(args) => Some(args),
        None => match function {
            Some(function) => function.get("arguments"),
            None => None,
        },
    };
    let arguments = match args {
        Some(args) => normalize_arguments(args),
        None => Json::empty_object().to_text(),
    };
    Some(ParsedToolCall { id, name, arguments })
}

/// The calls that a value lists.
pub fn value_calls(value: &Json) -> (r: Vec<ParsedToolCall>)
    ensures
        views::of_list(r@) == calls_in_value(value@),
{
    proof {
        reveal_with_fuel(first_member, 4);
    }
    let mut out: Vec<ParsedToolCall> = Vec::new();
    assert(views::of_list(out@) =~= Seq::empty());
    let ghost keys = seq!["tool_calls"@, "toolCalls"@, "tools"@];
    assert(keys.skip(1)[0] == "toolCalls"@ && keys.skip(1).skip(1)[0] == "tools"@);
    let list = match value.get("tool_calls") {
        Some(list) => list,
        None => match value.get("toolCalls") {
            Some(list) => list,
            None => match value.get("tools") {
                Some(list) => list,
                None => {
                    return out;
                },
            },
        },
    };
    let items = match list.as_array() {
        Some(items) => items,
        None => {
            return out;
        },
    };
    let ghost all = json::models(items@);
    let mut i: usize = 0;
    assert(all.take(0) =~= Seq::empty());
    while i < items.len()
        invariant
            i <= items@.len(),
            all == json::models(items@),
            views::of_list(out@) == listed_calls(all.take(i as int)),
        decreases items.len() - i,
    {
        let ghost next = all.take(i + 1);
        let ghost before = out@;
        assert(next.take(i as int) =~= all.take(i as int));
        let call = parse_listed(&items[i], i + 1);
        let ghost made = at_most_one(views::of_option(call));
        if let Some(call) = call {
            out.push(call);
        }
        assert(views::of_list(out@) =~= views::of_list(before) + made);
        i += 1;
    }
    assert(all.take(i as int) =~= all);
    out
}

/// The calls that `s` lists as JSON.
fn collect_json_array_tool_calls(s: &[char]) -> (r: Vec<ParsedToolCall>)
    ensures
        views::of_list(r@) == array_calls(s@),
{
    match parse_jsonish(s) {
        Some(value) => value_calls(&value),
        None => {
            let none: Vec<ParsedToolCall> = Vec::new();
            assert(views::of_list(none@) =~= Seq::empty());
            none
        },
    }
}

/// What stands in the first fenced block of `s`.
fn extract_fenced_json(s: &[char]) -> (r: Option<Vec<char>>)
    ensures
        views::of_option(r) == fenced(s@),
{
    proof {
        reveal_strlit("```json");
        reveal_strlit("```");
    }
    let marker = match text::find_text(s, "```json") {
        Some(i) => i,
        None => match text::find_text(s, "```") {
            Some(i) => i,
            None => {
                return None;
            },
        },
    };
    let block = text::after(s, marker);
    let body = match text::find_class(block, CharClass::Only('\n')) {
        Some(k) => text::after(block, k + 1),
        None => text::after(block, 3),
    };
    match text::find_text(body, "```") {
        Some(end) => Some(vstd::slice::slice_to_vec(text::before(body, end))),
        None => None,
    }
}

/// The tool calls in what a model wrote.
pub fn parse_tool_calls(text: &str) -> (r: Vec<ParsedToolCall>)
    ensures
        views::of_list(r@) == calls_in(text@),
{
    let chars = text::chars_of(text);
    let s = chars.as_slice();
    let tagged = collect_xml_tool_calls(s);
    if tagged.len() > 0 {
        return tagged;
    }
    let listed = collect_json_array_tool_calls(s);
    if listed.len() > 0 {
        return listed;
    }
    let block = extract_fenced_json(s);
    if let Some(block) = &block {
        let listed_in_block = collect_json_array_tool_calls(block.as_slice());
        if listed_in_block.len() > 0 {
            return listed_in_block;
        }
    }
    let mut out: Vec<ParsedToolCall> = Vec::new();
    assert(views::of_list(out@) =~= Seq::empty());
    match parse_json_tool_call(s) {
        Some(call) => {
            out.push(call);
            assert(views::of_list(out@) =~= seq![call@]);
        },
        None => {
            if let Some(block) = &block {
                if let Some(call) = parse_json_tool_call(block.as_slice()) {
                    out.push(call);
                    assert(views::of_list(out@) =~= seq![call@]);
                }
            }
        },
    }
    out
}

// ---------------------------------------------------------------------------
// The prompt
// ---------------------------------------------------------------------------

/// What a model is told about tool calls, whatever the tools are.
pub const TOOL_PROTOCOL: &'static str = "CRITICAL adapter tool-call protocol override.\n\
You are behind an adapter. The client cannot see DeepSeek native actions or free-form tool descriptions.\n\
When the user's request requires reading files, inspecting the current project, running commands, editing files, opening local resources, or using any external/runtime capability, you MUST output exactly one XML tool call and no markdown, explanation, greeting, or extra text.\n\
Do not claim you are ready, do not ask what to work on, and do not answer from memory when a listed tool can inspect the real state.\n\
For Chinese user messages, respond in Chinese. Preserve the user's language for tool arguments and final answers.\n\
Tool call format:\n\n\
<tool_call id=\"call_unique_id\" name=\"tool_name\">\n\
{\"arg\":\"value\"}\n\
</tool_call>\n\n\
Rules:\n\
- Use only tools listed below.\n\
- The body must be valid JSON.\n\
- For project inspection requests, prefer command/file-reading tools such as exec_command when available.\n\
- Treat tools as actions, never as prose. If you decide to use a tool, output only the XML tool call and stop.\n\
- After a tool result, decide the next step from that result: call another tool when more real state is needed, otherwise give the final answer.\n\
- For skill/plugin/MCP work, first read the referenced skill or instruction file with the available file/resource tool, then call the relevant MCP/plugin tool only with arguments matching its schema.\n\
- For shell commands, use the exact schema of the listed command tool. Do not invent fields. Prefer small read-only commands before edits.\n\
- For editing, use apply_patch when it is available; do not describe an edit as finished unless the tool call has been returned and the client executed it.\n\
- If no tool is needed, answer normally in the user's language.\n";

/// What a model is told about one tool.
pub open spec fn tool_entry(tool: ToolView) -> Seq<char> {
    "- name: "@ + tool.name + "\n  description: "@ + (match tool.description {
        Some(description) => description,
        None => Seq::empty(),
    }) + "\n  input_schema: "@ + json::compact(tool.input_schema) + "\n"@
}

/// What a model is told about each of these tools.
pub open spec fn tool_entries(tools: Seq<ToolView>) -> Seq<char>
    decreases tools.len(),
{
    if tools.len() == 0 {
        Seq::empty()
    } else {
        tool_entries(tools.take(tools.len() - 1)) + tool_entry(tools[tools.len() - 1])
    }
}

/// What a model is told about tool calls and about these tools.
pub open spec fn protocol_prompt(tools: Seq<ToolView>) -> Seq<char> {
    if tools.len() == 0 {
        TOOL_PROTOCOL@ + "\nNo tools are available."@
    } else {
        TOOL_PROTOCOL@ + "\nAvailable tools:\n"@ + tool_entries(tools)
    }
}

/// What a model is told about tool calls and about these tools.
pub fn render_tool_protocol_prompt(tools: &[ToolDefinition]) -> (r: String)
    ensures
        r@ == protocol_prompt(views::of_list(tools@)),
{
    let ghost all = views::of_list(tools@);
    let mut prompt = TOOL_PROTOCOL.to_owned();
    if tools.len() == 0 {
        prompt.append("\nNo tools are available.");
        return prompt;
    }
    prompt.append("\nAvailable tools:\n");
    let ghost head = prompt@;
    let mut i: usize = 0;
    assert(tool_entries(all.take(0)) =~= Seq::empty());
    assert(head =~= head + tool_entries(all.take(0)));
    while i < tools.len()
        invariant
            i <= tools@.len(),
            all == views::of_list(tools@),
            prompt@ == head + tool_entries(all.take(i as int)),
        decreases tools.len() - i,
    {
        let ghost next = all.take(i + 1);
        assert(next.take(i as int) =~= all.take(i as int));
        let tool = &tools[i];
        let mut entry = "- name: ".to_owned();
        entry.append(tool.name.as_str());
        entry.append("\n  description: ");
        if let Some(description) = &tool.description {
            entry.append(description.as_str());
        }
        entry.append("\n  input_schema: ");
        entry.append(tool.input_schema.to_text().as_str());
        entry.append("\n");
        assert(entry@ =~= tool_entry(tool@));
        prompt.append(entry.as_str());
        assert(prompt@ =~= head + (tool_entries(all.take(i as int)) + tool_entry(tool@)));
        i += 1;
    }
    assert(all.take(i as int) =~= all);
    assert(prompt@ =~= protocol_prompt(all));
    prompt
}

} // verus!
