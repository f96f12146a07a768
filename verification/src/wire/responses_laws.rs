//! What holds of responses: what each member of a request comes to.
use vstd::prelude::*;

use crate::error::ErrorView;
use crate::json;
use crate::json::JsonView;
use crate::text;
use crate::types::{ChoiceView, ContentView, RequestView};
use crate::wire::chat;
use crate::wire::responses;

verus! {

/// A request needs an input, and takes its model, its limit on tokens, its instructions, its
/// flags and the response that it goes on from from the members of those names.
pub proof fn lemma_responses_request(payload: JsonView, input: JsonView, n: u64, b: bool)
    requires
        payload.get("input"@) == Some(input),
        n <= 0xffff_ffff,
    ensures
        responses::request_of(payload) matches Ok(request) && {
            &&& payload.get("model"@) matches Some(JsonView::Text(model)) ==> request.model == model
            &&& payload.get("max_output_tokens"@) == Some(JsonView::Integer(n as int))
                ==> request.max_tokens == n
            &&& payload.get("max_output_tokens"@) is None && payload.get("max_tokens"@) == Some(
                JsonView::Integer(n as int),
            ) ==> request.max_tokens == n
            &&& payload.get("max_output_tokens"@) is None && payload.get("max_tokens"@) is None
                ==> request.max_tokens == 1024
            &&& payload.get("instructions"@) matches Some(JsonView::Text(system)) ==> request.system
                == Some(system)
            &&& payload.get("instructions"@) is None ==> request.system is None
            &&& payload.get("parallel_tool_calls"@) == Some(JsonView::Bool(b))
                ==> request.parallel_tool_calls == b
            &&& payload.get("stream"@) == Some(JsonView::Bool(b)) ==> request.stream == b
            &&& payload.get("background"@) == Some(JsonView::Bool(b)) ==> request.background == b
            &&& payload.get("background"@) is None ==> !request.background
            &&& payload.get("previous_response_id"@) matches Some(JsonView::Text(id))
                ==> request.previous_response_id == Some(id)
            &&& payload.get("previous_response_id"@) is None ==> request.previous_response_id is None
            &&& payload.get("tools"@) matches Some(JsonView::Array(tools)) ==> request.tools
                == chat::tools_of(tools)
            &&& payload.get("tools"@) is None ==> request.tools.len() == 0
            &&& request.tool_choice == chat::choice_of(payload.get("tool_choice"@))
            &&& input matches JsonView::Text(said) ==> request.messages.len() == 1
                && request.messages[0].role == "user"@ && request.messages[0].content == seq![
                ContentView::Text { text: said },
            ]
            &&& input matches JsonView::Array(items) ==> request.messages == responses::messages_of(
                items,
            )
        },
{
}

/// A request without an input is refused.
pub proof fn lemma_responses_refused(payload: JsonView)
    requires
        payload.get("input"@) is None,
    ensures
        responses::request_of(payload) == Err::<RequestView, ErrorView>(
            ErrorView::InvalidRequest("input is required"@),
        ),
{
}

/// One more item of an input is one more message: a message with its role and its content,
/// a function call as the assistant's with its id, its name and the value that its
/// arguments say, and the output of one as the user's with the id of the call.
pub proof fn lemma_responses_item(items: Seq<JsonView>, item: JsonView, s: Seq<char>, t: Seq<char>)
    ensures
        ({
            let before = responses::messages_of(items);
            let after = responses::messages_of(items.push(item));
            let kind = item.get("type"@);
            let last = after[before.len() as int];
            let one_more = after.len() == before.len() + 1 && after.take(before.len() as int)
                == before;
            &&& kind == Some(JsonView::Text("message"@)) || kind is None ==> one_more && {
                &&& item.get("role"@) matches Some(JsonView::Text(role)) ==> last.role == role
                &&& item.get("role"@) is None ==> last.role == "user"@
                &&& item.get("content"@) == Some(JsonView::Text(s)) ==> last.content == seq![
                    ContentView::Text { text: s },
                ]
                &&& item.get("content"@) matches Some(JsonView::Array(parts)) ==> last.content
                    == responses::parts_of(parts)
                &&& item.get("content"@) is None ==> last.content.len() == 0
            }
            &&& kind == Some(JsonView::Text("function_call"@)) && item.get("name"@) == Some(
                JsonView::Text(t),
            ) ==> one_more && last.role == "assistant"@ && last.content.len() == 1 && {
                &&& last.content[0] matches ContentView::ToolUse { id, name, input } && name == t && {
                    &&& item.get("call_id"@) == Some(JsonView::Text(s)) ==> id == s
                    &&& item.get("call_id"@) is None && item.get("id"@) == Some(JsonView::Text(s))
                        ==> id == s
                    &&& item.get("arguments"@) matches Some(JsonView::Text(raw)) ==> {
                        &&& json::parsed(raw) matches Some(value) ==> input == value
                        &&& json::parsed(raw) is None ==> input == JsonView::Text(raw)
                    }
                    &&& item.get("arguments"@) is None ==> input == JsonView::Object(Seq::empty())
                }
            }
            &&& kind == Some(JsonView::Text("function_call_output"@)) && item.get("call_id"@)
                == Some(JsonView::Text(s)) && item.get("output"@) == Some(JsonView::Text(t))
                ==> one_more && last.role == "user"@ && last.content == seq![
                ContentView::ToolResult { tool_use_id: s, content: t, is_error: false },
            ]
        }),
        responses::messages_of(Seq::empty()).len() == 0,
{
    reveal_strlit("message");
    reveal_strlit("function_call");
    reveal_strlit("function_call_output");
    assert("message"@.len() == 7 && "function_call"@.len() == 13 && "function_call_output"@.len()
        == 20);
    assert(items.push(item).take(items.len() as int) =~= items);
    let before = responses::messages_of(items);
    let after = responses::messages_of(items.push(item));
    assert(after.take(before.len() as int) =~= before);
}

/// One more part of a message comes behind the others: a text, given or put out, as itself,
/// and an image as its address.
pub proof fn lemma_responses_part(parts: Seq<JsonView>, part: JsonView, s: Seq<char>)
    ensures
        ({
            let before = responses::parts_of(parts);
            let after = responses::parts_of(parts.push(part));
            let kind = part.get("type"@);
            let last = after[before.len() as int];
            let one_more = after.len() == before.len() + 1 && after.take(before.len() as int)
                == before;
            &&& (kind == Some(JsonView::Text("input_text"@)) || kind == Some(
                JsonView::Text("output_text"@),
            ) || kind == Some(JsonView::Text("text"@)) || kind is None) && part.get("text"@) == Some(
                JsonView::Text(s),
            ) ==> one_more && last == (ContentView::Text { text: s })
            &&& (kind == Some(JsonView::Text("input_image"@)) || kind == Some(
                JsonView::Text("image_url"@),
            )) && part.get("image_url"@) == Some(JsonView::Text(s)) ==> one_more && last == (
            ContentView::ImageUrl { url: s })
        }),
        responses::parts_of(Seq::empty()).len() == 0,
{
    reveal_strlit("input_text");
    reveal_strlit("output_text");
    reveal_strlit("text");
    reveal_strlit("input_image");
    reveal_strlit("image_url");
    assert("input_text"@.len() == 10 && "output_text"@.len() == 11 && "text"@.len() == 4);
    assert("input_image"@.len() == 11 && "image_url"@.len() == 9);
    assert("output_text"@[0] == 'o' && "input_image"@[0] == 'i');
    assert(parts.push(part).take(parts.len() as int) =~= parts);
    let before = responses::parts_of(parts);
    let after = responses::parts_of(parts.push(part));
    assert(after.take(before.len() as int) =~= before);
}

/// What a response says of how tools were to be chosen is read as that choice.
pub proof fn lemma_choice_reads_back(choice: ChoiceView)
    ensures
        chat::choice_of(Some(choice.wire_value())) == choice,
{
    reveal_strlit("auto");
    reveal_strlit("none");
    reveal_strlit("required");
    assert(text::lowered("auto"@) =~= "auto"@);
    assert(text::lowered("none"@) =~= "none"@);
    assert(text::lowered("required"@) =~= "required"@);
    assert("auto"@[0] == 'a' && "none"@[0] == 'n' && "required"@[0] == 'r');
    if let ChoiceView::Function { name } = choice {
        reveal_strlit("type");
        reveal_strlit("name");
        reveal_strlit("function");
        assert("type"@[0] == 't' && "name"@[0] == 'n');
        assert("function"@.len() == 8 && "type"@.len() == 4 && "name"@.len() == 4);
        let pairs = seq![("type"@, JsonView::Text("function"@)), ("name"@, JsonView::Text(name))];
        assert forall|i: int, j: int| 0 <= i < j < pairs.len() implies (#[trigger] pairs[i]).0 != (
        #[trigger] pairs[j]).0 by {}
        json::lemma_lookup_collected(pairs, 1);
        json::lemma_lookup_not_collected(pairs, "function"@);
    }
}

/// A response says its id, its model, what was put out as items and as a text, and of its
/// request whether it ran in the background, what it went on from, and how tools were to be
/// chosen and called.
pub proof fn lemma_responses_reply(
    request: RequestView,
    output: Seq<JsonView>,
    output_text: Seq<char>,
    unique: Seq<char>,
    created: int,
)
    ensures
        ({
            let reply = JsonView::object(
                responses::response_members(request, output, output_text, unique, created),
            );
            &&& reply.get("id"@) == Some(JsonView::Text("resp_"@ + unique))
            &&& reply.get("object"@) == Some(JsonView::Text("response"@))
            &&& reply.get("created_at"@) == Some(JsonView::Integer(created))
            &&& reply.get("status"@) == Some(JsonView::Text("completed"@))
            &&& reply.get("background"@) == Some(JsonView::Bool(request.background))
            &&& reply.get("model"@) == Some(JsonView::Text(request.model))
            &&& reply.get("output"@) == Some(JsonView::Array(output))
            &&& reply.get("output_text"@) == Some(JsonView::Text(output_text))
            &&& reply.get("parallel_tool_calls"@) == Some(
                JsonView::Bool(request.parallel_tool_calls),
            )
            &&& request.previous_response_id matches Some(id) ==> reply.get(
                "previous_response_id"@,
            ) == Some(JsonView::Text(id))
            &&& request.previous_response_id is None ==> reply.get("previous_response_id"@) == Some(
                JsonView::Null,
            )
            &&& chat::choice_of(reply.get("tool_choice"@)) == request.tool_choice
            &&& reply.get("usage"@) == Some(JsonView::Null)
        }),
{
    lemma_choice_reads_back(request.tool_choice);
    reveal_strlit("id");
    reveal_strlit("object");
    reveal_strlit("created_at");
    reveal_strlit("status");
    reveal_strlit("background");
    reveal_strlit("model");
    reveal_strlit("output");
    reveal_strlit("output_text");
    reveal_strlit("parallel_tool_calls");
    reveal_strlit("previous_response_id");
    reveal_strlit("tool_choice");
    reveal_strlit("usage");
    let pairs = responses::response_members(request, output, output_text, unique, created);
    let firsts = seq![
        ("id"@.len(), 'i', 'd'),
        ("object"@.len(), 'o', 'b'),
        ("created_at"@.len(), 'c', 'r'),
        ("status"@.len(), 's', 't'),
        ("background"@.len(), 'b', 'a'),
        ("model"@.len(), 'm', 'o'),
        ("output"@.len(), 'o', 'u'),
        ("output_text"@.len(), 'o', 'u'),
        ("parallel_tool_calls"@.len(), 'p', 'a'),
        ("previous_response_id"@.len(), 'p', 'r'),
        ("tool_choice"@.len(), 't', 'o'),
        ("usage"@.len(), 'u', 's'),
    ];
    assert forall|i: int, j: int| 0 <= i < j < pairs.len() implies (#[trigger] pairs[i]).0 != (
    #[trigger] pairs[j]).0 by {
        assert(firsts[i] == (pairs[i].0.len(), pairs[i].0[0], pairs[i].0[1]));
        assert(firsts[j] == (pairs[j].0.len(), pairs[j].0[0], pairs[j].0[1]));
        assert(firsts[i] != firsts[j]);
    }
    json::lemma_lookup_collected(pairs, 0);
    json::lemma_lookup_collected(pairs, 1);
    json::lemma_lookup_collected(pairs, 2);
    json::lemma_lookup_collected(pairs, 3);
    json::lemma_lookup_collected(pairs, 4);
    json::lemma_lookup_collected(pairs, 5);
    json::lemma_lookup_collected(pairs, 6);
    json::lemma_lookup_collected(pairs, 7);
    json::lemma_lookup_collected(pairs, 8);
    json::lemma_lookup_collected(pairs, 9);
    json::lemma_lookup_collected(pairs, 10);
    json::lemma_lookup_collected(pairs, 11);
}

/// A part of a message may also be an image with its address inside, a function call or the
/// output of one, which are read as items are.
pub proof fn lemma_responses_part_item(
    parts: Seq<JsonView>,
    part: JsonView,
    s: Seq<char>,
    t: Seq<char>,
)
    ensures
        ({
            let before = responses::parts_of(parts);
            let after = responses::parts_of(parts.push(part));
            let kind = part.get("type"@);
            let image = kind == Some(JsonView::Text("input_image"@)) || kind == Some(
                JsonView::Text("image_url"@),
            );
            &&& image && (part.get("image_url"@) matches Some(inner) && inner.get("url"@) == Some(
                JsonView::Text(s),
            )) ==> after == before.push(ContentView::ImageUrl { url: s })
            &&& kind == Some(JsonView::Text("function_call"@)) && part.get("name"@) == Some(
                JsonView::Text(t),
            ) && part.get("call_id"@) == Some(JsonView::Text(s)) && part.get("arguments"@) is None
                ==> after == before.push(
                ContentView::ToolUse { id: s, name: t, input: JsonView::Object(Seq::empty()) },
            )
            &&& kind == Some(JsonView::Text("function_call"@)) && part.get("name"@) is None ==> after
                == before
            &&& kind == Some(JsonView::Text("function_call_output"@)) && part.get("call_id"@)
                == Some(JsonView::Text(s)) && part.get("output"@) == Some(JsonView::Text(t))
                ==> after == before.push(
                ContentView::ToolResult { tool_use_id: s, content: t, is_error: false },
            )
            &&& kind == Some(JsonView::Text("function_call_output"@)) && part.get("call_id"@) is None
                && part.get("output"@) == Some(JsonView::Text(t)) ==> after == before.push(
                ContentView::ToolResult {
                    tool_use_id: "call_unknown"@,
                    content: t,
                    is_error: false,
                },
            )
        }),
{
    reveal_strlit("input_text");
    reveal_strlit("output_text");
    reveal_strlit("text");
    reveal_strlit("input_image");
    reveal_strlit("image_url");
    reveal_strlit("function_call");
    reveal_strlit("function_call_output");
    assert("input_text"@.len() == 10 && "output_text"@.len() == 11 && "text"@.len() == 4);
    assert("input_image"@.len() == 11 && "image_url"@.len() == 9);
    assert("function_call"@.len() == 13 && "function_call_output"@.len() == 20);
    assert("output_text"@[0] == 'o' && "input_image"@[0] == 'i');
    assert(parts.push(part).take(parts.len() as int) =~= parts);
    let path = seq!["image_url"@, "url"@];
    let p1 = path.skip(1);
    assert(p1[0] == "url"@ && p1.skip(1).len() == 0);
    if let Some(inner) = part.get("image_url"@) {
        assert(part.step("image_url"@) == Some(inner));
        assert(part.pointer(path) == inner.pointer(p1));
        if let Some(url) = inner.get("url"@) {
            assert(inner.step("url"@) == Some(url));
            assert(url.pointer(p1.skip(1)) == Some(url));
        }
    }
}

} // verus!
