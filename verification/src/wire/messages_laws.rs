//! What holds of messages: what each member of a request comes to, and that what a reply
//! says comes back.
use vstd::prelude::*;

use crate::error::ErrorView;
use crate::json;
use crate::json::JsonView;
use crate::types::{CallView, ContentView, RequestView};
use crate::wire::chat;
use crate::wire::messages;

verus! {

/// A request needs a list of messages, and takes its model, its limit on tokens, its system
/// text and its flags from the members of those names.
pub proof fn lemma_messages_request(payload: JsonView, items: Seq<JsonView>, n: u64, b: bool)
    requires
        payload.get("messages"@) == Some(JsonView::Array(items)),
        n <= 0xffff_ffff,
    ensures
        messages::request_of(payload) matches Ok(request) && {
            &&& payload.get("model"@) matches Some(JsonView::Text(model)) ==> request.model == model
            &&& payload.get("model"@) is None ==> request.model.len() == 0
            &&& payload.get("max_tokens"@) == Some(JsonView::Integer(n as int))
                ==> request.max_tokens == n
            &&& payload.get("max_tokens"@) is None ==> request.max_tokens == 1024
            &&& payload.get("system"@) matches Some(JsonView::Text(system)) ==> request.system
                == Some(system)
            &&& payload.get("system"@) is None ==> request.system is None
            &&& payload.get("parallel_tool_calls"@) == Some(JsonView::Bool(b))
                ==> request.parallel_tool_calls == b
            &&& payload.get("stream"@) == Some(JsonView::Bool(b)) ==> request.stream == b
            &&& payload.get("stream"@) is None ==> !request.stream
            &&& !request.background
            &&& request.previous_response_id is None
            &&& request.messages.len() == items.len()
            &&& payload.get("tools"@) matches Some(JsonView::Array(tools)) ==> request.tools
                == chat::tools_of(tools)
            &&& payload.get("tools"@) is None ==> request.tools.len() == 0
            &&& request.tool_choice == chat::choice_of(payload.get("tool_choice"@))
        },
{
}

/// A request without a list of messages is refused.
pub proof fn lemma_messages_refused(payload: JsonView)
    requires
        !(payload.get("messages"@) matches Some(JsonView::Array(_))),
    ensures
        messages::request_of(payload) == Err::<RequestView, ErrorView>(
            ErrorView::InvalidRequest("messages must be an array"@),
        ),
{
}

/// Each message keeps its role, the user's if it gives none, and its content: a text as one
/// text, and a list as its parts.
pub proof fn lemma_messages_thread(items: Seq<JsonView>, i: int, said: Seq<char>)
    requires
        0 <= i < items.len(),
    ensures
        ({
            let message = messages::thread_of(items)[i];
            &&& items[i].get("role"@) matches Some(JsonView::Text(role)) ==> message.role == role
            &&& items[i].get("role"@) is None ==> message.role == "user"@
            &&& items[i].get("content"@) == Some(JsonView::Text(said)) ==> message.content == seq![
                ContentView::Text { text: said },
            ]
            &&& items[i].get("content"@) matches Some(JsonView::Array(parts)) ==> message.content
                == messages::parts_of(parts)
            &&& items[i].get("content"@) is None ==> message.content.len() == 0
        }),
{
}

/// One more part of a content comes behind the others: a text as itself, an image as its
/// address, a tool use with its id, its name and its input, and a tool result with the id
/// of the use that it answers, what it says, and whether it is an error.
pub proof fn lemma_messages_part(parts: Seq<JsonView>, part: JsonView, s: Seq<char>, t: Seq<char>)
    ensures
        ({
            let before = messages::parts_of(parts);
            let after = messages::parts_of(parts.push(part));
            let kind = part.get("type"@);
            let last = after[before.len() as int];
            let one_more = after.len() == before.len() + 1 && after.take(before.len() as int)
                == before;
            &&& (kind == Some(JsonView::Text("text"@)) || kind is None) && part.get("text"@) == Some(
                JsonView::Text(s),
            ) ==> one_more && last == (ContentView::Text { text: s })
            &&& kind == Some(JsonView::Text("image"@)) && part.get("url"@) == Some(JsonView::Text(s))
                ==> one_more && last == (ContentView::ImageUrl { url: s })
            &&& kind == Some(JsonView::Text("image"@)) && part.get("url"@) is None && (part.get(
                "source"@,
            ) matches Some(source) && source.get("url"@) == Some(JsonView::Text(s))) ==> one_more
                && last == (ContentView::ImageUrl { url: s })
            &&& kind == Some(JsonView::Text("image_url"@)) && part.get("url"@) is None && part.get(
                "source"@,
            ) is None && (part.get("image_url"@) matches Some(image) && image.get("url"@) == Some(
                JsonView::Text(s),
            )) ==> one_more && last == (ContentView::ImageUrl { url: s })
            &&& kind == Some(JsonView::Text("tool_use"@)) && part.get("id"@) == Some(
                JsonView::Text(s),
            ) && part.get("name"@) == Some(JsonView::Text(t)) ==> one_more && {
                &&& last matches ContentView::ToolUse { id, name, input } && id == s && name == t && {
                    &&& part.get("input"@) matches Some(given) ==> input == given
                    &&& part.get("input"@) is None ==> input == JsonView::Object(Seq::empty())
                }
            }
            &&& kind == Some(JsonView::Text("tool_use"@)) && (part.get("id"@) is None || part.get(
                "name"@,
            ) is None) ==> after == before
            &&& kind == Some(JsonView::Text("tool_result"@)) && part.get("tool_use_id"@) == Some(
                JsonView::Text(s),
            ) && part.get("content"@) == Some(JsonView::Text(t)) ==> one_more && {
                &&& last matches ContentView::ToolResult { tool_use_id, content, is_error }
                    && tool_use_id == s && content == t && {
                    &&& part.get("is_error"@) == Some(JsonView::Bool(true)) ==> is_error
                    &&& part.get("is_error"@) == Some(JsonView::Bool(false)) ==> !is_error
                    &&& part.get("is_error"@) is None ==> !is_error
                }
            }
        }),
        messages::parts_of(Seq::empty()).len() == 0,
{
    lemma_kinds();
    assert(parts.push(part).take(parts.len() as int) =~= parts);
    let before = messages::parts_of(parts);
    let after = messages::parts_of(parts.push(part));
    assert(after.take(before.len() as int) =~= before);
    reveal_with_fuel(JsonView::pointer, 3);
    let source = seq!["source"@, "url"@];
    let image = seq!["image_url"@, "url"@];
    assert(source.skip(1)[0] == "url"@ && source.skip(1).skip(1).len() == 0);
    assert(image.skip(1)[0] == "url"@ && image.skip(1).skip(1).len() == 0);
    if let Some(inner) = part.get("source"@) {
        assert(part.step("source"@) == Some(inner));
        assert(part.pointer(source) == inner.pointer(source.skip(1)));
        if inner.get("url"@) is Some {
            assert(inner.step("url"@) == inner.get("url"@));
        }
    }
    if part is Object && part.get("source"@) is None {
        assert(part.step(source[0]) is None);
        assert(part.pointer(source) is None);
    }
    if let Some(inner) = part.get("image_url"@) {
        assert(part.step("image_url"@) == Some(inner));
        assert(part.pointer(image) == inner.pointer(image.skip(1)));
        if inner.get("url"@) is Some {
            assert(inner.step("url"@) == inner.get("url"@));
        }
    }
}

/// The types of parts are told apart.
proof fn lemma_kinds()
    ensures
        "text"@ != "image"@,
        "text"@ != "image_url"@,
        "text"@ != "tool_use"@,
        "text"@ != "tool_result"@,
        "image"@ != "tool_use"@,
        "image"@ != "tool_result"@,
        "image_url"@ != "tool_use"@,
        "image_url"@ != "tool_result"@,
        "tool_use"@ != "tool_result"@,
{
    reveal_strlit("text");
    reveal_strlit("image");
    reveal_strlit("image_url");
    reveal_strlit("tool_use");
    reveal_strlit("tool_result");
    assert("text"@.len() == 4 && "image"@.len() == 5 && "image_url"@.len() == 9 && "tool_use"@.len()
        == 8 && "tool_result"@.len() == 11);
}

/// A tool use of a reply, sent back, is that use: with its id, its name, and the value that
/// its arguments say as its input.
pub proof fn lemma_messages_use_comes_back(call: CallView)
    ensures
        messages::part_of(JsonView::object(messages::use_members(call))) matches Some(
            ContentView::ToolUse { id, name, input },
        ) && {
            &&& id == call.id
            &&& name == call.name
            &&& json::parsed(call.arguments) matches Some(value) ==> input == value
            &&& json::parsed(call.arguments) is None ==> input == JsonView::Object(Seq::empty())
        },
{
    reveal_strlit("type");
    reveal_strlit("id");
    reveal_strlit("name");
    reveal_strlit("input");
    assert("type"@[0] == 't' && "name"@[0] == 'n');
    lemma_kinds();
    let pairs = messages::use_members(call);
    assert forall|i: int, j: int| 0 <= i < j < pairs.len() implies (#[trigger] pairs[i]).0 != (
    #[trigger] pairs[j]).0 by {
        assert("type"@.len() == 4 && "id"@.len() == 2 && "name"@.len() == 4 && "input"@.len() == 5);
    }
    json::lemma_lookup_collected(pairs, 0);
    json::lemma_lookup_collected(pairs, 1);
    json::lemma_lookup_collected(pairs, 2);
    json::lemma_lookup_collected(pairs, 3);
}

/// The content of a reply, sent back as a message, is what the model said or the uses of
/// tools, in their order.
pub proof fn lemma_messages_reply_comes_back(model_text: Seq<char>, calls: Seq<CallView>)
    ensures
        ({
            let back = messages::parts_of(messages::reply_content(model_text, calls));
            &&& calls.len() == 0 ==> back == seq![ContentView::Text { text: model_text }]
            &&& calls.len() > 0 ==> back.len() == calls.len() && forall|i: int|
                0 <= i < calls.len() ==> Some(#[trigger] back[i]) == messages::part_of(
                    JsonView::object(messages::use_members(calls[i])),
                )
        }),
{
    if calls.len() == 0 {
        reveal_strlit("type");
        reveal_strlit("text");
        assert("type"@[1] == 'y' && "text"@[1] == 'e');
        let pairs = messages::text_members(model_text);
        assert forall|i: int, j: int| 0 <= i < j < pairs.len() implies (#[trigger] pairs[i]).0 != (
        #[trigger] pairs[j]).0 by {}
        json::lemma_lookup_collected(pairs, 0);
        json::lemma_lookup_collected(pairs, 1);
        let parts = messages::reply_content(model_text, calls);
        assert(parts.take(0) =~= Seq::empty());
        reveal_with_fuel(messages::parts_of, 2);
        assert(messages::parts_of(parts) =~= seq![ContentView::Text { text: model_text }]);
    } else {
        lemma_uses_come_back(calls);
    }
}

proof fn lemma_uses_come_back(calls: Seq<CallView>)
    ensures
        ({
            let back = messages::parts_of(
                calls.map_values(|call: CallView| JsonView::object(messages::use_members(call))),
            );
            &&& back.len() == calls.len()
            &&& forall|i: int|
                0 <= i < calls.len() ==> Some(#[trigger] back[i]) == messages::part_of(
                    JsonView::object(messages::use_members(calls[i])),
                )
        }),
    decreases calls.len(),
{
    let items = calls.map_values(|call: CallView| JsonView::object(messages::use_members(call)));
    if calls.len() > 0 {
        let n = calls.len() - 1;
        let before = calls.take(n);
        let front = before.map_values(
            |call: CallView| JsonView::object(messages::use_members(call)),
        );
        lemma_uses_come_back(before);
        lemma_messages_use_comes_back(calls[n]);
        assert(items.take(n) =~= front);
        let all = messages::parts_of(items);
        let earlier = messages::parts_of(front);
        assert forall|i: int| 0 <= i < calls.len() implies Some(#[trigger] all[i])
            == messages::part_of(JsonView::object(messages::use_members(calls[i]))) by {
            if i < n {
                assert(all[i] == earlier[i]);
                assert(before[i] == calls[i]);
            }
        }
    }
}

/// A reply says its model and its content, and the reason why it stopped says whether it
/// uses tools.
pub proof fn lemma_messages_reply(
    model: Seq<char>,
    model_text: Seq<char>,
    calls: Seq<CallView>,
    unique: Seq<char>,
)
    ensures
        ({
            let reply = JsonView::object(
                messages::reply_members(model, model_text, calls, unique),
            );
            &&& reply.get("id"@) == Some(JsonView::Text("msg_"@ + unique))
            &&& reply.get("type"@) == Some(JsonView::Text("message"@))
            &&& reply.get("role"@) == Some(JsonView::Text("assistant"@))
            &&& reply.get("model"@) == Some(JsonView::Text(model))
            &&& reply.get("content"@) == Some(
                JsonView::Array(messages::reply_content(model_text, calls)),
            )
            &&& reply.get("stop_sequence"@) == Some(JsonView::Null)
            &&& reply.get("usage"@) matches Some(usage) && usage.get("input_tokens"@) == Some(
                JsonView::Integer(0),
            ) && usage.get("output_tokens"@) == Some(JsonView::Integer(0))
            &&& calls.len() == 0 ==> reply.get("stop_reason"@) == Some(JsonView::Text("end_turn"@))
            &&& calls.len() > 0 ==> reply.get("stop_reason"@) == Some(JsonView::Text("tool_use"@))
        }),
{
    reveal_strlit("id");
    reveal_strlit("type");
    reveal_strlit("role");
    reveal_strlit("model");
    reveal_strlit("content");
    reveal_strlit("stop_reason");
    reveal_strlit("stop_sequence");
    reveal_strlit("usage");
    let pairs = messages::reply_members(model, model_text, calls, unique);
    let firsts = seq![
        ("id"@.len(), 'i', 'd'),
        ("type"@.len(), 't', 'y'),
        ("role"@.len(), 'r', 'o'),
        ("model"@.len(), 'm', 'o'),
        ("content"@.len(), 'c', 'o'),
        ("stop_reason"@.len(), 's', 't'),
        ("stop_sequence"@.len(), 's', 't'),
        ("usage"@.len(), 'u', 's'),
    ];
    assert forall|i: int, j: int| 0 <= i < j < pairs.len() implies (#[trigger] pairs[i]).0 != (
    #[trigger] pairs[j]).0 by {
        assert(firsts[i] == (pairs[i].0.len(), pairs[i].0[0], pairs[i].0[1]));
        assert(firsts[j] == (pairs[j].0.len(), pairs[j].0[0], pairs[j].0[1]));
        assert(firsts[i] != firsts[j]);
    }
    json::lemma_lookup_collected(pairs, 0);
    json::lemma_lookup_collected(pairs, 1);
    json::lemma_lookup_collected(pairs, 2);
    json::lemma_lookup_collected(pairs, 3);
    json::lemma_lookup_collected(pairs, 4);
    json::lemma_lookup_collected(pairs, 5);
    json::lemma_lookup_collected(pairs, 6);
    json::lemma_lookup_collected(pairs, 7);
    reveal_strlit("input_tokens");
    reveal_strlit("output_tokens");
    let usage = messages::usage_members();
    assert forall|i: int, j: int| 0 <= i < j < usage.len() implies (#[trigger] usage[i]).0 != (
    #[trigger] usage[j]).0 by {
        assert("input_tokens"@.len() == 12 && "output_tokens"@.len() == 13);
    }
    json::lemma_lookup_collected(usage, 0);
    json::lemma_lookup_collected(usage, 1);
}

/// A tool result that does not say which use it answers, or what it says, is still one.
pub proof fn lemma_messages_bare_result(parts: Seq<JsonView>, part: JsonView)
    requires
        part.get("type"@) == Some(JsonView::Text("tool_result"@)),
        part.get("tool_use_id"@) is None,
        part.get("content"@) is None,
        part.get("is_error"@) is None,
    ensures
        messages::parts_of(parts.push(part)) == messages::parts_of(parts).push(
            ContentView::ToolResult {
                tool_use_id: "call_unknown"@,
                content: Seq::empty(),
                is_error: false,
            },
        ),
{
    lemma_kinds();
    assert(parts.push(part).take(parts.len() as int) =~= parts);
    assert(chat::content_of(None) =~= Seq::empty());
}

} // verus!
