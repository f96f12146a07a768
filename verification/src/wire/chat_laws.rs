//! What holds of chat completions: what each member of a request comes to.
use vstd::prelude::*;

use crate::error::ErrorView;
use crate::json;
use crate::json::JsonView;
use crate::text;
use crate::types::{CallView, ChoiceView, ContentView, ToolView};
use crate::wire::chat;

verus! {

/// A request needs a list of messages, and takes its model, its limit on tokens and its
/// flags from the members of those names: the limit under its newer name only where the
/// usual one is missing, and 1024 where there is none; a flag that is missing is off.
pub proof fn lemma_chat_request(payload: JsonView, items: Seq<JsonView>, n: u64, b: bool)
    requires
        payload.get("messages"@) == Some(JsonView::Array(items)),
        n <= 0xffff_ffff,
    ensures
        chat::request_of(payload) matches Ok(request) && {
            &&& payload.get("model"@) matches Some(JsonView::Text(model)) ==> request.model == model
            &&& payload.get("model"@) is None ==> request.model.len() == 0
            &&& payload.get("max_tokens"@) == Some(JsonView::Integer(n as int))
                ==> request.max_tokens == n
            &&& payload.get("max_tokens"@) is None && payload.get("max_completion_tokens"@) == Some(
                JsonView::Integer(n as int),
            ) ==> request.max_tokens == n
            &&& payload.get("max_tokens"@) is None && payload.get("max_completion_tokens"@) is None
                ==> request.max_tokens == 1024
            &&& payload.get("parallel_tool_calls"@) == Some(JsonView::Bool(b))
                ==> request.parallel_tool_calls == b
            &&& payload.get("parallel_tool_calls"@) is None ==> !request.parallel_tool_calls
            &&& payload.get("stream"@) == Some(JsonView::Bool(b)) ==> request.stream == b
            &&& payload.get("stream"@) is None ==> !request.stream
            &&& !request.background
            &&& request.previous_response_id is None
            &&& request.messages == chat::thread_of(items)
            &&& request.system == chat::system_of(items)
            &&& payload.get("tools"@) matches Some(JsonView::Array(tools)) ==> request.tools
                == chat::tools_of(tools)
            &&& payload.get("tools"@) is None ==> request.tools.len() == 0
            &&& request.tool_choice == chat::choice_of(payload.get("tool_choice"@))
        },
{
}

/// A request without a list of messages is refused.
pub proof fn lemma_chat_refused(payload: JsonView)
    requires
        !(payload.get("messages"@) matches Some(JsonView::Array(_))),
    ensures
        chat::request_of(payload) == Err::<crate::types::RequestView, ErrorView>(
            ErrorView::InvalidRequest("messages must be an array"@),
        ),
{
}

/// A message of the role `tool` is the user's, with the result of the call whose id it
/// gives under `tool_call_id` and what its content says.
pub proof fn lemma_chat_result(items: Seq<JsonView>, message: JsonView, said: Seq<char>)
    requires
        message.get("role"@) == Some(JsonView::Text("tool"@)),
        message.get("content"@) == Some(JsonView::Text(said)),
    ensures
        ({
            let messages = chat::thread_of(items.push(message));
            &&& messages.len() == chat::thread_of(items).len() + 1
            &&& messages.take(messages.len() - 1) == chat::thread_of(items)
            &&& messages[messages.len() - 1].role == "user"@
            &&& messages[messages.len() - 1].content.len() == 1
            &&& messages[messages.len() - 1].content[0] matches ContentView::ToolResult {
                tool_use_id,
                content,
                is_error,
            } && {
                &&& message.get("tool_call_id"@) matches Some(JsonView::Text(id)) ==> tool_use_id == id
                &&& message.get("tool_call_id"@) is None ==> tool_use_id == "call_unknown"@
                &&& content == said
                &&& !is_error
            }
        }),
{
    reveal_strlit("tool");
    reveal_strlit("system");
    assert("tool"@.len() != "system"@.len());
    assert(items.push(message).take(items.len() as int) =~= items);
    let messages = chat::thread_of(items.push(message));
    assert(messages.take(messages.len() - 1) =~= chat::thread_of(items));
}

/// A message of any role but the system's and the tool's keeps its role, the user's if it
/// gives none. What it says is its one text, unless that is blank; the calls under
/// `tool_calls` count only if it is the assistant's.
pub proof fn lemma_chat_message(items: Seq<JsonView>, message: JsonView, said: Seq<char>)
    requires
        message.get("role"@) != Some(JsonView::Text("tool"@)),
        message.get("role"@) != Some(JsonView::Text("system"@)),
        message.get("content"@) == Some(JsonView::Text(said)),
    ensures
        ({
            let messages = chat::thread_of(items.push(message));
            let last = messages[messages.len() - 1];
            let texts = if text::blank(said) {
                0int
            } else {
                1
            };
            &&& messages.len() == chat::thread_of(items).len() + 1
            &&& messages.take(messages.len() - 1) == chat::thread_of(items)
            &&& message.get("role"@) matches Some(JsonView::Text(role)) ==> last.role == role
            &&& message.get("role"@) is None ==> last.role == "user"@
            &&& !text::blank(said) ==> last.content.len() > 0 && last.content[0] == (
            ContentView::Text { text: said })
            &&& last.role != "assistant"@ ==> last.content.len() == texts
            &&& last.role == "assistant"@ ==> (message.get("tool_calls"@) matches Some(
                JsonView::Array(calls),
            ) ==> last.content.skip(texts) == chat::earlier_calls(calls))
            &&& last.role == "assistant"@ && message.get("tool_calls"@) is None
                ==> last.content.len() == texts
        }),
{
    reveal_strlit("user");
    reveal_strlit("tool");
    reveal_strlit("system");
    reveal_strlit("assistant");
    assert("user"@[0] == 'u' && "tool"@[0] == 't');
    assert("user"@.len() == 4 && "system"@.len() == 6 && "assistant"@.len() == 9);
    assert(items.push(message).take(items.len() as int) =~= items);
    let messages = chat::thread_of(items.push(message));
    assert(messages.take(messages.len() - 1) =~= chat::thread_of(items));
    let last = messages[messages.len() - 1];
    let texts = if text::blank(said) {
        0int
    } else {
        1
    };
    if let Some(JsonView::Array(calls)) = message.get("tool_calls"@) {
        if last.role == "assistant"@ {
            assert(last.content.skip(texts) =~= chat::earlier_calls(calls));
        }
    }
}

/// A message of the system is none of the others; what the last one says is the system
/// text, and other messages do not change it.
pub proof fn lemma_chat_system(items: Seq<JsonView>, message: JsonView)
    ensures
        message.get("role"@) == Some(JsonView::Text("system"@)) ==> chat::thread_of(
            items.push(message),
        ) == chat::thread_of(items) && (message.get("content"@) matches Some(JsonView::Text(said))
            ==> chat::system_of(items.push(message)) == Some(said)),
        message.get("role"@) != Some(JsonView::Text("system"@)) ==> chat::system_of(
            items.push(message),
        ) == chat::system_of(items),
        chat::system_of(Seq::empty()) is None,
        chat::thread_of(Seq::empty()).len() == 0,
{
    reveal_strlit("user");
    reveal_strlit("system");
    assert("user"@.len() != "system"@.len());
    assert(items.push(message).take(items.len() as int) =~= items);
}

/// A call of the history is a tool use with the id, the name and the arguments that it
/// gives, under `function` or by itself; arguments that are JSON as a text count as what
/// they say. One without a name is none.
pub proof fn lemma_chat_history(calls: Seq<JsonView>, call: JsonView, name: Seq<char>)
    ensures
        ({
            let function = match call.get("function"@) {
                Some(function) => function,
                None => call,
            };
            let before = chat::earlier_calls(calls);
            let after = chat::earlier_calls(calls.push(call));
            &&& function.get("name"@) == Some(JsonView::Text(name)) ==> {
                &&& after.len() == before.len() + 1
                &&& after.take(before.len() as int) == before
                &&& after[before.len() as int] matches ContentView::ToolUse {
                    id,
                    name: called,
                    input,
                } && {
                    &&& called == name
                    &&& call.get("id"@) matches Some(JsonView::Text(own)) ==> id == own
                    &&& call.get("id"@) is None ==> id == "call_unknown"@
                    &&& function.get("arguments"@) is None ==> input == JsonView::Object(
                        Seq::empty(),
                    )
                    &&& function.get("arguments"@) matches Some(JsonView::Text(raw)) ==> {
                        &&& json::parsed(raw) matches Some(value) ==> input == value
                        &&& json::parsed(raw) is None ==> input == JsonView::Text(raw)
                    }
                    &&& function.get("arguments"@) matches Some(value) ==> value is Object ==> input
                        == value
                }
            }
            &&& function.get("name"@) is None ==> after == before
        }),
{
    assert(calls.push(call).take(calls.len() as int) =~= calls);
    let before = chat::earlier_calls(calls);
    let after = chat::earlier_calls(calls.push(call));
    assert(after.take(before.len() as int) =~= before);
}

/// A call of the history and the tool message that answers it carry the same id: the one
/// that the client gave both.
pub proof fn lemma_chat_ids_match(
    calls: Seq<JsonView>,
    call: JsonView,
    items: Seq<JsonView>,
    answer: JsonView,
    id: Seq<char>,
    name: Seq<char>,
    said: Seq<char>,
)
    requires
        call.get("id"@) == Some(JsonView::Text(id)),
        call.get("function"@) matches Some(function) && function.get("name"@) == Some(
            JsonView::Text(name),
        ),
        answer.get("role"@) == Some(JsonView::Text("tool"@)),
        answer.get("tool_call_id"@) == Some(JsonView::Text(id)),
        answer.get("content"@) == Some(JsonView::Text(said)),
    ensures
        ({
            let made = chat::earlier_calls(calls.push(call));
            let messages = chat::thread_of(items.push(answer));
            &&& made.len() > 0 && messages.len() > 0
            &&& messages[messages.len() - 1].content.len() == 1
            &&& made[made.len() - 1] matches ContentView::ToolUse { id: called, .. } && called == id
            &&& messages[messages.len() - 1].content[0] matches ContentView::ToolResult {
                tool_use_id,
                ..
            } && tool_use_id == id
        }),
{
    lemma_chat_history(calls, call, name);
    lemma_chat_result(items, answer, said);
}

/// What a content says: a text is itself, nothing says nothing, and of a list each part
/// that says something comes on a line of its own, an image as its address in brackets.
pub proof fn lemma_chat_content(parts: Seq<JsonView>, part: JsonView, s: Seq<char>)
    ensures
        chat::content_of(Some(JsonView::Text(s))) == s,
        chat::content_of(None).len() == 0,
        chat::content_of(Some(JsonView::Array(Seq::empty()))).len() == 0,
        chat::content_of(Some(JsonView::Bool(true))) == json::compact(JsonView::Bool(true)),
        part is Object ==> chat::content_of(Some(part)) == json::compact(part),
        ({
            let shown = "[Image: "@ + s + "]"@;
            let alone = chat::content_of(Some(JsonView::Array(seq![part])));
            &&& part.get("text"@) == Some(JsonView::Text(s)) ==> alone == s
            &&& part.get("text"@) is None && (part.get("image_url"@) matches Some(image)
                && image.get("url"@) == Some(JsonView::Text(s))) ==> alone == shown
            &&& part is Object && part.get("text"@) is None && part.get("image_url"@) is None
                ==> alone.len() == 0
        }),
        parts.len() > 0 && (forall|i: int|
            0 <= i < parts.len() ==> (#[trigger] parts[i]).get("text"@) matches Some(
                JsonView::Text(_),
            )) && part.get("text"@) == Some(JsonView::Text(s)) ==> chat::content_of(
            Some(JsonView::Array(parts.push(part))),
        ) == chat::content_of(Some(JsonView::Array(parts))) + "\n"@ + s,
{
    let one = seq![part];
    assert(one.take(0) =~= Seq::empty());
    reveal_with_fuel(chat::part_texts, 2);
    reveal_with_fuel(json::JsonView::pointer, 3);
    let tokens = seq!["image_url"@, "url"@];
    assert(tokens.skip(1)[0] == "url"@);
    assert(tokens.skip(1).skip(1).len() == 0);
    if let Some(image) = part.get("image_url"@) {
        if part.get("text"@) is None && image.get("url"@) == Some(JsonView::Text(s)) {
            assert(image.step("url"@) == Some(JsonView::Text(s)));
            assert(part.pointer(tokens) == image.pointer(tokens.skip(1)));
            assert(part.text_under(tokens) == Some(s));
        }
    }
    assert(parts.push(part).take(parts.len() as int) =~= parts);
    if parts.len() > 0 && (forall|i: int|
        0 <= i < parts.len() ==> (#[trigger] parts[i]).get("text"@) matches Some(
            JsonView::Text(_),
        )) && part.get("text"@) == Some(JsonView::Text(s)) {
        lemma_all_say(parts);
        let said = chat::part_texts(parts);
        assert(chat::part_texts(parts.push(part)) == said.push(s));
        assert(said.push(s).take(said.len() as int) =~= said);
    }
}

/// Parts with a text all say something.
proof fn lemma_all_say(parts: Seq<JsonView>)
    requires
        forall|i: int|
            0 <= i < parts.len() ==> (#[trigger] parts[i]).get("text"@) matches Some(
                JsonView::Text(_),
            ),
    ensures
        chat::part_texts(parts).len() == parts.len(),
    decreases parts.len(),
{
    if parts.len() > 0 {
        let before = parts.take(parts.len() - 1);
        assert forall|i: int| 0 <= i < before.len() implies (#[trigger] before[i]).get(
            "text"@,
        ) matches Some(JsonView::Text(_)) by {
            assert(before[i] == parts[i]);
        }
        lemma_all_say(before);
        assert(parts[parts.len() - 1].get("text"@) matches Some(JsonView::Text(_)));
    }
}

/// A tool has the name, the description and the schema that it gives, under `function` or
/// by itself: the schema under `parameters`, or else under `input_schema`, or else that of
/// any object. One without a name is none.
pub proof fn lemma_chat_tools(tools: Seq<JsonView>, tool: JsonView, name: Seq<char>)
    ensures
        ({
            let function = match tool.get("function"@) {
                Some(function) => function,
                None => tool,
            };
            let before = chat::tools_of(tools);
            let after = chat::tools_of(tools.push(tool));
            &&& function.get("name"@) == Some(JsonView::Text(name)) ==> {
                let last: ToolView = after[before.len() as int];
                &&& after.len() == before.len() + 1
                &&& after.take(before.len() as int) == before
                &&& last.name == name
                &&& function.get("description"@) matches Some(JsonView::Text(said))
                    ==> last.description == Some(said)
                &&& function.get("description"@) is None ==> last.description is None
                &&& function.get("parameters"@) matches Some(schema) ==> last.input_schema == schema
                &&& function.get("parameters"@) is None ==> {
                    &&& function.get("input_schema"@) matches Some(schema) ==> last.input_schema
                        == schema
                    &&& function.get("input_schema"@) is None ==> last.input_schema
                        == JsonView::Object(seq![("type"@, JsonView::Text("object"@))])
                }
            }
            &&& function.get("name"@) is None ==> after == before
        }),
        chat::tools_of(Seq::empty()).len() == 0,
{
    assert(tools.push(tool).take(tools.len() as int) =~= tools);
    let before = chat::tools_of(tools);
    let after = chat::tools_of(tools.push(tool));
    assert(after.take(before.len() as int) =~= before);
    let any = chat::any_object();
    assert(any.take(0) =~= Seq::empty());
    reveal_with_fuel(json::collected, 2);
    assert(json::collected(any) =~= seq![("type"@, JsonView::Text("object"@))]);
}

/// What a client lets the model call: nothing by `none`, something it must by `required`,
/// one tool by naming it, and otherwise whatever it likes. Case does not matter.
pub proof fn lemma_chat_choice(s: Seq<char>, value: JsonView, name: Seq<char>)
    ensures
        ({
            let choice = chat::choice_of(Some(JsonView::Text(s)));
            &&& text::lowered(s) == "none"@ ==> choice is Never
            &&& text::lowered(s) == "required"@ ==> choice is Required
            &&& text::lowered(s) != "none"@ && text::lowered(s) != "required"@ ==> choice is Auto
        }),
        chat::choice_of(None) is Auto,
        value.get("function"@) matches Some(function) && function.get("name"@) == Some(
            JsonView::Text(name),
        ) ==> chat::choice_of(Some(value)) == (ChoiceView::Function { name }),
        value.get("function"@) is None && value.get("name"@) == Some(JsonView::Text(name))
            ==> chat::choice_of(Some(value)) == (ChoiceView::Function { name }),
        value is Object && value.get("function"@) is None && value.get("name"@) is None
            ==> chat::choice_of(Some(value)) is Auto,
{
    reveal_strlit("none");
    reveal_strlit("required");
    assert(text::lowered("none"@) =~= "none"@);
    assert(text::lowered("required"@) =~= "required"@);
    assert("none"@.len() != "required"@.len());
}

// ---------------------------------------------------------------------------
// Replies that come back
// ---------------------------------------------------------------------------

/// The message of a reply says what the model said, or makes the calls, and the reason why
/// it ended says which of these.
pub proof fn lemma_chat_reply(
    model: Seq<char>,
    model_text: Seq<char>,
    calls: Seq<CallView>,
    unique: Seq<char>,
    created: int,
)
    ensures
        ({
            let reply = JsonView::object(
                chat::reply_members(model, model_text, calls, unique, created),
            );
            &&& reply.get("model"@) == Some(JsonView::Text(model))
            &&& reply.get("object"@) == Some(JsonView::Text("chat.completion"@))
            &&& reply.get("id"@) == Some(JsonView::Text("chatcmpl-"@ + unique))
            &&& reply.get("created"@) == Some(JsonView::Integer(created))
            &&& reply.get("usage"@) == Some(JsonView::Null)
            &&& reply.get("choices"@) matches Some(JsonView::Array(choices)) && choices.len() == 1
                && {
                &&& choices[0].get("index"@) == Some(JsonView::Integer(0))
                &&& choices[0].get("message"@) == Some(
                    JsonView::object(chat::reply_message(model_text, calls)),
                )
                &&& calls.len() == 0 ==> choices[0].get("finish_reason"@) == Some(
                    JsonView::Text("stop"@),
                )
                &&& calls.len() > 0 ==> choices[0].get("finish_reason"@) == Some(
                    JsonView::Text("tool_calls"@),
                )
            }
        }),
{
    let pairs = chat::reply_members(model, model_text, calls, unique, created);
    reveal_strlit("id");
    reveal_strlit("object");
    reveal_strlit("created");
    reveal_strlit("model");
    reveal_strlit("choices");
    reveal_strlit("usage");
    reveal_strlit("index");
    reveal_strlit("message");
    reveal_strlit("finish_reason");
    let firsts = seq![
        ("id"@.len(), 'i', 'd'),
        ("object"@.len(), 'o', 'b'),
        ("created"@.len(), 'c', 'r'),
        ("model"@.len(), 'm', 'o'),
        ("choices"@.len(), 'c', 'h'),
        ("usage"@.len(), 'u', 's'),
    ];
    assert forall|i: int, j: int| 0 <= i < j < pairs.len() implies (#[trigger] pairs[i]).0 != (
    #[trigger] pairs[j]).0 by {
        assert(firsts[i] == (pairs[i].0.len(), pairs[i].0[0], pairs[i].0[1]));
        assert(firsts[j] == (pairs[j].0.len(), pairs[j].0[0], pairs[j].0[1]));
        assert(firsts[i] != firsts[j]);
    }
    json::lemma_lookup_collected(pairs, 0);
    json::lemma_lookup_collected(pairs, 1);
    json::lemma_lookup_collected(pairs, 2);
    json::lemma_lookup_collected(pairs, 3);
    json::lemma_lookup_collected(pairs, 4);
    json::lemma_lookup_collected(pairs, 5);
    let choice = chat::choice_members(model_text, calls);
    assert forall|i: int, j: int| 0 <= i < j < choice.len() implies (#[trigger] choice[i]).0 != (
    #[trigger] choice[j]).0 by {
        assert("index"@.len() == 5 && "message"@.len() == 7 && "finish_reason"@.len() == 13);
    }
    json::lemma_lookup_collected(choice, 0);
    json::lemma_lookup_collected(choice, 1);
    json::lemma_lookup_collected(choice, 2);
}

/// A tool call of a reply, sent back as history, is that call: with its id, its name, and
/// the value that its arguments say.
pub proof fn lemma_chat_call_comes_back(call: CallView)
    ensures
        JsonView::object(chat::call_members(call)).get("type"@) == Some(
            JsonView::Text("function"@),
        ),
        chat::earlier_call(JsonView::object(chat::call_members(call))) matches Some(
            ContentView::ToolUse { id, name, input },
        ) && {
            &&& id == call.id
            &&& name == call.name
            &&& json::parsed(call.arguments) matches Some(value) ==> input == value
            &&& json::parsed(call.arguments) is None ==> input == JsonView::Text(call.arguments)
        },
{
    reveal_strlit("id");
    reveal_strlit("type");
    reveal_strlit("function");
    reveal_strlit("name");
    reveal_strlit("arguments");
    let pairs = chat::call_members(call);
    assert forall|i: int, j: int| 0 <= i < j < pairs.len() implies (#[trigger] pairs[i]).0 != (
    #[trigger] pairs[j]).0 by {
        assert("id"@.len() == 2 && "type"@.len() == 4 && "function"@.len() == 8);
    }
    json::lemma_lookup_collected(pairs, 0);
    json::lemma_lookup_collected(pairs, 1);
    json::lemma_lookup_collected(pairs, 2);
    let inner = chat::function_members(call);
    assert forall|i: int, j: int| 0 <= i < j < inner.len() implies (#[trigger] inner[i]).0 != (
    #[trigger] inner[j]).0 by {
        assert("name"@.len() == 4 && "arguments"@.len() == 9);
    }
    json::lemma_lookup_collected(inner, 0);
    json::lemma_lookup_collected(inner, 1);
}

/// The message of a reply, sent back, is the assistant's: with what the model said, or with
/// the calls in their order.
pub proof fn lemma_chat_reply_comes_back(
    items: Seq<JsonView>,
    model_text: Seq<char>,
    calls: Seq<CallView>,
)
    ensures
        ({
            let message = JsonView::object(chat::reply_message(model_text, calls));
            let messages = chat::thread_of(items.push(message));
            let last = messages[messages.len() - 1];
            &&& messages.len() == chat::thread_of(items).len() + 1
            &&& last.role == "assistant"@
            &&& calls.len() == 0 && !text::blank(model_text) ==> last.content == seq![
                ContentView::Text { text: model_text },
            ]
            &&& calls.len() > 0 ==> last.content.len() == calls.len() && forall|i: int|
                0 <= i < calls.len() ==> Some(#[trigger] last.content[i]) == chat::earlier_call(
                    JsonView::object(chat::call_members(calls[i])),
                )
        }),
{
    reveal_strlit("role");
    reveal_strlit("content");
    reveal_strlit("tool_calls");
    reveal_strlit("assistant");
    reveal_strlit("tool");
    reveal_strlit("system");
    assert("assistant"@.len() == 9 && "tool"@.len() == 4 && "system"@.len() == 6);
    let pairs = chat::reply_message(model_text, calls);
    let message = JsonView::object(pairs);
    assert forall|i: int, j: int| 0 <= i < j < pairs.len() implies (#[trigger] pairs[i]).0 != (
    #[trigger] pairs[j]).0 by {
        assert("role"@.len() == 4 && "content"@.len() == 7 && "tool_calls"@.len() == 10);
    }
    json::lemma_lookup_collected(pairs, 0);
    json::lemma_lookup_collected(pairs, 1);
    let said = if calls.len() == 0 {
        model_text
    } else {
        Seq::empty()
    };
    if calls.len() > 0 {
        json::lemma_lookup_collected(pairs, 2);
    } else {
        json::lemma_lookup_not_collected(pairs, "tool_calls"@);
    }
    lemma_chat_message(items, message, said);
    let messages = chat::thread_of(items.push(message));
    let last = messages[messages.len() - 1];
    if calls.len() > 0 {
        assert(text::trimmed_start(Seq::<char>::empty()).len() == 0);
        assert(text::blank(Seq::empty()));
        assert(last.content.skip(0) =~= last.content);
        lemma_calls_come_back(calls);
    } else if !text::blank(model_text) {
        assert(last.content =~= seq![ContentView::Text { text: model_text }]);
    }
}

proof fn lemma_calls_come_back(calls: Seq<CallView>)
    ensures
        chat::earlier_calls(chat::call_items(calls)).len() == calls.len(),
        forall|i: int|
            0 <= i < calls.len() ==> Some(#[trigger] chat::earlier_calls(chat::call_items(calls))[i])
                == chat::earlier_call(JsonView::object(chat::call_members(calls[i]))),
    decreases calls.len(),
{
    if calls.len() > 0 {
        let n = calls.len() - 1;
        let before = calls.take(n);
        lemma_calls_come_back(before);
        lemma_chat_call_comes_back(calls[n]);
        let items = chat::call_items(calls);
        assert(items.take(n) =~= chat::call_items(before));
        let all = chat::earlier_calls(items);
        let earlier = chat::earlier_calls(chat::call_items(before));
        assert forall|i: int| 0 <= i < calls.len() implies Some(#[trigger] all[i])
            == chat::earlier_call(JsonView::object(chat::call_members(calls[i]))) by {
            if i < n {
                assert(all[i] == earlier[i]);
                assert(before[i] == calls[i]);
            }
        }
    }
}

} // verus!
