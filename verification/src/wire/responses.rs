//! OpenAI's responses.
use vstd::prelude::*;

use crate::error::{AdapterError, ErrorView};
use crate::ids;
use crate::json;
use crate::json::{Json, JsonView, Members};
use crate::responses_store;
use crate::text;
use crate::types::{
    CallView, ContentView, MessageView, ParsedToolCall, RequestView, UnifiedContent, UnifiedMessage,
    UnifiedRequest,
};
use crate::views;
use crate::wire;
use crate::wire::chat;

verus! {

// ---------------------------------------------------------------------------
// What the items of an input mean
// ---------------------------------------------------------------------------

/// The tool call that an item is; it needs a name.
pub open spec fn call_of(item: JsonView) -> Option<ContentView> {
    match item.text_at("name"@) {
        None => None,
        Some(name) => Some(
            ContentView::ToolUse {
                id: match item.text_at("call_id"@) {
                    Some(id) => id,
                    None => wire::text_or(item, "id"@, "call_unknown"@),
                },
                name,
                input: chat::arguments_of(item.get("arguments"@)),
            },
        ),
    }
}

/// The result of a tool call that an item is.
pub open spec fn result_of(item: JsonView) -> ContentView {
    ContentView::ToolResult {
        tool_use_id: wire::text_or(item, "call_id"@, "call_unknown"@),
        content: chat::content_of(item.get("output"@)),
        is_error: false,
    }
}

/// The address of an image, given as a text or under `url`.
pub open spec fn image_of(part: JsonView) -> Option<Seq<char>> {
    match part.text_at("image_url"@) {
        Some(url) => Some(url),
        None => part.text_under(seq!["image_url"@, "url"@]),
    }
}

/// What a part of a message is; a part of no known type, or without what its type
/// needs, is nothing.
pub open spec fn part_of(part: JsonView) -> Option<ContentView> {
    let kind = wire::text_or(part, "type"@, "input_text"@);
    if kind == "input_text"@ || kind == "output_text"@ || kind == "text"@ {
        match part.text_at("text"@) {
            Some(text) => Some(ContentView::Text { text }),
            None => None,
        }
    } else if kind == "input_image"@ || kind == "image_url"@ {
        match image_of(part) {
            Some(url) => Some(ContentView::ImageUrl { url }),
            None => None,
        }
    } else if kind == "function_call"@ {
        call_of(part)
    } else if kind == "function_call_output"@ {
        Some(result_of(part))
    } else {
        None
    }
}

/// What the parts of a message are, without those that are nothing.
pub open spec fn parts_of(parts: Seq<JsonView>) -> Seq<ContentView>
    decreases parts.len(),
{
    if parts.len() == 0 {
        Seq::empty()
    } else {
        let before = parts_of(parts.take(parts.len() - 1));
        match part_of(parts[parts.len() - 1]) {
            Some(part) => before.push(part),
            None => before,
        }
    }
}

/// What the content of a message is.
pub open spec fn content_of(value: Option<JsonView>) -> Seq<ContentView> {
    match value {
        Some(JsonView::Text(text)) => seq![ContentView::Text { text }],
        Some(JsonView::Array(parts)) => parts_of(parts),
        _ => Seq::empty(),
    }
}

/// The message that an item is: a tool call is the assistant's, its result the
/// user's; an item of no known type is none.
pub open spec fn message_of(item: JsonView) -> Option<MessageView> {
    let kind = wire::text_or(item, "type"@, "message"@);
    if kind == "message"@ {
        Some(
            MessageView {
                role: wire::text_or(item, "role"@, "user"@),
                content: content_of(item.get("content"@)),
            },
        )
    } else if kind == "function_call"@ {
        match call_of(item) {
            Some(call) => Some(MessageView { role: "assistant"@, content: seq![call] }),
            None => None,
        }
    } else if kind == "function_call_output"@ {
        Some(MessageView { role: "user"@, content: seq![result_of(item)] })
    } else {
        None
    }
}

/// The messages that these items are.
pub open spec fn messages_of(items: Seq<JsonView>) -> Seq<MessageView>
    decreases items.len(),
{
    if items.len() == 0 {
        Seq::empty()
    } else {
        let before = messages_of(items.take(items.len() - 1));
        match message_of(items[items.len() - 1]) {
            Some(message) => before.push(message),
            None => before,
        }
    }
}

/// The messages of an input: a text is the user's, a list one of items.
pub open spec fn input_of(input: JsonView) -> Seq<MessageView> {
    match input {
        JsonView::Text(text) => seq![
            MessageView { role: "user"@, content: seq![ContentView::Text { text }] },
        ],
        JsonView::Array(items) => messages_of(items),
        _ => Seq::empty(),
    }
}

/// The request that a payload makes.
pub open spec fn request_of(payload: JsonView) -> Result<RequestView, ErrorView> {
    match payload.get("input"@) {
        Some(input) => Ok(
            RequestView {
                model: wire::text_or(payload, "model"@, Seq::empty()),
                max_tokens: wire::token_limit(payload, "max_output_tokens"@, "max_tokens"@),
                system: payload.text_at("instructions"@),
                messages: input_of(input),
                tools: chat::tools_of(chat::items_of(payload.get("tools"@))),
                tool_choice: chat::choice_of(payload.get("tool_choice"@)),
                parallel_tool_calls: wire::is_set(payload, "parallel_tool_calls"@),
                stream: wire::is_set(payload, "stream"@),
                background: wire::is_set(payload, "background"@),
                previous_response_id: payload.text_at("previous_response_id"@),
            },
        ),
        None => Err(ErrorView::InvalidRequest("input is required"@)),
    }
}

/// The item that a tool call is kept as is read as that call, if its arguments read
/// back; the item of a result as that result.
pub proof fn lemma_tool_items_read_back(content: ContentView, unique: Seq<char>)
    requires
        content is ToolUse || content is ToolResult,
    ensures
        ({
            let item = JsonView::object(responses_store::content_members(content, unique));
            &&& content matches ContentView::ToolUse { id, name, input } ==> json::parsed(
                json::compact(input),
            ) == Some(input) ==> message_of(item) == Some(
                MessageView { role: "assistant"@, content: seq![content] },
            )
            &&& content matches ContentView::ToolResult { tool_use_id, content: said, is_error }
                ==> message_of(item) == Some(
                MessageView {
                    role: "user"@,
                    content: seq![
                        ContentView::ToolResult { tool_use_id, content: said, is_error: false },
                    ],
                },
            )
        }),
{
    reveal_strlit("id");
    reveal_strlit("type");
    reveal_strlit("status");
    reveal_strlit("call_id");
    reveal_strlit("name");
    reveal_strlit("arguments");
    reveal_strlit("output");
    reveal_strlit("message");
    reveal_strlit("function_call");
    reveal_strlit("function_call_output");
    assert("name"@[0] != "type"@[0]);
    assert("status"@[0] != "output"@[0]);
    let pairs = responses_store::content_members(content, unique);
    let item = JsonView::object(pairs);
    assert forall|i: int, j: int| 0 <= i < j < pairs.len() implies (#[trigger] pairs[i]).0 != (
    #[trigger] pairs[j]).0 by {
        assert("id"@.len() == 2 && "type"@.len() == 4 && "status"@.len() == 6 && "call_id"@.len()
            == 7 && "name"@.len() == 4 && "arguments"@.len() == 9 && "output"@.len() == 6);
    }
    if content is ToolUse {
        json::lemma_lookup_collected(pairs, 1);
        json::lemma_lookup_collected(pairs, 3);
        json::lemma_lookup_collected(pairs, 4);
        json::lemma_lookup_collected(pairs, 5);
        assert("function_call"@.len() != "message"@.len());
    } else {
        json::lemma_lookup_collected(pairs, 1);
        json::lemma_lookup_collected(pairs, 2);
        json::lemma_lookup_collected(pairs, 3);
        assert("function_call_output"@.len() != "message"@.len());
        assert("function_call_output"@.len() != "function_call"@.len());
    }
}

// ---------------------------------------------------------------------------
// Reading a request
// ---------------------------------------------------------------------------

/// The tool call that an item is.
fn parse_call(item: &Json) -> (r: Option<UnifiedContent>)
    ensures
        views::of_option(r) == call_of(item@),
{
    match item.text_at("name") {
        None => None,
        Some(name) => Some(
            UnifiedContent::ToolUse {
                id: match item.text_at("call_id") {
                    Some(id) => id.to_owned(),
                    None => wire::text_or_else(item, "id", "call_unknown"),
                },
                name: name.to_owned(),
                input: chat::parse_arguments(item.get("arguments")),
            },
        ),
    }
}

/// The result of a tool call that an item is.
fn parse_result(item: &Json) -> (r: UnifiedContent)
    ensures
        r@ == result_of(item@),
{
    UnifiedContent::ToolResult {
        tool_use_id: wire::text_or_else(item, "call_id", "call_unknown"),
        content: chat::extract_chat_content(item.get("output")),
        is_error: false,
    }
}

/// The address of an image.
fn find_image(part: &Json) -> (r: Option<&str>)
    ensures
        views::of_option(r) == image_of(part@),
{
    let path = vec!["image_url", "url"];
    assert(json::tokens_view(path@) =~= seq!["image_url"@, "url"@]);
    match part.text_at("image_url") {
        Some(url) => Some(url),
        None => part.text_under(path.as_slice()),
    }
}

/// What a part of a message is.
fn parse_part(part: &Json) -> (r: Option<UnifiedContent>)
    ensures
        views::of_option(r) == part_of(part@),
{
    let kind = wire::text_or_else(part, "type", "input_text");
    if text::same(kind.as_str(), "input_text") || text::same(kind.as_str(), "output_text")
        || text::same(kind.as_str(), "text") {
        match part.text_at("text") {
            Some(s) => Some(UnifiedContent::Text { text: s.to_owned() }),
            None => None,
        }
    } else if text::same(kind.as_str(), "input_image") || text::same(kind.as_str(), "image_url") {
        match find_image(part) {
            Some(url) => Some(UnifiedContent::ImageUrl { url: url.to_owned() }),
            None => None,
        }
    } else if text::same(kind.as_str(), "function_call") {
        parse_call(part)
    } else if text::same(kind.as_str(), "function_call_output") {
        Some(parse_result(part))
    } else {
        None
    }
}

/// What the content of a message is.
fn parse_content(value: Option<&Json>) -> (r: Vec<UnifiedContent>)
    ensures
        views::of_list(r@) == content_of(views::of_option(value)),
{
    let mut out: Vec<UnifiedContent> = Vec::new();
    assert(views::of_list(out@) =~= Seq::empty());
    let parts = match value {
        Some(Json::Text(s)) => {
            out.push(UnifiedContent::Text { text: s.clone() });
            assert(views::of_list(out@) =~= seq![ContentView::Text { text: s@ }]);
            return out;
        },
        Some(Json::Array(parts)) => parts,
        _ => {
            return out;
        },
    };
    let ghost all = json::models(parts@);
    let mut i: usize = 0;
    assert(all.take(0) =~= Seq::empty());
    while i < parts.len()
        invariant
            i <= parts@.len(),
            all == json::models(parts@),
            views::of_list(out@) == parts_of(all.take(i as int)),
        decreases parts.len() - i,
    {
        let ghost next = all.take(i + 1);
        let ghost before = out@;
        assert(next.take(i as int) =~= all.take(i as int));
        if let Some(part) = parse_part(&parts[i]) {
            out.push(part);
            assert(views::of_list(out@) =~= views::of_list(before).push(part@));
        }
        i += 1;
    }
    assert(all.take(i as int) =~= all);
    out
}

/// A message with one part.
fn single(role: &str, part: UnifiedContent) -> (r: UnifiedMessage)
    ensures
        r@ == (MessageView { role: role@, content: seq![part@] }),
{
    let content = vec![part];
    assert(views::of_list(content@) =~= seq![part@]);
    UnifiedMessage { role: role.to_owned(), content }
}

/// The message that an item is.
fn parse_item(item: &Json) -> (r: Option<UnifiedMessage>)
    ensures
        views::of_option(r) == message_of(item@),
{
    let kind = wire::text_or_else(item, "type", "message");
    if text::same(kind.as_str(), "message") {
        Some(
            UnifiedMessage {
                role: wire::text_or_else(item, "role", "user"),
                content: parse_content(item.get("content")),
            },
        )
    } else if text::same(kind.as_str(), "function_call") {
        match parse_call(item) {
            Some(call) => Some(single("assistant", call)),
            None => None,
        }
    } else if text::same(kind.as_str(), "function_call_output") {
        Some(single("user", parse_result(item)))
    } else {
        None
    }
}

/// The messages that these items are.
pub fn parse_items(items: &Vec<Json>) -> (r: Vec<UnifiedMessage>)
    ensures
        views::of_list(r@) == messages_of(json::models(items@)),
{
    let ghost all = json::models(items@);
    let mut out: Vec<UnifiedMessage> = Vec::new();
    let mut i: usize = 0;
    assert(all.take(0) =~= Seq::empty());
    assert(views::of_list(out@) =~= Seq::empty());
    while i < items.len()
        invariant
            i <= items@.len(),
            all == json::models(items@),
            views::of_list(out@) == messages_of(all.take(i as int)),
        decreases items.len() - i,
    {
        let ghost next = all.take(i + 1);
        let ghost before = out@;
        assert(next.take(i as int) =~= all.take(i as int));
        if let Some(message) = parse_item(&items[i]) {
            out.push(message);
            assert(views::of_list(out@) =~= views::of_list(before).push(message@));
        }
        i += 1;
    }
    assert(all.take(i as int) =~= all);
    out
}

/// The messages of an input.
pub fn parse_input(input: &Json) -> (r: Vec<UnifiedMessage>)
    ensures
        views::of_list(r@) == input_of(input@),
{
    match input {
        Json::Text(s) => {
            let messages = vec![UnifiedMessage::text("user", s.as_str())];
            assert(views::of_list(messages@) =~= input_of(input@));
            messages
        },
        Json::Array(items) => parse_items(items),
        _ => {
            let none: Vec<UnifiedMessage> = Vec::new();
            assert(views::of_list(none@) =~= Seq::empty());
            none
        },
    }
}

/// Reads a request.
pub fn parse_request(payload: Json) -> (r: Result<UnifiedRequest, AdapterError>)
    ensures
        views::of_result(r) == request_of(payload@),
{
    proof {
        reveal_strlit("");
        assert(""@ =~= Seq::empty());
    }
    match payload.get("input") {
        Some(input) => Ok(
            UnifiedRequest {
                model: wire::text_or_else(&payload, "model", ""),
                max_tokens: wire::read_token_limit(&payload, "max_output_tokens", "max_tokens"),
                system: wire::owned_text_at(&payload, "instructions"),
                messages: parse_input(input),
                tools: chat::parse_tools(payload.get("tools")),
                tool_choice: chat::parse_tool_choice(payload.get("tool_choice")),
                parallel_tool_calls: wire::flag(&payload, "parallel_tool_calls"),
                stream: wire::flag(&payload, "stream"),
                background: wire::flag(&payload, "background"),
                previous_response_id: wire::owned_text_at(&payload, "previous_response_id"),
            },
        ),
        None => Err(AdapterError::InvalidRequest("input is required".to_owned())),
    }
}

// ---------------------------------------------------------------------------
// The reply
// ---------------------------------------------------------------------------

/// The members of the part that says what the model said.
pub open spec fn output_text_members(model_text: Seq<char>) -> Members {
    seq![
        ("type"@, JsonView::Text("output_text"@)),
        ("text"@, JsonView::Text(model_text)),
        ("annotations"@, JsonView::Array(Seq::empty())),
    ]
}

/// The members of the item that says what the model said.
pub open spec fn message_members(model_text: Seq<char>, unique: Seq<char>) -> Members {
    seq![
        ("id"@, JsonView::Text("msg_"@ + unique)),
        ("type"@, JsonView::Text("message"@)),
        ("status"@, JsonView::Text("completed"@)),
        ("role"@, JsonView::Text("assistant"@)),
        (
            "content"@,
            JsonView::Array(seq![JsonView::object(output_text_members(model_text))]),
        ),
    ]
}

/// The members of the item of a tool call.
pub open spec fn call_members(call: CallView, unique: Seq<char>) -> Members {
    seq![
        ("id"@, JsonView::Text("fc_"@ + unique)),
        ("type"@, JsonView::Text("function_call"@)),
        ("status"@, JsonView::Text("completed"@)),
        ("call_id"@, JsonView::Text(call.id)),
        ("name"@, JsonView::Text(call.name)),
        ("arguments"@, JsonView::Text(call.arguments)),
    ]
}

/// The items of these tool calls.
pub open spec fn call_items(calls: Seq<CallView>, unique: Seq<Seq<char>>) -> Seq<JsonView> {
    Seq::new(calls.len(), |i: int| JsonView::object(call_members(calls[i], unique[i])))
}

/// The members of a response.
pub open spec fn response_members(
    request: RequestView,
    output: Seq<JsonView>,
    output_text: Seq<char>,
    unique: Seq<char>,
    created: int,
) -> Members {
    seq![
        ("id"@, JsonView::Text("resp_"@ + unique)),
        ("object"@, JsonView::Text("response"@)),
        ("created_at"@, JsonView::Integer(created)),
        ("status"@, JsonView::Text("completed"@)),
        ("background"@, JsonView::Bool(request.background)),
        ("model"@, JsonView::Text(request.model)),
        ("output"@, JsonView::Array(output)),
        ("output_text"@, JsonView::Text(output_text)),
        ("parallel_tool_calls"@, JsonView::Bool(request.parallel_tool_calls)),
        (
            "previous_response_id"@,
            responses_store::text_or_null(request.previous_response_id),
        ),
        ("tool_choice"@, request.tool_choice.wire_value()),
        ("usage"@, JsonView::Null),
    ]
}

/// What the assistant said, as a message.
pub open spec fn said_message(model_text: Seq<char>) -> MessageView {
    MessageView { role: "assistant"@, content: seq![ContentView::Text { text: model_text }] }
}

/// A tool call that the assistant made, as a message.
pub open spec fn called_message(call: CallView) -> MessageView {
    MessageView {
        role: "assistant"@,
        content: seq![
            ContentView::ToolUse {
                id: call.id,
                name: call.name,
                input: chat::arguments_of(Some(JsonView::Text(call.arguments))),
            },
        ],
    }
}

/// The item that says what the model said is read as that message.
pub proof fn lemma_message_item_reads_back(model_text: Seq<char>, unique: Seq<char>)
    ensures
        message_of(JsonView::object(message_members(model_text, unique))) == Some(
            said_message(model_text),
        ),
{
    reveal_strlit("id");
    reveal_strlit("type");
    reveal_strlit("status");
    reveal_strlit("role");
    reveal_strlit("content");
    reveal_strlit("text");
    reveal_strlit("annotations");
    assert("type"@[0] == 't' && "type"@[1] == 'y' && "text"@[1] == 'e' && "role"@[0] == 'r');
    let pairs = message_members(model_text, unique);
    assert forall|i: int, j: int| 0 <= i < j < pairs.len() implies (#[trigger] pairs[i]).0 != (
    #[trigger] pairs[j]).0 by {
        assert("id"@.len() == 2 && "type"@.len() == 4 && "status"@.len() == 6 && "role"@.len() == 4
            && "content"@.len() == 7);
    }
    json::lemma_lookup_collected(pairs, 1);
    json::lemma_lookup_collected(pairs, 3);
    json::lemma_lookup_collected(pairs, 4);
    let inner = output_text_members(model_text);
    assert forall|i: int, j: int| 0 <= i < j < inner.len() implies (#[trigger] inner[i]).0 != (
    #[trigger] inner[j]).0 by {
        assert("type"@.len() == 4 && "text"@.len() == 4 && "annotations"@.len() == 11);
    }
    json::lemma_lookup_collected(inner, 0);
    json::lemma_lookup_collected(inner, 1);
    let part = JsonView::object(inner);
    let parts = seq![part];
    assert(parts.take(0) =~= Seq::empty());
    reveal_with_fuel(parts_of, 2);
    assert(part_of(part) == Some(ContentView::Text { text: model_text }));
    assert(parts_of(parts) =~= seq![ContentView::Text { text: model_text }]);
}

/// The item of a tool call is read as that call.
pub proof fn lemma_call_item_reads_back(call: CallView, unique: Seq<char>)
    ensures
        message_of(JsonView::object(call_members(call, unique))) == Some(called_message(call)),
{
    reveal_strlit("id");
    reveal_strlit("type");
    reveal_strlit("status");
    reveal_strlit("call_id");
    reveal_strlit("name");
    reveal_strlit("arguments");
    reveal_strlit("message");
    reveal_strlit("function_call");
    assert("name"@[0] != "type"@[0]);
    let pairs = call_members(call, unique);
    assert forall|i: int, j: int| 0 <= i < j < pairs.len() implies (#[trigger] pairs[i]).0 != (
    #[trigger] pairs[j]).0 by {
        assert("id"@.len() == 2 && "type"@.len() == 4 && "status"@.len() == 6 && "call_id"@.len()
            == 7 && "name"@.len() == 4 && "arguments"@.len() == 9);
    }
    json::lemma_lookup_collected(pairs, 1);
    json::lemma_lookup_collected(pairs, 3);
    json::lemma_lookup_collected(pairs, 4);
    json::lemma_lookup_collected(pairs, 5);
    assert("function_call"@.len() != "message"@.len());
}

/// The items of tool calls are read as those calls, in their order.
pub proof fn lemma_call_items_read_back(calls: Seq<CallView>, unique: Seq<Seq<char>>)
    ensures
        messages_of(call_items(calls, unique)) == calls.map_values(
            |call: CallView| called_message(call),
        ),
    decreases calls.len(),
{
    let items = call_items(calls, unique);
    let messages = calls.map_values(|call: CallView| called_message(call));
    if calls.len() == 0 {
        assert(messages =~= Seq::empty());
    } else {
        let n = calls.len() - 1;
        let before = calls.take(n);
        lemma_call_items_read_back(before, unique);
        assert(items.take(n) =~= call_items(before, unique));
        lemma_call_item_reads_back(calls[n], unique[n]);
        assert(messages =~= before.map_values(|call: CallView| called_message(call)).push(
            called_message(calls[n]),
        ));
    }
}

/// The text `prefix` with `unique` behind it, as JSON.
fn tagged(prefix: &str, unique: &str) -> (r: Json)
    ensures
        r@ == JsonView::Text(prefix@ + unique@),
{
    let mut id = prefix.to_owned();
    id.append(unique);
    Json::Text(id)
}

/// The item that says what the model said.
pub fn message_output_item(model_text: &str, unique: &str) -> (r: Json)
    ensures
        r@ == JsonView::object(message_members(model_text@, unique@)),
{
    let no_notes: Vec<Json> = Vec::new();
    assert(json::models(no_notes@) =~= Seq::empty());
    let part = vec![
        ("type", Json::text("output_text")),
        ("text", Json::text(model_text)),
        ("annotations", Json::Array(no_notes)),
    ];
    assert(json::pairs_view(part@) =~= output_text_members(model_text@));
    let content = vec![Json::object(part)];
    assert(json::models(content@) =~= seq![JsonView::object(output_text_members(model_text@))]);
    let pairs = vec![
        ("id", tagged("msg_", unique)),
        ("type", Json::text("message")),
        ("status", Json::text("completed")),
        ("role", Json::text("assistant")),
        ("content", Json::Array(content)),
    ];
    assert(json::pairs_view(pairs@) =~= message_members(model_text@, unique@));
    Json::object(pairs)
}

/// The items of these tool calls.
pub fn function_call_items(tool_calls: &[ParsedToolCall], unique: &[String]) -> (r: Vec<Json>)
    requires
        unique@.len() >= tool_calls@.len(),
    ensures
        json::models(r@) == call_items(views::of_list(tool_calls@), text::texts(unique@)),
{
    let ghost calls = views::of_list(tool_calls@);
    let ghost names = text::texts(unique@);
    let mut out: Vec<Json> = Vec::new();
    let mut i: usize = 0;
    while i < tool_calls.len()
        invariant
            i <= tool_calls@.len(),
            tool_calls@.len() <= unique@.len(),
            calls == views::of_list(tool_calls@),
            names == text::texts(unique@),
            out@.len() == i,
            forall|k: int|
                0 <= k < i ==> (#[trigger] out@[k])@ == JsonView::object(
                    call_members(calls[k], names[k]),
                ),
        decreases tool_calls.len() - i,
    {
        let call = &tool_calls[i];
        let pairs = vec![
            ("id", tagged("fc_", unique[i].as_str())),
            ("type", Json::text("function_call")),
            ("status", Json::text("completed")),
            ("call_id", Json::text(call.id.as_str())),
            ("name", Json::text(call.name.as_str())),
            ("arguments", Json::text(call.arguments.as_str())),
        ];
        assert(json::pairs_view(pairs@) =~= call_members(calls[i as int], names[i as int]));
        out.push(Json::object(pairs));
        i += 1;
    }
    assert(json::models(out@) =~= call_items(calls, names));
    out
}

/// The response with this output, id and time.
pub fn response_from_output(
    request: &UnifiedRequest,
    output: Vec<Json>,
    output_text: &str,
    unique: &str,
    created: i64,
) -> (r: Json)
    ensures
        r@ == JsonView::object(
            response_members(
                request@,
                json::models(output@),
                output_text@,
                unique@,
                created as int,
            ),
        ),
{
    let ghost items = json::models(output@);
    let pairs = vec![
        ("id", tagged("resp_", unique)),
        ("object", Json::text("response")),
        ("created_at", Json::integer(created)),
        ("status", Json::text("completed")),
        ("background", Json::Bool(request.background)),
        ("model", Json::text(request.model.as_str())),
        ("output", Json::Array(output)),
        ("output_text", Json::text(output_text)),
        ("parallel_tool_calls", Json::Bool(request.parallel_tool_calls)),
        ("previous_response_id", Json::optional_text(&request.previous_response_id)),
        ("tool_choice", request.tool_choice.to_wire_value()),
        ("usage", Json::Null),
    ];
    assert(json::pairs_view(pairs@) =~= response_members(
        request@,
        items,
        output_text@,
        unique@,
        created as int,
    ));
    Json::object(pairs)
}

} // verus!
