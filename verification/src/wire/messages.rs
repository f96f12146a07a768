//! Anthropic's messages.
use vstd::prelude::*;

use crate::error::{AdapterError, ErrorView};
use crate::ids;
use crate::json;
use crate::json::{Json, JsonView, Members};
use crate::text;
use crate::types::{
    CallView, ContentView, MessageView, ParsedToolCall, RequestView, UnifiedContent, UnifiedMessage,
    UnifiedRequest,
};
use crate::views;
use crate::wire;
use crate::wire::chat;

verus! {

// ---------------------------------------------------------------------------
// What the parts of a request mean
// ---------------------------------------------------------------------------

/// The address of an image part: the first that is there of its usual places.
pub open spec fn image_address(part: JsonView) -> Option<Seq<char>> {
    let found = match part.get("url"@) {
        Some(url) => Some(url),
        None => match part.pointer(seq!["source"@, "url"@]) {
            Some(url) => Some(url),
            None => part.pointer(seq!["image_url"@, "url"@]),
        },
    };
    match found {
        Some(url) => url.as_text(),
        None => None,
    }
}

/// What a part of a content is; a part of no known type, or without what its type
/// needs, is nothing.
pub open spec fn part_of(part: JsonView) -> Option<ContentView> {
    let kind = wire::text_or(part, "type"@, "text"@);
    if kind == "text"@ {
        match part.text_at("text"@) {
            Some(text) => Some(ContentView::Text { text }),
            None => None,
        }
    } else if kind == "image"@ || kind == "image_url"@ {
        match image_address(part) {
            Some(url) => Some(ContentView::ImageUrl { url }),
            None => None,
        }
    } else if kind == "tool_use"@ {
        match (part.text_at("id"@), part.text_at("name"@)) {
            (Some(id), Some(name)) => Some(
                ContentView::ToolUse {
                    id,
                    name,
                    input: match part.get("input"@) {
                        Some(input) => input,
                        None => JsonView::empty_object(),
                    },
                },
            ),
            _ => None,
        }
    } else if kind == "tool_result"@ {
        Some(
            ContentView::ToolResult {
                tool_use_id: wire::text_or(part, "tool_use_id"@, "call_unknown"@),
                content: chat::content_of(part.get("content"@)),
                is_error: wire::is_set(part, "is_error"@),
            },
        )
    } else {
        None
    }
}

/// What the parts of a content are, without those that are nothing.
pub open spec fn parts_of(parts: Seq<JsonView>) -> Seq<ContentView>
    decreases parts.len(),
{
    if parts.len() == 0 {
        Seq::empty()
    } else {
        let before = parts_of(parts.take(parts.len() - 1));
        match part_of(parts[parts.len() - 1]) {
            Some(part) => before.push(part),
            None => before,
        }
    }
}

/// What a content is.
pub open spec fn content_of(value: Option<JsonView>) -> Seq<ContentView> {
    match value {
        Some(JsonView::Text(text)) => seq![ContentView::Text { text }],
        Some(JsonView::Array(parts)) => parts_of(parts),
        Some(other) => seq![ContentView::Text { text: json::compact(other) }],
        None => Seq::empty(),
    }
}

/// The messages of a request.
pub open spec fn thread_of(items: Seq<JsonView>) -> Seq<MessageView> {
    items.map_values(
        |message: JsonView|
            MessageView {
                role: wire::text_or(message, "role"@, "user"@),
                content: content_of(message.get("content"@)),
            },
    )
}

/// The request that a payload makes.
pub open spec fn request_of(payload: JsonView) -> Result<RequestView, ErrorView> {
    match payload.get("messages"@) {
        Some(JsonView::Array(items)) => Ok(
            RequestView {
                model: wire::text_or(payload, "model"@, Seq::empty()),
                max_tokens: wire::token_limit(payload, "max_tokens"@, "max_tokens"@),
                system: payload.text_at("system"@),
                messages: thread_of(items),
                tools: chat::tools_of(chat::items_of(payload.get("tools"@))),
                tool_choice: chat::choice_of(payload.get("tool_choice"@)),
                parallel_tool_calls: wire::is_set(payload, "parallel_tool_calls"@),
                stream: wire::is_set(payload, "stream"@),
                background: false,
                previous_response_id: None,
            },
        ),
        _ => Err(ErrorView::InvalidRequest("messages must be an array"@)),
    }
}

// ---------------------------------------------------------------------------
// Reading a request
// ---------------------------------------------------------------------------

/// The address of an image part.
fn find_image_address(part: &Json) -> (r: Option<&str>)
    ensures
        views::of_option(r) == image_address(part@),
{
    let source = vec!["source", "url"];
    let image_url = vec!["image_url", "url"];
    assert(json::tokens_view(source@) =~= seq!["source"@, "url"@]);
    assert(json::tokens_view(image_url@) =~= seq!["image_url"@, "url"@]);
    let found = match part.get("url") {
        Some(url) => Some(url),
        None => match part.pointer(source.as_slice()) {
            Some(url) => Some(url),
            None => part.pointer(image_url.as_slice()),
        },
    };
    match found {
        Some(url) => url.as_str(),
        None => None,
    }
}

/// What a part of a content is.
fn parse_part(part: &Json) -> (r: Option<UnifiedContent>)
    ensures
        views::of_option(r) == part_of(part@),
{
    let kind = wire::text_or_else(part, "type", "text");
    if text::same(kind.as_str(), "text") {
        match part.text_at("text") {
            Some(s) => Some(UnifiedContent::Text { text: s.to_owned() }),
            None => None,
        }
    } else if text::same(kind.as_str(), "image") || text::same(kind.as_str(), "image_url") {
        match find_image_address(part) {
            Some(url) => Some(UnifiedContent::ImageUrl { url: url.to_owned() }),
            None => None,
        }
    } else if text::same(kind.as_str(), "tool_use") {
        match (part.text_at("id"), part.text_at("name")) {
            (Some(id), Some(name)) => Some(
                UnifiedContent::ToolUse {
                    id: id.to_owned(),
                    name: name.to_owned(),
                    input: match part.get("input") {
                        Some(input) => input.clone(),
                        None => Json::empty_object(),
                    },
                },
            ),
            _ => None,
        }
    } else if text::same(kind.as_str(), "tool_result") {
        Some(
            UnifiedContent::ToolResult {
                tool_use_id: wire::text_or_else(part, "tool_use_id", "call_unknown"),
                content: chat::extract_chat_content(part.get("content")),
                is_error: wire::flag(part, "is_error"),
            },
        )
    } else {
        None
    }
}

/// What the parts of a content are.
fn parse_parts(parts: &Vec<Json>) -> (r: Vec<UnifiedContent>)
    ensures
        views::of_list(r@) == parts_of(json::models(parts@)),
{
    let ghost all = json::models(parts@);
    let mut out: Vec<UnifiedContent> = Vec::new();
    let mut i: usize = 0;
    assert(all.take(0) =~= Seq::empty());
    assert(views::of_list(out@) =~= Seq::empty());
    while i < parts.len()
        invariant
            i <= parts@.len(),
            all == json::models(parts@),
            views::of_list(out@) == parts_of(all.take(i as int)),
        decreases parts.len() - i,
    {
        let ghost next = all.take(i + 1);
        let ghost before = out@;
        assert(next.take(i as int) =~= all.take(i as int));
        if let Some(part) = parse_part(&parts[i]) {
            out.push(part);
            assert(views::of_list(out@) =~= views::of_list(before).push(part@));
        }
        i += 1;
    }
    assert(all.take(i as int) =~= all);
    out
}

/// What a content is.
fn parse_content(value: Option<&Json>) -> (r: Vec<UnifiedContent>)
    ensures
        views::of_list(r@) == content_of(views::of_option(value)),
{
    match value {
        Some(Json::Text(s)) => {
            let content = vec![UnifiedContent::Text { text: s.clone() }];
            assert(views::of_list(content@) =~= seq![ContentView::Text { text: s@ }]);
            content
        },
        Some(Json::Array(parts)) => parse_parts(parts),
        Some(other) => {
            let content = vec![UnifiedContent::Text { text: other.to_text() }];
            assert(views::of_list(content@) =~= seq![
                ContentView::Text { text: json::compact(other@) },
            ]);
            content
        },
        None => {
            let content: Vec<UnifiedContent> = Vec::new();
            assert(views::of_list(content@) =~= Seq::empty());
            content
        },
    }
}

/// Reads a request.
pub fn parse_request(payload: Json) -> (r: Result<UnifiedRequest, AdapterError>)
    ensures
        views::of_result(r) == request_of(payload@),
{
    let items = match payload.get("messages") {
        Some(Json::Array(items)) => items,
        _ => {
            return Err(AdapterError::InvalidRequest("messages must be an array".to_owned()));
        },
    };
    let ghost all = json::models(items@);
    let mut messages: Vec<UnifiedMessage> = Vec::new();
    let mut i: usize = 0;
    while i < items.len()
        invariant
            i <= items@.len(),
            all == json::models(items@),
            messages@.len() == i,
            forall|k: int| 0 <= k < i ==> (#[trigger] messages@[k])@ == thread_of(all)[k],
        decreases items.len() - i,
    {
        let message = &items[i];
        messages.push(
            UnifiedMessage {
                role: wire::text_or_else(message, "role", "user"),
                content: parse_content(message.get("content")),
            },
        );
        i += 1;
    }
    assert(views::of_list(messages@) =~= thread_of(all));
    proof {
        reveal_strlit("");
        assert(""@ =~= Seq::empty());
    }
    Ok(
        UnifiedRequest {
            model: wire::text_or_else(&payload, "model", ""),
            max_tokens: wire::read_token_limit(&payload, "max_tokens", "max_tokens"),
            system: wire::owned_text_at(&payload, "system"),
            messages,
            tools: chat::parse_tools(payload.get("tools")),
            tool_choice: chat::parse_tool_choice(payload.get("tool_choice")),
            parallel_tool_calls: wire::flag(&payload, "parallel_tool_calls"),
            stream: wire::flag(&payload, "stream"),
            background: false,
            previous_response_id: None,
        },
    )
}

// ---------------------------------------------------------------------------
// The reply
// ---------------------------------------------------------------------------

/// The arguments of a tool call as JSON; what is none counts as no arguments.
pub open spec fn input_of(arguments: Seq<char>) -> JsonView {
    match json::parsed(arguments) {
        Some(input) => input,
        None => JsonView::empty_object(),
    }
}

/// The members of a tool call.
pub open spec fn use_members(call: CallView) -> Members {
    seq![
        ("type"@, JsonView::Text("tool_use"@)),
        ("id"@, JsonView::Text(call.id)),
        ("name"@, JsonView::Text(call.name)),
        ("input"@, input_of(call.arguments)),
    ]
}

/// The members of the part that says what the model said.
pub open spec fn text_members(model_text: Seq<char>) -> Members {
    seq![("type"@, JsonView::Text("text"@)), ("text"@, JsonView::Text(model_text))]
}

/// The content of a reply: what the model said, or the tool calls.
pub open spec fn reply_content(model_text: Seq<char>, calls: Seq<CallView>) -> Seq<JsonView> {
    if calls.len() == 0 {
        seq![JsonView::object(text_members(model_text))]
    } else {
        calls.map_values(|call: CallView| JsonView::object(use_members(call)))
    }
}

/// The members of the usage that a reply reports.
pub open spec fn usage_members() -> Members {
    seq![("input_tokens"@, JsonView::Integer(0)), ("output_tokens"@, JsonView::Integer(0))]
}

/// The members of a reply.
pub open spec fn reply_members(
    model: Seq<char>,
    model_text: Seq<char>,
    calls: Seq<CallView>,
    unique: Seq<char>,
) -> Members {
    seq![
        ("id"@, JsonView::Text("msg_"@ + unique)),
        ("type"@, JsonView::Text("message"@)),
        ("role"@, JsonView::Text("assistant"@)),
        ("model"@, JsonView::Text(model)),
        ("content"@, JsonView::Array(reply_content(model_text, calls))),
        (
            "stop_reason"@,
            JsonView::Text(
                if calls.len() == 0 {
                    "end_turn"@
                } else {
                    "tool_use"@
                },
            ),
        ),
        ("stop_sequence"@, JsonView::Null),
        ("usage"@, JsonView::object(usage_members())),
    ]
}

/// The content of a reply.
fn emit_content(model_text: &str, tool_calls: &[ParsedToolCall]) -> (r: Vec<Json>)
    ensures
        json::models(r@) == reply_content(model_text@, views::of_list(tool_calls@)),
{
    if tool_calls.len() == 0 {
        let pairs = vec![("type", Json::text("text")), ("text", Json::text(model_text))];
        assert(json::pairs_view(pairs@) =~= text_members(model_text@));
        let content = vec![Json::object(pairs)];
        assert(json::models(content@) =~= seq![JsonView::object(text_members(model_text@))]);
        return content;
    }
    let mut out: Vec<Json> = Vec::new();
    let mut i: usize = 0;
    while i < tool_calls.len()
        invariant
            i <= tool_calls@.len(),
            out@.len() == i,
            forall|k: int|
                0 <= k < i ==> (#[trigger] out@[k])@ == JsonView::object(
                    use_members(tool_calls@[k]@),
                ),
        decreases tool_calls.len() - i,
    {
        let call = &tool_calls[i];
        let input = match json::parse_json(call.arguments.as_str()) {
            Some(input) => input,
            None => Json::empty_object(),
        };
        let pairs = vec![
            ("type", Json::text("tool_use")),
            ("id", Json::text(call.id.as_str())),
            ("name", Json::text(call.name.as_str())),
            ("input", input),
        ];
        assert(json::pairs_view(pairs@) =~= use_members(call@));
        out.push(Json::object(pairs));
        i += 1;
    }
    assert(json::models(out@) =~= reply_content(model_text@, views::of_list(tool_calls@)));
    out
}

/// The reply with this id.
pub fn response_with(
    request: &UnifiedRequest,
    model_text: &str,
    tool_calls: &[ParsedToolCall],
    unique: &str,
) -> (r: Json)
    ensures
        r@ == JsonView::object(
            reply_members(request@.model, model_text@, views::of_list(tool_calls@), unique@),
        ),
{
    let mut id = "msg_".to_owned();
    id.append(unique);
    let usage = vec![("input_tokens", Json::Unsigned(0)), ("output_tokens", Json::Unsigned(0))];
    assert(json::pairs_view(usage@) =~= usage_members());
    let pairs = vec![
        ("id", Json::Text(id)),
        ("type", Json::text("message")),
        ("role", Json::text("assistant")),
        ("model", Json::text(request.model.as_str())),
        ("content", Json::Array(emit_content(model_text, tool_calls))),
        (
            "stop_reason",
            Json::text(
                if tool_calls.len() == 0 {
                    "end_turn"
                } else {
                    "tool_use"
                },
            ),
        ),
        ("stop_sequence", Json::Null),
        ("usage", Json::object(usage)),
    ];
    assert(json::pairs_view(pairs@) =~= reply_members(
        request@.model,
        model_text@,
        views::of_list(tool_calls@),
        unique@,
    ));
    Json::object(pairs)
}

/// The reply, with an id of its own.
pub fn response(request: &UnifiedRequest, model_text: &str, tool_calls: &[ParsedToolCall]) -> (r:
    Json)
    ensures
        exists|unique: Seq<char>|
            ids::random_uuid(unique) && r@ == JsonView::object(
                #[trigger] reply_members(
                    request@.model,
                    model_text@,
                    views::of_list(tool_calls@),
                    unique,
                ),
            ),
{
    let unique = ids::fresh_uuid();
    response_with(request, model_text, tool_calls, unique.as_str())
}

} // verus!
