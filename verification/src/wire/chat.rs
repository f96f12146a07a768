//! OpenAI's chat completions.
use vstd::prelude::*;

use crate::error::{AdapterError, ErrorView};
use crate::ids;
use crate::json;
use crate::json::{Json, JsonView, Members};
use crate::text;
use crate::types::{
    CallView, ChoiceView, ContentView, MessageView, ParsedToolCall, RequestView, ToolChoice,
    ToolDefinition, ToolView, UnifiedContent, UnifiedMessage, UnifiedRequest,
};
use crate::views;
use crate::wire;

verus! {

// ---------------------------------------------------------------------------
// What the parts of a request mean
// ---------------------------------------------------------------------------

/// What a part of a content says: its text, or that it is an image.
pub open spec fn part_text(part: JsonView) -> Option<Seq<char>> {
    match part.text_at("text"@) {
        Some(s) => Some(s),
        None => match part.text_under(seq!["image_url"@, "url"@]) {
            Some(url) => Some("[Image: "@ + url + "]"@),
            None => None,
        },
    }
}

/// What the parts of a content say, without those that say nothing.
pub open spec fn part_texts(parts: Seq<JsonView>) -> Seq<Seq<char>>
    decreases parts.len(),
{
    if parts.len() == 0 {
        Seq::empty()
    } else {
        let before = part_texts(parts.take(parts.len() - 1));
        match part_text(parts[parts.len() - 1]) {
            Some(s) => before.push(s),
            None => before,
        }
    }
}

/// What a content says.
pub open spec fn content_of(value: Option<JsonView>) -> Seq<char> {
    match value {
        Some(JsonView::Text(s)) => s,
        Some(JsonView::Array(parts)) => text::joined(part_texts(parts), "\n"@),
        Some(other) => json::compact(other),
        None => Seq::empty(),
    }
}

/// The schema of a tool that gives none.
pub open spec fn any_object() -> Members {
    seq![("type"@, JsonView::Text("object"@))]
}

/// A tool, be it given by itself or under `function`; it needs a name.
pub open spec fn tool_of(tool: JsonView) -> Option<ToolView> {
    let function = match tool.get("function"@) {
        Some(function) => function,
        None => tool,
    };
    match function.text_at("name"@) {
        None => None,
        Some(name) => Some(
            ToolView {
                name,
                description: function.text_at("description"@),
                input_schema: match function.get("parameters"@) {
                    Some(schema) => schema,
                    None => match function.get("input_schema"@) {
                        Some(schema) => schema,
                        None => JsonView::object(any_object()),
                    },
                },
            },
        ),
    }
}

/// The tools of a list, without those that have no name.
pub open spec fn tools_of(items: Seq<JsonView>) -> Seq<ToolView>
    decreases items.len(),
{
    if items.len() == 0 {
        Seq::empty()
    } else {
        let before = tools_of(items.take(items.len() - 1));
        match tool_of(items[items.len() - 1]) {
            Some(tool) => before.push(tool),
            None => before,
        }
    }
}

/// The items of a list that may be missing or no list.
pub open spec fn items_of(value: Option<JsonView>) -> Seq<JsonView> {
    match value {
        Some(JsonView::Array(items)) => items,
        _ => Seq::empty(),
    }
}

/// The choice of tools.
pub open spec fn choice_of(value: Option<JsonView>) -> ChoiceView {
    match value {
        Some(JsonView::Text(s)) => if text::same_ignoring_case(s, "none"@) {
            ChoiceView::Never
        } else if text::same_ignoring_case(s, "required"@) {
            ChoiceView::Required
        } else {
            ChoiceView::Auto
        },
        Some(JsonView::Object(members)) => {
            let named = match json::lookup(members, "function"@) {
                Some(function) => function.get("name"@),
                None => None,
            };
            let name = match named {
                Some(name) => Some(name),
                None => json::lookup(members, "name"@),
            };
            match name {
                Some(JsonView::Text(name)) => ChoiceView::Function { name },
                _ => ChoiceView::Auto,
            }
        },
        _ => ChoiceView::Auto,
    }
}

/// The arguments of a tool call: those that are a JSON text as the value that it is.
pub open spec fn arguments_of(value: Option<JsonView>) -> JsonView {
    match value {
        None => JsonView::empty_object(),
        Some(JsonView::Text(raw)) => match json::parsed(raw) {
            Some(read) => read,
            None => JsonView::Text(raw),
        },
        Some(other) => other,
    }
}

/// A tool call that was made earlier; it needs a name.
pub open spec fn earlier_call(call: JsonView) -> Option<ContentView> {
    let function = match call.get("function"@) {
        Some(function) => function,
        None => call,
    };
    match function.text_at("name"@) {
        None => None,
        Some(name) => Some(
            ContentView::ToolUse {
                id: wire::text_or(call, "id"@, "call_unknown"@),
                name,
                input: arguments_of(function.get("arguments"@)),
            },
        ),
    }
}

/// The tool calls that were made earlier, without those that have no name.
pub open spec fn earlier_calls(items: Seq<JsonView>) -> Seq<ContentView>
    decreases items.len(),
{
    if items.len() == 0 {
        Seq::empty()
    } else {
        let before = earlier_calls(items.take(items.len() - 1));
        match earlier_call(items[items.len() - 1]) {
            Some(call) => before.push(call),
            None => before,
        }
    }
}

/// A message that is not the system's: the result of a tool, or a text and the tool
/// calls of an assistant.
pub open spec fn message_of(message: JsonView, role: Seq<char>) -> MessageView {
    let said = content_of(message.get("content"@));
    if role == "tool"@ {
        MessageView {
            role: "user"@,
            content: seq![
                ContentView::ToolResult {
                    tool_use_id: wire::text_or(message, "tool_call_id"@, "call_unknown"@),
                    content: said,
                    is_error: false,
                },
            ],
        }
    } else {
        MessageView {
            role,
            content: (if text::blank(said) {
                Seq::empty()
            } else {
                seq![ContentView::Text { text: said }]
            }) + (if role == "assistant"@ {
                earlier_calls(items_of(message.get("tool_calls"@)))
            } else {
                Seq::empty()
            }),
        }
    }
}

/// The messages that are not the system's.
pub open spec fn thread_of(items: Seq<JsonView>) -> Seq<MessageView>
    decreases items.len(),
{
    if items.len() == 0 {
        Seq::empty()
    } else {
        let before = thread_of(items.take(items.len() - 1));
        let message = items[items.len() - 1];
        let role = wire::text_or(message, "role"@, "user"@);
        if role == "system"@ {
            before
        } else {
            before.push(message_of(message, role))
        }
    }
}

/// What the system's last message says.
pub open spec fn system_of(items: Seq<JsonView>) -> Option<Seq<char>>
    decreases items.len(),
{
    if items.len() == 0 {
        None
    } else {
        let message = items[items.len() - 1];
        if wire::text_or(message, "role"@, "user"@) == "system"@ {
            Some(content_of(message.get("content"@)))
        } else {
            system_of(items.take(items.len() - 1))
        }
    }
}

/// The request that a payload makes.
pub open spec fn request_of(payload: JsonView) -> Result<RequestView, ErrorView> {
    match payload.get("messages"@) {
        Some(JsonView::Array(items)) => Ok(
            RequestView {
                model: wire::text_or(payload, "model"@, Seq::empty()),
                max_tokens: wire::token_limit(payload, "max_tokens"@, "max_completion_tokens"@),
                system: system_of(items),
                messages: thread_of(items),
                tools: tools_of(items_of(payload.get("tools"@))),
                tool_choice: choice_of(payload.get("tool_choice"@)),
                parallel_tool_calls: wire::is_set(payload, "parallel_tool_calls"@),
                stream: wire::is_set(payload, "stream"@),
                background: false,
                previous_response_id: None,
            },
        ),
        _ => Err(ErrorView::InvalidRequest("messages must be an array"@)),
    }
}

// ---------------------------------------------------------------------------
// Reading a request
// ---------------------------------------------------------------------------

/// What a content says.
pub fn extract_chat_content(value: Option<&Json>) -> (r: String)
    ensures
        r@ == content_of(views::of_option(value)),
{
    match value {
        Some(Json::Text(s)) => s.clone(),
        Some(Json::Array(parts)) => {
            let texts = extract_part_texts(parts);
            text::join(&texts, "\n")
        },
        Some(other) => other.to_text(),
        None => String::new(),
    }
}

/// What a part of a content says.
fn extract_part_text(part: &Json) -> (r: Option<String>)
    ensures
        views::of_option(r) == part_text(part@),
{
    let path = vec!["image_url", "url"];
    assert(json::tokens_view(path@) =~= seq!["image_url"@, "url"@]);
    match part.text_at("text") {
        Some(s) => Some(s.to_owned()),
        None => match part.text_under(path.as_slice()) {
            Some(url) => {
                let mut out = "[Image: ".to_owned();
                out.append(url);
                out.append("]");
                Some(out)
            },
            None => None,
        },
    }
}

/// What the parts of a content say.
fn extract_part_texts(parts: &Vec<Json>) -> (r: Vec<String>)
    ensures
        text::texts(r@) == part_texts(json::models(parts@)),
{
    let ghost all = json::models(parts@);
    let mut out: Vec<String> = Vec::new();
    let mut i: usize = 0;
    assert(all.take(0) =~= Seq::empty());
    assert(text::texts(out@) =~= Seq::empty());
    while i < parts.len()
        invariant
            i <= parts@.len(),
            all == json::models(parts@),
            text::texts(out@) == part_texts(all.take(i as int)),
        decreases parts.len() - i,
    {
        let ghost next = all.take(i + 1);
        let ghost before = out@;
        assert(next.take(i as int) =~= all.take(i as int));
        if let Some(s) = extract_part_text(&parts[i]) {
            out.push(s);
            assert(text::texts(out@) =~= text::texts(before).push(s@));
        }
        i += 1;
    }
    assert(all.take(i as int) =~= all);
    out
}

/// A tool, be it given by itself or under `function`.
fn parse_tool(tool: &Json) -> (r: Option<ToolDefinition>)
    ensures
        views::of_option(r) == tool_of(tool@),
{
    let function = match tool.get("function") {
        Some(function) => function,
        None => tool,
    };
    let name = match function.text_at("name") {
        Some(name) => name.to_owned(),
        None => {
            return None;
        },
    };
    let input_schema = match function.get("parameters") {
        Some(schema) => schema.clone(),
        None => match function.get("input_schema") {
            Some(schema) => schema.clone(),
            None => {
                let pairs = vec![("type", Json::text("object"))];
                assert(json::pairs_view(pairs@) =~= any_object());
                Json::object(pairs)
            },
        },
    };
    Some(
        ToolDefinition {
            name,
            description: wire::owned_text_at(function, "description"),
            input_schema,
        },
    )
}

/// The tools of a list that may be missing or no list.
pub fn parse_tools(value: Option<&Json>) -> (r: Vec<ToolDefinition>)
    ensures
        views::of_list(r@) == tools_of(items_of(views::of_option(value))),
{
    let mut out: Vec<ToolDefinition> = Vec::new();
    assert(views::of_list(out@) =~= Seq::empty());
    let items = match value {
        Some(Json::Array(items)) => items,
        _ => {
            return out;
        },
    };
    let ghost all = json::models(items@);
    let mut i: usize = 0;
    assert(all.take(0) =~= Seq::empty());
    while i < items.len()
        invariant
            i <= items@.len(),
            all == json::models(items@),
            views::of_list(out@) == tools_of(all.take(i as int)),
        decreases items.len() - i,
    {
        let ghost next = all.take(i + 1);
        let ghost before = out@;
        assert(next.take(i as int) =~= all.take(i as int));
        if let Some(tool) = parse_tool(&items[i]) {
            out.push(tool);
            assert(views::of_list(out@) =~= views::of_list(before).push(tool@));
        }
        i += 1;
    }
    assert(all.take(i as int) =~= all);
    out
}

/// The choice of tools.
pub fn parse_tool_choice(value: Option<&Json>) -> (r: ToolChoice)
    ensures
        r@ == choice_of(views::of_option(value)),
{
    match value {
        Some(Json::Text(s)) => if text::eq_ignore_case(s.as_str(), "none") {
            ToolChoice::Never
        } else if text::eq_ignore_case(s.as_str(), "required") {
            ToolChoice::Required
        } else {
            ToolChoice::Auto
        },
        Some(Json::Object(object)) => {
            let named = match object.get("function") {
                Some(function) => function.get("name"),
                None => None,
            };
            let name = match named {
                Some(name) => Some(name),
                None => object.get("name"),
            };
            match name {
                Some(Json::Text(name)) => ToolChoice::Function { name: name.clone() },
                _ => ToolChoice::Auto,
            }
        },
        _ => ToolChoice::Auto,
    }
}

/// The arguments of a tool call.
pub fn parse_arguments(value: Option<&Json>) -> (r: Json)
    ensures
        r@ == arguments_of(views::of_option(value)),
{
    match value {
        None => Json::empty_object(),
        Some(Json::Text(raw)) => match json::parse_json(raw.as_str()) {
            Some(read) => read,
            None => Json::Text(raw.clone()),
        },
        Some(other) => other.clone(),
    }
}

/// A tool call that was made earlier.
fn parse_chat_tool_call(call: &Json) -> (r: Option<UnifiedContent>)
    ensures
        views::of_option(r) == earlier_call(call@),
{
    let function = match call.get("function") {
        Some(function) => function,
        None => call,
    };
    match function.text_at("name") {
        None => None,
        Some(name) => Some(
            UnifiedContent::ToolUse {
                id: wire::text_or_else(call, "id", "call_unknown"),
                name: name.to_owned(),
                input: parse_arguments(function.get("arguments")),
            },
        ),
    }
}

/// The tool calls that were made earlier.
fn parse_chat_tool_calls(value: Option<&Json>) -> (r: Vec<UnifiedContent>)
    ensures
        views::of_list(r@) == earlier_calls(items_of(views::of_option(value))),
{
    let mut out: Vec<UnifiedContent> = Vec::new();
    assert(views::of_list(out@) =~= Seq::empty());
    let items = match value {
        Some(Json::Array(items)) => items,
        _ => {
            return out;
        },
    };
    let ghost all = json::models(items@);
    let mut i: usize = 0;
    assert(all.take(0) =~= Seq::empty());
    while i < items.len()
        invariant
            i <= items@.len(),
            all == json::models(items@),
            views::of_list(out@) == earlier_calls(all.take(i as int)),
        decreases items.len() - i,
    {
        let ghost next = all.take(i + 1);
        let ghost before = out@;
        assert(next.take(i as int) =~= all.take(i as int));
        if let Some(call) = parse_chat_tool_call(&items[i]) {
            out.push(call);
            assert(views::of_list(out@) =~= views::of_list(before).push(call@));
        }
        i += 1;
    }
    assert(all.take(i as int) =~= all);
    out
}

/// A message that is not the system's.
fn parse_message(message: &Json, role: String) -> (r: UnifiedMessage)
    ensures
        r@ == message_of(message@, role@),
{
    let said = extract_chat_content(message.get("content"));
    if text::same(role.as_str(), "tool") {
        let content = vec![
            UnifiedContent::ToolResult {
                tool_use_id: wire::text_or_else(message, "tool_call_id", "call_unknown"),
                content: said,
                is_error: false,
            },
        ];
        assert(views::of_list(content@) =~= seq![content@[0]@]);
        return UnifiedMessage { role: "user".to_owned(), content };
    }
    let mut content: Vec<UnifiedContent> = Vec::new();
    if !text::is_blank(said.as_str()) {
        content.push(UnifiedContent::Text { text: said });
    }
    let ghost first = content@;
    assert(views::of_list(first) =~= if text::blank(said@) {
        Seq::empty()
    } else {
        seq![ContentView::Text { text: said@ }]
    });
    if text::same(role.as_str(), "assistant") {
        let mut calls = parse_chat_tool_calls(message.get("tool_calls"));
        let ghost added = calls@;
        content.append(&mut calls);
        assert(views::of_list(content@) =~= views::of_list(first) + views::of_list(added)) by {
            assert(content@ == first + added);
        }
    } else {
        assert(views::of_list(content@) =~= views::of_list(first) + Seq::empty());
    }
    UnifiedMessage { role, content }
}

/// Reads a request.
pub fn parse_request(payload: Json) -> (r: Result<UnifiedRequest, AdapterError>)
    ensures
        views::of_result(r) == request_of(payload@),
{
    let items = match payload.get("messages") {
        Some(Json::Array(items)) => items,
        _ => {
            return Err(AdapterError::InvalidRequest("messages must be an array".to_owned()));
        },
    };
    let ghost all = json::models(items@);
    let mut system: Option<String> = None;
    let mut messages: Vec<UnifiedMessage> = Vec::new();
    let mut i: usize = 0;
    assert(all.take(0) =~= Seq::empty());
    assert(views::of_list(messages@) =~= Seq::empty());
    while i < items.len()
        invariant
            i <= items@.len(),
            all == json::models(items@),
            views::of_list(messages@) == thread_of(all.take(i as int)),
            views::of_option(system) == system_of(all.take(i as int)),
        decreases items.len() - i,
    {
        let ghost next = all.take(i + 1);
        let ghost before = messages@;
        assert(next.take(i as int) =~= all.take(i as int));
        let message = &items[i];
        let role = wire::text_or_else(message, "role", "user");
        if text::same(role.as_str(), "system") {
            system = Some(extract_chat_content(message.get("content")));
        } else {
            let parsed = parse_message(message, role);
            messages.push(parsed);
            assert(views::of_list(messages@) =~= views::of_list(before).push(parsed@));
        }
        i += 1;
    }
    assert(all.take(i as int) =~= all);
    proof {
        reveal_strlit("");
        assert(""@ =~= Seq::empty());
    }
    Ok(
        UnifiedRequest {
            model: wire::text_or_else(&payload, "model", ""),
            max_tokens: wire::read_token_limit(&payload, "max_tokens", "max_completion_tokens"),
            system,
            messages,
            tools: parse_tools(payload.get("tools")),
            tool_choice: parse_tool_choice(payload.get("tool_choice")),
            parallel_tool_calls: wire::flag(&payload, "parallel_tool_calls"),
            stream: wire::flag(&payload, "stream"),
            background: false,
            previous_response_id: None,
        },
    )
}

// ---------------------------------------------------------------------------
// The reply
// ---------------------------------------------------------------------------

/// The members of the function of a tool call.
pub open spec fn function_members(call: CallView) -> Members {
    seq![("name"@, JsonView::Text(call.name)), ("arguments"@, JsonView::Text(call.arguments))]
}

/// The members of a tool call.
pub open spec fn call_members(call: CallView) -> Members {
    seq![
        ("id"@, JsonView::Text(call.id)),
        ("type"@, JsonView::Text("function"@)),
        ("function"@, JsonView::object(function_members(call))),
    ]
}

/// The tool calls of a reply.
pub open spec fn call_items(calls: Seq<CallView>) -> Seq<JsonView> {
    calls.map_values(|call: CallView| JsonView::object(call_members(call)))
}

/// The members of the message of a reply: what the model said, or the tool calls.
pub open spec fn reply_message(model_text: Seq<char>, calls: Seq<CallView>) -> Members {
    if calls.len() == 0 {
        seq![("role"@, JsonView::Text("assistant"@)), ("content"@, JsonView::Text(model_text))]
    } else {
        seq![
            ("role"@, JsonView::Text("assistant"@)),
            ("content"@, JsonView::Text(Seq::empty())),
            ("tool_calls"@, JsonView::Array(call_items(calls))),
        ]
    }
}

/// The members of the one choice of a reply.
pub open spec fn choice_members(model_text: Seq<char>, calls: Seq<CallView>) -> Members {
    seq![
        ("index"@, JsonView::Integer(0)),
        ("message"@, JsonView::object(reply_message(model_text, calls))),
        (
            "finish_reason"@,
            JsonView::Text(
                if calls.len() == 0 {
                    "stop"@
                } else {
                    "tool_calls"@
                },
            ),
        ),
    ]
}

/// The members of a reply.
pub open spec fn reply_members(
    model: Seq<char>,
    model_text: Seq<char>,
    calls: Seq<CallView>,
    unique: Seq<char>,
    created: int,
) -> Members {
    seq![
        ("id"@, JsonView::Text("chatcmpl-"@ + unique)),
        ("object"@, JsonView::Text("chat.completion"@)),
        ("created"@, JsonView::Integer(created)),
        ("model"@, JsonView::Text(model)),
        (
            "choices"@,
            JsonView::Array(seq![JsonView::object(choice_members(model_text, calls))]),
        ),
        ("usage"@, JsonView::Null),
    ]
}

/// The tool calls of a reply.
fn emit_calls(calls: &[ParsedToolCall]) -> (r: Vec<Json>)
    ensures
        json::models(r@) == call_items(views::of_list(calls@)),
{
    let mut out: Vec<Json> = Vec::new();
    let mut i: usize = 0;
    while i < calls.len()
        invariant
            i <= calls@.len(),
            out@.len() == i,
            forall|k: int|
                0 <= k < i ==> (#[trigger] out@[k])@ == JsonView::object(
                    call_members(calls@[k]@),
                ),
        decreases calls.len() - i,
    {
        let call = &calls[i];
        let function = vec![
            ("name", Json::text(call.name.as_str())),
            ("arguments", Json::text(call.arguments.as_str())),
        ];
        assert(json::pairs_view(function@) =~= function_members(call@));
        let pairs = vec![
            ("id", Json::text(call.id.as_str())),
            ("type", Json::text("function")),
            ("function", Json::object(function)),
        ];
        assert(json::pairs_view(pairs@) =~= call_members(call@));
        out.push(Json::object(pairs));
        i += 1;
    }
    assert(json::models(out@) =~= call_items(views::of_list(calls@)));
    out
}

/// The reply with this id and time.
pub fn response_with(
    request: &UnifiedRequest,
    model_text: &str,
    tool_calls: &[ParsedToolCall],
    unique: &str,
    created: i64,
) -> (r: Json)
    ensures
        r@ == JsonView::object(
            reply_members(
                request@.model,
                model_text@,
                views::of_list(tool_calls@),
                unique@,
                created as int,
            ),
        ),
{
    let ghost calls = views::of_list(tool_calls@);
    proof {
        reveal_strlit("");
        assert(""@ =~= Seq::empty());
    }
    let plain = tool_calls.len() == 0;
    let message = if plain {
        vec![("role", Json::text("assistant")), ("content", Json::text(model_text))]
    } else {
        vec![
            ("role", Json::text("assistant")),
            ("content", Json::text("")),
            ("tool_calls", Json::Array(emit_calls(tool_calls))),
        ]
    };
    assert(json::pairs_view(message@) =~= reply_message(model_text@, calls));
    let choice = vec![
        ("index", Json::Unsigned(0)),
        ("message", Json::object(message)),
        (
            "finish_reason",
            Json::text(
                if plain {
                    "stop"
                } else {
                    "tool_calls"
                },
            ),
        ),
    ];
    assert(json::pairs_view(choice@) =~= choice_members(model_text@, calls));
    let choices = vec![Json::object(choice)];
    assert(json::models(choices@) =~= seq![JsonView::object(choice_members(model_text@, calls))]);
    let mut id = "chatcmpl-".to_owned();
    id.append(unique);
    let pairs = vec![
        ("id", Json::Text(id)),
        ("object", Json::text("chat.completion")),
        ("created", Json::integer(created)),
        ("model", Json::text(request.model.as_str())),
        ("choices", Json::Array(choices)),
        ("usage", Json::Null),
    ];
    assert(json::pairs_view(pairs@) =~= reply_members(
        request@.model,
        model_text@,
        calls,
        unique@,
        created as int,
    ));
    Json::object(pairs)
}

/// The reply, with an id of its own and the time.
pub fn response(request: &UnifiedRequest, model_text: &str, tool_calls: &[ParsedToolCall]) -> (r:
    Json)
    ensures
        exists|unique: Seq<char>, created: int|
            ids::random_uuid(unique) && r@ == JsonView::object(
                #[trigger] reply_members(
                    request@.model,
                    model_text@,
                    views::of_list(tool_calls@),
                    unique,
                    created,
                ),
            ),
{
    let unique = ids::fresh_uuid();
    let created = ids::unix_time();
    response_with(request, model_text, tool_calls, unique.as_str(), created)
}

} // verus!
