use model_toolcall_adapter::error::AdapterError;
use model_toolcall_adapter::json::{parse_json, Json};
use model_toolcall_adapter::types::{
    ParsedToolCall, ToolChoice, UnifiedContent, UnifiedMessage, UnifiedRequest,
};
use model_toolcall_adapter::wire::{chat, messages, responses, WireMode};

fn json(raw: &str) -> Json {
    parse_json(raw).unwrap()
}

fn call() -> ParsedToolCall {
    ParsedToolCall {
        id: "call_a".to_string(),
        name: "search".to_string(),
        arguments: r#"{"q":"rs"}"#.to_string(),
    }
}

#[test]
fn parses_assistant_tool_call_history() {
    let request = chat::parse_request(json(
        r#"{
            "model": "m",
            "messages": [
                {"role":"assistant","tool_calls":[{
                    "id":"call_a",
                    "type":"function",
                    "function":{"name":"search","arguments":"{\"q\":\"rs\"}"}
                }]},
                {"role":"tool","tool_call_id":"call_a","content":"ok"}
            ]
        }"#,
    ))
    .unwrap();

    assert_eq!(
        request.messages[0].content_text(),
        r#"<previous_tool_call id="call_a" name="search">{"q":"rs"}</previous_tool_call>"#
    );
    assert!(request.messages[1].content_text().contains("tool_result"));
}

#[test]
fn emits_chat_tool_calls() {
    let request = chat::parse_request(json(
        r#"{"model":"m","messages":[{"role":"user","content":"hi"}]}"#,
    ))
    .unwrap();
    let body = chat::response(&request, "", &[call()]);

    assert_eq!(
        body.text_under(&["choices", "0", "finish_reason"]),
        Some("tool_calls")
    );
    assert_eq!(
        body.text_under(&["choices", "0", "message", "tool_calls", "0", "function", "name"]),
        Some("search")
    );
}

#[test]
fn parses_messages_tool_schema() {
    let request = messages::parse_request(json(
        r#"{
            "model": "m",
            "max_tokens": 20,
            "system": "policy",
            "messages": [{"role":"user","content":[{"type":"text","text":"hi"}]}],
            "tools": [{"name":"search","input_schema":{"type":"object"}}]
        }"#,
    ))
    .unwrap();

    assert_eq!(request.system.as_deref(), Some("policy"));
    assert_eq!(request.tools[0].name, "search");
    assert_eq!(request.max_tokens, 20);
}

#[test]
fn emits_messages_tool_use() {
    let request = messages::parse_request(json(
        r#"{"model":"m","messages":[{"role":"user","content":"hi"}]}"#,
    ))
    .unwrap();
    let body = messages::response(&request, "", &[call()]);

    assert_eq!(body.text_at("stop_reason"), Some("tool_use"));
    assert_eq!(body.text_under(&["content", "0", "type"]), Some("tool_use"));
    assert_eq!(body.text_under(&["content", "0", "input", "q"]), Some("rs"));
}

#[test]
fn chat_requests_have_defaults() {
    let request = chat::parse_request(json(
        r#"{"messages":[
            {"role":"system","content":"first"},
            {"content":[{"text":"a"},{"image_url":{"url":"u"}},{"other":1}]},
            {"role":"system","content":"last"},
            {"role":"user","content":7},
            {"role":"user"}
        ],"tool_choice":"REQUIRED","max_completion_tokens":4294967298}"#,
    ))
    .unwrap();
    assert_eq!(request.model, "");
    assert_eq!(request.max_tokens, 2);
    assert_eq!(request.system.as_deref(), Some("last"));
    assert_eq!(request.tool_choice, ToolChoice::Required);
    assert!(!request.stream);
    assert_eq!(request.messages.len(), 3);
    assert_eq!(request.messages[0].role, "user");
    assert_eq!(request.messages[0].content_text(), "a\n[Image: u]");
    assert_eq!(request.messages[1].content_text(), "7");
    assert!(request.messages[2].content.is_empty());
    let request = chat::parse_request(json(r#"{"messages":[],"max_tokens":"x"}"#)).unwrap();
    assert_eq!(request.max_tokens, 1024);
}

#[test]
fn messages_must_be_a_list() {
    for raw in ["{}", r#"{"messages":{}}"#, "[]"] {
        let expected = AdapterError::InvalidRequest("messages must be an array".to_string());
        assert_eq!(chat::parse_request(json(raw)).unwrap_err(), expected);
        assert_eq!(messages::parse_request(json(raw)).unwrap_err(), expected);
    }
    assert_eq!(
        responses::parse_request(json("{}")).unwrap_err(),
        AdapterError::InvalidRequest("input is required".to_string())
    );
}

#[test]
fn reads_tools_and_choices() {
    let tools = chat::parse_tools(Some(&json(
        r#"[{"function":{"name":"a","description":"d","parameters":{"x":1}}},{"noname":1},{"name":"b"}]"#,
    )));
    assert_eq!(tools.len(), 2);
    assert_eq!(tools[0].description.as_deref(), Some("d"));
    assert_eq!(tools[0].input_schema.to_text(), r#"{"x":1}"#);
    assert_eq!(tools[1].name, "b");
    assert_eq!(tools[1].input_schema.to_text(), r#"{"type":"object"}"#);
    assert!(chat::parse_tools(None).is_empty());
    let choice = |raw: &str| chat::parse_tool_choice(Some(&json(raw)));
    assert_eq!(choice(r#""None""#), ToolChoice::Never);
    assert_eq!(choice(r#""auto""#), ToolChoice::Auto);
    assert_eq!(choice(r#""other""#), ToolChoice::Auto);
    assert_eq!(
        choice(r#"{"type":"function","function":{"name":"f"}}"#),
        ToolChoice::Function { name: "f".to_string() }
    );
    assert_eq!(choice(r#"{"name":"g"}"#), ToolChoice::Function { name: "g".to_string() });
    assert_eq!(choice("{}"), ToolChoice::Auto);
    assert_eq!(chat::parse_tool_choice(None), ToolChoice::Auto);
    assert_eq!(ToolChoice::default(), ToolChoice::Auto);
    assert!(ToolChoice::Required.requires_tool());
    assert!(!ToolChoice::Never.allows_tools());
    assert_eq!(choice(r#"{"name":"g"}"#).required_name(), Some("g"));
    assert_eq!(
        choice(r#"{"name":"g"}"#).to_wire_value().to_text(),
        r#"{"name":"g","type":"function"}"#
    );
    assert_eq!(ToolChoice::Never.to_wire_value(), Json::text("none"));
}

#[test]
fn reads_the_parts_of_messages() {
    let request = messages::parse_request(json(
        r#"{"messages":[{"content":[
            {"text":"plain"},
            {"type":"image","source":{"url":"u1"}},
            {"type":"image_url","image_url":{"url":"u2"}},
            {"type":"image"},
            {"type":"tool_use","id":"c","name":"n"},
            {"type":"tool_use","id":"c"},
            {"type":"tool_result","content":[{"text":"r"}],"is_error":true},
            {"type":"strange"}
        ]},{"role":"assistant","content":true}]}"#,
    ))
    .unwrap();
    let content = &request.messages[0].content;
    assert_eq!(content.len(), 5);
    assert_eq!(content[1], UnifiedContent::ImageUrl { url: "u1".to_string() });
    assert_eq!(content[2], UnifiedContent::ImageUrl { url: "u2".to_string() });
    assert_eq!(
        content[3].as_prompt_text(),
        r#"<previous_tool_call id="c" name="n">{}</previous_tool_call>"#
    );
    assert_eq!(
        content[4].as_prompt_text(),
        "<tool_result id=\"call_unknown\" is_error=\"true\">\nr\n</tool_result>"
    );
    assert_eq!(request.messages[1].content_text(), "true");
}

#[test]
fn replies_are_plain_without_calls() {
    let request = chat::parse_request(json(r#"{"model":"m","messages":[]}"#)).unwrap();
    let body = chat::response_with(&request, "hello", &[], "u", 5);
    assert_eq!(
        body.to_text(),
        r#"{"choices":[{"finish_reason":"stop","index":0,"message":{"content":"hello","role":"assistant"}}],"created":5,"id":"chatcmpl-u","model":"m","object":"chat.completion","usage":null}"#
    );
    let body = messages::response_with(&request, "hello", &[], "u");
    assert_eq!(
        body.to_text(),
        r#"{"content":[{"text":"hello","type":"text"}],"id":"msg_u","model":"m","role":"assistant","stop_reason":"end_turn","stop_sequence":null,"type":"message","usage":{"input_tokens":0,"output_tokens":0}}"#
    );
    let bad = ParsedToolCall {
        id: "c".to_string(),
        name: "n".to_string(),
        arguments: "not json".to_string(),
    };
    let body = messages::response_with(&request, "", &[bad], "u");
    assert_eq!(
        body.pointer(&["content", "0", "input"]).map(Json::to_text),
        Some("{}".to_string())
    );
}

#[test]
fn ids_are_random_uuids() {
    let request = chat::parse_request(json(r#"{"messages":[]}"#)).unwrap();
    let a = chat::response(&request, "x", &[]);
    let b = chat::response(&request, "x", &[]);
    let id = a.text_at("id").unwrap();
    assert_ne!(Some(id), b.text_at("id"));
    let unique: Vec<char> = id.strip_prefix("chatcmpl-").unwrap().chars().collect();
    assert_eq!(unique.len(), 36);
    assert_eq!(unique[14], '4');
    for (i, c) in unique.iter().enumerate() {
        if [8, 13, 18, 23].contains(&i) {
            assert_eq!(*c, '-');
        } else {
            assert!(c.is_ascii_digit() || ('a'..='f').contains(c));
        }
    }
    assert!(a.get("created").and_then(Json::as_i64).unwrap() > 1_500_000_000);
}

#[test]
fn reads_response_input() {
    let request = UnifiedRequest::from_wire_payload(
        WireMode::Responses,
        json(r#"{"model":"m","input":"hi","instructions":"be kind","background":true,"previous_response_id":"resp_0","max_output_tokens":9}"#),
    )
    .unwrap();
    assert_eq!(request.messages, vec![UnifiedMessage::text("user", "hi")]);
    assert_eq!(request.system.as_deref(), Some("be kind"));
    assert!(request.background);
    assert_eq!(request.previous_response_id.as_deref(), Some("resp_0"));
    assert_eq!(request.max_tokens, 9);
    let messages = responses::parse_input(&json(
        r#"[
            {"type":"message","role":"user","content":[
                {"type":"input_text","text":"Inspect this image"},
                {"type":"input_image","image_url":"data:image/png;base64,x"}
            ]},
            {"type":"function_call","call_id":"c","name":"n","arguments":"{\"a\":1}"},
            {"type":"function_call_output","call_id":"c","output":"done"},
            {"type":"reasoning"}
        ]"#,
    ));
    assert_eq!(messages.len(), 3);
    assert_eq!(messages[0].content.len(), 2);
    assert_eq!(messages[1].role, "assistant");
    assert_eq!(
        messages[1].content_text(),
        r#"<previous_tool_call id="c" name="n">{"a":1}</previous_tool_call>"#
    );
    assert_eq!(messages[2].role, "user");
}

#[test]
fn prompts_have_sections() {
    let mut request = chat::parse_request(json(
        r#"{"messages":[{"role":"user","content":"hi"}],"tools":[{"name":"t"}],"tool_choice":{"name":"t"}}"#,
    ))
    .unwrap();
    assert_eq!(
        request.render_prompt_with_tool_protocol("P"),
        "<tool_protocol>\nP\nTool choice: required function `t`. You must call this tool name exactly.\nParallel tool calls: disabled. Emit at most one tool call.\n</tool_protocol>\n\nuser: hi"
    );
    request.system = Some("be kind".to_string());
    request.tools.clear();
    assert_eq!(
        request.render_prompt_with_tool_protocol("P"),
        "<system>\nbe kind\n</system>\n\nuser: hi"
    );
    request.system = Some("  ".to_string());
    assert_eq!(request.render_prompt_with_tool_protocol("P"), "user: hi");
}
