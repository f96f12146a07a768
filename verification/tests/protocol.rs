use model_toolcall_adapter::json::parse_json;
use model_toolcall_adapter::protocol::{
    clean_jsonish, parse_listed, parse_tool_calls, render_tool_protocol_prompt, tagged_call, value_call, value_calls,
};
use model_toolcall_adapter::types::{ToolDefinition, UnifiedContent};

#[test]
fn parses_xml_tool_call() {
    let calls = parse_tool_calls(r#"<tool_call id="call_a" name="search">{"q":"rs"}</tool_call>"#);
    assert_eq!(calls[0].id, "call_a");
    assert_eq!(calls[0].name, "search");
    assert_eq!(calls[0].arguments, r#"{"q":"rs"}"#);
}

#[test]
fn parses_json_tool_call() {
    let calls = parse_tool_calls(r#"{"tool_call":{"name":"search","arguments":{"q":"rs"}}}"#);
    assert_eq!(calls[0].name, "search");
    assert_eq!(calls[0].arguments, r#"{"q":"rs"}"#);
}

#[test]
fn parses_aeon_tool_call_with_single_quotes() {
    let calls =
        parse_tool_calls(r#"<aeon_tool_call id='a' name='search'>{"q":"rs"}</aeon_tool_call>"#);
    assert_eq!(calls[0].id, "a");
    assert_eq!(calls[0].name, "search");
}

#[test]
fn parses_openai_style_tool_calls_array() {
    let calls = parse_tool_calls(
        r#"{"tool_calls":[{"id":"call_a","function":{"name":"search","arguments":"{\"q\":\"rs\"}"}}]}"#,
    );
    assert_eq!(calls[0].id, "call_a");
    assert_eq!(calls[0].name, "search");
    assert_eq!(calls[0].arguments, r#"{"q":"rs"}"#);
}

#[test]
fn parses_self_closing_tool_call_attrs() {
    let calls = parse_tool_calls(r#"<tool_call id="a" name="get" url="https://example.com" />"#);
    assert_eq!(calls[0].arguments, r#"{"url":"https://example.com"}"#);
}

#[test]
fn parses_previous_tool_call_as_tool_call_candidate() {
    let calls = parse_tool_calls(
        r#"<previous_tool_call id="call_a" name="exec_command">{"cmd":"cargo check"}</previous_tool_call>FINISHED"#,
    );

    assert_eq!(calls[0].id, "call_a");
    assert_eq!(calls[0].name, "exec_command");
    assert_eq!(calls[0].arguments, r#"{"cmd":"cargo check"}"#);
}

#[test]
fn parses_previous_tool_call_with_mismatched_close_tag() {
    let calls = parse_tool_calls(
        r#"<previous_tool_call id="call_a" name="shell_command">{"command":"pwd"}</tool_call>"#,
    );

    assert_eq!(calls.len(), 1);
    assert_eq!(calls[0].id, "call_a");
    assert_eq!(calls[0].name, "shell_command");
    assert_eq!(calls[0].arguments, r#"{"command":"pwd"}"#);
}

#[test]
fn numbers_calls_without_an_id() {
    let calls = parse_tool_calls(
        r#"first <tool_call name="a">{"x":1}</tool_call> then <tool_call name="b">{"y":2}</tool_call>"#,
    );
    assert_eq!(calls.len(), 2);
    assert_eq!(calls[0].id, "call_1");
    assert_eq!(calls[1].id, "call_2");
    assert_eq!(calls[1].name, "b");
    assert_eq!(calls[1].arguments, r#"{"y":2}"#);
}

#[test]
fn passes_over_calls_that_cannot_be_read() {
    let calls = parse_tool_calls(
        r#"<tool_call name="a">not json</tool_call><tool_call name="b">{}</tool_call>"#,
    );
    assert_eq!(calls.len(), 1);
    assert_eq!(calls[0].id, "call_1");
    assert_eq!(calls[0].name, "b");
}

#[test]
fn stops_at_a_tag_that_is_not_closed() {
    assert!(parse_tool_calls(r#"<tool_call name="a">{"x":1}"#).is_empty());
    assert!(parse_tool_calls("<tool_call name=").is_empty());
    assert!(parse_tool_calls("").is_empty());
    assert!(parse_tool_calls("just words").is_empty());
}

#[test]
fn takes_the_name_from_the_body_and_unwraps_arguments() {
    let calls = parse_tool_calls(
        r#"<tool_call id="c">{"name":"run","arguments":{"cmd":"ls"}}</tool_call>"#,
    );
    assert_eq!(calls[0].name, "run");
    assert_eq!(calls[0].arguments, r#"{"cmd":"ls"}"#);
    let calls = parse_tool_calls(r#"<tool_invoke name="run">{"args":{"cmd":"ls"}}</tool_invoke>"#);
    assert_eq!(calls[0].arguments, r#"{"cmd":"ls"}"#);
}

#[test]
fn reads_calls_from_fenced_blocks() {
    let calls = parse_tool_calls(
        "Sure:\n```json\n{\"tool_calls\":[{\"name\":\"a\"},{\"id\":\"x\",\"name\":\"b\",\"args\":{\"k\":true}}]}\n```\n",
    );
    assert_eq!(calls.len(), 2);
    assert_eq!(calls[0].id, "call_1");
    assert_eq!(calls[0].arguments, "{}");
    assert_eq!(calls[1].id, "x");
    assert_eq!(calls[1].arguments, r#"{"k":true}"#);
    let calls = parse_tool_calls("```\n{\"name\":\"a\",\"arguments\":\"raw text\"}\n```");
    assert_eq!(calls.len(), 1);
    assert_eq!(calls[0].id, "call_1");
    assert_eq!(calls[0].arguments, "raw text");
}

#[test]
fn reads_a_closing_tag_of_the_plural_form() {
    let calls =
        parse_tool_calls(r#"<aeon_tool_call name="s">{"q":1}</aeon_tool_calls> trailing"#);
    assert_eq!(calls.len(), 1);
    assert_eq!(calls[0].arguments, r#"{"q":1}"#);
}

#[test]
fn a_rendered_call_reads_back() {
    let content = UnifiedContent::ToolUse {
        id: "call_7".to_string(),
        name: "search".to_string(),
        input: parse_json(r#"{"q":"rs","n":3}"#).unwrap(),
    };
    let calls = parse_tool_calls(&content.as_prompt_text());
    assert_eq!(calls.len(), 1);
    assert_eq!(calls[0].id, "call_7");
    assert_eq!(calls[0].name, "search");
    assert_eq!(calls[0].arguments, r#"{"n":3,"q":"rs"}"#);
}

#[test]
fn a_call_in_the_asked_form_reads_back() {
    let calls = parse_tool_calls(
        "<tool_call id=\"call_unique_id\" name=\"tool_name\">\n{\"arg\":\"value\"}\n</tool_call>",
    );
    assert_eq!(calls.len(), 1);
    assert_eq!(calls[0].id, "call_unique_id");
    assert_eq!(calls[0].name, "tool_name");
    assert_eq!(calls[0].arguments, r#"{"arg":"value"}"#);
}

#[test]
fn tags_with_wide_white_space_are_read() {
    let calls = parse_tool_calls("<tool_call\u{3000}name=\"a\">{\"x\":1}</tool_call>");
    assert_eq!(calls.len(), 1);
    assert_eq!(calls[0].name, "a");
}

#[test]
fn protocol_prompt_lists_tools() {
    let prompt = render_tool_protocol_prompt(&[]);
    assert!(prompt.starts_with("CRITICAL adapter tool-call protocol override.\nYou are behind"));
    assert!(prompt.contains("<tool_call id=\"call_unique_id\" name=\"tool_name\">\n{\"arg\":\"value\"}\n</tool_call>\n\nRules:\n"));
    assert!(prompt.ends_with("answer normally in the user's language.\n\nNo tools are available."));
    let tools = vec![
        ToolDefinition {
            name: "search".to_string(),
            description: Some("finds".to_string()),
            input_schema: parse_json(r#"{"type":"object"}"#).unwrap(),
        },
        ToolDefinition {
            name: "bare".to_string(),
            description: None,
            input_schema: parse_json("true").unwrap(),
        },
    ];
    let prompt = render_tool_protocol_prompt(&tools);
    assert!(prompt.ends_with(
        "\nAvailable tools:\n- name: search\n  description: finds\n  input_schema: {\"type\":\"object\"}\n- name: bare\n  description: \n  input_schema: true\n"
    ));
}

#[test]
fn calls_among_prose_are_all_read() {
    let calls = parse_tool_calls(
        "I look first. <tool_call id=\"a\" name=\"read\">{\"path\":\"x\"}</tool_call> and then\n\
         <tool_call id=\"b\" name=\"run\">\n{\"cmd\":[\"ls\"]}\n</tool_call> that is all",
    );
    assert_eq!(calls.len(), 2);
    assert_eq!((calls[0].id.as_str(), calls[0].name.as_str()), ("a", "read"));
    assert_eq!(calls[0].arguments, r#"{"path":"x"}"#);
    assert_eq!((calls[1].id.as_str(), calls[1].name.as_str()), ("b", "run"));
    assert_eq!(calls[1].arguments, r#"{"cmd":["ls"]}"#);
    assert!(parse_tool_calls("I look first, and then I run it.").is_empty());
}

#[test]
fn calls_are_read_off_values() {
    let tag: Vec<char> = "<tool_call name='a'>".chars().collect();
    let call = tagged_call(&tag, &parse_json(r#"{"args":{"x":1},"name":"b"}"#).unwrap(), 4).unwrap();
    assert_eq!((call.id.as_str(), call.name.as_str()), ("call_4", "a"));
    assert_eq!(call.arguments, r#"{"x":1}"#);
    let bare: Vec<char> = "<tool_call>".chars().collect();
    assert!(tagged_call(&bare, &parse_json("1").unwrap(), 1).is_none());
    let call = value_call(&parse_json(r#"{"toolCall":{"name":"n","input":"raw"}}"#).unwrap()).unwrap();
    assert_eq!((call.id.as_str(), call.name.as_str()), ("call_1", "n"));
    assert_eq!(call.arguments, "raw");
    assert!(value_call(&parse_json("[]").unwrap()).is_none());
    let calls = value_calls(&parse_json(r#"{"tools":[{},{"function":{"name":"f","arguments":{}}}]}"#).unwrap());
    assert_eq!(calls.len(), 1);
    assert_eq!((calls[0].id.as_str(), calls[0].arguments.as_str()), ("call_2", "{}"));
    assert!(value_calls(&parse_json(r#"{"tools":1}"#).unwrap()).is_empty());
}

#[test]
fn arguments_are_cleaned_to_their_braces() {
    let cleaned = clean_jsonish;
    assert_eq!(cleaned("see: ```json\n{\"a\":{}}\n``` done"), r#"{"a":{}}"#);
    assert_eq!(cleaned("```{\"a\":1} ```"), r#"{"a":1}"#);
    assert_eq!(cleaned(&cleaned("x } { y } z")), "{ y }");
    assert_eq!(cleaned(" } x { "), "} x {");
    let call = parse_json(r#"{"name":"n","arguments":"so: {\"a\":1}."}"#).unwrap();
    assert_eq!(parse_listed(&call, 1).unwrap().arguments, r#"{"a":1}"#);
}
