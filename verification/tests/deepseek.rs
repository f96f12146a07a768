use model_toolcall_adapter::error::AdapterError;
use model_toolcall_adapter::json::{parse_json, Json};
use model_toolcall_adapter::providers::deepseek_web;
use model_toolcall_adapter::providers::deepseek_web::client::{
    challenge_request_body, completion_payload, deepseek_model_type, http_failure, redact_secret,
    session_request_body, truncate_for_error, truncate_middle_to_bytes, DeepSeekSessionState,
    DeepSeekWebClient, DeepSeekWebOptions, TRUNCATION_MARKER,
};
use model_toolcall_adapter::providers::deepseek_web::deltas::{
    extract_deepseek_deltas, extract_deepseek_error_text, extract_parent_message_id,
    find_deepseek_session_id, parse_deepseek_sse_values, DeepSeekDeltaKind,
};
use model_toolcall_adapter::providers::deepseek_web::pow::{
    deepseek_pow_response_payload, find_challenge, leading_zero_bits, pow_header, read_challenge, script_failed,
    script_result, solve_pow, solve_sha256_pow, PowStep,
};
use model_toolcall_adapter::providers::deepseek_web::stream::{
    read_response, DeepSeekStream, DeepSeekStreamEvent, DeepSeekWebResponse,
};
use model_toolcall_adapter::providers::openai_compat::{
    chat_completions_endpoint, models_endpoint, read_completion, read_models, OpenAiCompatClient,
};
use model_toolcall_adapter::providers::{
    resolve_listing_provider, resolve_provider, ProviderKind,
};
use model_toolcall_adapter::table::Table;
use model_toolcall_adapter::types::{ToolChoice, UnifiedRequest};
use model_toolcall_adapter::upstream::UpstreamRequestOptions;
use sha2::Digest;

fn options_of(raw: &str) -> DeepSeekWebOptions {
    DeepSeekWebOptions::from_raw(raw, parse_json(raw).as_ref())
}

fn client_of(raw: &str, unique: &str) -> DeepSeekWebClient {
    DeepSeekWebClient::with_key(raw, parse_json(raw).as_ref(), unique)
}

fn json(raw: &str) -> Json {
    parse_json(raw).unwrap()
}

fn request(model: &str) -> UnifiedRequest {
    UnifiedRequest {
        model: model.to_string(),
        max_tokens: 16,
        system: None,
        messages: Vec::new(),
        tools: Vec::new(),
        tool_choice: ToolChoice::default(),
        parallel_tool_calls: false,
        stream: false,
        background: false,
        previous_response_id: None,
    }
}

#[test]
fn deepseek_prompt_truncation_preserves_head_and_latest_user_request() {
    let prompt = format!(
        "<tool_protocol>must call tools</tool_protocol>\n{}\nuser: 看看当前项目有什么问题",
        "x".repeat(10_000)
    );

    let truncated = truncate_middle_to_bytes(&prompt, 1024);

    assert!(truncated.contains("<tool_protocol>must call tools</tool_protocol>"));
    assert!(truncated.contains("[truncated middle for deepseek web request budget]"));
    assert!(truncated.contains("user: 看看当前项目有什么问题"));
    assert!(truncated.len() <= 1024);
}

#[test]
fn truncation_counts_bytes_and_keeps_characters() {
    assert_eq!(truncate_middle_to_bytes("  short ", 5), "short");
    let text = "é".repeat(200);
    for max in [0, TRUNCATION_MARKER.len(), 60, 61, 62, 63, 100] {
        let cut = truncate_middle_to_bytes(&text, max);
        let parts: Vec<&str> = cut.split(TRUNCATION_MARKER).collect();
        assert_eq!(parts.len(), 2);
        let budget = max.saturating_sub(TRUNCATION_MARKER.len());
        assert_eq!(parts[0].chars().count(), budget / 2 / 2);
        assert_eq!(parts[1].chars().count(), (budget - budget / 2) / 2);
    }
    assert_eq!(truncate_for_error(" abcdef ", 3), "abc...");
    assert_eq!(truncate_for_error(" abc ", 3), "abc");
}

#[test]
fn solves_sha256_pow_without_node_runtime() {
    let answer = solve_sha256_pow(&json(
        r#"{
            "algorithm": "sha256",
            "challenge": "unit",
            "salt": "test-",
            "difficulty": 4,
            "target_path": "/api/v0/chat/completion"
        }"#,
    ))
    .unwrap();

    let nonce = answer.get("answer").and_then(Json::as_u64).unwrap();
    let digest = sha2::Sha256::digest(format!("test-unit{nonce}").as_bytes());

    assert_eq!(answer.text_at("algorithm"), Some("sha256"));
    assert!(leading_zero_bits(&digest) >= 4);
    for smaller in 0..nonce {
        let digest = sha2::Sha256::digest(format!("test-unit{smaller}").as_bytes());
        assert!(leading_zero_bits(&digest) < 4);
    }
    assert_eq!(answer.get("signature").and_then(Json::as_bool), Some(true));
    assert_eq!(answer.text_at("target_path"), Some("/api/v0/chat/completion"));
}

#[test]
fn counts_leading_zero_bits() {
    assert_eq!(leading_zero_bits(&[]), 0);
    assert_eq!(leading_zero_bits(&[0x80]), 0);
    assert_eq!(leading_zero_bits(&[0, 0x10]), 11);
    assert_eq!(leading_zero_bits(&[0, 0, 0]), 24);
}

#[test]
fn challenges_need_their_parts() {
    let error = |raw: &str| solve_sha256_pow(&json(raw)).unwrap_err().message();
    assert_eq!(error("{}"), "sha256 PoW challenge is missing challenge");
    assert_eq!(error(r#"{"challenge":"c"}"#), "sha256 PoW challenge is missing salt");
    assert_eq!(
        error(r#"{"challenge":"c","salt":"s","difficulty":-1}"#),
        "sha256 PoW challenge is missing difficulty"
    );
    let eased = solve_sha256_pow(&json(r#"{"challenge":"c","salt":"s","difficulty":1024}"#)).unwrap();
    let nonce = eased.get("answer").and_then(Json::as_u64).unwrap();
    let digest = sha2::Sha256::digest(format!("sc{nonce}").as_bytes());
    assert!(leading_zero_bits(&digest) >= 10);
    assert_eq!(eased.get("target_path"), Some(&Json::Null));
}

#[test]
fn other_challenges_go_to_the_script() {
    match solve_pow(&json(r#"{"algorithm":"DeepSeekHashV1"}"#)) {
        PowStep::AskScript(argument) => assert_eq!(argument, r#"{"algorithm":"DeepSeekHashV1"}"#),
        PowStep::Answered(_) => panic!("no answer yet"),
    }
    assert!(matches!(
        solve_pow(&json(r#"{"algorithm":"SHA256"}"#)),
        PowStep::Answered(Err(_))
    ));
    assert_eq!(script_result("success", Json::Unsigned(5), None), Ok(Json::Unsigned(5)));
    assert_eq!(
        script_result("error", Json::Null, None).unwrap_err().message(),
        "PoW solver failed: unknown error"
    );
    assert_eq!(
        script_result("error", Json::Null, Some("bad".to_string())).unwrap_err().message(),
        "PoW solver failed: bad"
    );
    assert_eq!(script_failed(" out\n", "err ").message(), "PoW solver failed: out; stderr: err");
}

#[test]
fn challenges_are_found_and_answered() {
    let challenge = read_challenge(r#"{"data":{"biz_data":{"challenge":{"salt":"s","answer":0}}}}"#).unwrap();
    assert_eq!(challenge.text_at("salt"), Some("s"));
    assert_eq!(read_challenge(r#"{"data":{"challenge":1}}"#), Ok(Json::Unsigned(1)));
    assert_eq!(read_challenge(r#"{"challenge":2}"#), Ok(Json::Unsigned(2)));
    assert_eq!(
        read_challenge("{}").unwrap_err(),
        AdapterError::Upstream("missing DeepSeek Web PoW challenge: {}".to_string())
    );
    assert!(read_challenge("oops").unwrap_err().message().starts_with("deepseek web pow json: expected"));
    assert!(read_challenge("oops").unwrap_err().message().ends_with(": oops"));
    let payload = deepseek_pow_response_payload(&challenge, Json::Unsigned(7), "/p");
    assert_eq!(payload.to_text(), r#"{"answer":7,"salt":"s","target_path":"/p"}"#);
    assert_eq!(deepseek_pow_response_payload(&Json::Null, Json::Unsigned(7), "/p"), Json::Null);
    assert_eq!(
        pow_header(&json(r#"{"a":1}"#), Json::Unsigned(7), "/p"),
        "eyJhIjoxLCJhbnN3ZXIiOjcsInRhcmdldF9wYXRoIjoiL3AifQ=="
    );
}

#[test]
fn deepseek_model_list_reports_session_source() {
    let options = UpstreamRequestOptions {
        provider: Some("deepseek-web".to_string()),
        deepseek_session: Some("sessionid=abc".to_string()),
        ..Default::default()
    };

    let status = deepseek_web::session_status_from_options(&options, None);
    let body = deepseek_web::model_list_with_status(&Table::new(), status);

    assert_eq!(body.text_at("provider"), Some("deepseek-web"));
    assert_eq!(
        body.pointer(&["session", "configured"]).and_then(Json::as_bool),
        Some(true)
    );
    assert_eq!(body.text_under(&["session", "source"]), Some("x-deepseek-session"));
    assert_eq!(body.text_under(&["data", "0", "id"]), Some("deepseek-web/reasoner"));
}

#[test]
fn resolves_deepseek_provider_from_header() {
    let request = request("local-model");
    let options = UpstreamRequestOptions {
        provider: Some("deepseek-web".to_string()),
        ..Default::default()
    };

    assert_eq!(resolve_provider(&request, &options), ProviderKind::DeepSeekWeb);
}

#[test]
fn resolves_providers_by_model_and_alias() {
    let none = UpstreamRequestOptions::default();
    assert_eq!(resolve_provider(&request("deepseek-web/chat"), &none), ProviderKind::DeepSeekWeb);
    assert_eq!(resolve_provider(&request("qwen"), &none), ProviderKind::OpenAiCompat);
    let mut aliases: Table<String> = Table::new();
    assert_eq!(resolve_listing_provider("qwen", &aliases, &none), ProviderKind::OpenAiCompat);
    aliases.insert("gpt".to_string(), "deepseek-web/chat".to_string());
    assert_eq!(resolve_listing_provider("qwen", &aliases, &none), ProviderKind::DeepSeekWeb);
}

#[test]
fn sessions_come_from_headers_before_the_file() {
    let stored = Some("{\"cookie\":\"c\"}".to_string());
    let mut options = UpstreamRequestOptions::default();
    assert!(deepseek_web::needs_stored_session(&options));
    assert_eq!(
        deepseek_web::session_from_options_with_source(&options, stored.clone()),
        Some(("{\"cookie\":\"c\"}".to_string(), "session_file"))
    );
    assert_eq!(
        deepseek_web::session_status_from_options(&options, stored.clone()).to_text(),
        r#"{"bytes":14,"configured":true,"format":"json","source":"session_file"}"#
    );
    options.api_key = Some(" k ".to_string());
    assert_eq!(
        deepseek_web::session_from_options_with_source(&options, stored),
        Some(("k".to_string(), "x-upstream-api-key"))
    );
    assert!(!deepseek_web::needs_stored_session(&options));
    let none = UpstreamRequestOptions { deepseek_session: Some("  ".to_string()), ..Default::default() };
    assert!(deepseek_web::raw_session_from_options(&none, None).is_err());
    assert!(deepseek_web::list_models(&Table::new(), &none, None)
        .unwrap_err()
        .message()
        .starts_with("DeepSeek Web session missing. Login first"));
    assert_eq!(deepseek_web::session_format(" a=b"), "cookie");
    assert_eq!(deepseek_web::session_format("x"), "unknown");
}

#[test]
fn clients_are_made_of_sessions() {
    let options = options_of("a=b");
    assert_eq!(options.cookie, "a=b");
    let options = options_of(r#"{"cookie":"c","bearer":null,"last_session_id":"s"}"#);
    assert_eq!(options.cookie, "c");
    assert_eq!(options.last_session_id.as_deref(), Some("s"));
    let raw = r#"{"cookie":"c","bearer":5}"#;
    assert_eq!(options_of(raw).cookie, raw);
    let options = options_of(r#"["c","b",null,null,3]"#);
    assert_eq!(options.bearer.as_deref(), Some("b"));
    assert_eq!(options.last_parent_message_id, Some(Json::Unsigned(3)));
    let client = client_of(
        r#"{"cookie":"secret-cookie","bearer":"{\"value\":\"token-1\"}","last_session_id":"  "}"#,
        "k",
    );
    assert_eq!(client.session_key(), "new-k");
    let shown = client.redacted();
    assert_eq!(shown.cookie, "secr...[redacted]");
    assert_eq!(shown.bearer.as_deref(), Some("toke...[redacted]"));
    let headers = client.headers();
    assert_eq!(headers.len(), 13);
    assert_eq!(headers[5].value, "secret-cookie");
    assert_eq!(headers[12].name, "authorization");
    assert_eq!(headers[12].value, "Bearer token-1");
    assert_eq!(redact_secret("  "), "<empty>");
    assert_eq!(redact_secret("abc"), "abc...[redacted]");
    assert_ne!(DeepSeekWebClient::new("a", None).session_key(), DeepSeekWebClient::new("a", None).session_key());
}

#[test]
fn sessions_are_kept() {
    let mut sessions: Table<DeepSeekSessionState> = Table::new();
    let client = client_of("a=b", "k");
    assert!(client.known_session(&mut sessions).is_none());
    let error = client.accept_session(&mut sessions, "{}").unwrap_err();
    assert_eq!(
        error.message(),
        "DeepSeek create-session response did not include a session id: {}"
    );
    let state = client
        .accept_session(&mut sessions, r#"{"data":{"biz_data":{"id":" s1 "}}}"#)
        .unwrap();
    assert_eq!(state.session_id, "s1");
    assert_eq!(client.known_session(&mut sessions).unwrap().session_id, "s1");
    assert!(client.current_parent_message_id(&sessions).is_none());
    client.update_parent_message_id(&mut sessions, &Json::Null);
    assert!(client.current_parent_message_id(&sessions).is_none());
    client.update_parent_message_id(&mut sessions, &Json::Unsigned(4));
    assert_eq!(client.current_parent_message_id(&sessions), Some(Json::Unsigned(4)));
    assert_eq!(client.known_session(&mut sessions).unwrap().session_id, "s1");
    let saved = client_of(
        r#"{"cookie":"c","last_session_id":"old","last_parent_message_id":"m"}"#,
        "k",
    );
    let state = saved.known_session(&mut sessions).unwrap();
    assert_eq!(state.session_id, "old");
    assert_eq!(state.parent_message_id, Some(Json::text("m")));
    assert_eq!(sessions.len(), 2);
    assert_eq!(session_request_body(), r#"{"character_id":null}"#);
    assert_eq!(challenge_request_body("/p"), r#"{"target_path":"/p"}"#);
    assert_eq!(http_failure("500", "x").message(), "DeepSeek Web returned HTTP 500: x");
}

#[test]
fn completion_requests_follow_the_model() {
    let state = DeepSeekSessionState {
        session_id: "s".to_string(),
        parent_message_id: None,
    };
    let payload = completion_payload("deepseek-web/reasoner-Pro", " hi ", &state);
    assert_eq!(
        payload.to_text(),
        r#"{"chat_session_id":"s","model_type":"expert","parent_message_id":null,"preempt":false,"prompt":"hi","ref_file_ids":[],"search_enabled":false,"thinking_enabled":true}"#
    );
    assert_eq!(deepseek_model_type("X-VISION-pro"), "vision");
    assert_eq!(deepseek_model_type("chat"), "default");
    let payload = completion_payload("deepseek-web/search", "x", &state);
    assert_eq!(payload.get("search_enabled"), Some(&Json::Bool(true)));
}

#[test]
fn deltas_are_found_everywhere() {
    let deltas = |raw: &str, last: Option<DeepSeekDeltaKind>| extract_deepseek_deltas(&json(raw), last);
    let (found, last) = deltas(r#"{"data":{"biz_data":{"chunk":{"type":"THINK","content":"t"}}}}"#, None);
    assert_eq!(found, vec![(DeepSeekDeltaKind::Thinking, "t".to_string())]);
    assert_eq!(last, Some(DeepSeekDeltaKind::Thinking));
    let (found, _) = deltas(r#"{"v":"more"}"#, last);
    assert_eq!(found, vec![(DeepSeekDeltaKind::Thinking, "more".to_string())]);
    let (found, last) = deltas(r#"{"p":"response/status","v":"FINISHED"}"#, last);
    assert_eq!(found, vec![(DeepSeekDeltaKind::Text, "FINISHED".to_string())]);
    assert_eq!(last, Some(DeepSeekDeltaKind::Text));
    let (found, _) = deltas(r#"{"p":"a/thinking","v":"x","type":"text","content":"y"}"#, None);
    assert_eq!(
        found,
        vec![
            (DeepSeekDeltaKind::Text, "y".to_string()),
            (DeepSeekDeltaKind::Thinking, "x".to_string())
        ]
    );
    let (found, last) = deltas(
        r#"{"v":{"response":{"fragments":[{"type":"THINK","content":"a"},{"content":""},{"v":"b"}]}}}"#,
        None,
    );
    assert_eq!(
        found,
        vec![
            (DeepSeekDeltaKind::Thinking, "a".to_string()),
            (DeepSeekDeltaKind::Text, "b".to_string())
        ]
    );
    assert_eq!(last, Some(DeepSeekDeltaKind::Text));
    let (found, _) = deltas(r#"{"v":{"type":"reasoning","text":"z"}}"#, None);
    assert_eq!(found, vec![(DeepSeekDeltaKind::Thinking, "z".to_string())]);
    let (found, last) = deltas(r#"{"data":{"text":"s","thinking":"t"},"reasoning_content":"r"}"#, None);
    assert_eq!(
        found,
        vec![
            (DeepSeekDeltaKind::Text, "s".to_string()),
            (DeepSeekDeltaKind::Thinking, "t".to_string()),
            (DeepSeekDeltaKind::Thinking, "r".to_string())
        ]
    );
    assert_eq!(last, Some(DeepSeekDeltaKind::Thinking));
    let (found, last) = deltas(r#"{"code":40003,"msg":" invalid token "}"#, None);
    assert_eq!(
        found,
        vec![(DeepSeekDeltaKind::Text, "DeepSeek Web returned 40003: invalid token".to_string())]
    );
    assert_eq!(last, None);
    assert_eq!(
        extract_deepseek_error_text(&json(r#"{"data":{"biz_code":-2}}"#)).as_deref(),
        Some("DeepSeek Web returned error code -2")
    );
    assert_eq!(extract_deepseek_error_text(&json(r#"{"code":0,"msg":"ok"}"#)), None);
}

#[test]
fn ids_are_found_in_events() {
    assert_eq!(
        extract_parent_message_id(&json(r#"{"data":{"biz_data":{"message_id":"  "},"msg_id":3}}"#)),
        Some(Json::Unsigned(3))
    );
    assert_eq!(extract_parent_message_id(&json(r#"{"message_id":"m"}"#)), Some(Json::text("m")));
    assert_eq!(extract_parent_message_id(&json(r#"{"message_id":true}"#)), None);
    assert_eq!(
        find_deepseek_session_id(&json(r#"{"data":{"biz_data":{"chat_session":{"id":" x "}}}}"#)).as_deref(),
        Some("x")
    );
    assert_eq!(find_deepseek_session_id(&json(r#"{"id":" "}"#)), None);
    let events = parse_deepseek_sse_values("event: x\ndata: {\"v\":\"a\"}\r\n\n{\"v\":\"b\"}\ndata: [DONE]\n");
    assert_eq!(events.len(), 2);
    assert_eq!(events[1].text_at("v"), Some("b"));
}

#[test]
fn streams_do_not_care_about_chunks() {
    let body = "data: {\"message_id\":9}\ndata: {\"data\":{\"biz_data\":{\"chunk\":{\"type\":\"THINK\",\"content\":\"hm\"}}}}\ndata: {\"p\":\"x\",\"v\":\"hé\"}\ndata: {\"id\":\"sess\",\"v\":\"llo\"}\ndata: {\"p\":\"x\",\"v\":\"!\"}";
    let run = |size: usize| {
        let mut sessions: Table<DeepSeekSessionState> = Table::new();
        let client = client_of("a=b", "k");
        let state = client.accept_session(&mut sessions, r#"{"id":"s"}"#).unwrap();
        let mut stream = DeepSeekStream::new(&state);
        let mut told = Vec::new();
        let chars: Vec<char> = body.chars().collect();
        for chunk in chars.chunks(size) {
            let text: String = chunk.iter().collect();
            told.append(&mut stream.feed(&client, &mut sessions, text.as_bytes()));
        }
        told.append(&mut stream.finish(&client, &mut sessions, "s"));
        told
    };
    let whole = run(10_000);
    assert_eq!(
        whole,
        vec![
            DeepSeekStreamEvent::ReasoningDelta("hm".to_string()),
            DeepSeekStreamEvent::TextDelta("hé".to_string()),
            DeepSeekStreamEvent::SessionId("sess".to_string()),
            DeepSeekStreamEvent::TextDelta("llo".to_string()),
            DeepSeekStreamEvent::TextDelta("!".to_string()),
            DeepSeekStreamEvent::Done {
                text: "héllo!".to_string(),
                reasoning: Some("hm".to_string()),
                session_id: "s".to_string(),
                parent_message_id: Some(Json::Unsigned(9)),
            },
        ]
    );
    for size in [1, 2, 7, 50] {
        assert_eq!(run(size), whole);
    }
    let mut sessions: Table<DeepSeekSessionState> = Table::new();
    let client = client_of("a=b", "k");
    let state = client.accept_session(&mut sessions, r#"{"id":"s"}"#).unwrap();
    let response = read_response(&client, &mut sessions, &state, body);
    assert_eq!(response.text, "héllo!");
    assert_eq!(response.reasoning.as_deref(), Some("hm"));
    assert_eq!(response.parent_message_id, Some(Json::Unsigned(9)));
    let response = read_response(&client, &mut sessions, &state, "<html>");
    assert_eq!(response.text, "<html>");
    let mut broken = DeepSeekStream::new(&state);
    let told = broken.feed(&client, &mut sessions, b"{\"p\":\"x\",\"v\":\"\xff\"}\n");
    assert_eq!(told, vec![DeepSeekStreamEvent::TextDelta("\u{fffd}".to_string())]);
}

#[test]
fn completions_are_reported() {
    let response = |text: &str, reasoning: Option<&str>| DeepSeekWebResponse {
        text: text.to_string(),
        reasoning: reasoning.map(str::to_string),
        session_id: "s".to_string(),
        parent_message_id: None,
    };
    let reply = deepseek_web::finish_completion(Ok(response("hi FINISHED", None))).unwrap();
    assert_eq!(reply.text, "hi");
    assert_eq!(reply.provider_session_id.as_deref(), Some("s"));
    assert_eq!(
        deepseek_web::finish_completion(Ok(response(" ", Some(" ")))).unwrap_err().message(),
        "deepseek web provider returned empty text and reasoning"
    );
    assert_eq!(deepseek_web::finish_completion(Ok(response("", Some("r")))).unwrap().text, "");
    let failed = |message: &str| {
        deepseek_web::finish_completion(Err(AdapterError::Upstream(message.to_string())))
            .unwrap_err()
            .message()
    };
    assert_eq!(failed("boom"), "deepseek web provider: boom");
    assert!(failed("{\"code\":40003}").starts_with("DeepSeek Web session invalid or expired."));
    assert_eq!(deepseek_web::clean_output("xFINISHEDFINISHED"), "x");
    assert_eq!(deepseek_web::clean_output("x FINISHED "), "x FINISHED");
}

#[test]
fn openai_requests_go_where_they_should() {
    assert_eq!(chat_completions_endpoint("http://h"), "http://h/v1/chat/completions");
    assert_eq!(chat_completions_endpoint("http://h/V1"), "http://h/V1/chat/completions");
    assert_eq!(chat_completions_endpoint("http://h/v1/chat/completions"), "http://h/v1/chat/completions");
    assert_eq!(models_endpoint("http://h/v1"), "http://h/v1/models");
    assert_eq!(models_endpoint("http://h/models"), "http://h/models");
    let client = OpenAiCompatClient::new("http://h/v1//", "key");
    let mut options = UpstreamRequestOptions::default();
    let sent = client.completion_request(&request("m"), "p", &options);
    assert_eq!(sent.endpoint, "http://h/v1/chat/completions");
    assert_eq!(sent.bearer.as_deref(), Some("key"));
    assert_eq!(
        sent.body.to_text(),
        r#"{"max_tokens":16,"messages":[{"content":"p","role":"user"}],"model":"m","stream":false}"#
    );
    options.base_url = Some(" http://other/ ".to_string());
    options.api_key = Some(" mine ".to_string());
    let (endpoint, bearer) = client.models_request(&options);
    assert_eq!(endpoint, "http://other/v1/models");
    assert_eq!(bearer.as_deref(), Some("mine"));
    assert_eq!(OpenAiCompatClient::new("x", " ").models_request(&UpstreamRequestOptions::default()).1, None);
}

#[test]
fn openai_replies_are_read() {
    let reply = read_completion(
        true,
        &json(r#"{"choices":[{"message":{"content":"hi","reasoning":"why"}}]}"#),
    )
    .unwrap();
    assert_eq!(reply.text, "hi");
    assert_eq!(reply.reasoning.as_deref(), Some("why"));
    assert_eq!(reply.provider_session_id, None);
    assert_eq!(read_completion(true, &json(r#"{"response":"r"}"#)).unwrap().text, "r");
    assert_eq!(
        read_completion(true, &json("{}")).unwrap_err(),
        AdapterError::Upstream("missing assistant text: {}".to_string())
    );
    assert_eq!(
        read_completion(false, &json(r#"{"error":1}"#)).unwrap_err(),
        AdapterError::Upstream(r#"{"error":1}"#.to_string())
    );
    let mut aliases: Table<String> = Table::new();
    aliases.insert("a".to_string(), "m".to_string());
    assert_eq!(
        read_models(true, json(r#"{"data":[1]}"#), "f", &aliases).to_text(),
        r#"{"data":[1,{"id":"a","object":"model","owned_by":"adapter-alias"}]}"#
    );
    assert_eq!(read_models(true, json("[]"), "f", &aliases).to_text(), "[]");
    assert_eq!(
        read_models(false, json("7"), "f", &aliases).to_text(),
        r#"{"data":[{"id":"f","object":"model","owned_by":"adapter-fallback"},{"id":"a","object":"model","owned_by":"adapter-alias"}],"object":"list","warning":"7"}"#
    );
}

#[test]
fn options_show_no_secrets() {
    let options = UpstreamRequestOptions {
        provider: Some("p".to_string()),
        api_key: Some("sk-secret".to_string()),
        deepseek_session: Some(" ".to_string()),
        ..Default::default()
    };
    let shown = format!("{:?}", options.redacted());
    assert!(shown.contains("api_key_present: true"));
    assert!(shown.contains("deepseek_session_present: false"));
    assert!(!shown.contains("secret"));
}

#[test]
fn model_lists_hold_the_models_and_the_aliases_once() {
    let mut aliases: Table<String> = Table::new();
    aliases.insert("gpt".to_string(), "deepseek-web/chat".to_string());
    aliases.insert("qwen".to_string(), "deepseek-web/chat".to_string());
    let body = deepseek_web::model_list_with_status(&aliases, Json::Null);
    let ids: Vec<Option<&str>> = body
        .get("data")
        .and_then(Json::as_array)
        .unwrap()
        .iter()
        .map(|item| item.text_at("id"))
        .collect();
    assert_eq!(
        ids,
        vec![
            Some("deepseek-web/reasoner"),
            Some("deepseek-web/chat"),
            Some("deepseek-web/search"),
            Some("deepseek-web/expert"),
            Some("deepseek-web/vision"),
            Some("gpt"),
            Some("qwen"),
        ]
    );
}

#[test]
fn challenges_and_options_are_found_in_values() {
    let inner = json(r#"{"challenge":3,"data":{"challenge":2,"biz_data":{"challenge":1}}}"#);
    assert_eq!(find_challenge(&inner), Some(&Json::Unsigned(1)));
    assert_eq!(find_challenge(&json(r#"{"challenge":3,"data":{"challenge":2}}"#)), Some(&Json::Unsigned(2)));
    assert_eq!(find_challenge(&json(r#"{"challenge":3}"#)), Some(&Json::Unsigned(3)));
    assert_eq!(find_challenge(&json("{}")), None);
    let options = DeepSeekWebOptions::from_value(&json(r#"["c","b",null,null,7]"#)).unwrap();
    assert_eq!(options.cookie, "c");
    assert_eq!(options.bearer.as_deref(), Some("b"));
    assert_eq!(options.last_parent_message_id, Some(Json::Unsigned(7)));
    assert!(DeepSeekWebOptions::from_value(&json(r#"{"bearer":"b"}"#)).is_none());
}
