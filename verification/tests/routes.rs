use model_toolcall_adapter::config::AdapterSettings;
use model_toolcall_adapter::error::AdapterError;
use model_toolcall_adapter::http::auth::{upstream_options_from_headers, verify_auth};
use model_toolcall_adapter::http::browser::{
    browser_arguments, capture_port, captured_session, cdp_command, cdp_reply, cdp_step, cookie_query,
    evaluation, find_deepseek_bearer, find_tab_address, normalize_deepseek_session_for_storage,
    session_to_save, CdpStep, AGENT_EXPRESSION,
};
use model_toolcall_adapter::http::codex::{
    backup_name, choose_provider, codex_auth, codex_base_url, codex_key, codex_managed_provider_block, codex_managed_root_block,
    codex_model, provider_model, replace_codex_managed_blocks, CODEX_PROVIDER,
};
use model_toolcall_adapter::http::routes::{
    apply_tool_choice_to_tool_calls, compact_with, finish_request, prepare_payload, restore_external_model,
    responses_cancel, responses_compact, responses_input_items, responses_retrieve,
    should_route_to_default_deepseek_model, take_stream_flag, PreparedRequest, ResponseItemsQuery,
};
use model_toolcall_adapter::http::sse::{body_without_output, responses_sse};
use model_toolcall_adapter::json::{parse_json, Json};
use model_toolcall_adapter::providers::deepseek_web::client::DeepSeekWebOptions;
use model_toolcall_adapter::responses_store::ResponseStore;
use model_toolcall_adapter::table::Table;
use model_toolcall_adapter::types::{ParsedToolCall, ToolChoice, UnifiedRequest};
use model_toolcall_adapter::upstream::{UpstreamRequestOptions, UpstreamResponse};
use model_toolcall_adapter::wire::WireMode;

fn json(raw: &str) -> Json {
    parse_json(raw).unwrap()
}

fn header(name: &str, value: &str) -> (String, String) {
    (name.to_string(), value.to_string())
}

fn settings(model: &str, key: &str) -> AdapterSettings {
    AdapterSettings {
        adapter_api_key: key.to_string(),
        upstream_model: model.to_string(),
        model_aliases: Table::new(),
        max_tool_definitions: 1,
    }
}

fn said(text: &str) -> UpstreamResponse {
    UpstreamResponse {
        text: text.to_string(),
        reasoning: None,
        provider_session_id: Some("sess".to_string()),
    }
}

#[test]
fn extracts_per_request_upstream_options() {
    let headers = vec![
        header("x-upstream-base-url", "https://api.example.com/v1"),
        header("x-upstream-api-key", "secret"),
        header("x-upstream-provider", "deepseek-web"),
        header("x-deepseek-session", "cookie=a"),
    ];

    let options = upstream_options_from_headers(&headers);

    assert_eq!(options.provider.as_deref(), Some("deepseek-web"));
    assert_eq!(options.base_url.as_deref(), Some("https://api.example.com/v1"));
    assert_eq!(options.api_key.as_deref(), Some("secret"));
    assert_eq!(options.deepseek_session.as_deref(), Some("cookie=a"));
}

#[test]
fn tool_choice_none_suppresses_model_emitted_tool_calls() {
    let request = UnifiedRequest {
        model: "m".to_string(),
        max_tokens: 16,
        system: None,
        messages: Vec::new(),
        tools: Vec::new(),
        tool_choice: ToolChoice::Never,
        parallel_tool_calls: false,
        stream: false,
        background: false,
        previous_response_id: None,
    };

    let calls = apply_tool_choice_to_tool_calls(
        &request,
        "<tool_call name=\"search\">{}</tool_call>",
        vec![ParsedToolCall {
            id: "call_a".to_string(),
            name: "search".to_string(),
            arguments: Json::empty_object().to_text(),
        }],
    )
    .unwrap();

    assert!(calls.is_empty());
}

#[test]
fn codex_config_replaces_stale_root_model_keys() {
    let existing = r#"model_provider = "MyOpenAI"
model = "gpt-5.5"
review_model = "gpt-5.5"
network_access = "enabled"
windows_wsl_setup_acknowledged = true

[features]
goals = true

[model_providers.MyOpenAI]
name = "MyOpenAI"
"#;

    let next = replace_codex_managed_blocks(
        existing,
        &codex_managed_root_block("ModelToolCallAdapter", "deepseek-web/reasoner"),
        &codex_managed_provider_block("ModelToolCallAdapter", "http://127.0.0.1:8787/v1"),
    );

    assert!(next.contains("model_provider = \"ModelToolCallAdapter\""));
    assert!(next.contains("model = \"deepseek-web/reasoner\""));
    assert!(next.contains("windows_wsl_setup_acknowledged = true"));
    assert!(next.contains("[features]"));
    assert!(next.contains("[model_providers.MyOpenAI]"));
    assert!(!next.contains("model_provider = \"MyOpenAI\""));
    assert!(!next.contains("model = \"gpt-5.5\""));

    let again = replace_codex_managed_blocks(
        &next,
        &codex_managed_root_block("ModelToolCallAdapter", "deepseek-web/reasoner"),
        &codex_managed_provider_block("ModelToolCallAdapter", "http://127.0.0.1:8787/v1"),
    );
    assert_eq!(again, next);
}

#[test]
fn codex_blocks_are_written_in_full() {
    let next = replace_codex_managed_blocks(
        "",
        &codex_managed_root_block("P", "M"),
        &codex_managed_provider_block("P", "U"),
    );
    assert_eq!(
        next,
        "# BEGIN model-toolcall-adapter root\nmodel_provider = \"P\"\nmodel = \"M\"\nreview_model = \"M\"\nmodel_reasoning_effort = \"xhigh\"\ndisable_response_storage = true\nnetwork_access = \"enabled\"\nmodel_context_window = 1000000\nmodel_auto_compact_token_limit = 900000\n# END model-toolcall-adapter root\n\n# BEGIN model-toolcall-adapter provider\n[model_providers.P]\nname = \"P\"\nbase_url = \"U\"\nwire_api = \"responses\"\nrequires_openai_auth = true\n# END model-toolcall-adapter provider\n"
    );
    let next = replace_codex_managed_blocks("modelx = 1\n[a]\nmodel = 2\n", "R\n", "P\n");
    assert_eq!(next, "R\n\nmodelx = 1\n[a]\nmodel = 2\n\nP\n");
}

#[test]
fn deepseek_capture_prefers_user_token_value() {
    let storage = json(
        r#"{
            "__tea_cache_tokens_20006317": "{\"web_id\":\"analytics\"}",
            "settingsJwt": "{\"value\":{\"ownerHash\":\"not-login-token\"}}",
            "userToken": "{\"value\":\"login-token-64\"}"
        }"#,
    );

    let bearer = find_deepseek_bearer(&storage);

    assert_eq!(bearer.as_deref(), Some("login-token-64"));
}

#[test]
fn codex_model_names_route_to_selected_deepseek_upstream() {
    let options = UpstreamRequestOptions::default();

    assert!(should_route_to_default_deepseek_model(
        "gpt-5.4-mini",
        "deepseek-web/reasoner",
        &options
    ));
    assert!(!should_route_to_default_deepseek_model(
        "gpt-5.4-mini",
        "qwen3-coder",
        &options
    ));
}

#[test]
fn keys_open_the_adapter() {
    let locked = settings("m", " key ");
    let check = |headers: Vec<(String, String)>| verify_auth(&locked, &headers);
    assert_eq!(check(vec![]), Err(AdapterError::Unauthorized));
    assert_eq!(check(vec![header("authorization", "Bearer  key ")]), Ok(()));
    assert_eq!(check(vec![header("authorization", "bearer key")]), Err(AdapterError::Unauthorized));
    assert_eq!(check(vec![header("authorization", "Bearer x"), header("x-api-key", "key")]), Ok(()));
    assert_eq!(check(vec![header("x-api-key", "keyx")]), Err(AdapterError::Unauthorized));
    assert_eq!(verify_auth(&settings("m", " "), &vec![]), Ok(()));
    assert_eq!(AdapterError::Unauthorized.message(), "unauthorized");
}

#[test]
fn bearers_are_found_by_their_looks() {
    let find = |raw: &str| find_deepseek_bearer(&json(raw));
    assert_eq!(find(r#"{"settingsJwt":" eyJabc "}"#).as_deref(), Some("eyJabc"));
    assert_eq!(find(r#"{"other":"eyJxyz"}"#).as_deref(), Some("eyJxyz"));
    assert_eq!(find(r#"{"tea_token":"eyJxyz","myAuth":"v"}"#).as_deref(), Some("v"));
    assert_eq!(find(r#"{"myToken":"{\"a\":1}","x":"y"}"#), None);
    assert_eq!(
        find(r#"{"userToken":"{\"value\":\"{\\\"token\\\":\\\"deep\\\"}\"}"}"#).as_deref(),
        Some("deep")
    );
    assert_eq!(find("[]"), None);
    assert_eq!(find(r#"{"userToken":"{broken"}"#), None);
}

#[test]
fn the_best_tab_is_driven() {
    let tabs = json(
        r#"[
            {"type":"other","url":"x chat.deepseek.com","webSocketDebuggerUrl":"w0"},
            {"type":"page","url":"http://y/chat.deepseek.com","webSocketDebuggerUrl":"w1"},
            {"type":"page","url":"https://chat.deepseek.com/a","webSocketDebuggerUrl":"w2"}
        ]"#,
    );
    assert_eq!(find_tab_address(&tabs).unwrap(), "w2");
    assert_eq!(
        find_tab_address(&json(r#"[{"webSocketDebuggerUrl":"a"},{"url":"chat.deepseek.com","webSocketDebuggerUrl":"b"}]"#)).unwrap(),
        "b"
    );
    assert_eq!(find_tab_address(&json(r#"[{"webSocketDebuggerUrl":"a"}]"#)).unwrap(), "a");
    assert_eq!(
        find_tab_address(&json("[]")).unwrap_err().message(),
        "controlled browser has no debuggable tabs"
    );
    assert_eq!(
        find_tab_address(&json("[{}]")).unwrap_err().message(),
        "controlled browser tab does not expose webSocketDebuggerUrl"
    );
}

#[test]
fn browser_commands_wait_for_their_reply() {
    assert_eq!(
        cdp_command(2, "Network.getCookies", cookie_query()),
        r#"{"id":2,"method":"Network.getCookies","params":{"urls":["https://chat.deepseek.com/"]}}"#
    );
    assert_eq!(
        evaluation(AGENT_EXPRESSION).to_text(),
        r#"{"expression":"navigator.userAgent","returnByValue":true}"#
    );
    assert!(matches!(cdp_step(2, "m", r#"{"id":3}"#), CdpStep::Wait));
    assert!(matches!(cdp_step(2, "m", r#"{"method":"event"}"#), CdpStep::Wait));
    assert!(matches!(cdp_step(2, "m", r#"{"id":2,"result":5}"#), CdpStep::Done(Json::Unsigned(5))));
    match cdp_step(2, "m", r#"{"id":2,"error":{"code":1}}"#) {
        CdpStep::Failed(error) => assert_eq!(error.message(), r#"CDP m failed: {"code":1}"#),
        _ => panic!("a failure"),
    }
    match cdp_step(2, "m", "x") {
        CdpStep::Failed(error) => assert!(error.message().starts_with("parse CDP m: expected")),
        _ => panic!("a failure"),
    }
    assert_eq!(capture_port(&json(r#"{"port":70000}"#), None), 9223);
    assert_eq!(capture_port(&json(r#"{"port":5}"#), Some(7)), 5);
    assert_eq!(capture_port(&json("{}"), Some(7)), 7);
    let arguments = browser_arguments(9223, "/tmp/p");
    assert_eq!(arguments.len(), 13);
    assert_eq!(arguments[0], "--remote-debugging-port=9223");
    assert_eq!(arguments[1], "--user-data-dir=/tmp/p");
}

#[test]
fn captured_sessions_read_back() {
    let cookies = json(
        r#"{"cookies":[
            {"domain":".deepseek.com","name":"a","value":"1"},
            {"domain":"example.com","name":"b","value":"2"},
            {"domain":"chat.deepseek.com","name":"c"},
            {"domain":"chat.deepseek.com","name":"d","value":"4"}
        ]}"#,
    );
    let storage = json(r#"{"result":{"value":"{\"userToken\":\"tok\",\"k\":\"v\"}"}}"#);
    let session = captured_session(&cookies, &storage, None).unwrap();
    assert_eq!(
        session,
        r#"{"bearer":"tok","cookie":"a=1; d=4","local_storage_keys":["k","userToken"],"user_agent":"Mozilla/5.0"}"#
    );
    let saved = normalize_deepseek_session_for_storage(&session);
    let options = DeepSeekWebOptions::from_raw(&saved, Some(&json(&saved)));
    assert_eq!(options.cookie, "a=1; d=4");
    assert_eq!(options.bearer.as_deref(), Some("tok"));
    let agent = json(r#"{"result":{"value":"UA"}}"#);
    let session = captured_session(&cookies, &json("{}"), Some(&agent)).unwrap();
    assert!(session.contains(r#""bearer":null"#));
    assert!(session.contains(r#""user_agent":"UA""#));
    assert!(captured_session(&json("{}"), &storage, None)
        .unwrap_err()
        .message()
        .starts_with("DeepSeek cookies were not found."));
    assert_eq!(normalize_deepseek_session_for_storage("a=b"), "a=b");
    assert_eq!(normalize_deepseek_session_for_storage("{\"a\":1}"), "{\n  \"a\": 1\n}");
    assert_eq!(session_to_save(&json(r#"{"session":" s "}"#)).unwrap(), "s");
    assert_eq!(
        session_to_save(&json(r#"{"session":" "}"#)).unwrap_err(),
        AdapterError::InvalidRequest("session is required".to_string())
    );
}

#[test]
fn setup_chooses_providers_and_models() {
    assert_eq!(choose_provider(&json(r#"{"provider":" deepseek-web "}"#)).unwrap(), "deepseek-web");
    assert_eq!(
        choose_provider(&json("{}")).unwrap_err(),
        AdapterError::InvalidRequest("provider must be openai-compatible or deepseek-web".to_string())
    );
    assert_eq!(provider_model("deepseek-web"), Some("deepseek-web/reasoner"));
    assert_eq!(provider_model("openai-compatible"), None);
    let model = |provider: Option<&str>, model: Option<&str>| {
        codex_model(&provider.map(str::to_string), &model.map(str::to_string))
    };
    assert_eq!(model(Some("deepseek-web"), Some("x")), "deepseek-web/reasoner");
    assert_eq!(model(None, Some(" x ")), "x");
    assert_eq!(model(Some("openai-compatible"), None), "local-model");
    assert_eq!(codex_key(" k ").unwrap(), "k");
    assert_eq!(
        codex_key("").unwrap_err().message(),
        "adapter api key is missing; reload setup state first"
    );
    assert_eq!(codex_auth(None, "k"), "{\n  \"OPENAI_API_KEY\": \"k\"\n}");
    assert_eq!(
        codex_auth(Some(r#"{"a":1,"OPENAI_API_KEY":"old"}"#), "k"),
        "{\n  \"OPENAI_API_KEY\": \"k\",\n  \"a\": 1\n}"
    );
    assert_eq!(codex_auth(Some("[1]"), "k"), "{\n  \"OPENAI_API_KEY\": \"k\"\n}");
}

fn prepare(mode: WireMode, payload: &str, store: &ResponseStore, settings: &AdapterSettings) -> Result<PreparedRequest, AdapterError> {
    prepare_payload(mode, json(payload), store, settings, &UpstreamRequestOptions::default())
}

#[test]
fn requests_are_prepared() {
    let store = ResponseStore::default();
    let mut own = settings("deepseek-web/reasoner", "");
    own.model_aliases.insert("alias".to_string(), "real".to_string());
    let chat = |model: &str| format!(r#"{{"model":"{model}","messages":[{{"role":"user","content":"hi"}}],"tools":[{{"name":"a"}},{{"name":"b"}}]}}"#);
    let out = prepare(WireMode::ChatCompletions, &chat("gpt"), &store, &own).unwrap();
    assert_eq!(out.request.model, "deepseek-web/reasoner");
    assert_eq!(out.external_model, "gpt");
    assert_eq!(out.request.tools.len(), 1);
    assert!(out.prompt.ends_with("\n\nuser: hi"));
    assert!(out.prompt.contains("- name: a\n"));
    assert!(!out.prompt.contains("- name: b\n"));
    let out = prepare(WireMode::ChatCompletions, &chat(" alias "), &store, &own).unwrap();
    assert_eq!(out.request.model, "real");
    assert_eq!(out.external_model, " alias ");
    let out = prepare(WireMode::ChatCompletions, &chat(" local-model "), &store, &own).unwrap();
    assert_eq!(out.external_model, "deepseek-web/reasoner");
    let plain = settings("qwen", "");
    let out = prepare(WireMode::Messages, &chat("gpt"), &store, &plain).unwrap();
    assert_eq!(out.request.model, "gpt");
    assert_eq!(
        prepare(WireMode::Messages, r#"{"messages":[],"stream":true}"#, &store, &plain).unwrap_err(),
        AdapterError::StreamUnsupported
    );
    assert_eq!(
        prepare(WireMode::Responses, r#"{"input":"x","previous_response_id":"p"}"#, &store, &plain).unwrap_err(),
        AdapterError::NotFound("previous response p not found".to_string())
    );
}

#[test]
fn responses_are_given_kept_and_continued() {
    let mut store = ResponseStore::default();
    let own = settings("qwen", "");
    let out = prepare(
        WireMode::Responses,
        r#"{"model":"ext","input":"find rs","tools":[{"name":"search"}],"tool_choice":"required","background":true}"#,
        &store,
        &own,
    )
    .unwrap();
    let body = finish_request(
        out,
        &said(r#"<tool_call id="c1" name="search">{"q":"rs"}</tool_call><tool_call id="c2" name="search">{}</tool_call>"#),
        &mut store,
    )
    .unwrap();
    assert_eq!(body.text_at("model"), Some("ext"));
    assert_eq!(body.text_at("status"), Some("completed"));
    assert_eq!(body.text_at("output_text"), Some(""));
    let output = body.get("output").and_then(Json::as_array).unwrap();
    assert_eq!(output.len(), 1);
    assert_eq!(output[0].text_at("call_id"), Some("c1"));
    assert_eq!(output[0].text_at("arguments"), Some(r#"{"q":"rs"}"#));
    let id = body.text_at("id").unwrap().to_string();
    assert!(id.starts_with("resp_"));
    assert_eq!(responses_retrieve(&store, &id), Ok(body.clone()));
    assert_eq!(store.provider_session_id_for(&id).as_deref(), Some("sess"));

    let next = prepare(
        WireMode::Responses,
        &format!(r#"{{"model":"ext","previous_response_id":"{id}","input":[{{"type":"function_call_output","call_id":"c1","output":"found"}}]}}"#),
        &store,
        &own,
    )
    .unwrap();
    assert_eq!(next.request.messages.len(), 2);
    assert_eq!(next.input_items.len(), 1);
    assert_eq!(
        next.prompt,
        "assistant: <previous_tool_call id=\"c1\" name=\"search\">{\"q\":\"rs\"}</previous_tool_call>\n\nuser: <tool_result id=\"c1\" is_error=\"false\">\nfound\n</tool_result>"
    );
    let body = finish_request(next, &said("done"), &mut store).unwrap();
    assert_eq!(body.text_under(&["output", "0", "content", "0", "text"]), Some("done"));
    assert_eq!(body.text_at("output_text"), Some("done"));

    let cancelled = responses_cancel(&mut store, &id).unwrap();
    assert_eq!(cancelled.text_at("status"), Some("cancelled"));
    let second = body.text_at("id").unwrap();
    assert_eq!(
        responses_cancel(&mut store, second).unwrap_err(),
        AdapterError::InvalidRequest("only background responses can be cancelled".to_string())
    );
    assert_eq!(
        responses_cancel(&mut store, "no").unwrap_err(),
        AdapterError::NotFound("response no not found".to_string())
    );
    let query = ResponseItemsQuery { after: None, limit: None, order: Some("ASC".to_string()) };
    let items = responses_input_items(&store, second, &query).unwrap();
    assert_eq!(items.text_under(&["data", "0", "type"]), Some("function_call_output"));
    assert!(responses_input_items(&store, "no", &query).is_err());
    assert!(responses_retrieve(&store, "no").is_err());
    let compacted = responses_compact(
        &store,
        json(&format!(r#"{{"previous_response_id":"{id}","instructions":"sys"}}"#)),
    )
    .unwrap();
    assert_eq!(compacted.text_at("object"), Some("response.compaction"));
    assert!(compacted.text_at("id").unwrap().starts_with("cmp_"));
    assert_eq!(compacted.text_under(&["output", "0", "type"]), Some("function_call"));
    assert_eq!(compacted.text_under(&["output", "1", "role"]), Some("developer"));
    assert!(responses_compact(&store, json(r#"{"previous_response_id":"no"}"#)).is_err());
}

#[test]
fn compactions_hold_what_they_are_given() {
    let store = ResponseStore::default();
    let request = model_toolcall_adapter::http::routes::compact_request(json("{}"));
    let body = compact_with(&store, &request, vec![Json::Unsigned(1)], "u", 5).unwrap();
    assert_eq!(
        body.to_text(),
        r#"{"created_at":5,"id":"cmp_u","object":"response.compaction","output":[1]}"#
    );
}

#[test]
fn tool_choices_are_enforced() {
    let mut store = ResponseStore::default();
    let own = settings("qwen", "");
    let mut run = |mode: WireMode, choice: &str, text: &str| {
        let payload = match mode {
            WireMode::Responses => format!(r#"{{"input":"x","tool_choice":{choice}}}"#),
            _ => format!(r#"{{"messages":[],"tool_choice":{choice}}}"#),
        };
        let out = prepare(mode, &payload, &store, &own).unwrap();
        finish_request(out, &said(text), &mut store)
    };
    let call = r#"<tool_call name="a">{}</tool_call>"#;
    assert_eq!(
        run(WireMode::Responses, r#""required""#, "words").unwrap_err(),
        AdapterError::InvalidRequest("tool_choice requires a tool call, but the upstream model returned text".to_string())
    );
    assert_eq!(
        run(WireMode::Responses, r#"{"name":"b"}"#, call).unwrap_err(),
        AdapterError::InvalidRequest("model emitted a tool other than required function b".to_string())
    );
    let body = run(WireMode::Responses, r#""none""#, call).unwrap();
    assert_eq!(body.text_at("output_text"), Some(call));
    let body = run(WireMode::ChatCompletions, r#""required""#, "words").unwrap();
    assert_eq!(body.text_under(&["choices", "0", "message", "content"]), Some("words"));
    assert_eq!(body.text_at("model"), Some("qwen"));
    let body = run(WireMode::Messages, r#""auto""#, call).unwrap();
    assert_eq!(body.text_under(&["content", "0", "name"]), Some("a"));
}

#[test]
fn streams_are_whole() {
    let (payload, stream) = take_stream_flag(json(r#"{"stream":true,"a":1}"#));
    assert!(stream);
    assert_eq!(payload.to_text(), r#"{"a":1,"stream":false}"#);
    assert!(!take_stream_flag(json(r#"{"stream":"yes"}"#)).1);
    let body = json(
        r#"{"id":"r","status":"completed","output":[{"type":"message","content":[{"type":"output_text","text":"hi"},{"type":"x"}]},{"type":"function_call"}]}"#,
    );
    let text = responses_sse(&body);
    let names: Vec<&str> = text.lines().filter_map(|line| line.strip_prefix("event: ")).collect();
    assert_eq!(
        names,
        vec![
            "response.created",
            "response.in_progress",
            "response.output_item.added",
            "response.content_part.added",
            "response.output_text.delta",
            "response.output_text.done",
            "response.content_part.done",
            "response.output_item.done",
            "response.output_item.added",
            "response.output_item.done",
            "response.completed",
        ]
    );
    assert!(text.starts_with("event: response.created\ndata: {\"response\":{\"id\":\"r\",\"output\":[],\"status\":\"in_progress\"},\"type\":\"response.created\"}\n\n"));
    assert!(text.contains("data: {\"content_index\":0,\"delta\":\"hi\",\"output_index\":0,\"type\":\"response.output_text.delta\"}\n\n"));
    assert!(text.ends_with("}\n\ndata: [DONE]\n\n"));
}

#[test]
fn null_takes_members_like_an_object() {
    assert_eq!(body_without_output(&Json::Null), json(r#"{"output":[]}"#));
    assert_eq!(restore_external_model(Json::Null, "m"), json(r#"{"model":"m"}"#));
    assert_eq!(restore_external_model(json(r#"{"model":"a","x":1}"#), "m"), json(r#"{"model":"m","x":1}"#));
    assert_eq!(restore_external_model(Json::Null, " "), Json::Null);
}

#[test]
fn prompts_hold_all_that_a_request_says() {
    let out = prepare(
        WireMode::ChatCompletions,
        r#"{"model":"m","messages":[{"role":"system","content":"be brief"},{"role":"user","content":"hi"},{"role":"assistant","content":"yes"}],"tools":[{"type":"function","function":{"name":"search","parameters":{"type":"object"}}}]}"#,
        &ResponseStore::default(),
        &settings("qwen", ""),
    )
    .unwrap();
    assert!(out.prompt.contains("be brief"));
    assert!(out.prompt.contains("user: hi"));
    assert!(out.prompt.ends_with("\n\nassistant: yes"));
    assert!(out.prompt.contains("- name: search\n  description: \n  input_schema: {\"type\":\"object\"}\n"));
    assert!(out.prompt.contains("\nTool choice: auto."));
    assert!(out.input_items.is_empty());
}

#[test]
fn codex_blocks_stand_once_whatever_was_set_up_before() {
    let existing = "model = \"old\"\r\n# mine\r\n[a]\r\nb = 1\r\n";
    let set_up = |config: &str, model: &str| {
        replace_codex_managed_blocks(
            config,
            &codex_managed_root_block("P", model),
            &codex_managed_provider_block("P", "U"),
        )
    };
    let first = set_up(existing, "m1");
    assert_eq!(set_up(&first, "m1"), first);
    assert_eq!(set_up(&first, "m2"), set_up(existing, "m2"));
    assert_eq!(first.matches("# BEGIN model-toolcall-adapter root").count(), 1);
    assert_eq!(first.matches("# BEGIN model-toolcall-adapter provider").count(), 1);
    assert_eq!(first.matches(codex_managed_root_block("P", "m1").trim_end()).count(), 1);
    assert_eq!(first.matches(codex_managed_provider_block("P", "U").trim_end()).count(), 1);
    assert!(first.contains("\n\n# mine\n[a]\nb = 1\n\n"));
}

#[test]
fn browser_replies_are_told_apart_as_values() {
    assert!(matches!(cdp_reply(2, "m", &json(r#"{"id":1,"result":{}}"#)), CdpStep::Wait));
    match cdp_reply(1, "m", &json(r#"{"id":1,"result":{"x":1}}"#)) {
        CdpStep::Done(value) => assert_eq!(value, json(r#"{"x":1}"#)),
        other => panic!("{other:?}"),
    }
    match cdp_reply(1, "m", &json(r#"{"id":1,"error":{"code":2}}"#)) {
        CdpStep::Failed(error) => assert_eq!(error.message(), "CDP m failed: {\"code\":2}"),
        other => panic!("{other:?}"),
    }
}

#[test]
fn codex_files_are_backed_up_under_names_of_their_own() {
    assert_eq!(backup_name("/c/config.toml", 0), "/c/config.toml.bak");
    assert_eq!(backup_name("/c/config.toml", 1), "/c/config.toml.bak.1");
    assert_eq!(backup_name("/c/auth.json", 12), "/c/auth.json.bak.12");
    assert_eq!(codex_base_url("127.0.0.1:8787"), "http://127.0.0.1:8787/v1");
    assert_eq!(CODEX_PROVIDER, "ModelToolCallAdapter");
}

#[test]
fn kept_responses_compare_as_those_that_were_given() {
    let mut store = ResponseStore::default();
    let out = prepare(
        WireMode::Responses,
        r#"{"model":"ext","input":"hi"}"#,
        &store,
        &settings("qwen", ""),
    )
    .unwrap();
    let body = finish_request(out, &said("hello"), &mut store).unwrap();
    let id = body.text_at("id").unwrap().to_string();
    let text = store.to_json().to_pretty_text();
    let restored = ResponseStore::from_json(&json(&text)).unwrap();
    assert_eq!(restored.retrieve(&id), Some(body));
    assert_eq!(restored.to_json(), store.to_json());
}
