use model_toolcall_adapter::json::{parse_json, Json};
use model_toolcall_adapter::responses_store::{
    input_items_from_request, input_items_with, ResponseStore, StoreError,
};
use model_toolcall_adapter::types::{ToolChoice, UnifiedContent, UnifiedMessage, UnifiedRequest};
use model_toolcall_adapter::wire::responses;

fn restored(raw: &str) -> Option<ResponseStore> {
    ResponseStore::from_json(&parse_json(raw)?)
}

fn json(raw: &str) -> Json {
    parse_json(raw).unwrap()
}

fn request(system: Option<&str>, messages: Vec<UnifiedMessage>) -> UnifiedRequest {
    UnifiedRequest {
        model: "m".to_string(),
        max_tokens: 16,
        system: system.map(str::to_string),
        messages,
        tools: Vec::new(),
        tool_choice: ToolChoice::default(),
        parallel_tool_calls: false,
        stream: false,
        background: false,
        previous_response_id: None,
    }
}

#[test]
fn converts_request_to_input_items_with_ids() {
    let request = request(
        Some("policy"),
        vec![UnifiedMessage {
            role: "user".to_string(),
            content: vec![UnifiedContent::Text { text: "hello".to_string() }],
        }],
    );

    let items = input_items_from_request(&request);

    assert_eq!(items.len(), 2);
    assert!(items[0].text_at("id").unwrap().starts_with("msg_"));
    assert_eq!(items[1].text_at("role"), Some("user"));
}

#[test]
fn rejects_cancelling_non_background_response() {
    let mut store = ResponseStore::default();
    store.insert_with_provider_session(
        json(r#"{"id":"resp_1","object":"response","status":"completed"}"#),
        vec![],
        vec![],
        false,
        None,
    );

    assert_eq!(store.cancel("resp_1"), Err(StoreError::NotBackground));
}

#[test]
fn separates_current_input_items_from_context_items() {
    let mut store = ResponseStore::default();
    store.insert_with_provider_session(
        json(
            r#"{
                "id": "resp_1",
                "object": "response",
                "status": "completed",
                "output": [{
                    "id": "msg_out",
                    "type": "message",
                    "role": "assistant",
                    "content": [{"type":"output_text","text":"hello"}]
                }]
            }"#,
        ),
        vec![json(
            r#"{
                "id": "msg_current",
                "type": "message",
                "role": "user",
                "content": [{"type":"input_text","text":"current"}]
            }"#,
        )],
        vec![
            json(
                r#"{
                    "id": "msg_previous",
                    "type": "message",
                    "role": "user",
                    "content": [{"type":"input_text","text":"previous"}]
                }"#,
            ),
            json(
                r#"{
                    "id": "msg_current",
                    "type": "message",
                    "role": "user",
                    "content": [{"type":"input_text","text":"current"}]
                }"#,
            ),
        ],
        false,
        Some("deepseek-session-a".to_string()),
    );

    let listed = store
        .list_input_items("resp_1", None, None, true)
        .expect("input items");
    let context = store.context_items_for("resp_1").expect("context items");

    assert_eq!(listed.get("data").and_then(Json::as_array).unwrap().len(), 1);
    assert_eq!(context.len(), 1);
    assert_eq!(context[0].text_at("id"), Some("msg_out"));
    assert_eq!(
        store.provider_session_id_for("resp_1").as_deref(),
        Some("deepseek-session-a")
    );
}

#[test]
fn persists_and_reloads_response_context() {
    let mut store = ResponseStore::default();
    store.insert_with_provider_session(
        json(
            r#"{
                "id": "resp_1",
                "object": "response",
                "status": "completed",
                "output": [{
                    "id": "fc_1",
                    "type": "function_call",
                    "call_id": "call_a",
                    "name": "search",
                    "arguments": "{\"q\":\"rs\"}"
                }]
            }"#,
        ),
        vec![json(
            r#"{
                "id": "msg_current",
                "type": "message",
                "role": "user",
                "content": [{"type":"input_text","text":"current"}]
            }"#,
        )],
        vec![],
        true,
        Some("provider-state-a".to_string()),
    );

    let loaded = restored(&store.to_json().to_pretty_text()).unwrap();

    assert!(loaded.retrieve("resp_1").is_some());
    assert_eq!(loaded.retrieve("resp_1"), store.retrieve("resp_1"));
    assert_eq!(
        loaded.provider_session_id_for("resp_1").as_deref(),
        Some("provider-state-a")
    );
    assert_eq!(
        loaded.context_items_for("resp_1").unwrap()[0].text_at("call_id"),
        Some("call_a")
    );
    assert_eq!(loaded.to_json(), store.to_json());
}

#[test]
fn stores_tool_items_as_top_level_response_items() {
    let request = request(
        None,
        vec![
            UnifiedMessage {
                role: "assistant".to_string(),
                content: vec![UnifiedContent::ToolUse {
                    id: "call_a".to_string(),
                    name: "search".to_string(),
                    input: json(r#"{"q":"rs"}"#),
                }],
            },
            UnifiedMessage {
                role: "user".to_string(),
                content: vec![UnifiedContent::ToolResult {
                    tool_use_id: "call_a".to_string(),
                    content: "ok".to_string(),
                    is_error: false,
                }],
            },
        ],
    );

    let items = input_items_from_request(&request);

    assert_eq!(items[0].text_at("type"), Some("function_call"));
    assert_eq!(items[0].text_at("call_id"), Some("call_a"));
    assert_eq!(items[1].text_at("type"), Some("function_call_output"));
    assert_eq!(items[1].text_at("call_id"), Some("call_a"));
    let messages = responses::parse_items(&items);
    assert_eq!(messages, request.messages);
}

#[test]
fn items_take_their_ids_in_order() {
    let request = request(
        Some(" s "),
        vec![
            UnifiedMessage {
                role: "assistant".to_string(),
                content: vec![
                    UnifiedContent::Text { text: "t".to_string() },
                    UnifiedContent::ToolUse {
                        id: "c".to_string(),
                        name: "n".to_string(),
                        input: json("{}"),
                    },
                    UnifiedContent::ImageUrl { url: "u".to_string() },
                    UnifiedContent::ToolResult {
                        tool_use_id: "c".to_string(),
                        content: "r".to_string(),
                        is_error: true,
                    },
                ],
            },
            UnifiedMessage { role: "user".to_string(), content: vec![] },
        ],
    );
    let unique: Vec<String> = ["0", "1", "2", "3", "4"].iter().map(|s| s.to_string()).collect();
    let items = input_items_with(&request, &unique);
    assert_eq!(
        items[0].to_text(),
        r#"{"content":[{"text":"s","type":"input_text"}],"id":"msg_0","role":"developer","status":"completed","type":"message"}"#
    );
    assert_eq!(
        items[1].to_text(),
        r#"{"content":[{"text":"t","type":"input_text"},{"arguments":"{}","call_id":"c","id":"fc_2","name":"n","status":"completed","type":"function_call"},{"image_url":"u","type":"input_image"},{"call_id":"c","id":"fco_3","output":"r","type":"function_call_output"}],"id":"msg_1","role":"assistant","status":"completed","type":"message"}"#
    );
    assert_eq!(items[2].text_at("id"), Some("msg_4"));
    assert_eq!(items.len(), 3);
}

#[test]
fn cancelling_changes_only_the_status() {
    let mut store = ResponseStore::default();
    store.insert_with_provider_session(
        json(r#"{"id":"r","status":"in_progress","output":[{"id":"o"}]}"#),
        vec![json(r#"{"id":"i"}"#)],
        vec![],
        true,
        None,
    );
    store.insert_with_provider_session(json(r#"{"id":"bare"}"#), vec![], vec![], true, None);
    store.insert_with_provider_session(json(r#"{"noid":1}"#), vec![], vec![], true, None);
    assert_eq!(store.cancel("missing"), Err(StoreError::NotFound));
    let body = store.cancel("r").unwrap();
    assert_eq!(body.to_text(), r#"{"id":"r","output":[{"id":"o"}],"status":"cancelled"}"#);
    assert_eq!(store.retrieve("r"), Some(body.clone()));
    assert_eq!(store.cancel("r"), Ok(body));
    assert_eq!(store.context_items_for("r").unwrap().len(), 1);
    assert_eq!(store.cancel("bare").unwrap().to_text(), r#"{"id":"bare"}"#);
    assert!(store.retrieve("missing").is_none());
    assert!(store.provider_session_id_for("r").is_none());
}

#[test]
fn pages_have_bounds() {
    let mut store = ResponseStore::default();
    let items: Vec<Json> = (0..150).map(|i| Json::object(vec![("id", Json::text(&format!("i{i}")))])).collect();
    store.insert_with_provider_session(json(r#"{"id":"r"}"#), items, vec![], false, None);
    let page = |after: Option<&str>, limit: Option<usize>, ascending: bool| {
        let body = store.list_input_items("r", after, limit, ascending).unwrap();
        let n = body.get("data").and_then(Json::as_array).unwrap().len();
        let first = body.text_at("first_id").unwrap_or("-").to_string();
        let last = body.text_at("last_id").unwrap_or("-").to_string();
        assert_eq!(body.get("has_more").and_then(Json::as_bool), Some(false));
        (n, first, last)
    };
    assert_eq!(page(None, None, true), (20, "i0".to_string(), "i19".to_string()));
    assert_eq!(page(None, None, false), (20, "i149".to_string(), "i130".to_string()));
    assert_eq!(page(None, Some(0), true), (1, "i0".to_string(), "i0".to_string()));
    assert_eq!(page(None, Some(1000), true).0, 100);
    assert_eq!(page(Some("i147"), None, true), (2, "i148".to_string(), "i149".to_string()));
    assert_eq!(page(Some("i149"), None, true), (0, "-".to_string(), "-".to_string()));
    assert_eq!(page(Some("nope"), Some(2), true), (2, "i0".to_string(), "i1".to_string()));
    assert!(store.list_input_items("x", None, None, true).is_none());
}

#[test]
fn unreadable_stores_are_refused() {
    for raw in [
        "not json",
        "[]",
        r#"{"r":{}}"#,
        r#"{"r":{"body":1,"input_items":[],"output_items":[],"background":1}}"#,
        r#"{"r":{"body":1,"input_items":[],"output_items":[],"background":true,"provider_session_id":7}}"#,
    ] {
        assert!(restored(raw).is_none(), "{raw}");
    }
    let store = restored(
        r#"{"r":{"body":1,"input_items":[],"output_items":[2],"background":true,"extra":0}}"#,
    )
    .unwrap();
    assert_eq!(store.context_items_for("r").unwrap().len(), 1);
    assert!(store.provider_session_id_for("r").is_none());
    assert_eq!(restored("{}").unwrap().to_json().to_pretty_text(), "{}");
}

#[test]
fn responses_kept_as_lists_are_restored() {
    let store = restored(
        r#"{"r1":[{"id":"r1"},[1],[{"type":"message"}],true,"sess"],"r2":[{},[],[],false,null]}"#,
    )
    .unwrap();
    assert_eq!(store.retrieve("r1").unwrap().text_at("id"), Some("r1"));
    assert_eq!(store.context_items_for("r1").unwrap().len(), 1);
    assert_eq!(store.provider_session_id_for("r1").as_deref(), Some("sess"));
    assert_eq!(store.provider_session_id_for("r2"), None);
    for raw in [
        r#"{"r":[{},[],[],false]}"#,
        r#"{"r":[{},[],[],false,null,1]}"#,
        r#"{"r":[{},[],[],0,null]}"#,
        r#"{"r":[{},[],[],false,1]}"#,
    ] {
        assert!(restored(raw).is_none(), "{raw}");
    }
}
