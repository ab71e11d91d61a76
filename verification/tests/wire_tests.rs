use finger_kernel::json::{parse_json_text, json_to_text, JsonValue};
use finger_kernel::protocol::{
    ResponsesReasoningOptions, ResponsesRequestOptions, ResponsesTextOptions,
};
use finger_kernel::wire::{
    build_responses_request_payload, parse_responses_payload, parse_sse_response, ModelError,
};
use finger_kernel::engine::{
    finish_turn, round_outcome, should_retry_authentication_failure, should_retry_with_store,
    should_retry_without_reasoning_items, RoundOutcome,
};

fn payload_input() -> Vec<JsonValue> {
    vec![
        parse_json_text(
            "{\"role\":\"user\",\"content\":[{\"type\":\"input_text\",\"text\":\"hello\"}]}",
        )
        .unwrap(),
    ]
}

fn get_bool(v: &JsonValue, key: &str) -> Option<bool> {
    v.get(key).and_then(|x| x.as_bool())
}

#[test]
fn payload_defaults_to_streaming_and_enables_reasoning_text_controls() {
    let input = payload_input();
    let session = "session-1".to_string();
    let base = "https://api.openai.com/v1".to_string();
    let payload = build_responses_request_payload(
        "gpt-test",
        &input,
        None,
        None,
        Some(&session),
        None,
        Some(&base),
    );

    assert_eq!(get_bool(&payload, "stream"), Some(true));
    assert_eq!(get_bool(&payload, "store"), Some(false));
    assert!(payload.get("tools").is_none());
    let effort = payload.get("reasoning").and_then(|r| r.str_field("effort")).expect("effort");
    assert_eq!(effort, "medium");
    let verbosity = payload.get("text").and_then(|t| t.str_field("verbosity")).expect("verbosity");
    assert_eq!(verbosity, "medium");
    let includes = match payload.get("incl\u{75}de") {
        Some(JsonValue::Arr(items)) => items,
        _ => panic!("missing list"),
    };
    assert!(includes.iter().any(|e| e.as_str().map(|s| s.as_str()) == Some(
        "reasoning.encrypted_content"
    )));
    assert_eq!(
        payload.str_field("prompt_cache_key").map(|s| s.as_str().to_string()),
        Some("session-1".to_string())
    );
}

#[test]
fn payload_respects_switches_and_custom_values() {
    let input = payload_input();
    let system = "system".to_string();
    let session = "session-2".to_string();
    let base = "https://resource.openai.azure.com/openai".to_string();
    let tools = vec![parse_json_text("{\"type\":\"function\",\"name\":\"shell_exec\"}").unwrap()];
    let options = ResponsesRequestOptions {
        reasoning: Some(ResponsesReasoningOptions {
            enabled: Some(false),
            effort: None,
            summary: None,
            include_encrypted_content: Some(false),
        }),
        text: Some(ResponsesTextOptions {
            enabled: Some(true),
            verbosity: Some("high".to_string()),
            output_schema: Some(parse_json_text("{\"type\":\"object\"}").unwrap()),
        }),
        include_list: vec!["response.output_text.logprobs".to_string()],
        store: Some(true),
        parallel_tool_calls: Some(false),
    };
    let payload = build_responses_request_payload(
        "gpt-test",
        &input,
        Some(&system),
        Some(&tools),
        Some(&session),
        Some(&options),
        Some(&base),
    );

    assert_eq!(get_bool(&payload, "store"), Some(true));
    assert_eq!(get_bool(&payload, "parallel_tool_calls"), Some(false));
    assert!(payload.get("reasoning").is_none());
    let verbosity = payload.get("text").and_then(|t| t.str_field("verbosity")).expect("verbosity");
    assert_eq!(verbosity, "high");
    let format_name = payload
        .get("text")
        .and_then(|t| t.get("format"))
        .and_then(|f| f.str_field("name"))
        .expect("format name");
    assert_eq!(format_name, "finger_output_schema");
    let includes = match payload.get("incl\u{75}de") {
        Some(JsonValue::Arr(items)) => items,
        _ => panic!("missing list"),
    };
    assert_eq!(includes.len(), 1);
}

#[test]
fn payload_forces_store_when_reasoning_encrypted_content_is_disabled() {
    let input = payload_input();
    let base = "https://api.openai.com/v1".to_string();
    let options = ResponsesRequestOptions {
        reasoning: Some(ResponsesReasoningOptions {
            enabled: Some(true),
            effort: Some("medium".to_string()),
            summary: Some("detailed".to_string()),
            include_encrypted_content: Some(false),
        }),
        text: None,
        include_list: vec![],
        store: None,
        parallel_tool_calls: None,
    };
    let payload = build_responses_request_payload(
        "gpt-test",
        &input,
        None,
        None,
        None,
        Some(&options),
        Some(&base),
    );
    assert_eq!(get_bool(&payload, "store"), Some(true));
}

#[test]
fn parse_payload_reads_message_and_function_calls() {
    let payload = parse_json_text(
        "{\"id\":\"resp_123\",\"output\":[{\"type\":\"function_call\",\"call_id\":\"call_1\",\"name\":\"shell.exec\",\"arguments\":\"{\\\"cmd\\\":\\\"pwd\\\"}\"},{\"type\":\"message\",\"content\":[{\"type\":\"output_text\",\"text\":\"done\"}]}]}",
    )
    .expect("payload json");
    let parsed = parse_responses_payload(&payload).ok().expect("parse payload");
    assert_eq!(parsed.function_calls.len(), 1);
    assert_eq!(parsed.function_calls[0].call_id, "call_1");
    assert_eq!(parsed.function_calls[0].name, "shell.exec");
    assert_eq!(parsed.function_calls[0].arguments, "{\"cmd\":\"pwd\"}");
    assert_eq!(parsed.output_text.as_deref(), Some("done"));
    assert_eq!(parsed.response_id.as_deref(), Some("resp_123"));
    assert_eq!(parsed.history_items.len(), 2);
    assert_eq!(parsed.finish_reason.as_deref(), Some("tool_calls"));
}

#[test]
fn parse_payload_reads_message_text_content_type() {
    let payload = parse_json_text(
        "{\"id\":\"resp_text\",\"output\":[{\"type\":\"message\",\"content\":[{\"type\":\"text\",\"text\":\"final from text type\"}]}]}",
    )
    .expect("payload json");
    let parsed = parse_responses_payload(&payload).ok().expect("parse payload");
    assert_eq!(parsed.output_text.as_deref(), Some("final from text type"));
    assert_eq!(parsed.finish_reason.as_deref(), Some("stop"));
}

#[test]
fn parse_payload_tolerates_string_encoded_usage() {
    let payload = parse_json_text(
        "{\"output\":[],\"usage\":{\"input_tokens\":\"20\",\"output_tokens\":10,\"total_tokens\":\"30\"}}",
    )
    .expect("payload json");
    let parsed = parse_responses_payload(&payload).ok().expect("parse payload");
    assert_eq!(parsed.usage.input_tokens, Some(20));
    assert_eq!(parsed.usage.output_tokens, Some(10));
    assert_eq!(parsed.usage.total_tokens, Some(30));
}

#[test]
fn parse_payload_rejects_non_objects() {
    let payload = JsonValue::Str("nope".to_string());
    assert!(parse_responses_payload(&payload).is_err());
}

#[test]
fn parse_sse_uses_output_items_and_requires_completed() {
    let raw = "event: response.created\ndata: {\"type\":\"response.created\"}\n\nevent: response.output_item.done\ndata: {\"type\":\"response.output_item.done\",\"item\":{\"type\":\"message\",\"content\":[{\"type\":\"output_text\",\"text\":\"final from stream item\"}]}}\n\nevent: response.completed\ndata: {\"type\":\"response.completed\",\"response\":{\"id\":\"resp_1\",\"output\":[]}}\n\ndata: [DONE]\n\n";
    let response = parse_sse_response(raw).ok().expect("parse sse");
    let parsed = parse_responses_payload(&response).ok().expect("parse payload from sse");
    assert_eq!(parsed.output_text.as_deref(), Some("final from stream item"));

    let incomplete = "event: response.output_item.done\ndata: {\"type\":\"response.output_item.done\",\"item\":{\"type\":\"message\"}}\n\ndata: [DONE]\n\n";
    assert!(matches!(
        parse_sse_response(incomplete),
        Err(ModelError::MissingStreamResponse)
    ));
}

#[test]
fn sse_failed_stream_surfaces_its_message() {
    let raw = "event: response.failed\ndata: {\"type\":\"response.failed\",\"response\":{\"error\":{\"message\":\"boom\"}}}\n\n";
    match parse_sse_response(raw) {
        Err(ModelError::StreamFailed { message }) => assert_eq!(message, "boom"),
        _ => panic!("stream failure expected"),
    }
}

#[test]
fn json_round_trips_through_text() {
    let v = parse_json_text("{\"a\":1,\"b\":[true,null,\"x\\ny\"]}").expect("parse");
    let text = json_to_text(&v);
    assert_eq!(text, "{\"a\":1,\"b\":[true,null,\"x\\ny\"]}");
    let again = parse_json_text(&text).expect("reparse");
    assert_eq!(json_to_text(&again), text);
}

#[test]
fn retry_classifiers_follow_status_and_body() {
    assert!(should_retry_with_store(
        404,
        "Items are not persisted when `store` is set to false"
    ));
    assert!(should_retry_with_store(422, "Items are not persisted when `store` is set to false"));
    assert!(!should_retry_with_store(200, "Items are not persisted when `store` is set to false"));
    assert!(!should_retry_with_store(404, "some other failure"));
    assert!(should_retry_without_reasoning_items(400, "bad item with id 'rs_123'"));
    assert!(should_retry_without_reasoning_items(500, "bad item with id 'rs_123'"));
    assert!(should_retry_authentication_failure(500, "Authentication failed upstream"));
    assert!(!should_retry_authentication_failure(404, "authentication failed"));
}

#[test]
fn strip_reasoning_history_items_removes_reasoning_entries() {
    let items = vec![
        parse_json_text(
            "{\"type\":\"message\",\"role\":\"assistant\",\"content\":[{\"type\":\"output_text\",\"text\":\"hello\"}]}",
        )
        .unwrap(),
        parse_json_text(
            "{\"type\":\"reasoning\",\"id\":\"rs_123\",\"summary\":[{\"type\":\"summary_text\",\"text\":\"internal\"}]}",
        )
        .unwrap(),
        parse_json_text(
            "{\"type\":\"function_call\",\"call_id\":\"call_1\",\"name\":\"shell.exec\",\"arguments\":\"{\\\"cmd\\\":\\\"pwd\\\"}\"}",
        )
        .unwrap(),
    ];
    let stripped = finger_kernel::engine::strip_reasoning_history_items(&items);
    assert_eq!(stripped.len(), 2);
    assert!(stripped.iter().all(|item| {
        item.str_field("type").map(|s| s.as_str() != "reasoning").unwrap_or(true)
    }));
}

#[test]
fn tool_loop_round_trip_drives_sequenced_progress() {
    // One streamed round asks for a tool; the daemon result feeds back; the
    // next round closes with the final text.
    let sse_round_one = "event: response.output_item.done\ndata: {\"type\":\"response.output_item.done\",\"item\":{\"type\":\"function_call\",\"call_id\":\"call_1\",\"name\":\"shell_exec\",\"arguments\":\"{\\\"cmd\\\":\\\"pwd\\\"}\"}}\n\ndata: [DONE]\n\nevent: response.completed\ndata: {\"type\":\"response.completed\",\"response\":{\"id\":\"resp_1\",\"output\":[]}}\n\n";
    let response = parse_sse_response(sse_round_one).ok().expect("parse sse");
    let parsed = parse_responses_payload(&response).ok().expect("parse payload");
    assert_eq!(parsed.function_calls.len(), 1);

    let tools = vec![finger_kernel::protocol::ToolSpec {
        name: "shell.exec".to_string(),
        description: Some("Execute shell command".to_string()),
        input_schema: None,
    }];
    let bindings = finger_kernel::engine::build_tool_bindings(&tools);
    let call = &parsed.function_calls[0];
    let runtime_name = finger_kernel::engine::resolve_runtime_tool_name(&call.name, &bindings);
    assert_eq!(runtime_name, "shell.exec");
    let input = finger_kernel::engine::normalize_shell_exec_input(
        finger_kernel::engine::parse_function_arguments(&call.arguments),
    );
    assert_eq!(input.str_field("command").map(|s| s.as_str().to_string()),
        Some("pwd".to_string()));

    let mut tracker = finger_kernel::engine::ProgressTracker::new();
    let round_seq = tracker.next();
    let call_seq = tracker.next();
    let result = parse_json_text("{\"stdout\":\"/tmp\"}").unwrap();
    let feedback = finger_kernel::engine::build_tool_success_item(
        &call.call_id,
        &runtime_name,
        &result,
    );
    let result_seq = tracker.next();
    let sse_round_two = "event: response.output_item.done\ndata: {\"type\":\"response.output_item.done\",\"item\":{\"type\":\"message\",\"content\":[{\"type\":\"output_text\",\"text\":\"final answer\"}]}}\n\nevent: response.completed\ndata: {\"type\":\"response.completed\",\"response\":{\"id\":\"resp_2\",\"output\":[]}}\n\ndata: [DONE]\n\n";
    let response2 = parse_sse_response(sse_round_two).ok().expect("parse sse");
    let parsed2 = parse_responses_payload(&response2).ok().expect("parse payload");
    let final_round_seq = tracker.next();

    assert_eq!((round_seq, call_seq, result_seq, final_round_seq), (1, 2, 3, 4));
    assert_eq!(parsed2.output_text.as_deref(), Some("final answer"));
    assert!(json_to_text(&feedback).contains("\"call_id\":\"call_1\""));
}

#[test]
fn retry_state_spends_each_class_once() {
    let mut state = finger_kernel::engine::RetryState::new();
    let body = "Items are not persisted when `store` is set to false";
    assert!(matches!(
        state.on_http_failure(404, body, false, false),
        finger_kernel::engine::RetryDecision::RetryWithStore
    ));
    // The store class is spent; the same body now falls to the reasoning
    // class, which strips only when reasoning items exist.
    assert!(matches!(
        state.on_http_failure(404, body, true, true),
        finger_kernel::engine::RetryDecision::RetryWithoutReasoning
    ));
    assert!(matches!(
        state.on_http_failure(404, body, true, true),
        finger_kernel::engine::RetryDecision::GiveUp
    ));
    let mut auth = finger_kernel::engine::RetryState::new();
    match auth.on_http_failure(500, "authentication failed", false, false) {
        finger_kernel::engine::RetryDecision::RetryAfterBackoff { backoff_ms } => {
            assert_eq!(backoff_ms, 200)
        }
        _ => panic!("backoff expected"),
    }
    match auth.on_http_failure(500, "authentication failed", false, false) {
        finger_kernel::engine::RetryDecision::RetryAfterBackoff { backoff_ms } => {
            assert_eq!(backoff_ms, 400)
        }
        _ => panic!("backoff expected"),
    }
    assert!(matches!(
        auth.on_http_failure(500, "authentication failed", false, false),
        finger_kernel::engine::RetryDecision::GiveUp
    ));
}

#[test]
fn round_outcomes_follow_the_parsed_payload() {
    let with_text = parse_json_text(
        "{\"output\":[{\"type\":\"message\",\"content\":[{\"type\":\"output_text\",\"text\":\"  done  \"}]}]}",
    )
    .unwrap();
    let parsed = parse_responses_payload(&with_text).ok().expect("parse");
    match round_outcome(&parsed) {
        RoundOutcome::Final(t) => assert_eq!(t, "done"),
        _ => panic!("final expected"),
    }

    let with_call = parse_json_text(
        "{\"output\":[{\"type\":\"function_call\",\"call_id\":\"c\",\"name\":\"t\",\"arguments\":\"{}\"}]}",
    )
    .unwrap();
    let parsed = parse_responses_payload(&with_call).ok().expect("parse");
    assert!(matches!(round_outcome(&parsed), RoundOutcome::RunTools));

    let empty = parse_json_text("{\"output\":[]}").unwrap();
    let parsed = parse_responses_payload(&empty).ok().expect("parse");
    assert!(matches!(round_outcome(&parsed), RoundOutcome::Empty));

    assert_eq!(finish_turn(Some("answer".to_string())).ok().as_deref(), Some("answer"));
    assert!(matches!(
        finish_turn(None),
        Err(ModelError::ToolLoopExceeded { max_rounds: 64 })
    ));
}
