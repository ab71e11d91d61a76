use finger_kernel::compact::{compact_history, extract_context_block, is_initial_context_block};
use finger_kernel::engine::{
    apply_fork_truncate, build_initial_input, build_response_input_content, build_tool_bindings,
    build_tool_error_item, build_tool_success_item, estimate_tokens_excluding_ledger_focus,
    estimate_tokens_in_history, normalize_shell_exec_input, parse_function_arguments,
    resolve_runtime_tool_name, to_data_url_from_local_image, ProgressTracker,
};
use finger_kernel::json::{json_to_text, parse_json_text, JsonValue};
use finger_kernel::protocol::{CompactConfig, InputItem, ToolSpec, TurnContext};

#[test]
fn initial_context_block_detection_includes_developer_instructions() {
    assert!(is_initial_context_block(
        "<developer_instructions>\npolicy\n</developer_instructions>"
    ));
}

#[test]
fn build_response_input_content_maps_text_and_image() {
    let items = vec![
        InputItem::Text { text: "hello".to_string() },
        InputItem::Image { image_url: "https://example.com/demo.png".to_string() },
    ];
    let urls = vec![None, None];
    let content = build_response_input_content(&items, &urls);
    assert_eq!(content.len(), 2);
    assert_eq!(content[0].str_field("type").map(|s| s.as_str().to_string()),
        Some("input_text".to_string()));
    assert_eq!(content[0].str_field("text").map(|s| s.as_str().to_string()),
        Some("hello".to_string()));
    assert_eq!(content[1].str_field("type").map(|s| s.as_str().to_string()),
        Some("input_image".to_string()));
    assert_eq!(content[1].str_field("image_url").map(|s| s.as_str().to_string()),
        Some("https://example.com/demo.png".to_string()));
}

#[test]
fn build_initial_input_partitions_context_into_developer_and_user_blocks() {
    let items = vec![InputItem::Text { text: "hello".to_string() }];
    let urls = vec![None];
    let history: Vec<JsonValue> = Vec::new();
    let dev = "developer instructions text".to_string();
    let user = "user instructions text".to_string();
    let env = "environment context text".to_string();
    let tc = TurnContext {
        cwd: Some("/repo".to_string()),
        approval: Some("never".to_string()),
        sandbox: Some("danger-full-access".to_string()),
        model: Some("gpt-5.3-codex".to_string()),
    };
    let input = build_initial_input(
        &items,
        &urls,
        &history,
        None,
        Some(&dev),
        Some(&tc),
        Some(&user),
        Some(&env),
    );
    assert_eq!(input.len(), 5);
    let roles: Vec<String> = input
        .iter()
        .map(|m| m.str_field("role").map(|s| s.as_str().to_string()).unwrap_or_default())
        .collect();
    assert_eq!(roles, vec!["developer", "developer", "user", "user", "user"]);
    let texts: Vec<String> = input.iter().map(json_to_text).collect();
    assert!(texts[0].contains("<developer_instructions>"));
    assert!(texts[0].contains("developer instructions text"));
    assert!(texts[1].contains("<turn_context>"));
    assert!(texts[1].contains("cwd=/repo"));
    assert!(texts[1].contains("permissions=sandboxed") == false);
    assert!(texts[2].contains("<user_instructions>"));
    assert!(texts[3].contains("<environment_context>"));
    assert!(texts[4].contains("user input text") == false);
    assert!(texts[4].contains("hello"));
}

#[test]
fn tool_bindings_disambiguate_colliding_names() {
    let tools = vec![
        ToolSpec { name: "shell.exec".to_string(), description: None, input_schema: None },
        ToolSpec { name: "shell exec".to_string(), description: None, input_schema: None },
        ToolSpec { name: "???".to_string(), description: None, input_schema: None },
    ];
    let bindings = build_tool_bindings(&tools);
    assert_eq!(bindings.len(), 3);
    assert_eq!(bindings[0].model_name, "shell_exec");
    assert_eq!(bindings[1].model_name, "shell_exec_2");
    assert_eq!(bindings[2].model_name, "tool");
    assert_eq!(resolve_runtime_tool_name("shell_exec", &bindings), "shell.exec");
    assert_eq!(resolve_runtime_tool_name("shell_exec_2", &bindings), "shell exec");
    assert_eq!(resolve_runtime_tool_name("unknown", &bindings), "unknown");
}

#[test]
fn shell_exec_input_gains_command_from_cmd() {
    let input = parse_function_arguments("{\"cmd\":\"pwd\"}");
    let normalized = normalize_shell_exec_input(input);
    assert_eq!(normalized.str_field("command").map(|s| s.as_str().to_string()),
        Some("pwd".to_string()));
    assert_eq!(normalized.str_field("cmd").map(|s| s.as_str().to_string()),
        Some("pwd".to_string()));

    let with_command = normalize_shell_exec_input(
        parse_json_text("{\"command\":\"ls\",\"cmd\":\"pwd\"}").unwrap(),
    );
    assert_eq!(with_command.str_field("command").map(|s| s.as_str().to_string()),
        Some("ls".to_string()));
}

#[test]
fn function_arguments_fall_back_to_text() {
    let parsed = parse_function_arguments("not json at all");
    match parsed {
        JsonValue::Str(s) => assert_eq!(s, "not json at all"),
        _ => panic!("text fallback expected"),
    }
    let empty = parse_function_arguments("   ");
    assert_eq!(json_to_text(&empty), "{}");
}

#[test]
fn tool_feedback_envelopes_carry_the_outcome() {
    let result = parse_json_text("{\"stdout\":\"/tmp\"}").unwrap();
    let ok_item = build_tool_success_item("call_1", "shell.exec", &result);
    let text = json_to_text(&ok_item);
    assert!(text.contains("\"type\":\"function_call_output\""));
    assert!(text.contains("\"call_id\":\"call_1\""));
    assert!(text.contains("\\\"ok\\\":true"));
    assert!(text.contains("\\\"tool\\\":\\\"shell.exec\\\""));
    assert!(text.contains("\\\"stdout\\\":\\\"/tmp\\\""));

    let err_item = build_tool_error_item("call_fail", "shell.exec", "permission denied");
    let text = json_to_text(&err_item);
    assert!(text.contains("\"call_id\":\"call_fail\""));
    assert!(text.contains("\\\"ok\\\":false"));
    assert!(text.contains("permission denied"));
}

#[test]
fn progress_sequence_has_no_gaps() {
    let mut tracker = ProgressTracker::new();
    assert_eq!(tracker.next(), 1);
    assert_eq!(tracker.next(), 2);
    assert_eq!(tracker.next(), 3);
    assert_eq!(tracker.next(), 4);
}

#[test]
fn fork_truncation_keeps_history_up_to_the_indexed_user_message() {
    let history = vec![
        parse_json_text("{\"role\":\"user\",\"content\":[{\"type\":\"input_text\",\"text\":\"one\"}]}").unwrap(),
        parse_json_text("{\"role\":\"assistant\",\"content\":[{\"type\":\"output_text\",\"text\":\"a\"}]}").unwrap(),
        parse_json_text("{\"role\":\"user\",\"content\":[{\"type\":\"input_text\",\"text\":\"two\"}]}").unwrap(),
        parse_json_text("{\"role\":\"assistant\",\"content\":[{\"type\":\"output_text\",\"text\":\"b\"}]}").unwrap(),
        parse_json_text("{\"role\":\"user\",\"content\":[{\"type\":\"input_text\",\"text\":\"three\"}]}").unwrap(),
    ];
    let kept = apply_fork_truncate(history, 1);
    assert_eq!(kept.len(), 3);
    assert!(json_to_text(&kept[2]).contains("two"));

    let pair = vec![
        parse_json_text("{\"role\":\"user\",\"content\":[{\"type\":\"input_text\",\"text\":\"only\"}]}").unwrap(),
        parse_json_text("{\"role\":\"assistant\",\"content\":[{\"type\":\"output_text\",\"text\":\"tail\"}]}").unwrap(),
    ];
    let kept = apply_fork_truncate(pair, 0);
    assert_eq!(kept.len(), 1);
    assert!(json_to_text(&kept[0]).contains("only"));
}

#[test]
fn compact_history_filters_prompt_blocks_and_preserves_timeline_order() {
    let history = vec![
        parse_json_text("{\"role\":\"user\",\"timestamp_iso\":\"2026-02-01T10:00:00Z\",\"content\":[{\"type\":\"input_text\",\"text\":\"<user_instructions>do not leak</user_instructions>\"}]}").unwrap(),
        parse_json_text("{\"role\":\"user\",\"timestamp_iso\":\"2026-02-01T10:00:10Z\",\"content\":[{\"type\":\"input_text\",\"text\":\"<system_message>internal prompt</system_message>\"}]}").unwrap(),
        parse_json_text("{\"role\":\"user\",\"timestamp_iso\":\"2026-02-01T10:00:20Z\",\"content\":[{\"type\":\"input_text\",\"text\":\"please summarize README\"}]}").unwrap(),
        parse_json_text("{\"role\":\"assistant\",\"timestamp_iso\":\"2026-02-01T10:00:30Z\",\"content\":[{\"type\":\"output_text\",\"text\":\"done reading\"}]}").unwrap(),
    ];
    let result = compact_history(&history, None);
    let summary = result.summary.expect("summary");
    assert!(summary.lines().any(|l| l == "timeline_order=ascending"));
    assert!(summary.contains("source_time_start=2026-02-01T10:00:00Z"));
    assert!(summary.contains("source_time_end=2026-02-01T10:00:30Z"));
    assert!(!summary.contains("<system_message>"));
    let texts: Vec<String> = result.history.iter().map(json_to_text).collect();
    let with_instructions =
        texts.iter().filter(|t| t.contains("<user_instructions>")).count();
    assert_eq!(with_instructions, 1);
    assert!(texts.last().expect("tail").contains("<history_summary>"));
    assert!(!texts.iter().any(|t| t.contains("<system_message>internal prompt")));
}

#[test]
fn compact_history_reuses_previous_summary_block() {
    let history = vec![
        parse_json_text("{\"role\":\"assistant\",\"timestamp_iso\":\"2026-02-01T10:00:00Z\",\"content\":[{\"type\":\"output_text\",\"text\":\"<history_summary>\\nold summary line\\n</history_summary>\"}]}").unwrap(),
        parse_json_text("{\"role\":\"user\",\"timestamp_iso\":\"2026-02-01T10:00:20Z\",\"content\":[{\"type\":\"input_text\",\"text\":\"new user work item\"}]}").unwrap(),
    ];
    let result = compact_history(&history, None);
    let summary = result.summary.expect("summary");
    assert!(summary.contains("previous_summary="));
    assert!(summary.contains("old summary line"));
    let texts: Vec<String> = result.history.iter().map(json_to_text).collect();
    assert_eq!(texts.iter().filter(|t| t.contains("<history_summary>")).count(), 1);
}

#[test]
fn compact_keeps_only_the_last_twelve_user_messages_unless_preserving() {
    let mut history = Vec::new();
    for i in 0..15 {
        history.push(
            parse_json_text(&format!(
                "{{\"role\":\"user\",\"content\":[{{\"type\":\"input_text\",\"text\":\"m{}\"}}]}}",
                i
            ))
            .unwrap(),
        );
    }
    let cfg = CompactConfig { manual: true, preserve_user_messages: false, summary_hint: None };
    let result = compact_history(&history, Some(&cfg));
    assert_eq!(result.history.len(), 13);
    assert!(json_to_text(&result.history[0]).contains("m3"));
}

#[test]
fn compact_budget_counts_ledger_focus_block() {
    let history = vec![
        parse_json_text("{\"role\":\"user\",\"content\":[{\"type\":\"input_text\",\"text\":\"<context_ledger_focus>\\nrecalled notes that are long enough to count\\n</context_ledger_focus>\"}]}").unwrap(),
        parse_json_text("{\"role\":\"user\",\"content\":[{\"type\":\"input_text\",\"text\":\"short user message\"}]}").unwrap(),
    ];
    let with_focus = estimate_tokens_in_history(&history, 0);
    let without_focus = estimate_tokens_excluding_ledger_focus(&history, 0);
    assert!(with_focus > without_focus);
    assert!(without_focus > 0);
}

#[test]
fn extract_context_block_returns_the_trimmed_inside() {
    let text = "before <history_summary>\nline one\n</history_summary> after";
    let inner = extract_context_block(text, "history_summary").expect("block");
    assert_eq!(inner, "line one");
    assert!(extract_context_block("no block here", "history_summary").is_none());
}

#[test]
fn local_images_become_data_urls() {
    let bytes: Vec<u8> = vec![97, 98, 99];
    let url = to_data_url_from_local_image("/tmp/demo.png", &bytes);
    assert_eq!(url, "data:image/png;base64,YWJj");
    let other = to_data_url_from_local_image("file.unknownext", &bytes);
    assert!(other.starts_with("data:application/octet-stream;base64,"));
}
