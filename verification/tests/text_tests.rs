use finger_kernel::clock::format_rfc3339;
use finger_kernel::config::{is_local_base_url, provider_defaults, resolve_local_model_config,
    LocalModelOverrides};
use finger_kernel::ledger::{build_preview, contains_prompt_like_block, fuzzy_accepts,
    sanitize_component, sanitize_compact_summary_text};
use finger_kernel::wire::is_azure_responses_endpoint;

#[test]
fn prompt_block_detection_is_case_insensitive() {
    assert!(contains_prompt_like_block("keep <DEVELOPER_INSTRUCTIONS> out"));
    assert!(contains_prompt_like_block("<system_message>x</system_message>"));
    assert!(!contains_prompt_like_block("an ordinary sentence"));
}

#[test]
fn summary_sanitization_drops_empty_and_prompt_lines() {
    let cleaned = sanitize_compact_summary_text("keep one\n\n  <system_message>drop</system_message>\nkeep two  ");
    assert_eq!(cleaned, "keep one\nkeep two");
}

#[test]
fn previews_are_single_line_and_bounded() {
    assert_eq!(build_preview("  a\nb  ", 160), "a b");
    let long: String = "x".repeat(200);
    let preview = build_preview(&long, 160);
    assert_eq!(preview.chars().count(), 163);
    assert!(preview.ends_with("..."));
}

#[test]
fn path_components_are_sanitized() {
    assert_eq!(sanitize_component("  a/b\\c:d  "), "a_b_c_d");
}

#[test]
fn fuzzy_matching_accepts_close_queries_only() {
    assert!(fuzzy_accepts("deployment pipeline failed", "deployment pipelines"));
    assert!(!fuzzy_accepts("deployment pipeline failed", "zzqqxx"));
}

#[test]
fn azure_endpoints_are_recognized() {
    let azure = "https://resource.openai.azure.com/openai".to_string();
    let plain = "https://api.openai.com/v1".to_string();
    assert!(is_azure_responses_endpoint(Some(&azure)));
    assert!(!is_azure_responses_endpoint(Some(&plain)));
    assert!(!is_azure_responses_endpoint(None));
}

#[test]
fn epoch_renders_as_rfc3339() {
    assert_eq!(format_rfc3339(0), "1970-01-01T00:00:00Z");
}

#[test]
fn provider_resolution_applies_overrides_and_key_rules() {
    let defaults = provider_defaults("crsa");
    assert_eq!(defaults.provider_id, "crsa");
    assert_eq!(defaults.env_key, "CRS_OAI_KEY1");

    let cfg = resolve_local_model_config(
        LocalModelOverrides {
            provider_id: Some("crsb".to_string()),
            base_url: Some("https://example.com/openai".to_string()),
            model: Some("gpt-test".to_string()),
            env_key: Some("KERNEL_CONFIG_TEST_KEY".to_string()),
        },
        None,
        Some("test-key".to_string()),
        "http://127.0.0.1:9999".to_string(),
        "chat-codex".to_string(),
    )
    .ok()
    .expect("load config");
    assert_eq!(cfg.provider_id, "crsb");
    assert_eq!(cfg.base_url, "https://example.com/openai");
    assert_eq!(cfg.model, "gpt-test");
    assert_eq!(cfg.api_key, "test-key");
    assert_eq!(cfg.tool_daemon_url, "http://127.0.0.1:9999");
    assert_eq!(cfg.tool_agent_id, "chat-codex");

    assert!(is_local_base_url("http://127.0.0.1:9999"));
    let local = resolve_local_model_config(
        LocalModelOverrides {
            provider_id: None,
            base_url: Some("http://localhost:8080".to_string()),
            model: None,
            env_key: None,
        },
        None,
        None,
        "http://127.0.0.1:9999".to_string(),
        "chat-codex".to_string(),
    )
    .ok()
    .expect("local fallback");
    assert_eq!(local.api_key, "local-dev-key");

    let missing = resolve_local_model_config(
        LocalModelOverrides { provider_id: None, base_url: None, model: None, env_key: None },
        None,
        None,
        "http://127.0.0.1:9999".to_string(),
        "chat-codex".to_string(),
    );
    assert!(missing.is_err());
}
