use botbridge::protocol::tool::{Tool, ToolCallPermissionStatus};
use botbridge::utils::http::enrich_http_error;
use botbridge::utils::openai::bots_from_model_ids;
use botbridge::protocol::entity::{BotCapabilities, BotCapability, EntityAvatar};
use botbridge::utils::tool::{
    create_tool_output_summary, display_name_from_namespaced, parse_namespaced_tool_name,
    parse_tool_arguments, truncate_for_display,
};

#[test]
fn namespaced_tool_name_parses() {
    let (server, tool) = parse_namespaced_tool_name("filesystem__read_file").unwrap();
    assert_eq!(server, "filesystem");
    assert_eq!(tool, "read_file");

    let (server, tool) = parse_namespaced_tool_name("mcp-internet-speed__test-speed").unwrap();
    assert_eq!(server, "mcp-internet-speed");
    assert_eq!(tool, "test-speed");
}

#[test]
fn namespaced_tool_name_splits_on_first_separator() {
    let (server, tool) = parse_namespaced_tool_name("a___b").unwrap();
    assert_eq!(server, "a");
    assert_eq!(tool, "_b");
}

#[test]
fn namespaced_tool_name_without_separator_is_rejected() {
    let e = parse_namespaced_tool_name("plain_name").err().unwrap();
    assert_eq!(
        e,
        "Invalid namespaced tool name: 'plain_name'. Expected format 'server_id__tool_name'"
    );
}

#[test]
fn display_name_formats_or_falls_back() {
    assert_eq!(display_name_from_namespaced("filesystem__read_file"), "filesystem: read_file");
    assert_eq!(
        display_name_from_namespaced("mcp-internet-speed__test-speed"),
        "mcp-internet-speed: test-speed"
    );
    assert_eq!(display_name_from_namespaced("plain_name"), "plain_name");
}

#[test]
fn summary_field_wins() {
    let content = "{\"summary\": \"all good\", \"other\": 3}";
    assert_eq!(create_tool_output_summary("tool", content), "all good");
}

#[test]
fn short_object_without_summary_is_pretty_printed() {
    let content = "{\"a\":1}";
    let expected = "{\n  \"a\": 1\n}";
    assert_eq!(create_tool_output_summary("tool", content), expected);
}

#[test]
fn long_plain_text_is_truncated() {
    let content = "x".repeat(150);
    let expected = format!("{}...", "x".repeat(100));
    assert_eq!(create_tool_output_summary("tool", &content), expected);
}

#[test]
fn short_plain_text_is_kept() {
    assert_eq!(create_tool_output_summary("tool", "plain output"), "plain output");
}

#[test]
fn non_object_json_is_treated_as_text() {
    assert_eq!(create_tool_output_summary("tool", "[1, 2]"), "[1, 2]");
}

#[test]
fn truncation_respects_character_boundaries() {
    // 50 two-byte characters reach exactly 100 bytes; one more begins at
    // byte 100, so the cut stays on its boundary.
    let content = "\u{e9}".repeat(51);
    let expected = format!("{}...", "\u{e9}".repeat(50));
    assert_eq!(truncate_for_display(&content), expected);
    // 33 three-byte characters pass 100 bytes at byte 99: the cut falls back
    // to the widest boundary below 100.
    let content = "\u{20ac}".repeat(35);
    let expected = format!("{}...", "\u{20ac}".repeat(33));
    assert_eq!(truncate_for_display(&content), expected);
}

#[test]
fn tool_arguments_parse_to_an_object() {
    let args = parse_tool_arguments("{\"path\": \"/tmp/x\", \"n\": 2}").unwrap();
    assert_eq!(args.len(), 2);
    assert_eq!(args.get("n"), Some(&serde_json::Value::from(2)));
}

#[test]
fn tool_arguments_must_be_an_object() {
    let e = parse_tool_arguments("[1, 2]").err().unwrap();
    assert_eq!(e, "Arguments must be a JSON object");
}

#[test]
fn tool_arguments_must_be_json() {
    let e = parse_tool_arguments("not json at all").err().unwrap();
    assert!(e.starts_with("Failed to parse arguments: "));
}

#[test]
fn tool_new_has_empty_schema() {
    let tool = Tool::new("search".to_string(), Some("find things".to_string()));
    assert_eq!(tool.name, "search");
    assert_eq!(tool.description.as_deref(), Some("find things"));
    assert!(tool.input_schema.is_empty());
}

#[test]
fn permission_status_defaults_to_pending() {
    assert_eq!(ToolCallPermissionStatus::default(), ToolCallPermissionStatus::Pending);
}

#[test]
fn enrich_attaches_body_and_note() {
    let r = enrich_http_error(429, "Request failed", Some("{\"error\":\"quota\"}"));
    assert_eq!(
        r,
        "Request failed\n\nResponse: {\"error\":\"quota\"}\n\nNote: This usually means you've hit a rate limit, run out of quota/credits, or do not have access to this resource/model in your current plan."
    );
}

#[test]
fn enrich_skips_blank_bodies() {
    // A body of pure whitespace adds no response section: the trim must
    // actually trim.
    let r = enrich_http_error(401, "Request failed", Some("   \n\t  "));
    assert_eq!(
        r,
        "Request failed\n\nNote: This usually means your API key is invalid or expired."
    );
}

#[test]
fn enrich_without_known_status_keeps_text() {
    assert_eq!(enrich_http_error(302, "Moved", None), "Moved");
}

#[test]
fn enrich_server_error_range() {
    let r = enrich_http_error(503, "Request failed", None);
    assert_eq!(
        r,
        "Request failed\n\nNote: A server error occurred. This is likely a temporary issue with the provider."
    );
}

#[test]
fn bots_from_model_ids_shape() {
    let caps = BotCapabilities::new().with_capability(BotCapability::TextOutput);
    let bots = bots_from_model_ids(&vec!["gpt-4o".to_string(), "o3".to_string()], &caps);
    assert_eq!(bots.len(), 2);
    assert_eq!(bots[0].id.as_str(), "gpt-4o");
    assert_eq!(bots[0].name, "gpt-4o");
    // The avatar comes from the uppercased id: the uppercasing must really
    // have happened.
    assert_eq!(bots[0].avatar, EntityAvatar::Text("G".to_string()));
    assert!(bots[0].capabilities.has_capability(&BotCapability::TextOutput));
    assert_eq!(bots[1].avatar, EntityAvatar::Text("O".to_string()));
}

#[test]
fn bots_from_empty_model_id_gets_placeholder_avatar() {
    let caps = BotCapabilities::new();
    let bots = bots_from_model_ids(&vec!["".to_string()], &caps);
    assert_eq!(bots[0].avatar, EntityAvatar::Text("?".to_string()));
}
