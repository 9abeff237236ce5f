use tool_calling_json::{try_tool_call_parse_json, JsonParserConfig};

fn nemotron_deci_config() -> JsonParserConfig {
    JsonParserConfig {
        tool_call_start_tokens: vec!["<TOOLCALL>".to_string()],
        tool_call_end_tokens: vec!["</TOOLCALL>".to_string()],
        ..Default::default()
    }
}

// Recovery for a missing outer </TOOLCALL> (max_tokens / EOS truncation):
// when the inner JSON array is well-formed, EOF stands for the end token.
#[test]
fn test_parse_nemotron_deci_no_outer_close_recovers() {
    let config = JsonParserConfig {
        tool_call_start_tokens: vec!["<TOOLCALL>".to_string()],
        tool_call_end_tokens: vec!["</TOOLCALL>".to_string()],
        allow_eof_recovery: true,
        ..Default::default()
    };
    let input = r#"<TOOLCALL>[{"name":"get_weather","arguments":{"city":"NYC"}}]"#;

    let (calls, _normal_text) = try_tool_call_parse_json(input, &config, None).unwrap();
    assert_eq!(calls.len(), 1);
    assert_eq!(calls[0].function.name, "get_weather");
    let args: serde_json::Value = serde_json::from_str(&calls[0].function.arguments).unwrap();
    assert_eq!(args["city"], "NYC");
}

#[test]
fn test_parse_nemotron_deci_multiple_calls() {
    let config = JsonParserConfig {
        tool_call_start_tokens: vec!["<TOOLCALL>".to_string()],
        tool_call_end_tokens: vec!["</TOOLCALL>".to_string()],
        ..Default::default()
    };
    // Two calls in a single <TOOLCALL>...</TOOLCALL> block, JSON array form.
    let input = r#"<TOOLCALL>[{"name":"get_weather","arguments":{"city":"NYC"}},{"name":"get_time","arguments":{"tz":"EST"}}]</TOOLCALL>"#;

    let (calls, normal_text) = try_tool_call_parse_json(input, &config, None).unwrap();
    assert_eq!(calls.len(), 2);
    assert_eq!(calls[0].function.name, "get_weather");
    assert_eq!(calls[1].function.name, "get_time");
    assert_eq!(normal_text, Some("".to_string()));
}

// Recovery for truncated JSON args: unclosed strings/braces are balanced
// and the parse retried.
#[test]
fn test_parse_nemotron_deci_truncated_json_recovers() {
    let config = JsonParserConfig {
        tool_call_start_tokens: vec!["<TOOLCALL>".to_string()],
        tool_call_end_tokens: vec!["</TOOLCALL>".to_string()],
        allow_eof_recovery: true,
        ..Default::default()
    };
    let input = r#"<TOOLCALL>[{"name":"get_weather","arguments":{"city":"NYC</TOOLCALL>"#;

    let (calls, _) = try_tool_call_parse_json(input, &config, None).unwrap();
    assert_eq!(calls.len(), 1);
    assert_eq!(calls[0].function.name, "get_weather");
    let args: serde_json::Value = serde_json::from_str(&calls[0].function.arguments).unwrap();
    assert_eq!(args["city"], "NYC");
}

/// The json-family parser is byte-stable: it does not see the upstream
/// stream-end reason.
#[test]
fn test_nemotron_deci_parser_output_independent_of_upstream_finish() {
    let config = nemotron_deci_config();
    let input = r#"<TOOLCALL>[{"name":"get_weather","arguments":{"city":"NYC"}}]</TOOLCALL>"#;
    let (calls, _) = try_tool_call_parse_json(input, &config, None).unwrap();
    assert_eq!(calls.len(), 1);
}

/// A no-arg call (`{}`) is still returned with the function name intact.
#[test]
fn test_parse_nemotron_deci_empty_args() {
    let config = nemotron_deci_config();
    let input = r#"<TOOLCALL>[{"name":"current_time","arguments":{}}]</TOOLCALL>"#;
    let (calls, _) = try_tool_call_parse_json(input, &config, None).unwrap();
    assert_eq!(calls.len(), 1);
    assert_eq!(calls[0].function.name, "current_time");
    let args: serde_json::Value = serde_json::from_str(&calls[0].function.arguments).unwrap();
    assert_eq!(args, serde_json::Value::Object(serde_json::Map::new()));
}

/// Empty and whitespace-only inputs yield no tool calls; normal_text
/// collapses to the empty string.
#[test]
fn test_parse_nemotron_deci_empty_and_whitespace_inputs() {
    let config = nemotron_deci_config();
    for input in &["", " ", "\n", "\t\n  \t"] {
        let (calls, normal) = try_tool_call_parse_json(input, &config, None).unwrap();
        assert!(
            calls.is_empty(),
            "Empty/whitespace input must yield no calls (input={:?})",
            input
        );
        assert_eq!(
            normal.as_deref(),
            Some(""),
            "Empty/whitespace input collapses to empty normal_text (input={:?})",
            input
        );
    }
}

/// Duplicate calls (same function name twice in one section): both are
/// returned, with distinct ids.
#[test]
fn test_parse_nemotron_deci_duplicate_calls_same_name() {
    let config = nemotron_deci_config();
    let input = r#"<TOOLCALL>[{"name":"get_weather","arguments":{"city":"NYC"}},{"name":"get_weather","arguments":{"city":"LA"}}]</TOOLCALL>"#;
    let (calls, _) = try_tool_call_parse_json(input, &config, None).unwrap();
    assert_eq!(calls.len(), 2, "Both duplicate-name calls must be returned");
    assert_eq!(calls[0].function.name, "get_weather");
    assert_eq!(calls[1].function.name, "get_weather");
    assert_ne!(
        calls[0].id, calls[1].id,
        "Duplicate calls must have distinct ids"
    );
    let args0: serde_json::Value = serde_json::from_str(&calls[0].function.arguments).unwrap();
    let args1: serde_json::Value = serde_json::from_str(&calls[1].function.arguments).unwrap();
    assert_eq!(args0["city"], "NYC");
    assert_eq!(args1["city"], "LA");
}
