use tool_calling_json::config::JsonParserConfig;
use tool_calling_json::end_position::find_tool_call_end_position_json;

fn internlm_config() -> JsonParserConfig {
    JsonParserConfig {
        tool_call_start_tokens: vec![
            "<|action_start|><|plugin|>".to_string(),
            "<|action_start|>".to_string(),
        ],
        tool_call_end_tokens: vec!["<|action_end|>".to_string()],
        ..Default::default()
    }
}

/// Parallel tool calls in a single chunk must all be captured by
/// find_tool_call_end_position_json so that the whole group goes to the
/// parser rather than the later calls being emitted as trailing text.
#[test]
fn test_find_tool_call_end_position_parallel_calls() {
    let config = JsonParserConfig {
        tool_call_start_tokens: vec!["<tool_call>".to_string()],
        tool_call_end_tokens: vec!["</tool_call>".to_string()],
        ..Default::default()
    };

    // Two parallel calls with no whitespace between them.
    let two_calls = "<tool_call>{\"name\": \"foo\", \"arguments\": {\"x\": 1}}</tool_call><tool_call>{\"name\": \"bar\", \"arguments\": {\"y\": 2}}</tool_call>trailing";
    let pos = find_tool_call_end_position_json(two_calls, "hermes", &config);
    assert!(
        two_calls[..pos].ends_with("</tool_call>"),
        "should end at last </tool_call>, got: {:?}",
        &two_calls[..pos]
    );
    assert_eq!(&two_calls[pos..], "trailing");

    // Three parallel calls separated by whitespace / newlines.
    let three_calls = "<tool_call>{\"name\": \"a\"}</tool_call>\n<tool_call>{\"name\": \"b\"}</tool_call>\n<tool_call>{\"name\": \"c\"}</tool_call> done";
    let pos3 = find_tool_call_end_position_json(three_calls, "hermes", &config);
    assert!(
        three_calls[..pos3].ends_with("</tool_call>"),
        "should end at last </tool_call>, got: {:?}",
        &three_calls[..pos3]
    );
    assert_eq!(three_calls[pos3..].trim(), "done");

    // Incomplete second call: stop after the first complete one.
    let incomplete = "<tool_call>{\"name\": \"a\"}</tool_call><tool_call>{\"name\": \"b\"";
    let pos_inc = find_tool_call_end_position_json(incomplete, "hermes", &config);
    let first_end = "<tool_call>{\"name\": \"a\"}</tool_call>".len();
    assert_eq!(
        pos_inc, first_end,
        "should stop at end of first complete call when second is incomplete"
    );
}

#[test]
fn test_find_tool_call_end_position_internlm_stops_before_incomplete_next_action() {
    let config = internlm_config();
    let complete = r#"<|action_start|><|plugin|>{"name":"first","parameters":{}}<|action_end|>"#;
    let input = format!("{complete}<|action_start|><|plugin|>{{\"name\":\"second\"");

    let pos = find_tool_call_end_position_json(&input, "internlm", &config);
    assert_eq!(pos, complete.len());
    assert_eq!(
        &input[pos..],
        r#"<|action_start|><|plugin|>{"name":"second""#
    );
}

#[test]
fn test_find_tool_call_end_position_internlm_captures_consecutive_actions() {
    let config = internlm_config();
    let actions = r#"<|action_start|><|plugin|>{"name":"first","parameters":{"x":1}}<|action_end|>  <|action_start|>{"name":"second","parameters":{"y":2}}<|action_end|>"#;
    let input = format!("{actions} trailing");

    let pos = find_tool_call_end_position_json(&input, "internlm", &config);
    assert_eq!(pos, actions.len());
    assert_eq!(&input[pos..], " trailing");
}

#[test]
fn test_find_tool_call_end_position_internlm_ignores_end_marker_inside_json_string() {
    let config = internlm_config();
    let action = r#"<|action_start|><|plugin|>{"name":"run_query","parameters":{"sql":"SELECT '<|action_end|>' as marker"}}<|action_end|>"#;
    let input = format!("{action} done");

    let pos = find_tool_call_end_position_json(&input, "internlm", &config);
    assert_eq!(pos, action.len());
    assert_eq!(&input[pos..], " done");
}

#[test]
fn test_find_tool_call_end_position_internlm_ignores_end_marker_inside_incomplete_json_string() {
    let config = internlm_config();
    let complete = r#"<|action_start|><|plugin|>{"name":"first","parameters":{}}<|action_end|>"#;
    let input = format!(
        "{complete}<|action_start|><|plugin|>{{\"name\":\"second\",\"parameters\":{{\"text\":\"partial <|action_end|>"
    );

    let pos = find_tool_call_end_position_json(&input, "internlm", &config);
    assert_eq!(pos, complete.len());
    assert_eq!(
        &input[pos..],
        r#"<|action_start|><|plugin|>{"name":"second","parameters":{"text":"partial <|action_end|>"#
    );
}

#[test]
fn test_find_tool_call_end_position_internlm_resyncs_after_malformed_json_wrapper() {
    let config = internlm_config();
    let malformed = r#"<|action_start|><|plugin|>{"name":"broken"<|action_end|>"#;
    let valid = r#"<|action_start|><|plugin|>{"name":"first","parameters":{}}<|action_end|>"#;
    let input = format!("{malformed}{valid}<|action_start|><|plugin|>{{\"name\":\"second\"");

    let pos = find_tool_call_end_position_json(&input, "internlm", &config);
    assert_eq!(pos, malformed.len() + valid.len());
    assert_eq!(
        &input[pos..],
        r#"<|action_start|><|plugin|>{"name":"second""#
    );
}
