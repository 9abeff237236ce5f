use tool_calling_json::basic::{close_json, value_for_keys_exec};
use tool_calling_json::end_position::{find_next_internlm_start, internlm_wrapper_end_given};
use tool_calling_json::{
    detect_tool_call_start_json, find_tool_call_end_position_json, try_tool_call_parse_json,
    JsonParserConfig, JsonParserType,
};

fn chars(s: &str) -> Vec<char> {
    s.chars().collect()
}

fn deepseek_config(parser_type: JsonParserType) -> JsonParserConfig {
    JsonParserConfig {
        tool_call_start_tokens: vec![
            "<｜tool▁calls▁begin｜>".to_string(),
            "<｜tool▁call▁begin｜>".to_string(),
        ],
        tool_call_end_tokens: vec![
            "<｜tool▁calls▁end｜>".to_string(),
            "<｜tool▁call▁end｜>".to_string(),
        ],
        tool_call_separator_tokens: vec!["<｜tool▁sep｜>".to_string()],
        parser_type,
        ..Default::default()
    }
}

// ---------------------------------------------------------------- end position

#[test]
fn end_position_unknown_parser_is_whole_chunk() {
    let config = JsonParserConfig::default();
    let chunk = "<TOOLCALL>[]</TOOLCALL> tail";
    assert_eq!(find_tool_call_end_position_json(chunk, "pythonic", &config), chunk.len());
}

#[test]
fn end_position_mistral_after_last_bracket() {
    let config = JsonParserConfig::default();
    let chunk = "[TOOL_CALLS][{\"name\":\"a\",\"arguments\":[1]}] after";
    let pos = find_tool_call_end_position_json(chunk, "mistral", &config);
    assert_eq!(&chunk[pos..], " after");
    let pos = find_tool_call_end_position_json("no brackets", "phi4", &config);
    assert_eq!(pos, "no brackets".len());
}

#[test]
fn end_position_hermes_without_end_token_is_whole_chunk() {
    let config = JsonParserConfig {
        tool_call_start_tokens: vec!["<tool_call>".to_string()],
        tool_call_end_tokens: vec!["</tool_call>".to_string()],
        ..Default::default()
    };
    let chunk = "<tool_call>{\"name\": \"a\"";
    assert_eq!(find_tool_call_end_position_json(chunk, "hermes", &config), chunk.len());
    let no_ends = JsonParserConfig {
        tool_call_start_tokens: vec!["<tool_call>".to_string()],
        tool_call_end_tokens: vec![],
        ..Default::default()
    };
    let chunk = "<tool_call>{}</tool_call> x";
    assert_eq!(find_tool_call_end_position_json(chunk, "nemotron_deci", &no_ends), chunk.len());
}

#[test]
fn end_position_is_a_byte_offset_for_non_ascii_text() {
    let config = JsonParserConfig {
        tool_call_start_tokens: vec!["<tool_call>".to_string()],
        tool_call_end_tokens: vec!["</tool_call>".to_string()],
        ..Default::default()
    };
    let chunk = "<tool_call>{\"name\": \"café\"}</tool_call>\u{3000}<tool_call>{\"name\": \"日本\"}</tool_call>ü rest";
    let pos = find_tool_call_end_position_json(chunk, "hermes", &config);
    assert!(chunk[..pos].ends_with("</tool_call>"));
    assert_eq!(&chunk[pos..], "ü rest");
}

#[test]
fn end_position_internlm_plain_body_runs_to_end_token() {
    let config = JsonParserConfig {
        tool_call_start_tokens: vec!["<|action_start|>".to_string()],
        tool_call_end_tokens: vec!["".to_string(), "<|action_end|>".to_string()],
        ..Default::default()
    };
    let chunk = "<|action_start|>plain body<|action_end|> tail";
    let pos = find_tool_call_end_position_json(chunk, "internlm", &config);
    assert_eq!(&chunk[pos..], " tail");
}

#[test]
fn end_position_internlm_without_end_token_is_whole_chunk() {
    let config = JsonParserConfig {
        tool_call_start_tokens: vec!["<|action_start|>".to_string()],
        tool_call_end_tokens: vec![],
        ..Default::default()
    };
    let chunk = "<|action_start|>{}<|action_end|> tail";
    assert_eq!(find_tool_call_end_position_json(chunk, "internlm", &config), chunk.len());
}

#[test]
fn next_internlm_start_prefers_earliest_then_longest() {
    let chunk = chars("xx<a><a><b> <a>");
    let tokens = vec![chars("<a>"), chars("<a><b>")];
    assert_eq!(find_next_internlm_start(&chunk, 0, &tokens), Some((2, 3)));
    assert_eq!(find_next_internlm_start(&chunk, 3, &tokens), Some((5, 6)));
    assert_eq!(find_next_internlm_start(&chunk, 12, &tokens), Some((12, 3)));
    assert_eq!(find_next_internlm_start(&chunk, 13, &tokens), None);
}

#[test]
fn next_internlm_start_empty_token_starts_at_search_position() {
    let chunk = chars("ab");
    assert_eq!(find_next_internlm_start(&chunk, 1, &vec![chars("")]), Some((1, 0)));
    assert_eq!(find_next_internlm_start(&chunk, 0, &vec![chars(""), chars("b")]), Some((0, 0)));
    assert_eq!(find_next_internlm_start(&chunk, 1, &vec![chars(""), chars("b")]), Some((1, 1)));
    assert_eq!(find_next_internlm_start(&chunk, 2, &vec![chars("b")]), None);
}

#[test]
fn end_position_internlm_ignores_empty_start_tokens() {
    let config = JsonParserConfig {
        tool_call_start_tokens: vec!["".to_string(), "<|action_start|>".to_string()],
        tool_call_end_tokens: vec!["<|action_end|>".to_string()],
        ..Default::default()
    };
    let chunk = "<|action_start|>{\"name\":\"a\"}<|action_end|> tail";
    let pos = find_tool_call_end_position_json(chunk, "internlm", &config);
    assert_eq!(&chunk[pos..], " tail");
}

#[test]
fn internlm_wrapper_end_given_json_length() {
    let chunk = chars("X {\"a\":1}  END tail");
    let end = chars("END");
    // body at 1; the JSON value `{"a":1}` is 7 chars long
    assert_eq!(internlm_wrapper_end_given(&chunk, 1, &end, Some(7)), Some(14));
    assert_eq!(internlm_wrapper_end_given(&chunk, 1, &end, Some(5)), None);
    assert_eq!(internlm_wrapper_end_given(&chunk, 1, &end, None), None);
    let plain = chars("X body END tail");
    assert_eq!(internlm_wrapper_end_given(&plain, 1, &end, None), Some(10));
}

// ---------------------------------------------------------------- detection

#[test]
fn detect_basic() {
    let config = JsonParserConfig::default();
    assert!(detect_tool_call_start_json("hi <TOOLCALL>", &config));
    assert!(detect_tool_call_start_json("hi <TOOL", &config));
    assert!(detect_tool_call_start_json("<", &config));
    assert!(detect_tool_call_start_json(" {", &config));
    assert!(detect_tool_call_start_json("x [", &config));
    assert!(!detect_tool_call_start_json("hello there", &config));
    assert!(!detect_tool_call_start_json(" \n\t ", &config));
    assert!(!detect_tool_call_start_json("", &config));
}

#[test]
fn detect_deepseek() {
    for pt in [JsonParserType::DeepseekV3, JsonParserType::DeepseekV31] {
        let config = deepseek_config(pt);
        assert!(detect_tool_call_start_json("ok <｜tool▁calls▁begin｜>", &config));
        assert!(detect_tool_call_start_json("ok <｜tool", &config));
        assert!(!detect_tool_call_start_json("ok {\"a\": 1}", &config));
        assert!(!detect_tool_call_start_json("plain", &config));
    }
}

// ---------------------------------------------------------------- basic parser

#[test]
fn parse_bare_json_after_text() {
    let config = JsonParserConfig::default();
    let (calls, normal) = try_tool_call_parse_json(
        "Sure thing. {\"name\": \"search\", \"parameters\": {\"q\": \"rust\"}}",
        &config,
        None,
    )
    .unwrap();
    assert_eq!(calls.len(), 1);
    assert_eq!(calls[0].function.name, "search");
    assert_eq!(calls[0].function.arguments, "{\"q\": \"rust\"}");
    let id = &calls[0].id;
    assert!(id.starts_with("call-"));
    assert_eq!(id.len(), 41);
    for (i, c) in id[5..].chars().enumerate() {
        if i == 8 || i == 13 || i == 18 || i == 23 {
            assert_eq!(c, '-');
        } else {
            assert!(c.is_ascii_digit() || ('a'..='f').contains(&c));
        }
    }
    assert_eq!(id.as_bytes()[5 + 14], b'4');
    assert!(b"89ab".contains(&id.as_bytes()[5 + 19]));
    assert_eq!(normal, Some("Sure thing.".to_string()));
}

#[test]
fn parse_text_before_start_token_is_normal_text() {
    let config = JsonParserConfig::default();
    let (calls, normal) = try_tool_call_parse_json(
        "  Let me look. <TOOLCALL>{\"name\":\"f\",\"arguments\":{\"x\":1}}</TOOLCALL>  ",
        &config,
        None,
    )
    .unwrap();
    assert_eq!(calls.len(), 1);
    assert_eq!(calls[0].function.name, "f");
    assert_eq!(calls[0].function.arguments, "{\"x\":1}");
    assert_eq!(normal, Some("Let me look.".to_string()));
}

#[test]
fn parse_python_tag_without_end_token() {
    let config = JsonParserConfig::default();
    let (calls, normal) =
        try_tool_call_parse_json("<|python_tag|>{\"name\":\"g\",\"arguments\":{}}", &config, None).unwrap();
    assert_eq!(calls.len(), 1);
    assert_eq!(calls[0].function.name, "g");
    assert_eq!(normal, Some("".to_string()));
}

#[test]
fn parse_without_payload_is_all_normal_text() {
    let config = JsonParserConfig::default();
    let (calls, normal) = try_tool_call_parse_json("  just words  ", &config, None).unwrap();
    assert!(calls.is_empty());
    assert_eq!(normal, Some("just words".to_string()));
}

#[test]
fn parse_rejects_non_object_arguments_and_bad_elements() {
    let config = JsonParserConfig::default();
    let msg = "<TOOLCALL>{\"name\":\"f\",\"arguments\":\"x\"}</TOOLCALL>";
    let (calls, normal) = try_tool_call_parse_json(msg, &config, None).unwrap();
    assert!(calls.is_empty());
    assert_eq!(normal, Some(msg.to_string()));
    let msg = "<TOOLCALL>[{\"name\":\"f\",\"arguments\":{}}, 3]</TOOLCALL>";
    let (calls, _) = try_tool_call_parse_json(msg, &config, None).unwrap();
    assert!(calls.is_empty());
}

#[test]
fn parse_missing_end_token_without_recovery_has_no_calls() {
    let config = JsonParserConfig {
        tool_call_start_tokens: vec!["<TOOLCALL>".to_string()],
        tool_call_end_tokens: vec!["</TOOLCALL>".to_string()],
        ..Default::default()
    };
    let msg = "<TOOLCALL>[{\"name\":\"f\",\"arguments\":{}}]";
    let (calls, normal) = try_tool_call_parse_json(msg, &config, None).unwrap();
    assert!(calls.is_empty());
    assert_eq!(normal, Some(msg.to_string()));
}

#[test]
fn parse_name_key_holds_escaped_string() {
    let config = JsonParserConfig::default();
    let (calls, _) =
        try_tool_call_parse_json("{\"name\":\"a\\u0062c\",\"arguments\":{}}", &config, None).unwrap();
    assert_eq!(calls[0].function.name, "abc");
}

#[test]
fn close_json_balances_truncated_payload() {
    let closed: String = close_json(&chars("[{\"a\":{\"b\":\"x")).into_iter().collect();
    assert_eq!(closed, "[{\"a\":{\"b\":\"x\"}}]");
    let closed: String = close_json(&chars("{\"a\":\"x\\")).into_iter().collect();
    assert_eq!(closed, "{\"a\":\"x\"}");
    let closed: String = close_json(&chars("{\"a\":\"]}\"")).into_iter().collect();
    assert_eq!(closed, "{\"a\":\"]}\"}");
    let balanced = "{\"a\":[1,2]}";
    let closed: String = close_json(&chars(balanced)).into_iter().collect();
    assert_eq!(closed, balanced);
}

#[test]
fn blank_messages_have_no_calls_for_every_parser() {
    for pt in [JsonParserType::DeepseekV3, JsonParserType::DeepseekV31] {
        let (calls, normal) = try_tool_call_parse_json(" \u{2003}\n", &deepseek_config(pt), None).unwrap();
        assert!(calls.is_empty());
        assert_eq!(normal, Some(String::new()));
    }
}

// ---------------------------------------------------------------- deepseek

#[test]
fn parse_deepseek_v3_1() {
    let config = deepseek_config(JsonParserType::DeepseekV31);
    let msg = "Checking.<｜tool▁calls▁begin｜><｜tool▁call▁begin｜>get_weather<｜tool▁sep｜>{\"city\": \"Paris\"}<｜tool▁call▁end｜><｜tool▁call▁begin｜>get_time<｜tool▁sep｜>{}<｜tool▁call▁end｜><｜tool▁calls▁end｜>";
    let (calls, normal) = try_tool_call_parse_json(msg, &config, None).unwrap();
    assert_eq!(calls.len(), 2);
    assert_eq!(calls[0].function.name, "get_weather");
    assert_eq!(calls[0].function.arguments, "{\"city\": \"Paris\"}");
    assert_eq!(calls[1].function.name, "get_time");
    assert_eq!(normal, Some("Checking.".to_string()));
}

#[test]
fn parse_deepseek_v3_fenced_arguments() {
    let config = deepseek_config(JsonParserType::DeepseekV3);
    let msg = "<｜tool▁calls▁begin｜><｜tool▁call▁begin｜>function<｜tool▁sep｜>get_weather\n```json\n{\"city\": \"Tokyo\"}\n```<｜tool▁call▁end｜><｜tool▁calls▁end｜>";
    let (calls, normal) = try_tool_call_parse_json(msg, &config, None).unwrap();
    assert_eq!(calls.len(), 1);
    assert_eq!(calls[0].function.name, "get_weather");
    assert_eq!(calls[0].function.arguments, "{\"city\": \"Tokyo\"}");
    assert_eq!(normal, Some("".to_string()));
}

#[test]
fn parse_deepseek_without_section_is_normal_text() {
    let config = deepseek_config(JsonParserType::DeepseekV31);
    let (calls, normal) = try_tool_call_parse_json(" hello ", &config, None).unwrap();
    assert!(calls.is_empty());
    assert_eq!(normal, Some("hello".to_string()));
}

#[test]
fn parse_deepseek_needs_its_tokens() {
    let config = JsonParserConfig {
        parser_type: JsonParserType::DeepseekV3,
        ..Default::default()
    };
    let err = try_tool_call_parse_json("anything", &config, None).unwrap_err();
    assert_eq!(
        err.message,
        "the DeepSeek parser needs two start, two end and one separator token"
    );
}

#[test]
fn value_for_keys_takes_the_first_key_present() {
    let members = vec![
        ("arguments".to_string(), "{\"a\":1}".to_string()),
        ("name".to_string(), "\"f\"".to_string()),
        ("parameters".to_string(), "{}".to_string()),
    ];
    let keys = vec!["parameters".to_string(), "arguments".to_string()];
    assert_eq!(value_for_keys_exec(&members, &keys), Some("{}".to_string()));
    let keys = vec!["missing".to_string(), "name".to_string()];
    assert_eq!(value_for_keys_exec(&members, &keys), Some("\"f\"".to_string()));
    assert_eq!(value_for_keys_exec(&members, &vec!["x".to_string()]), None);
}
