//! Parsing a whole message with the parser that the configuration selects.
use vstd::prelude::*;

use crate::basic::{basic_parse, try_tool_call_parse_basic_json, CallView};
use crate::config::{JsonParserConfig, JsonParserType};
use crate::deepseek::{
    deepseek_parse, deepseek_tokens_ok, missing_tokens_message, parse_tool_calls_deepseek_v3,
    parse_tool_calls_deepseek_v3_1,
};
use crate::response::{
    all_have_call_form, calls_view, ToolCallParseError, ToolCallResponse, ToolDefinition,
};

verus! {

/// What the parser that `config` selects finds in message `m`: the calls
/// and the normal text, or `None` when the configuration does not suit the
/// parser.
pub open spec fn parse_outcome(m: Seq<char>, config: JsonParserConfig) -> Option<
    (Seq<CallView>, Seq<char>),
> {
    match config.parser_type {
        JsonParserType::Basic => Some(basic_parse(m, config)),
        JsonParserType::DeepseekV3 => if deepseek_tokens_ok(config) {
            Some(deepseek_parse(m, config, true))
        } else {
            None
        },
        JsonParserType::DeepseekV31 => if deepseek_tokens_ok(config) {
            Some(deepseek_parse(m, config, false))
        } else {
            None
        },
    }
}

/// Parses the tool calls of `message` with the parser that `config`
/// selects: the calls (each under a fresh identifier) and the normal text of
/// [`parse_outcome`], or an error where that is `None` (the DeepSeek
/// parsers' [`missing_tokens_message`]). Each call id is `call-` followed by
/// a random UUID.
pub fn try_tool_call_parse_json(
    message: &str,
    config: &JsonParserConfig,
    tools: Option<&[ToolDefinition]>,
) -> (r: Result<(Vec<ToolCallResponse>, Option<String>), ToolCallParseError>)
    ensures
        r is Ok <==> parse_outcome(message@, *config) is Some,
        r matches Ok((calls, normal)) ==> normal is Some && parse_outcome(message@, *config)
            == Some((calls_view(calls@), normal->0@)),
        r matches Ok((calls, normal)) ==> all_have_call_form(calls@),
        r matches Err(e) ==> e.message@ == missing_tokens_message(),
{
    match config.parser_type {
        JsonParserType::Basic => try_tool_call_parse_basic_json(message, config, tools),
        JsonParserType::DeepseekV3 => parse_tool_calls_deepseek_v3(message, config, tools),
        JsonParserType::DeepseekV31 => parse_tool_calls_deepseek_v3_1(message, config, tools),
    }
}

} // verus!
