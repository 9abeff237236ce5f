//! Locating and recognising JSON tool calls in model output.
//!
//! - [`try_tool_call_parse_json`] finds the tool calls of a whole message
//!   and the normal text around them;
//! - [`detect_tool_call_start_json`] tells whether a streamed chunk starts
//!   (or may be starting) a tool call;
//! - [`find_tool_call_end_position_json`] tells where the tool-call region
//!   of a chunk ends.
pub mod basic;
pub mod config;
pub mod deepseek;
pub mod detect;
pub mod end_position;
pub mod json_value;
pub mod laws;
pub mod parse;
pub mod response;
pub mod text;

pub use config::{JsonParserConfig, JsonParserType};
pub use detect::detect_tool_call_start_json;
pub use end_position::find_tool_call_end_position_json;
pub use parse::try_tool_call_parse_json;
pub use response::{CalledFunction, ToolCallParseError, ToolCallResponse, ToolCallType, ToolDefinition};
