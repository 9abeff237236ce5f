//! Parser selection and the token configuration shared by the JSON-family
//! tool-call parsers.
use vstd::prelude::*;

use crate::text::str_chars;

verus! {

broadcast use vstd::string::group_string_axioms;

/// Which JSON-family parser handles a message.
#[derive(Clone, Copy, Debug, PartialEq, Eq, Structural)]
pub enum JsonParserType {
    /// Generic JSON parser that handles most models: a JSON object or array
    /// of `{"name": .., "arguments": ..}` calls, optionally wrapped in
    /// start/end tokens.
    Basic,
    /// DeepSeek V3 format.
    DeepseekV3,
    /// DeepSeek V3.1 format.
    DeepseekV31,
}

impl Default for JsonParserType {
    fn default() -> (r: Self)
        ensures
            r == JsonParserType::Basic,
    {
        JsonParserType::Basic
    }
}

/// Tokens and options that drive the JSON-family tool-call parsers.
#[derive(Clone, Debug)]
pub struct JsonParserConfig {
    /// Tokens that open a tool-call section (tried in order).
    pub tool_call_start_tokens: Vec<String>,
    /// Tokens that close a tool-call section, paired with the start tokens.
    pub tool_call_end_tokens: Vec<String>,
    /// Tokens that separate a call's function name from its arguments.
    pub tool_call_separator_tokens: Vec<String>,
    /// Keys under which a call object carries the function name.
    pub function_name_keys: Vec<String>,
    /// Keys under which a call object carries the function arguments.
    pub arguments_keys: Vec<String>,
    /// Which parser handles the message.
    pub parser_type: JsonParserType,
    /// Accept a tool-call section whose end token never arrived (the output
    /// was cut off), and close a truncated JSON payload before parsing it.
    pub allow_eof_recovery: bool,
}

/// The `char` sequences of a list of strings.
pub open spec fn token_views(ts: Seq<String>) -> Seq<Seq<char>> {
    ts.map_values(|t: String| t@)
}

impl JsonParserConfig {
    /// The start tokens as `char` sequences.
    pub open spec fn start_tokens(&self) -> Seq<Seq<char>> {
        token_views(self.tool_call_start_tokens@)
    }

    /// The end tokens as `char` sequences.
    pub open spec fn end_tokens(&self) -> Seq<Seq<char>> {
        token_views(self.tool_call_end_tokens@)
    }

    /// The separator tokens as `char` sequences.
    pub open spec fn separator_tokens(&self) -> Seq<Seq<char>> {
        token_views(self.tool_call_separator_tokens@)
    }

    /// The function-name keys as `char` sequences.
    pub open spec fn name_keys(&self) -> Seq<Seq<char>> {
        token_views(self.function_name_keys@)
    }

    /// The argument keys as `char` sequences.
    pub open spec fn args_keys(&self) -> Seq<Seq<char>> {
        token_views(self.arguments_keys@)
    }
}

impl Default for JsonParserConfig {
    /// The configuration of the `<TOOLCALL>` / `<|python_tag|>` formats.
    fn default() -> (r: Self)
        ensures
            r.start_tokens() == seq!["<TOOLCALL>"@, "<|python_tag|>"@],
            r.end_tokens() == seq!["</TOOLCALL>"@, ""@],
            r.separator_tokens() == Seq::<Seq<char>>::empty(),
            r.name_keys() == seq!["name"@],
            r.args_keys() == seq!["arguments"@, "parameters"@],
            r.parser_type == JsonParserType::Basic,
            !r.allow_eof_recovery,
    {
        let r = JsonParserConfig {
            tool_call_start_tokens: vec!["<TOOLCALL>".to_string(), "<|python_tag|>".to_string()],
            tool_call_end_tokens: vec!["</TOOLCALL>".to_string(), "".to_string()],
            tool_call_separator_tokens: Vec::new(),
            function_name_keys: vec!["name".to_string()],
            arguments_keys: vec!["arguments".to_string(), "parameters".to_string()],
            parser_type: JsonParserType::Basic,
            allow_eof_recovery: false,
        };
        assert(r.start_tokens() =~= seq!["<TOOLCALL>"@, "<|python_tag|>"@]);
        assert(r.end_tokens() =~= seq!["</TOOLCALL>"@, ""@]);
        assert(r.separator_tokens() =~= Seq::<Seq<char>>::empty());
        assert(r.name_keys() =~= seq!["name"@]);
        assert(r.args_keys() =~= seq!["arguments"@, "parameters"@]);
        r
    }
}

/// The `char` sequences of a list of `char` vectors.
pub open spec fn char_vecs_view(vs: Seq<Vec<char>>) -> Seq<Seq<char>> {
    vs.map_values(|v: Vec<char>| v@)
}

/// The tokens of a list as `char` vectors.
pub fn tokens_chars(ts: &Vec<String>) -> (r: Vec<Vec<char>>)
    ensures
        char_vecs_view(r@) == token_views(ts@),
{
    let mut r: Vec<Vec<char>> = Vec::new();
    for i in 0..ts.len()
        invariant
            char_vecs_view(r@) == token_views(ts@).take(i as int),
    {
        let t = str_chars(ts[i].as_str());
        assert(token_views(ts@)[i as int] == t@);
        let ghost prev = r@;
        r.push(t);
        assert(char_vecs_view(r@) =~= char_vecs_view(prev).push(t@));
        assert(token_views(ts@).take(i + 1) =~= token_views(ts@).take(i as int).push(t@));
    }
    assert(token_views(ts@).take(ts@.len() as int) =~= token_views(ts@));
    r
}

} // verus!
