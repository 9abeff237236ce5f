//! Whether a streamed chunk starts (or may be starting) a tool call.
use vstd::prelude::*;

use crate::config::{char_vecs_view, tokens_chars, JsonParserConfig, JsonParserType};
use crate::text::{
    find_at_or_after, lemma_find_from, occurs_at, str_chars, trimmed, trimmed_chars,
};

verus! {

/// `t` occurs somewhere in `s`.
pub open spec fn contains(s: Seq<char>, t: Seq<char>) -> bool {
    exists|i: int| occurs_at(s, t, i)
}

/// `s` ends with the first `k` characters of `t`, for some `1 <= k <= |t|`:
/// the token `t` may be arriving split over chunks.
pub open spec fn ends_with_token_prefix(s: Seq<char>, t: Seq<char>) -> bool {
    exists|k: int|
        1 <= k <= t.len() && k <= s.len() && #[trigger] s.subrange(s.len() - k, s.len() as int)
            == t.take(k)
}

/// Some non-empty token of `ts` occurs in `s`.
pub open spec fn contains_some_token(s: Seq<char>, ts: Seq<Seq<char>>) -> bool {
    exists|i: int| 0 <= i < ts.len() && ts[i].len() > 0 && #[trigger] contains(s, ts[i])
}

/// `s` ends with the beginning of some non-empty token of `ts`.
pub open spec fn ends_with_some_token_prefix(s: Seq<char>, ts: Seq<Seq<char>>) -> bool {
    exists|i: int| 0 <= i < ts.len() && ts[i].len() > 0 && #[trigger] ends_with_token_prefix(s, ts[i])
}

/// `s` holds `ch`.
pub open spec fn has_char(s: Seq<char>, ch: char) -> bool {
    exists|i: int| 0 <= i < s.len() && s[i] == ch
}

/// The basic parser sees a tool call starting in a chunk whose trimmed text
/// is not empty and holds a start token, ends with the beginning of one, or
/// holds `{` or `[`.
pub open spec fn basic_detects(c: Seq<char>, starts: Seq<Seq<char>>) -> bool {
    let t = trimmed(c);
    &&& t.len() > 0
    &&& {
        ||| contains_some_token(t, starts)
        ||| ends_with_some_token_prefix(t, starts)
        ||| has_char(t, '{')
        ||| has_char(t, '[')
    }
}

/// The DeepSeek parsers see a tool call starting in a chunk that holds one
/// of their start tokens or whose trimmed text ends with the beginning of
/// the first one (the section marker).
pub open spec fn deepseek_detects(c: Seq<char>, starts: Seq<Seq<char>>) -> bool {
    ||| contains_some_token(c, starts)
    ||| (starts.len() > 0 && starts[0].len() > 0 && ends_with_token_prefix(trimmed(c), starts[0]))
}

/// Whether `t` occurs in `s`.
fn contains_exec(s: &Vec<char>, t: &Vec<char>) -> (r: bool)
    ensures
        r == contains(s@, t@),
{
    let found = find_at_or_after(s, t, 0);
    proof {
        lemma_find_from(s@, t@, 0);
    }
    found.is_some()
}

/// Whether `s` ends with the first `k` characters of `t` for some `k >= 1`.
fn ends_with_token_prefix_exec(s: &Vec<char>, t: &Vec<char>) -> (r: bool)
    ensures
        r == ends_with_token_prefix(s@, t@),
{
    let lim = if t.len() < s.len() {
        t.len()
    } else {
        s.len()
    };
    let mut k: usize = 1;
    while k <= lim
        invariant
            1 <= k,
            lim == t@.len() || lim == s@.len(),
            lim <= t@.len(),
            lim <= s@.len(),
            t@.len() <= lim || s@.len() <= lim,
            forall|j: int|
                1 <= j < k && j <= t@.len() && j <= s@.len() ==> #[trigger] s@.subrange(
                    s@.len() - j,
                    s@.len() as int,
                ) != t@.take(j),
        decreases lim + 1 - k,
    {
        let mut m: usize = 0;
        let mut same = true;
        while m < k
            invariant
                k <= t@.len(),
                k <= s@.len(),
                m <= k,
                same == forall|x: int| 0 <= x < m ==> s@[s@.len() - k + x] == t@[x],
            decreases k - m,
        {
            if s[s.len() - k + m] != t[m] {
                same = false;
            }
            m = m + 1;
        }
        if same {
            assert(s@.subrange(s@.len() - k, s@.len() as int) =~= t@.take(k as int));
            return true;
        }
        proof {
            let j = choose|x: int| 0 <= x < k && s@[s@.len() - k + x] != t@[x];
            assert(s@.subrange(s@.len() - k, s@.len() as int)[j] != t@.take(k as int)[j]);
        }
        if k == lim {
            return false;
        }
        k = k + 1;
    }
    false
}

/// Whether `s` holds `ch`.
fn has_char_exec(s: &Vec<char>, ch: char) -> (r: bool)
    ensures
        r == has_char(s@, ch),
{
    let mut i: usize = 0;
    while i < s.len()
        invariant
            i <= s@.len(),
            forall|j: int| 0 <= j < i ==> s@[j] != ch,
        decreases s@.len() - i,
    {
        if s[i] == ch {
            return true;
        }
        i = i + 1;
    }
    false
}

/// Whether some non-empty token of `ts` occurs in `s`.
fn contains_some_token_exec(s: &Vec<char>, ts: &Vec<Vec<char>>) -> (r: bool)
    ensures
        r == contains_some_token(s@, char_vecs_view(ts@)),
{
    let ghost tv = char_vecs_view(ts@);
    let mut i: usize = 0;
    while i < ts.len()
        invariant
            i <= ts@.len(),
            tv == char_vecs_view(ts@),
            forall|j: int| 0 <= j < i ==> !(tv[j].len() > 0 && #[trigger] contains(s@, tv[j])),
        decreases ts@.len() - i,
    {
        assert(tv[i as int] == ts[i as int]@);
        if ts[i].len() > 0 && contains_exec(s, &ts[i]) {
            return true;
        }
        i = i + 1;
    }
    false
}

/// Whether `s` ends with the beginning of some non-empty token of `ts`.
fn ends_with_some_token_prefix_exec(s: &Vec<char>, ts: &Vec<Vec<char>>) -> (r: bool)
    ensures
        r == ends_with_some_token_prefix(s@, char_vecs_view(ts@)),
{
    let ghost tv = char_vecs_view(ts@);
    let mut i: usize = 0;
    while i < ts.len()
        invariant
            i <= ts@.len(),
            tv == char_vecs_view(ts@),
            forall|j: int|
                0 <= j < i ==> !(tv[j].len() > 0 && #[trigger] ends_with_token_prefix(s@, tv[j])),
        decreases ts@.len() - i,
    {
        assert(tv[i as int] == ts[i as int]@);
        if ts[i].len() > 0 && ends_with_token_prefix_exec(s, &ts[i]) {
            return true;
        }
        i = i + 1;
    }
    false
}

/// Whether the basic JSON parser sees the start of a tool call in `chunk`.
pub fn detect_tool_call_start_basic_json(chunk: &str, config: &JsonParserConfig) -> (r: bool)
    ensures
        r == basic_detects(chunk@, config.start_tokens()),
{
    let c = str_chars(chunk);
    let t = trimmed_chars(&c);
    if t.len() == 0 {
        return false;
    }
    let starts = tokens_chars(&config.tool_call_start_tokens);
    contains_some_token_exec(&t, &starts) || ends_with_some_token_prefix_exec(&t, &starts)
        || has_char_exec(&t, '{') || has_char_exec(&t, '[')
}

/// Whether the DeepSeek parsers see the start of a tool call in `chunk`.
pub fn detect_tool_call_start_deepseek(chunk: &str, config: &JsonParserConfig) -> (r: bool)
    ensures
        r == deepseek_detects(chunk@, config.start_tokens()),
{
    let c = str_chars(chunk);
    let starts = tokens_chars(&config.tool_call_start_tokens);
    if contains_some_token_exec(&c, &starts) {
        return true;
    }
    if starts.len() == 0 || starts[0].len() == 0 {
        return false;
    }
    assert(char_vecs_view(starts@)[0] == starts[0]@);
    let t = trimmed_chars(&c);
    ends_with_token_prefix_exec(&t, &starts[0])
}

/// Whether the DeepSeek V3 parser sees the start of a tool call in `chunk`.
pub fn detect_tool_call_start_deepseek_v3(chunk: &str, config: &JsonParserConfig) -> (r: bool)
    ensures
        r == deepseek_detects(chunk@, config.start_tokens()),
{
    detect_tool_call_start_deepseek(chunk, config)
}

/// Whether the DeepSeek V3.1 parser sees the start of a tool call in
/// `chunk`.
pub fn detect_tool_call_start_deepseek_v3_1(chunk: &str, config: &JsonParserConfig) -> (r: bool)
    ensures
        r == deepseek_detects(chunk@, config.start_tokens()),
{
    detect_tool_call_start_deepseek(chunk, config)
}

/// Whether the parser that `config` selects sees the start of a tool call
/// in `chunk`.
pub open spec fn detects(chunk: Seq<char>, config: JsonParserConfig) -> bool {
    match config.parser_type {
        JsonParserType::Basic => basic_detects(chunk, config.start_tokens()),
        JsonParserType::DeepseekV3 => deepseek_detects(chunk, config.start_tokens()),
        JsonParserType::DeepseekV31 => deepseek_detects(chunk, config.start_tokens()),
    }
}

/// Whether the parser that `config` selects sees the start of a tool call
/// in `chunk`.
pub fn detect_tool_call_start_json(chunk: &str, config: &JsonParserConfig) -> (r: bool)
    ensures
        r == detects(chunk@, *config),
{
    match config.parser_type {
        JsonParserType::Basic => detect_tool_call_start_basic_json(chunk, config),
        JsonParserType::DeepseekV3 => detect_tool_call_start_deepseek_v3(chunk, config),
        JsonParserType::DeepseekV31 => detect_tool_call_start_deepseek_v3_1(chunk, config),
    }
}

} // verus!
