//! The DeepSeek V3 and V3.1 tool-call parsers.
//!
//! Both formats wrap the calls in a section, `S_BEGIN .. S_END`, and each
//! call in `C_BEGIN .. C_END`, with a separator token inside the call; the
//! tokens come from the configuration (section and call start tokens are the
//! first two start tokens, their end tokens the first two end tokens, the
//! separator the first separator token).
//! - V3.1: `C_BEGIN name SEP {arguments} C_END`
//! - V3: `C_BEGIN type SEP name \n ```json \n {arguments} \n ``` C_END`
use vstd::prelude::*;

use crate::basic::CallView;
use crate::config::{char_vecs_view, tokens_chars, JsonParserConfig};
use crate::json_value::{json_object_members, parse_json_object};
use crate::response::{
    all_have_call_form, calls_view, make_call, ToolCallParseError, ToolCallResponse, ToolDefinition,
};
use crate::text::{
    find_at_or_after, find_from, lemma_find_from, matches_at, occurs_at, str_chars,
    string_from_chars, sub_vec, trimmed, trimmed_chars,
};

verus! {

broadcast use vstd::string::group_string_axioms;

/// The message of the error that the DeepSeek parsers report when the
/// configuration lacks their tokens.
pub open spec fn missing_tokens_message() -> Seq<char> {
    "the DeepSeek parser needs two start, two end and one separator token"@
}

/// The configuration holds the five DeepSeek tokens, none of them empty.
pub open spec fn deepseek_tokens_ok(config: JsonParserConfig) -> bool {
    &&& config.start_tokens().len() >= 2
    &&& config.end_tokens().len() >= 2
    &&& config.separator_tokens().len() >= 1
    &&& config.start_tokens()[0].len() > 0
    &&& config.start_tokens()[1].len() > 0
    &&& config.end_tokens()[0].len() > 0
    &&& config.end_tokens()[1].len() > 0
    &&& config.separator_tokens()[0].len() > 0
}

/// The first index at or after `i` that holds `ch`.
pub open spec fn first_char_from(s: Seq<char>, ch: char, i: int) -> Option<int>
    decreases s.len() - i,
{
    if i < 0 || i >= s.len() {
        None
    } else if s[i] == ch {
        Some(i)
    } else {
        first_char_from(s, ch, i + 1)
    }
}

/// `a` with a leading code fence (```` ```json ```` or ```` ``` ````) and a
/// trailing one removed, trimmed.
pub open spec fn strip_fence(a: Seq<char>) -> Seq<char> {
    let a1 = if occurs_at(a, "```json"@, 0) {
        a.subrange(7, a.len() as int)
    } else if occurs_at(a, "```"@, 0) {
        a.subrange(3, a.len() as int)
    } else {
        a
    };
    let a2 = trimmed(a1);
    if a2.len() >= 3 && occurs_at(a2, "```"@, a2.len() - 3) {
        trimmed(a2.subrange(0, a2.len() - 3))
    } else {
        a2
    }
}

/// A call body whose name and arguments are final: a non-empty name and a
/// JSON object.
pub open spec fn checked_call(name: Seq<char>, args: Seq<char>) -> Option<CallView> {
    if name.len() > 0 && json_object_members(args) is Some {
        Some((name, args))
    } else {
        None
    }
}

/// The call of a V3.1 call body `name SEP arguments`.
pub open spec fn call_v31(body: Seq<char>, sep: Seq<char>) -> Option<CallView> {
    match find_from(body, sep, 0) {
        None => None,
        Some(k) => checked_call(
            trimmed(body.take(k)),
            trimmed(body.subrange(k + sep.len(), body.len() as int)),
        ),
    }
}

/// The call of a V3 call body `type SEP name \n fenced-arguments`.
pub open spec fn call_v3(body: Seq<char>, sep: Seq<char>) -> Option<CallView> {
    match find_from(body, sep, 0) {
        None => None,
        Some(k) => {
            let rest = body.subrange(k + sep.len(), body.len() as int);
            match first_char_from(rest, '\n', 0) {
                None => None,
                Some(n) => checked_call(
                    trimmed(rest.take(n)),
                    strip_fence(trimmed(rest.subrange(n + 1, rest.len() as int))),
                ),
            }
        },
    }
}

/// The call of a call body, in the V3 (`v3`) or V3.1 format.
pub open spec fn call_of_body(body: Seq<char>, sep: Seq<char>, v3: bool) -> Option<CallView> {
    if v3 {
        call_v3(body, sep)
    } else {
        call_v31(body, sep)
    }
}

/// The calls of the section text `r` from `cursor` on: each `cb .. ce` call
/// (the last one may lack `ce`) whose body is a well-formed call.
pub open spec fn section_calls(
    r: Seq<char>,
    cb: Seq<char>,
    ce: Seq<char>,
    sep: Seq<char>,
    v3: bool,
    cursor: int,
) -> Seq<CallView>
    decreases r.len() - cursor,
{
    if cursor < 0 || cursor > r.len() || cb.len() == 0 {
        seq![]
    } else {
        match find_from(r, cb, cursor) {
            None => seq![],
            Some(p) => {
                proof {
                    lemma_find_from(r, cb, cursor);
                    lemma_find_from(r, ce, p + cb.len());
                }
                let bs = p + cb.len();
                let be = match find_from(r, ce, bs) {
                    Some(q) => q,
                    None => r.len() as int,
                };
                let next = match find_from(r, ce, bs) {
                    Some(q) => q + ce.len(),
                    None => r.len() as int,
                };
                let rest = section_calls(r, cb, ce, sep, v3, next);
                match call_of_body(r.subrange(bs, be), sep, v3) {
                    Some(c) => seq![c] + rest,
                    None => rest,
                }
            },
        }
    }
}

/// What a DeepSeek parser finds in message `m` (tokens as
/// [`deepseek_tokens_ok`] asks): the normal text is the text before the
/// section; the calls are those of the section (up to its end token, or the
/// end of the message). A message without section or without a call is all
/// normal text (trimmed).
pub open spec fn deepseek_parse(m: Seq<char>, config: JsonParserConfig, v3: bool) -> (
    Seq<CallView>,
    Seq<char>,
) {
    let t = trimmed(m);
    let sb = config.start_tokens()[0];
    let cb = config.start_tokens()[1];
    let se = config.end_tokens()[0];
    let ce = config.end_tokens()[1];
    let sep = config.separator_tokens()[0];
    if t.len() == 0 {
        (seq![], seq![])
    } else {
        match find_from(t, sb, 0) {
            None => (seq![], t),
            Some(p) => {
                let rs = p + sb.len();
                let re = match find_from(t, se, rs) {
                    Some(q) => q,
                    None => t.len() as int,
                };
                let calls = section_calls(t.subrange(rs, re), cb, ce, sep, v3, 0);
                if calls.len() == 0 {
                    (seq![], t)
                } else {
                    (calls, trimmed(t.take(p)))
                }
            },
        }
    }
}

/// The first index that holds `ch`.
fn first_char_exec(s: &Vec<char>, ch: char) -> (r: Option<usize>)
    ensures
        r matches Some(k) ==> first_char_from(s@, ch, 0) == Some(k as int) && k < s@.len(),
        r is None ==> first_char_from(s@, ch, 0) is None,
{
    let mut i: usize = 0;
    while i < s.len()
        invariant
            i <= s@.len(),
            first_char_from(s@, ch, i as int) == first_char_from(s@, ch, 0),
        decreases s@.len() - i,
    {
        if s[i] == ch {
            return Some(i);
        }
        i = i + 1;
    }
    None
}

/// `a` with its code fences removed.
fn strip_fence_exec(a: &Vec<char>) -> (r: Vec<char>)
    ensures
        r@ == strip_fence(a@),
{
    let fence_json = str_chars("```json");
    let fence = str_chars("```");
    proof {
        reveal_strlit("```json");
        reveal_strlit("```");
    }
    let a1 = if matches_at(a, &fence_json, 0) {
        sub_vec(a, 7, a.len())
    } else if matches_at(a, &fence, 0) {
        sub_vec(a, 3, a.len())
    } else {
        sub_vec(a, 0, a.len())
    };
    proof {
        assert(a@.subrange(0, a@.len() as int) =~= a@);
    }
    let a2 = trimmed_chars(&a1);
    if a2.len() >= 3 && matches_at(&a2, &fence, a2.len() - 3) {
        let inner = sub_vec(&a2, 0, a2.len() - 3);
        trimmed_chars(&inner)
    } else {
        a2
    }
}

/// A call with name and arguments as given, when they are final.
fn checked_call_exec(name: &Vec<char>, args: &Vec<char>) -> (r: Option<(String, String)>)
    ensures
        r.deep_view() == checked_call(name@, args@),
{
    if name.len() == 0 {
        return None;
    }
    let args_text = string_from_chars(args.as_slice());
    if parse_json_object(args_text.as_str()).is_some() {
        Some((string_from_chars(name.as_slice()), args_text))
    } else {
        None
    }
}

/// The call of a call body.
fn call_of_body_exec(body: &Vec<char>, sep: &Vec<char>, v3: bool) -> (r: Option<(String, String)>)
    ensures
        r.deep_view() == call_of_body(body@, sep@, v3),
{
    let k = match find_at_or_after(body, sep, 0) {
        None => return None,
        Some(k) => k,
    };
    proof {
        lemma_find_from(body@, sep@, 0);
    }
    let n = body.len();
    let rest = sub_vec(body, k + sep.len(), n);
    if v3 {
        let nl = match first_char_exec(&rest, '\n') {
            None => return None,
            Some(nl) => nl,
        };
        let name_part = sub_vec(&rest, 0, nl);
        let name = trimmed_chars(&name_part);
        let tail = sub_vec(&rest, nl + 1, rest.len());
        let tail_t = trimmed_chars(&tail);
        let args = strip_fence_exec(&tail_t);
        assert(rest@.take(nl as int) == name_part@);
        checked_call_exec(&name, &args)
    } else {
        let name_part = sub_vec(body, 0, k);
        let name = trimmed_chars(&name_part);
        let args = trimmed_chars(&rest);
        assert(body@.take(k as int) == name_part@);
        checked_call_exec(&name, &args)
    }
}

/// The calls of the section text `r`.
fn section_calls_exec(
    r: &Vec<char>,
    cb: &Vec<char>,
    ce: &Vec<char>,
    sep: &Vec<char>,
    v3: bool,
) -> (out: Vec<ToolCallResponse>)
    requires
        cb@.len() > 0,
    ensures
        calls_view(out@) == section_calls(r@, cb@, ce@, sep@, v3, 0),
        all_have_call_form(out@),
{
    let n = r.len();
    let mut out: Vec<ToolCallResponse> = Vec::new();
    let mut cursor: usize = 0;
    let ghost all = section_calls(r@, cb@, ce@, sep@, v3, 0);
    proof {
        assert(calls_view(out@) + section_calls(r@, cb@, ce@, sep@, v3, 0) =~= all);
    }
    loop
        invariant
            n == r@.len(),
            cb@.len() > 0,
            cursor <= n,
            all == section_calls(r@, cb@, ce@, sep@, v3, 0),
            calls_view(out@) + section_calls(r@, cb@, ce@, sep@, v3, cursor as int) == all,
            all_have_call_form(out@),
        decreases n - cursor,
    {
        let p = match find_at_or_after(r, cb, cursor) {
            None => {
                assert(calls_view(out@) =~= all);
                return out;
            },
            Some(p) => p,
        };
        proof {
            lemma_find_from(r@, cb@, cursor as int);
        }
        let bs = p + cb.len();
        proof {
            lemma_find_from(r@, ce@, bs as int);
        }
        let (be, next) = match find_at_or_after(r, ce, bs) {
            Some(q) => (q, q + ce.len()),
            None => (n, n),
        };
        let body = sub_vec(r, bs, be);
        let ghost prev = out@;
        match call_of_body_exec(&body, sep, v3) {
            Some((name, args)) => {
                let call = make_call(name, args);
                out.push(call);
                assert(out@ == prev.push(call));
                assert(calls_view(out@) =~= calls_view(prev).push((name@, args@)));
                assert(calls_view(out@) + section_calls(r@, cb@, ce@, sep@, v3, next as int)
                    =~= calls_view(prev) + section_calls(r@, cb@, ce@, sep@, v3, cursor as int));
            },
            None => {},
        }
        cursor = next;
    }
}

/// The DeepSeek tokens of the configuration, when it holds them:
/// (section start, call start, section end, call end, separator).
fn deepseek_tokens(config: &JsonParserConfig) -> (r: Option<
    (Vec<char>, Vec<char>, Vec<char>, Vec<char>, Vec<char>),
>)
    ensures
        r is Some <==> deepseek_tokens_ok(*config),
        r matches Some((sb, cb, se, ce, sep)) ==> sb@ == config.start_tokens()[0] && cb@
            == config.start_tokens()[1] && se@ == config.end_tokens()[0] && ce@
            == config.end_tokens()[1] && sep@ == config.separator_tokens()[0],
{
    let starts = tokens_chars(&config.tool_call_start_tokens);
    let ends = tokens_chars(&config.tool_call_end_tokens);
    let seps = tokens_chars(&config.tool_call_separator_tokens);
    if starts.len() < 2 || ends.len() < 2 || seps.len() < 1 {
        return None;
    }
    assert(char_vecs_view(starts@)[0] == starts@[0]@);
    assert(char_vecs_view(starts@)[1] == starts@[1]@);
    assert(char_vecs_view(ends@)[0] == ends@[0]@);
    assert(char_vecs_view(ends@)[1] == ends@[1]@);
    assert(char_vecs_view(seps@)[0] == seps@[0]@);
    if starts[0].len() == 0 || starts[1].len() == 0 || ends[0].len() == 0 || ends[1].len() == 0
        || seps[0].len() == 0 {
        return None;
    }
    Some((
        starts[0].clone(),
        starts[1].clone(),
        ends[0].clone(),
        ends[1].clone(),
        seps[0].clone(),
    ))
}

/// Parses the tool calls of `message` in a DeepSeek format: an error when
/// the configuration lacks the DeepSeek tokens, else the calls and normal
/// text of [`deepseek_parse`], each call under a fresh identifier. `tools`
/// is not consulted.
pub fn parse_tool_calls_deepseek(
    message: &str,
    config: &JsonParserConfig,
    _tools: Option<&[ToolDefinition]>,
    v3: bool,
) -> (r: Result<(Vec<ToolCallResponse>, Option<String>), ToolCallParseError>)
    ensures
        r is Ok <==> deepseek_tokens_ok(*config),
        r matches Ok((calls, normal)) ==> all_have_call_form(calls@),
        r matches Err(e) ==> e.message@ == missing_tokens_message(),
        r matches Ok((calls, normal)) ==> calls_view(calls@) == deepseek_parse(
            message@,
            *config,
            v3,
        ).0 && normal.deep_view() == Some(deepseek_parse(message@, *config, v3).1),
{
    let (sb, cb, se, ce, sep) = match deepseek_tokens(config) {
        None => {
            return Err(
                ToolCallParseError {
                    message: "the DeepSeek parser needs two start, two end and one separator token"
                        .to_string(),
                },
            );
        },
        Some(tokens) => tokens,
    };
    let m = str_chars(message);
    let t = trimmed_chars(&m);
    let n = t.len();
    let empty: Vec<ToolCallResponse> = Vec::new();
    assert(calls_view(empty@) =~= Seq::<CallView>::empty());
    if n == 0 {
        return Ok((empty, Some(string_from_chars(t.as_slice()))));
    }
    let p = match find_at_or_after(&t, &sb, 0) {
        None => return Ok((empty, Some(string_from_chars(t.as_slice())))),
        Some(p) => p,
    };
    proof {
        lemma_find_from(t@, sb@, 0);
    }
    let rs = p + sb.len();
    proof {
        lemma_find_from(t@, se@, rs as int);
    }
    let re = match find_at_or_after(&t, &se, rs) {
        Some(q) => q,
        None => n,
    };
    let section = sub_vec(&t, rs, re);
    let calls = section_calls_exec(&section, &cb, &ce, &sep, v3);
    if calls.len() == 0 {
        return Ok((empty, Some(string_from_chars(t.as_slice()))));
    }
    let before = sub_vec(&t, 0, p);
    let normal = trimmed_chars(&before);
    assert(t@.take(p as int) == before@);
    Ok((calls, Some(string_from_chars(normal.as_slice()))))
}

/// Parses the tool calls of `message` in the DeepSeek V3 format.
pub fn parse_tool_calls_deepseek_v3(
    message: &str,
    config: &JsonParserConfig,
    tools: Option<&[ToolDefinition]>,
) -> (r: Result<(Vec<ToolCallResponse>, Option<String>), ToolCallParseError>)
    ensures
        r is Ok <==> deepseek_tokens_ok(*config),
        r matches Ok((calls, normal)) ==> all_have_call_form(calls@),
        r matches Err(e) ==> e.message@ == missing_tokens_message(),
        r matches Ok((calls, normal)) ==> calls_view(calls@) == deepseek_parse(
            message@,
            *config,
            true,
        ).0 && normal.deep_view() == Some(deepseek_parse(message@, *config, true).1),
{
    parse_tool_calls_deepseek(message, config, tools, true)
}

/// Parses the tool calls of `message` in the DeepSeek V3.1 format.
pub fn parse_tool_calls_deepseek_v3_1(
    message: &str,
    config: &JsonParserConfig,
    tools: Option<&[ToolDefinition]>,
) -> (r: Result<(Vec<ToolCallResponse>, Option<String>), ToolCallParseError>)
    ensures
        r is Ok <==> deepseek_tokens_ok(*config),
        r matches Ok((calls, normal)) ==> all_have_call_form(calls@),
        r matches Err(e) ==> e.message@ == missing_tokens_message(),
        r matches Ok((calls, normal)) ==> calls_view(calls@) == deepseek_parse(
            message@,
            *config,
            false,
        ).0 && normal.deep_view() == Some(deepseek_parse(message@, *config, false).1),
{
    parse_tool_calls_deepseek(message, config, tools, false)
}

} // verus!
