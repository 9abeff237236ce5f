//! The basic JSON tool-call parser.
//!
//! A message holds tool calls as a JSON object `{"name": .., "arguments": {..}}`
//! or a JSON array of such objects, either wrapped in a configured pair of
//! start/end tokens or, when no start token occurs, from the first `{` or
//! `[` on. The text before the calls is the message's normal text.
use vstd::prelude::*;

use crate::config::{char_vecs_view, token_views, tokens_chars, JsonParserConfig};
use crate::detect::{contains, contains_some_token};
use crate::json_value::{
    json_array_elements, json_object_members, json_string_value, parse_json_array,
    parse_json_object, parse_json_string,
};
use crate::response::{
    all_have_call_form, calls_view, make_call, ToolCallParseError, ToolCallResponse, ToolDefinition,
};
use crate::text::{
    find_at_or_after, find_from, lemma_find_from, occurs_at, str_chars, str_equal,
    string_from_chars, sub_vec, trimmed, trimmed_chars,
};

verus! {

broadcast use vstd::string::group_string_axioms;

/// A tool call as (function name, arguments text).
pub type CallView = (Seq<char>, Seq<char>);

// ----------------------------------------------------------------------------
// From JSON text to calls
// ----------------------------------------------------------------------------

/// The value of the first member at or after `i` whose key is `key`.
pub open spec fn member_value(ms: Seq<(Seq<char>, Seq<char>)>, key: Seq<char>, i: int) -> Option<
    Seq<char>,
>
    decreases ms.len() - i,
{
    if i < 0 || i >= ms.len() {
        None
    } else if ms[i].0 == key {
        Some(ms[i].1)
    } else {
        member_value(ms, key, i + 1)
    }
}

/// The value under the first of `keys` (from index `j` on) that the members
/// hold.
pub open spec fn value_for_keys(ms: Seq<(Seq<char>, Seq<char>)>, keys: Seq<Seq<char>>, j: int) -> Option<
    Seq<char>,
>
    decreases keys.len() - j,
{
    if j < 0 || j >= keys.len() {
        None
    } else {
        match member_value(ms, keys[j], 0) {
            Some(v) => Some(v),
            None => value_for_keys(ms, keys, j + 1),
        }
    }
}

/// The call that the JSON text `text` describes: an object whose name key
/// holds a string and whose arguments key holds an object.
pub open spec fn call_of(text: Seq<char>, name_keys: Seq<Seq<char>>, args_keys: Seq<Seq<char>>) -> Option<
    CallView,
> {
    match json_object_members(text) {
        None => None,
        Some(ms) => match value_for_keys(ms, name_keys, 0) {
            None => None,
            Some(n) => match value_for_keys(ms, args_keys, 0) {
                None => None,
                Some(a) => match json_string_value(n) {
                    None => None,
                    Some(name) => if json_object_members(a) is Some {
                        Some((name, a))
                    } else {
                        None
                    },
                },
            },
        },
    }
}

/// The calls of a list of JSON texts, when every one of them is a call.
pub open spec fn all_calls(items: Seq<Seq<char>>, name_keys: Seq<Seq<char>>, args_keys: Seq<Seq<char>>) -> Option<
    Seq<CallView>,
>
    decreases items.len(),
{
    if items.len() == 0 {
        Some(seq![])
    } else {
        match all_calls(items.drop_last(), name_keys, args_keys) {
            None => None,
            Some(cs) => match call_of(items.last(), name_keys, args_keys) {
                None => None,
                Some(c) => Some(cs.push(c)),
            },
        }
    }
}

pub proof fn lemma_all_calls_prefix(
    items: Seq<Seq<char>>,
    k: int,
    name_keys: Seq<Seq<char>>,
    args_keys: Seq<Seq<char>>,
)
    requires
        0 <= k <= items.len(),
        all_calls(items.take(k), name_keys, args_keys) is None,
    ensures
        all_calls(items, name_keys, args_keys) is None,
    decreases items.len(),
{
    if k == items.len() {
        assert(items.take(k) =~= items);
    } else {
        assert(items.drop_last().take(k) =~= items.take(k));
        lemma_all_calls_prefix(items.drop_last(), k, name_keys, args_keys);
    }
}

/// The calls that a JSON payload holds: one call object, or an array whose
/// every element is a call object.
pub open spec fn payload_calls(p: Seq<char>, name_keys: Seq<Seq<char>>, args_keys: Seq<Seq<char>>) -> Option<
    Seq<CallView>,
> {
    match call_of(p, name_keys, args_keys) {
        Some(c) => Some(seq![c]),
        None => match json_array_elements(p) {
            None => None,
            Some(items) => all_calls(items, name_keys, args_keys),
        },
    }
}

// ----------------------------------------------------------------------------
// Closing a truncated JSON payload
// ----------------------------------------------------------------------------

/// The scanner's state after a prefix of JSON text: inside a string, just
/// after a backslash in a string, and the closers of the open brackets.
pub open spec fn scan_step(st: (bool, bool, Seq<char>), ch: char) -> (bool, bool, Seq<char>) {
    let (in_string, escaped, open) = st;
    if in_string {
        if escaped {
            (true, false, open)
        } else if ch == '\\' {
            (true, true, open)
        } else if ch == '"' {
            (false, false, open)
        } else {
            (true, false, open)
        }
    } else if ch == '"' {
        (true, false, open)
    } else if ch == '{' {
        (false, false, open.push('}'))
    } else if ch == '[' {
        (false, false, open.push(']'))
    } else if (ch == '}' || ch == ']') && open.len() > 0 && open.last() == ch {
        (false, false, open.drop_last())
    } else {
        (false, false, open)
    }
}

/// The scanner's state after `s`.
pub open spec fn json_scan(s: Seq<char>) -> (bool, bool, Seq<char>)
    decreases s.len(),
{
    if s.len() == 0 {
        (false, false, seq![])
    } else {
        scan_step(json_scan(s.drop_last()), s.last())
    }
}

/// `s` with an open string closed (a dangling backslash dropped) and the
/// open brackets closed, innermost first.
pub open spec fn closed_json(s: Seq<char>) -> Seq<char> {
    let (in_string, escaped, open) = json_scan(s);
    let body = if in_string {
        (if escaped {
            s.drop_last()
        } else {
            s
        }).push('"')
    } else {
        s
    };
    body + open.reverse()
}

/// The calls of a payload; with recovery on, a payload that does not parse
/// is closed and parsed again.
pub open spec fn recovered_calls(p: Seq<char>, config: JsonParserConfig) -> Option<Seq<CallView>> {
    match payload_calls(p, config.name_keys(), config.args_keys()) {
        Some(cs) => Some(cs),
        None => if config.allow_eof_recovery {
            payload_calls(closed_json(p), config.name_keys(), config.args_keys())
        } else {
            None
        },
    }
}

// ----------------------------------------------------------------------------
// Framing: where the payload and the normal text are
// ----------------------------------------------------------------------------

/// The payload and normal text of `t` under the start/end pair `(s, e)`:
/// the text before `s` is the normal text; the payload runs from `s` to the
/// next `e` (to the end when `e` is empty, or when `e` is missing and
/// recovery is on).
pub open spec fn pair_frame(t: Seq<char>, s: Seq<char>, e: Seq<char>, eof: bool) -> Option<
    (Seq<char>, Seq<char>),
> {
    match find_from(t, s, 0) {
        None => None,
        Some(p) => {
            let normal = trimmed(t.take(p));
            let after = p + s.len();
            if e.len() == 0 {
                Some((trimmed(t.subrange(after, t.len() as int)), normal))
            } else {
                match find_from(t, e, after) {
                    Some(q) => Some((trimmed(t.subrange(after, q)), normal)),
                    None => if eof {
                        Some((trimmed(t.subrange(after, t.len() as int)), normal))
                    } else {
                        None
                    },
                }
            }
        },
    }
}

/// The frame of the first start/end pair (from index `i` on) whose
/// non-empty start token frames a payload in `t`.
pub open spec fn pairs_frame(
    t: Seq<char>,
    starts: Seq<Seq<char>>,
    ends: Seq<Seq<char>>,
    eof: bool,
    i: int,
) -> Option<(Seq<char>, Seq<char>)>
    decreases starts.len() - i,
{
    if i < 0 || i >= starts.len() || i >= ends.len() {
        None
    } else if starts[i].len() > 0 && pair_frame(t, starts[i], ends[i], eof) is Some {
        pair_frame(t, starts[i], ends[i], eof)
    } else {
        pairs_frame(t, starts, ends, eof, i + 1)
    }
}

/// The first index at or after `i` that holds `{` or `[`.
pub open spec fn first_json_open(t: Seq<char>, i: int) -> Option<int>
    decreases t.len() - i,
{
    if i < 0 || i >= t.len() {
        None
    } else if t[i] == '{' || t[i] == '[' {
        Some(i)
    } else {
        first_json_open(t, i + 1)
    }
}

/// Without start tokens: the payload runs from the first `{` or `[` on.
pub open spec fn bracket_frame(t: Seq<char>) -> Option<(Seq<char>, Seq<char>)> {
    match first_json_open(t, 0) {
        None => None,
        Some(k) => Some((trimmed(t.subrange(k, t.len() as int)), trimmed(t.take(k)))),
    }
}

/// The payload and normal text of the trimmed message `t`.
pub open spec fn frame(t: Seq<char>, config: JsonParserConfig) -> Option<(Seq<char>, Seq<char>)> {
    if contains_some_token(t, config.start_tokens()) {
        pairs_frame(t, config.start_tokens(), config.end_tokens(), config.allow_eof_recovery, 0)
    } else {
        bracket_frame(t)
    }
}

/// What the basic parser finds in message `m`: the calls and the normal
/// text. An empty (or whitespace) message has neither; a message without a
/// parseable payload is all normal text (trimmed).
pub open spec fn basic_parse(m: Seq<char>, config: JsonParserConfig) -> (Seq<CallView>, Seq<char>) {
    let t = trimmed(m);
    if t.len() == 0 {
        (seq![], seq![])
    } else {
        match frame(t, config) {
            None => (seq![], t),
            Some((p, normal)) => match recovered_calls(p, config) {
                Some(cs) => (cs, normal),
                None => (seq![], t),
            },
        }
    }
}

// ----------------------------------------------------------------------------
// Executable parts
// ----------------------------------------------------------------------------

/// The value of the first member whose key is `key`.
pub fn member_value_exec(ms: &Vec<(String, String)>, key: &str) -> (r: Option<String>)
    ensures
        r.deep_view() == member_value(ms.deep_view(), key@, 0),
{
    let ghost v = ms.deep_view();
    let mut i: usize = 0;
    while i < ms.len()
        invariant
            v == ms.deep_view(),
            i <= ms@.len(),
            member_value(v, key@, i as int) == member_value(v, key@, 0),
        decreases ms@.len() - i,
    {
        assert(v[i as int] == (ms@[i as int].0@, ms@[i as int].1@));
        if str_equal(ms[i].0.as_str(), key) {
            return Some(ms[i].1.clone());
        }
        i = i + 1;
    }
    None
}

/// The value under the first of `keys` that the members hold.
pub fn value_for_keys_exec(ms: &Vec<(String, String)>, keys: &Vec<String>) -> (r: Option<String>)
    ensures
        r.deep_view() == value_for_keys(ms.deep_view(), token_views(keys@), 0),
{
    let ghost kv = token_views(keys@);
    let mut j: usize = 0;
    while j < keys.len()
        invariant
            kv == token_views(keys@),
            j <= keys@.len(),
            value_for_keys(ms.deep_view(), kv, j as int) == value_for_keys(ms.deep_view(), kv, 0),
        decreases keys@.len() - j,
    {
        assert(kv[j as int] == keys@[j as int]@);
        if let Some(v) = member_value_exec(ms, keys[j].as_str()) {
            return Some(v);
        }
        j = j + 1;
    }
    None
}

/// The call that the JSON text `text` describes, if it describes one.
fn call_of_exec(text: &str, config: &JsonParserConfig) -> (r: Option<(String, String)>)
    ensures
        r.deep_view() == call_of(text@, config.name_keys(), config.args_keys()),
{
    let ms = match parse_json_object(text) {
        None => return None,
        Some(ms) => ms,
    };
    let n = match value_for_keys_exec(&ms, &config.function_name_keys) {
        None => return None,
        Some(n) => n,
    };
    let a = match value_for_keys_exec(&ms, &config.arguments_keys) {
        None => return None,
        Some(a) => a,
    };
    let name = match parse_json_string(n.as_str()) {
        None => return None,
        Some(name) => name,
    };
    if parse_json_object(a.as_str()).is_some() {
        Some((name, a))
    } else {
        None
    }
}

/// The calls that a JSON payload holds, made into tool calls.
fn payload_calls_exec(p: &str, config: &JsonParserConfig) -> (r: Option<Vec<ToolCallResponse>>)
    ensures
        r matches Some(cs) ==> payload_calls(p@, config.name_keys(), config.args_keys()) == Some(
            calls_view(cs@),
        ),
        r is None ==> payload_calls(p@, config.name_keys(), config.args_keys()) is None,
        r matches Some(cs) ==> all_have_call_form(cs@),
{
    let ghost nk = config.name_keys();
    let ghost ak = config.args_keys();
    if let Some((name, args)) = call_of_exec(p, config) {
        let mut cs: Vec<ToolCallResponse> = Vec::new();
        cs.push(make_call(name, args));
        assert(calls_view(cs@) =~= seq![(name@, args@)]);
        return Some(cs);
    }
    let items = match parse_json_array(p) {
        None => return None,
        Some(items) => items,
    };
    let ghost iv = items.deep_view();
    let mut cs: Vec<ToolCallResponse> = Vec::new();
    let mut i: usize = 0;
    proof {
        assert(iv.take(0) =~= Seq::<Seq<char>>::empty());
    }
    while i < items.len()
        invariant
            iv == items.deep_view(),
            iv == json_array_elements(p@)->0,
            json_array_elements(p@) is Some,
            call_of(p@, nk, ak) is None,
            nk == config.name_keys(),
            ak == config.args_keys(),
            i <= items@.len(),
            all_calls(iv.take(i as int), nk, ak) == Some(calls_view(cs@)),
            all_have_call_form(cs@),
        decreases items@.len() - i,
    {
        assert(iv.take(i + 1).drop_last() =~= iv.take(i as int));
        assert(iv[i as int] == items@[i as int]@);
        match call_of_exec(items[i].as_str(), config) {
            None => {
                proof {
                    lemma_all_calls_prefix(iv, i + 1, nk, ak);
                }
                return None;
            },
            Some((name, args)) => {
                let ghost prev = cs@;
                let call = make_call(name, args);
                cs.push(call);
                assert(calls_view(cs@) =~= calls_view(prev).push((name@, args@)));
                assert(cs@ == prev.push(call));
            },
        }
        i = i + 1;
    }
    assert(iv.take(items@.len() as int) =~= iv);
    Some(cs)
}

/// One step of the truncation scanner.
fn scan_step_exec(in_string: &mut bool, escaped: &mut bool, open: &mut Vec<char>, ch: char)
    ensures
        (*final(in_string), *final(escaped), final(open)@) == scan_step(
            (*old(in_string), *old(escaped), old(open)@),
            ch,
        ),
{
    if *in_string {
        if *escaped {
            *escaped = false;
        } else if ch == '\\' {
            *escaped = true;
        } else if ch == '"' {
            *in_string = false;
        }
    } else if ch == '"' {
        *in_string = true;
        *escaped = false;
    } else if ch == '{' {
        open.push('}');
        *escaped = false;
    } else if ch == '[' {
        open.push(']');
        *escaped = false;
    } else if (ch == '}' || ch == ']') && open.len() > 0 && open[open.len() - 1] == ch {
        open.pop();
        *escaped = false;
    } else {
        *escaped = false;
    }
}

/// `s` with an open string and open brackets closed.
pub fn close_json(s: &Vec<char>) -> (r: Vec<char>)
    ensures
        r@ == closed_json(s@),
{
    let mut in_string = false;
    let mut escaped = false;
    let mut open: Vec<char> = Vec::new();
    let mut i: usize = 0;
    proof {
        assert(s@.take(0) =~= Seq::<char>::empty());
    }
    while i < s.len()
        invariant
            i <= s@.len(),
            (in_string, escaped, open@) == json_scan(s@.take(i as int)),
        decreases s@.len() - i,
    {
        assert(s@.take(i + 1).drop_last() =~= s@.take(i as int));
        scan_step_exec(&mut in_string, &mut escaped, &mut open, s[i]);
        i = i + 1;
    }
    assert(s@.take(s@.len() as int) =~= s@);
    let mut r: Vec<char> = if in_string && escaped {
        sub_vec(s, 0, s.len() - 1)
    } else {
        sub_vec(s, 0, s.len())
    };
    if in_string {
        r.push('"');
    }
    let ghost body = r@;
    let mut k = open.len();
    while k > 0
        invariant
            k <= open@.len(),
            r@ == body + open@.reverse().take(open@.len() - k),
        decreases k,
    {
        let ghost before = r@;
        r.push(open[k - 1]);
        assert(open@.reverse().take(open@.len() - k + 1) =~= open@.reverse().take(
            open@.len() - k,
        ).push(open@[k - 1]));
        k = k - 1;
    }
    proof {
        if in_string && escaped {
            assert(s@.len() > 0);
        }
        assert(open@.reverse().take(open@.len() as int) =~= open@.reverse());
    }
    r
}

/// The calls of a payload, closing it first when it does not parse and
/// recovery is on.
fn recovered_calls_exec(p: &Vec<char>, config: &JsonParserConfig) -> (r: Option<
    Vec<ToolCallResponse>,
>)
    ensures
        r matches Some(cs) ==> recovered_calls(p@, *config) == Some(calls_view(cs@)),
        r is None ==> recovered_calls(p@, *config) is None,
        r matches Some(cs) ==> all_have_call_form(cs@),
{
    let text = string_from_chars(p.as_slice());
    match payload_calls_exec(text.as_str(), config) {
        Some(cs) => Some(cs),
        None => {
            if config.allow_eof_recovery {
                let closed = close_json(p);
                let closed_text = string_from_chars(closed.as_slice());
                payload_calls_exec(closed_text.as_str(), config)
            } else {
                None
            }
        },
    }
}

/// The frame of one start/end pair.
fn pair_frame_exec(t: &Vec<char>, s: &Vec<char>, e: &Vec<char>, eof: bool) -> (r: Option<
    (Vec<char>, Vec<char>),
>)
    ensures
        r matches Some((p, n)) ==> pair_frame(t@, s@, e@, eof) == Some((p@, n@)),
        r is None ==> pair_frame(t@, s@, e@, eof) is None,
{
    let n = t.len();
    let p = match find_at_or_after(t, s, 0) {
        None => return None,
        Some(p) => p,
    };
    proof {
        lemma_find_from(t@, s@, 0);
    }
    let before = sub_vec(t, 0, p);
    let normal = trimmed_chars(&before);
    let after = p + s.len();
    if e.len() == 0 {
        let rest = sub_vec(t, after, t.len());
        return Some((trimmed_chars(&rest), normal));
    }
    match find_at_or_after(t, e, after) {
        Some(q) => {
            proof {
                lemma_find_from(t@, e@, after as int);
            }
            let inner = sub_vec(t, after, q);
            Some((trimmed_chars(&inner), normal))
        },
        None => {
            if eof {
                let rest = sub_vec(t, after, t.len());
                Some((trimmed_chars(&rest), normal))
            } else {
                None
            }
        },
    }
}

/// The frame of the first pair that frames a payload.
fn pairs_frame_exec(t: &Vec<char>, config: &JsonParserConfig) -> (r: Option<
    (Vec<char>, Vec<char>),
>)
    ensures
        r matches Some((p, n)) ==> pairs_frame(
            t@,
            config.start_tokens(),
            config.end_tokens(),
            config.allow_eof_recovery,
            0,
        ) == Some((p@, n@)),
        r is None ==> pairs_frame(
            t@,
            config.start_tokens(),
            config.end_tokens(),
            config.allow_eof_recovery,
            0,
        ) is None,
{
    let starts = tokens_chars(&config.tool_call_start_tokens);
    let ends = tokens_chars(&config.tool_call_end_tokens);
    let ghost sv = config.start_tokens();
    let ghost ev = config.end_tokens();
    let ghost eof = config.allow_eof_recovery;
    let mut i: usize = 0;
    while i < starts.len() && i < ends.len()
        invariant
            sv == char_vecs_view(starts@),
            ev == char_vecs_view(ends@),
            sv == config.start_tokens(),
            ev == config.end_tokens(),
            eof == config.allow_eof_recovery,
            i <= starts@.len(),
            pairs_frame(t@, sv, ev, eof, i as int) == pairs_frame(t@, sv, ev, eof, 0),
        decreases starts@.len() - i,
    {
        assert(sv[i as int] == starts@[i as int]@);
        assert(ev[i as int] == ends@[i as int]@);
        if starts[i].len() > 0 {
            if let Some(found) = pair_frame_exec(t, &starts[i], &ends[i], config.allow_eof_recovery) {
                return Some(found);
            }
        }
        i = i + 1;
    }
    None
}

/// The first index that holds `{` or `[`.
fn first_json_open_exec(t: &Vec<char>) -> (r: Option<usize>)
    ensures
        r matches Some(k) ==> first_json_open(t@, 0) == Some(k as int) && k < t@.len(),
        r is None ==> first_json_open(t@, 0) is None,
{
    let mut i: usize = 0;
    while i < t.len()
        invariant
            i <= t@.len(),
            first_json_open(t@, i as int) == first_json_open(t@, 0),
        decreases t@.len() - i,
    {
        if t[i] == '{' || t[i] == '[' {
            return Some(i);
        }
        i = i + 1;
    }
    None
}

/// The payload and normal text of the trimmed message `t`.
fn frame_exec(t: &Vec<char>, config: &JsonParserConfig) -> (r: Option<(Vec<char>, Vec<char>)>)
    ensures
        r matches Some((p, n)) ==> frame(t@, *config) == Some((p@, n@)),
        r is None ==> frame(t@, *config) is None,
{
    let starts = tokens_chars(&config.tool_call_start_tokens);
    let mut any = false;
    let mut i: usize = 0;
    while i < starts.len()
        invariant
            char_vecs_view(starts@) == config.start_tokens(),
            i <= starts@.len(),
            any == exists|j: int|
                0 <= j < i && config.start_tokens()[j].len() > 0 && #[trigger] contains(
                    t@,
                    config.start_tokens()[j],
                ),
        decreases starts@.len() - i,
    {
        assert(config.start_tokens()[i as int] == starts@[i as int]@);
        let ghost tok = starts@[i as int]@;
        proof {
            lemma_find_from(t@, tok, 0);
        }
        if starts[i].len() > 0 && find_at_or_after(t, &starts[i], 0).is_some() {
            proof {
                let p = find_from(t@, tok, 0)->0;
                assert(occurs_at(t@, tok, p));
                assert(contains(t@, tok));
            }
            any = true;
        } else {
            proof {
                if tok.len() > 0 {
                    assert(!contains(t@, tok)) by {
                        if contains(t@, tok) {
                            let q = choose|q: int| occurs_at(t@, tok, q);
                            assert(occurs_at(t@, tok, q));
                        }
                    }
                }
            }
        }
        i = i + 1;
    }
    if any {
        pairs_frame_exec(t, config)
    } else {
        match first_json_open_exec(t) {
            None => None,
            Some(k) => {
                let payload = sub_vec(t, k, t.len());
                let before = sub_vec(t, 0, k);
                Some((trimmed_chars(&payload), trimmed_chars(&before)))
            },
        }
    }
}

/// Parses the tool calls of `message` with the basic JSON parser: the calls
/// and normal text of [`basic_parse`], each call under a fresh identifier.
/// `tools` is not consulted.
pub fn try_tool_call_parse_basic_json(
    message: &str,
    config: &JsonParserConfig,
    _tools: Option<&[ToolDefinition]>,
) -> (r: Result<(Vec<ToolCallResponse>, Option<String>), ToolCallParseError>)
    ensures
        r is Ok,
        r matches Ok((calls, normal)) ==> all_have_call_form(calls@),
        r matches Ok((calls, normal)) ==> calls_view(calls@) == basic_parse(message@, *config).0
            && normal.deep_view() == Some(basic_parse(message@, *config).1),
{
    let m = str_chars(message);
    let t = trimmed_chars(&m);
    if t.len() == 0 {
        let calls: Vec<ToolCallResponse> = Vec::new();
        assert(calls_view(calls@) =~= Seq::<CallView>::empty());
        return Ok((calls, Some(string_from_chars(t.as_slice()))));
    }
    let whole = string_from_chars(t.as_slice());
    match frame_exec(&t, config) {
        None => {
            let calls: Vec<ToolCallResponse> = Vec::new();
            assert(calls_view(calls@) =~= Seq::<CallView>::empty());
            Ok((calls, Some(whole)))
        },
        Some((payload, normal)) => match recovered_calls_exec(&payload, config) {
            Some(calls) => Ok((calls, Some(string_from_chars(normal.as_slice())))),
            None => {
                let calls: Vec<ToolCallResponse> = Vec::new();
                assert(calls_view(calls@) =~= Seq::<CallView>::empty());
                Ok((calls, Some(whole)))
            },
        },
    }
}

} // verus!
