//! Where a tool-call region ends inside a streamed chunk.
//!
//! `find_tool_call_end_position_json` tells a streaming "jail" how much of a
//! chunk belongs to the tool-call region, so that the whole region (several
//! parallel calls included) is handed to the parser and only what follows it
//! is emitted as plain text.
use vstd::prelude::*;
use vstd::string::StrSliceExecFns;

use crate::config::{char_vecs_view, token_views, JsonParserConfig};
use crate::json_value::{first_json_value, leading_json_value};
use crate::text::{
    all_ws, byte_len, byte_offset, char_is_whitespace, find_at_or_after, find_from, lemma_byte_len_take_mono,
    lemma_find_from, lemma_skip_ws, matches_at, occurs_at, skip_whitespace, skip_ws, str_byte_len,
    str_chars, str_equal,
};

verus! {

broadcast use vstd::string::group_string_axioms;

// ----------------------------------------------------------------------------
// hermes / nemotron_deci: `<start>..<end>` blocks, consecutive ones merged
// ----------------------------------------------------------------------------

/// From `cursor`, which is just past a complete block, take in every
/// following block that starts (after whitespace) with `start` and has an
/// `end` after it; the result is just past the last such block.
pub open spec fn hermes_extend(c: Seq<char>, start: Seq<char>, end: Seq<char>, cursor: int) -> int
    decreases c.len() - cursor,
{
    if cursor < 0 || cursor > c.len() || (start.len() == 0 && end.len() == 0) {
        cursor
    } else {
        let t = skip_ws(c, cursor);
        if !occurs_at(c, start, t) {
            cursor
        } else {
            match find_from(c, end, t + start.len()) {
                None => cursor,
                Some(p) => {
                    proof {
                        lemma_skip_ws(c, cursor);
                        lemma_find_from(c, end, t + start.len());
                    }
                    hermes_extend(c, start, end, p + end.len())
                },
            }
        }
    }
}

/// The `char` index where the tool-call region of a hermes-style chunk
/// ends: just past the first end token and the blocks that directly follow
/// it; the whole chunk when there is no end token (configured or present).
pub open spec fn hermes_end(c: Seq<char>, starts: Seq<Seq<char>>, ends: Seq<Seq<char>>) -> int {
    if ends.len() == 0 {
        c.len() as int
    } else {
        match find_from(c, ends[0], 0) {
            None => c.len() as int,
            Some(p) => if starts.len() == 0 {
                p + ends[0].len()
            } else {
                hermes_extend(c, starts[0], ends[0], p + ends[0].len())
            },
        }
    }
}

/// The merging loop of the hermes family terminates: its first start token
/// and its first end token are not both empty.
pub open spec fn hermes_terminates(starts: Seq<Seq<char>>, ends: Seq<Seq<char>>) -> bool {
    starts.len() > 0 && ends.len() > 0 ==> !(starts[0].len() == 0 && ends[0].len() == 0)
}

pub proof fn lemma_hermes_extend(c: Seq<char>, start: Seq<char>, end: Seq<char>, cursor: int)
    requires
        0 <= cursor <= c.len(),
    ensures
        cursor <= hermes_extend(c, start, end, cursor) <= c.len(),
    decreases c.len() - cursor,
{
    if !(start.len() == 0 && end.len() == 0) {
        let t = skip_ws(c, cursor);
        lemma_skip_ws(c, cursor);
        if occurs_at(c, start, t) {
            lemma_find_from(c, end, t + start.len());
            if let Some(p) = find_from(c, end, t + start.len()) {
                lemma_hermes_extend(c, start, end, p + end.len());
            }
        }
    }
}

fn hermes_end_position(c: &Vec<char>, config: &JsonParserConfig) -> (r: usize)
    requires
        hermes_terminates(config.start_tokens(), config.end_tokens()),
    ensures
        r == hermes_end(c@, config.start_tokens(), config.end_tokens()),
        r <= c@.len(),
{
    let n = c.len();
    if config.tool_call_end_tokens.len() == 0 {
        return n;
    }
    let end_token = str_chars(config.tool_call_end_tokens[0].as_str());
    assert(config.end_tokens()[0] == end_token@);
    let first_end = match find_at_or_after(c, &end_token, 0) {
        None => return c.len(),
        Some(p) => p,
    };
    proof {
        lemma_find_from(c@, end_token@, 0);
    }
    let mut cursor = first_end + end_token.len();
    if config.tool_call_start_tokens.len() > 0 {
        let start_token = str_chars(config.tool_call_start_tokens[0].as_str());
        assert(config.start_tokens()[0] == start_token@);
        let ghost target = hermes_extend(c@, start_token@, end_token@, cursor as int);
        proof {
            lemma_hermes_extend(c@, start_token@, end_token@, cursor as int);
        }
        loop
            invariant
                n == c@.len(),
                cursor <= c@.len(),
                !(start_token@.len() == 0 && end_token@.len() == 0),
                hermes_extend(c@, start_token@, end_token@, cursor as int) == target,
            ensures
                cursor == target,
            decreases c@.len() - cursor,
        {
            let t = skip_whitespace(c, cursor);
            if !matches_at(c, &start_token, t) {
                break ;
            }
            let search_from = t + start_token.len();
            match find_at_or_after(c, &end_token, search_from) {
                Some(end_pos) => {
                    proof {
                        lemma_find_from(c@, end_token@, search_from as int);
                    }
                    cursor = end_pos + end_token.len();
                },
                None => {
                    break ;
                },
            }
        }
    }
    cursor
}

// ----------------------------------------------------------------------------
// mistral / phi4: up to the last `]`
// ----------------------------------------------------------------------------

/// The last index below `i` that holds `ch`.
pub open spec fn last_index_before(c: Seq<char>, ch: char, i: int) -> Option<int>
    decreases i,
{
    if i <= 0 {
        None
    } else if c[i - 1] == ch {
        Some(i - 1)
    } else {
        last_index_before(c, ch, i - 1)
    }
}

/// The `char` index just past the last `]`, or the whole chunk.
pub open spec fn bracket_end(c: Seq<char>) -> int {
    match last_index_before(c, ']', c.len() as int) {
        Some(k) => k + 1,
        None => c.len() as int,
    }
}

fn bracket_end_position(c: &Vec<char>) -> (r: usize)
    ensures
        r == bracket_end(c@),
        r <= c@.len(),
{
    let mut i = c.len();
    while i > 0
        invariant
            i <= c@.len(),
            last_index_before(c@, ']', i as int) == last_index_before(c@, ']', c@.len() as int),
        decreases i,
    {
        if c[i - 1] == ']' {
            return i;
        }
        i = i - 1;
    }
    c.len()
}

// ----------------------------------------------------------------------------
// internlm: `<|action_start|>[<|plugin|>] {json} <|action_end|>` wrappers
// ----------------------------------------------------------------------------

/// Start token `t` first occurs at or after `from` at index `p` (an empty
/// token occurs at `from`).
pub open spec fn start_candidate(c: Seq<char>, from: int, t: Seq<char>, p: int) -> bool {
    find_from(c, t, from) == Some(p)
}

/// Every token of `ts` is non-empty.
pub open spec fn all_nonempty(ts: Seq<Seq<char>>) -> bool {
    forall|i: int| 0 <= i < ts.len() ==> #[trigger] ts[i].len() > 0
}

/// The non-empty tokens of `ts`, in order.
pub open spec fn nonempty_tokens(ts: Seq<Seq<char>>) -> Seq<Seq<char>>
    decreases ts.len(),
{
    if ts.len() == 0 {
        seq![]
    } else if ts.last().len() > 0 {
        nonempty_tokens(ts.drop_last()).push(ts.last())
    } else {
        nonempty_tokens(ts.drop_last())
    }
}

pub proof fn lemma_nonempty_tokens(ts: Seq<Seq<char>>)
    ensures
        all_nonempty(nonempty_tokens(ts)),
    decreases ts.len(),
{
    if ts.len() > 0 {
        lemma_nonempty_tokens(ts.drop_last());
        let r = nonempty_tokens(ts.drop_last());
        if ts.last().len() > 0 {
            assert forall|i: int| 0 <= i < r.push(ts.last()).len() implies #[trigger] r.push(
                ts.last(),
            )[i].len() > 0 by {
                if i < r.len() {
                    assert(r.push(ts.last())[i] == r[i]);
                }
            }
        }
    }
}

/// `(p, l)` is the next wrapper start at or after `from`: `p` is the least
/// first occurrence of a start token, and `l` is the length of the longest
/// token that starts there.
pub open spec fn is_next_start(
    c: Seq<char>,
    from: int,
    ts: Seq<Seq<char>>,
    p: int,
    l: int,
) -> bool {
    &&& exists|i: int| 0 <= i < ts.len() && start_candidate(c, from, ts[i], p) && ts[i].len() == l
    &&& forall|i: int, q: int|
        0 <= i < ts.len() && #[trigger] start_candidate(c, from, ts[i], q) ==> p <= q && (q == p
            ==> ts[i].len() <= l)
}

/// The next wrapper start at or after `from`, as its position and the
/// length of its start token.
pub open spec fn next_start(c: Seq<char>, from: int, ts: Seq<Seq<char>>) -> Option<(int, int)> {
    if exists|p: int, l: int| is_next_start(c, from, ts, p, l) {
        Some(choose|p: int, l: int| is_next_start(c, from, ts, p, l))
    } else {
        None
    }
}

pub proof fn lemma_next_start_unique(
    c: Seq<char>,
    from: int,
    ts: Seq<Seq<char>>,
    p: int,
    l: int,
)
    requires
        is_next_start(c, from, ts, p, l),
    ensures
        next_start(c, from, ts) == Some((p, l)),
{
    let (p2, l2) = choose|p: int, l: int| is_next_start(c, from, ts, p, l);
    let i1 = choose|i: int| 0 <= i < ts.len() && start_candidate(c, from, ts[i], p) && ts[i].len() == l;
    let i2 = choose|i: int|
        0 <= i < ts.len() && start_candidate(c, from, ts[i], p2) && ts[i].len() == l2;
    assert(start_candidate(c, from, ts[i1], p));
    assert(start_candidate(c, from, ts[i2], p2));
}

pub proof fn lemma_next_start(c: Seq<char>, from: int, ts: Seq<Seq<char>>)
    requires
        0 <= from,
    ensures
        next_start(c, from, ts) matches Some((p, l)) ==> from <= p && 0 <= l && p + l <= c.len()
            && (all_nonempty(ts) ==> 0 < l),
{
    if let Some((p, l)) = next_start(c, from, ts) {
        let i = choose|i: int| 0 <= i < ts.len() && start_candidate(c, from, ts[i], p) && ts[i].len() == l;
        lemma_find_from(c, ts[i], from);
    }
}

/// Where a wrapper whose body starts at `body` ends, given the length of
/// the JSON value (if any) that the JSON reader took from the body: a body
/// that starts (after whitespace) with `{` or `[` must be that JSON value,
/// followed by optional whitespace and the end token; any other body runs
/// to the first end token.
pub open spec fn wrapper_end_given(
    c: Seq<char>,
    body: int,
    end: Seq<char>,
    json_len: Option<int>,
) -> Option<int> {
    let j = skip_ws(c, body);
    if j < c.len() && (c[j] == '{' || c[j] == '[') {
        match json_len {
            None => None,
            Some(n) => {
                let k = skip_ws(c, j + n);
                if occurs_at(c, end, k) {
                    Some(k + end.len())
                } else {
                    None
                }
            },
        }
    } else {
        match find_from(c, end, body) {
            None => None,
            Some(p) => Some(p + end.len()),
        }
    }
}

/// The length of the JSON value that the JSON reader takes from the body
/// that starts at `body`.
pub open spec fn body_json_len(c: Seq<char>, body: int) -> Option<int> {
    match leading_json_value(c.subrange(skip_ws(c, body), c.len() as int)) {
        Some(raw) => Some(raw.len() as int),
        None => None,
    }
}

/// Where the wrapper whose body starts at `body` ends.
pub open spec fn wrapper_end(c: Seq<char>, body: int, end: Seq<char>) -> Option<int> {
    wrapper_end_given(c, body, end, body_json_len(c, body))
}

pub proof fn lemma_wrapper_end_given(c: Seq<char>, body: int, end: Seq<char>, json_len: Option<int>)
    requires
        0 <= body <= c.len(),
        json_len matches Some(n) ==> 0 <= n,
    ensures
        wrapper_end_given(c, body, end, json_len) matches Some(e) ==> body + end.len() <= e
            <= c.len(),
{
    lemma_skip_ws(c, body);
    lemma_find_from(c, end, body);
    if let Some(n) = json_len {
        let j = skip_ws(c, body);
        if j + n <= c.len() {
            lemma_skip_ws(c, j + n);
        }
    }
}

/// The first non-empty token, if any.
pub open spec fn first_nonempty_from(ts: Seq<Seq<char>>, i: int) -> Option<Seq<char>>
    decreases ts.len() - i,
{
    if i < 0 || i >= ts.len() {
        None
    } else if ts[i].len() > 0 {
        Some(ts[i])
    } else {
        first_nonempty_from(ts, i + 1)
    }
}

/// Scan wrappers from `cursor`; `last` is the end of the last complete
/// wrapper so far. The scan stops at the first start that is not directly
/// (up to whitespace) after the last complete wrapper, or at an incomplete
/// wrapper after a complete one; an incomplete first wrapper is skipped so
/// that a later well-formed one is still found.
pub open spec fn internlm_scan(
    c: Seq<char>,
    ts: Seq<Seq<char>>,
    end: Seq<char>,
    cursor: int,
    last: Option<int>,
) -> Option<int>
    decreases c.len() - cursor,
{
    if cursor < 0 || cursor > c.len() || end.len() == 0 || !all_nonempty(ts) {
        last
    } else {
        match next_start(c, cursor, ts) {
            None => last,
            Some((p, l)) => {
                proof {
                    lemma_next_start(c, cursor, ts);
                }
                if last is Some && !all_ws(c, cursor, p) {
                    last
                } else {
                    let body = p + l;
                    proof {
                        lemma_wrapper_end_given(c, body, end, body_json_len(c, body));
                    }
                    match wrapper_end(c, body, end) {
                        None => if last is Some {
                            last
                        } else {
                            internlm_scan(c, ts, end, body, last)
                        },
                        Some(e) => internlm_scan(c, ts, end, e, Some(e)),
                    }
                }
            },
        }
    }
}

/// The `char` index where the last complete wrapper of a run of internlm
/// tool calls ends, if there is one (empty start tokens take no part).
pub open spec fn internlm_end(c: Seq<char>, starts: Seq<Seq<char>>, ends: Seq<Seq<char>>) -> Option<
    int,
> {
    match first_nonempty_from(ends, 0) {
        None => None,
        Some(e) => internlm_scan(c, nonempty_tokens(starts), e, 0, None),
    }
}

pub proof fn lemma_internlm_scan(
    c: Seq<char>,
    ts: Seq<Seq<char>>,
    end: Seq<char>,
    cursor: int,
    last: Option<int>,
)
    requires
        0 <= cursor <= c.len(),
        last matches Some(x) ==> 0 <= x <= c.len(),
    ensures
        internlm_scan(c, ts, end, cursor, last) matches Some(x) ==> 0 <= x <= c.len(),
    decreases c.len() - cursor,
{
    if end.len() > 0 && all_nonempty(ts) {
        lemma_next_start(c, cursor, ts);
        if let Some((p, l)) = next_start(c, cursor, ts) {
            let body = p + l;
            lemma_wrapper_end_given(c, body, end, body_json_len(c, body));
            match wrapper_end(c, body, end) {
                None => {
                    if last is None {
                        lemma_internlm_scan(c, ts, end, body, last);
                    }
                },
                Some(e) => {
                    lemma_internlm_scan(c, ts, end, e, Some(e));
                },
            }
        }
    }
}

/// The first non-empty token of a list, as a `char` vector.
fn first_nonempty_token(ts: &Vec<String>) -> (r: Option<Vec<char>>)
    ensures
        r matches Some(t) ==> first_nonempty_from(token_views(ts@), 0) == Some(t@) && t@.len()
            > 0,
        r is None ==> first_nonempty_from(token_views(ts@), 0) is None,
{
    let mut i: usize = 0;
    while i < ts.len()
        invariant
            i <= ts@.len(),
            first_nonempty_from(token_views(ts@), i as int) == first_nonempty_from(
                token_views(ts@),
                0,
            ),
        decreases ts@.len() - i,
    {
        let t = str_chars(ts[i].as_str());
        assert(token_views(ts@)[i as int] == t@);
        if t.len() > 0 {
            return Some(t);
        }
        i = i + 1;
    }
    None
}

/// The non-empty tokens of a list, as `char` vectors.
fn nonempty_tokens_chars(ts: &Vec<String>) -> (r: Vec<Vec<char>>)
    ensures
        char_vecs_view(r@) == nonempty_tokens(token_views(ts@)),
{
    let ghost tv = token_views(ts@);
    let mut r: Vec<Vec<char>> = Vec::new();
    proof {
        assert(tv.take(0) =~= Seq::<Seq<char>>::empty());
    }
    for i in 0..ts.len()
        invariant
            tv == token_views(ts@),
            char_vecs_view(r@) == nonempty_tokens(tv.take(i as int)),
    {
        let t = str_chars(ts[i].as_str());
        assert(tv[i as int] == t@);
        assert(tv.take(i + 1).drop_last() =~= tv.take(i as int));
        assert(tv.take(i + 1).last() == t@);
        if t.len() > 0 {
            let ghost prev = r@;
            r.push(t);
            assert(char_vecs_view(r@) =~= char_vecs_view(prev).push(t@));
        }
    }
    assert(tv.take(ts@.len() as int) =~= tv);
    r
}

/// Whether `c[from..to]` holds only whitespace.
fn all_whitespace(c: &Vec<char>, from: usize, to: usize) -> (r: bool)
    requires
        from <= to <= c@.len(),
    ensures
        r == all_ws(c@, from as int, to as int),
{
    let mut i = from;
    while i < to
        invariant
            from <= i <= to <= c@.len(),
            all_ws(c@, from as int, i as int),
        decreases to - i,
    {
        if !char_is_whitespace(c[i]) {
            return false;
        }
        i = i + 1;
    }
    true
}

/// The next wrapper start at or after `search_from`: the position and the
/// token length of [`next_start`] (an empty token starts at `search_from`).
pub fn find_next_internlm_start(chunk: &Vec<char>, search_from: usize, start_tokens: &Vec<
    Vec<char>,
>) -> (r: Option<(usize, usize)>)
    requires
        search_from <= chunk@.len(),
    ensures
        r matches Some((p, l)) ==> next_start(chunk@, search_from as int, char_vecs_view(start_tokens@))
            == Some((p as int, l as int)),
        r is None ==> next_start(chunk@, search_from as int, char_vecs_view(start_tokens@)) is None,
{
    let ghost ts = char_vecs_view(start_tokens@);
    let ghost from = search_from as int;
    let mut best: Option<(usize, usize)> = None;
    for i in 0..start_tokens.len()
        invariant
            ts == char_vecs_view(start_tokens@),
            from == search_from,
            best matches Some((bp, bl)) ==> {
                &&& exists|j: int|
                    0 <= j < i && start_candidate(chunk@, from, ts[j], bp as int) && ts[j].len()
                        == bl
                &&& forall|j: int, q: int|
                    0 <= j < i && #[trigger] start_candidate(chunk@, from, ts[j], q) ==> bp <= q
                        && (q == bp ==> ts[j].len() <= bl)
            },
            best is None ==> forall|j: int, q: int|
                0 <= j < i ==> !#[trigger] start_candidate(chunk@, from, ts[j], q),
    {
        let token = &start_tokens[i];
        assert(ts[i as int] == token@);
        if let Some(p) = find_at_or_after(chunk, token, search_from) {
            let replace = match best {
                None => true,
                Some((bp, bl)) => p < bp || (p == bp && token.len() > bl),
            };
            if replace {
                best = Some((p, token.len()));
            }
        }
    }
    match best {
        Some((p, l)) => {
            proof {
                assert(is_next_start(chunk@, from, ts, p as int, l as int));
                lemma_next_start_unique(chunk@, from, ts, p as int, l as int);
            }
            Some((p, l))
        },
        None => {
            proof {
                if exists|p: int, l: int| is_next_start(chunk@, from, ts, p, l) {
                    let (p, l) = choose|p: int, l: int| is_next_start(chunk@, from, ts, p, l);
                    let j = choose|j: int|
                        0 <= j < ts.len() && start_candidate(chunk@, from, ts[j], p) && ts[j].len()
                            == l;
                    assert(start_candidate(chunk@, from, ts[j], p));
                }
            }
            None
        },
    }
}

/// Where the wrapper whose body starts at `body_pos` ends, given the length
/// (in `char`s) of the JSON value that the JSON reader took from the body.
pub fn internlm_wrapper_end_given(
    chunk: &Vec<char>,
    body_pos: usize,
    end_token: &Vec<char>,
    json_len: Option<usize>,
) -> (r: Option<usize>)
    requires
        body_pos <= chunk@.len(),
        json_len matches Some(n) ==> skip_ws(chunk@, body_pos as int) + n <= chunk@.len(),
    ensures
        r matches Some(e) ==> wrapper_end_given(
            chunk@,
            body_pos as int,
            end_token@,
            opt_int(json_len),
        ) == Some(e as int),
        r is None ==> wrapper_end_given(chunk@, body_pos as int, end_token@, opt_int(json_len)) is None,
{
    let json_pos = skip_whitespace(chunk, body_pos);
    if json_pos < chunk.len() && (chunk[json_pos] == '{' || chunk[json_pos] == '[') {
        match json_len {
            None => None,
            Some(n) => {
                let after = skip_whitespace(chunk, json_pos + n);
                if matches_at(chunk, end_token, after) {
                    Some(after + end_token.len())
                } else {
                    None
                }
            },
        }
    } else {
        match find_at_or_after(chunk, end_token, body_pos) {
            None => None,
            Some(p) => {
                proof {
                    lemma_find_from(chunk@, end_token@, body_pos as int);
                }
                Some(p + end_token.len())
            },
        }
    }
}

/// `Option<usize>` as `Option<int>`.
pub open spec fn opt_int(o: Option<usize>) -> Option<int> {
    match o {
        Some(n) => Some(n as int),
        None => None,
    }
}

/// Where the wrapper whose body starts at `body_pos` ends.
pub fn find_internlm_wrapper_end(chunk: &Vec<char>, body_pos: usize, end_token: &Vec<char>) -> (r:
    Option<usize>)
    requires
        body_pos <= chunk@.len(),
    ensures
        opt_int(r) == wrapper_end(chunk@, body_pos as int, end_token@),
{
    let json_pos = skip_whitespace(chunk, body_pos);
    let mut json_len: Option<usize> = None;
    if json_pos < chunk.len() && (chunk[json_pos] == '{' || chunk[json_pos] == '[') {
        let body = vstd::slice::slice_subrange(chunk.as_slice(), json_pos, chunk.len());
        let raw = first_json_value(body);
        match raw {
            Some(t) => {
                json_len = Some(t.as_str().unicode_len());
            },
            None => {},
        }
        assert(opt_int(json_len) == body_json_len(chunk@, body_pos as int));
    }
    let r = internlm_wrapper_end_given(chunk, body_pos, end_token, json_len);
    proof {
        lemma_skip_ws(chunk@, body_pos as int);
    }
    r
}

pub fn find_internlm_tool_call_end_position(chunk: &Vec<char>, config: &JsonParserConfig) -> (r:
    Option<usize>)
    ensures
        opt_int(r) == internlm_end(chunk@, config.start_tokens(), config.end_tokens()),
        r matches Some(x) ==> x <= chunk@.len(),
{
    let end_token = match first_nonempty_token(&config.tool_call_end_tokens) {
        None => return None,
        Some(e) => e,
    };
    let start_tokens = nonempty_tokens_chars(&config.tool_call_start_tokens);
    let ghost ts = char_vecs_view(start_tokens@);
    proof {
        lemma_nonempty_tokens(config.start_tokens());
    }
    let ghost target = internlm_scan(chunk@, ts, end_token@, 0, None);
    let n = chunk.len();
    let mut cursor: usize = 0;
    let mut last: Option<usize> = None;
    loop
        invariant
            n == chunk@.len(),
            target == internlm_end(chunk@, config.start_tokens(), config.end_tokens()),
            cursor <= chunk@.len(),
            end_token@.len() > 0,
            ts == char_vecs_view(start_tokens@),
            all_nonempty(ts),
            last matches Some(x) ==> x <= chunk@.len(),
            internlm_scan(chunk@, ts, end_token@, cursor as int, opt_int(last)) == target,
        decreases chunk@.len() - cursor,
    {
        let (start_pos, token_len) = match find_next_internlm_start(chunk, cursor, &start_tokens) {
            None => {
                assert(internlm_scan(chunk@, ts, end_token@, cursor as int, opt_int(last)) == opt_int(
                    last,
                ));
                return last;
            },
            Some(found) => found,
        };
        proof {
            lemma_next_start(chunk@, cursor as int, ts);
        }
        if last.is_some() && !all_whitespace(chunk, cursor, start_pos) {
            return last;
        }
        let body_pos = start_pos + token_len;
        proof {
            lemma_wrapper_end_given(
                chunk@,
                body_pos as int,
                end_token@,
                body_json_len(chunk@, body_pos as int),
            );
        }
        match find_internlm_wrapper_end(chunk, body_pos, &end_token) {
            None => {
                if last.is_some() {
                    return last;
                }
                cursor = body_pos;
            },
            Some(end_pos) => {
                last = Some(end_pos);
                cursor = end_pos;
            },
        }
    }
}

// ----------------------------------------------------------------------------
// Dispatch on the parser name
// ----------------------------------------------------------------------------

/// The `char` index where the tool-call region of `c` ends, for the named
/// parser.
pub open spec fn end_position_chars(
    c: Seq<char>,
    parser: Seq<char>,
    starts: Seq<Seq<char>>,
    ends: Seq<Seq<char>>,
) -> int {
    if parser == "hermes"@ || parser == "nemotron_deci"@ {
        hermes_end(c, starts, ends)
    } else if parser == "mistral"@ || parser == "phi4"@ {
        bracket_end(c)
    } else if parser == "internlm"@ {
        match internlm_end(c, starts, ends) {
            Some(e) => e,
            None => c.len() as int,
        }
    } else {
        c.len() as int
    }
}

/// The parser families whose regions end at an end token.
pub open spec fn is_hermes_family(parser: Seq<char>) -> bool {
    parser == "hermes"@ || parser == "nemotron_deci"@
}

/// The byte position in `chunk` where the tool-call region that starts the
/// chunk ends, for the parser named `parser`:
/// - `hermes`, `nemotron_deci`: just past the first end token, extended over
///   every following `<start>..<end>` block that is separated from it only by
///   whitespace (parallel calls are one region); the whole chunk when the end
///   token is missing or not configured;
/// - `mistral`, `phi4`: just past the last `]`, else the whole chunk;
/// - `internlm`: just past the last complete wrapper of a run of consecutive
///   wrappers, else the whole chunk;
/// - any other parser: the whole chunk.
pub fn find_tool_call_end_position_json(chunk: &str, parser: &str, config: &JsonParserConfig) -> (r:
    usize)
    requires
        is_hermes_family(parser@) ==> hermes_terminates(config.start_tokens(), config.end_tokens()),
    ensures
        r == byte_len(
            chunk@.take(
                end_position_chars(chunk@, parser@, config.start_tokens(), config.end_tokens()),
            ),
        ),
        r <= byte_len(chunk@),
{
    let total = str_byte_len(chunk);
    let c = str_chars(chunk);
    proof {
        assert(c@.take(c@.len() as int) =~= c@);
    }
    let k = if str_equal(parser, "hermes") || str_equal(parser, "nemotron_deci") {
        hermes_end_position(&c, config)
    } else if str_equal(parser, "mistral") || str_equal(parser, "phi4") {
        bracket_end_position(&c)
    } else if str_equal(parser, "internlm") {
        match find_internlm_tool_call_end_position(&c, config) {
            Some(e) => e,
            None => c.len(),
        }
    } else {
        c.len()
    };
    proof {
        lemma_byte_len_take_mono(c@, k as int, c@.len() as int);
    }
    byte_offset(&c, k)
}

} // verus!
