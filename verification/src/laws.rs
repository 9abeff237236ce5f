//! Properties that hold of every input.
use vstd::prelude::*;

use crate::basic::{
    all_calls, basic_parse, call_of, closed_json, first_json_open, json_scan, payload_calls,
    scan_step, CallView,
};
use crate::deepseek::section_calls;
use crate::detect::detects;
use crate::json_value::{json_array_elements, json_object_members};
use crate::config::{JsonParserConfig, JsonParserType};
use crate::detect::{basic_detects, contains_some_token};
use crate::end_position::{
    all_nonempty, lemma_nonempty_tokens, nonempty_tokens,
    bracket_end, end_position_chars, first_nonempty_from, hermes_end, hermes_extend,
    hermes_terminates, internlm_end, internlm_scan, is_hermes_family, last_index_before,
    lemma_internlm_scan, lemma_next_start, lemma_wrapper_end_given, next_start, body_json_len,
    wrapper_end, wrapper_end_given,
};
use crate::parse::parse_outcome;
use crate::text::{
    all_ws, find_from, lemma_find_from, lemma_rskip_ws, lemma_skip_ws, lemma_trim, occurs_at,
    rskip_ws, skip_ws, trimmed, trim_bounds,
};

verus! {

// ----------------------------------------------------------------------------
// Where a tool-call region ends
// ----------------------------------------------------------------------------

proof fn lemma_hermes_extend_after_end(c: Seq<char>, s: Seq<char>, e: Seq<char>, cursor: int)
    requires
        e.len() <= cursor <= c.len(),
        occurs_at(c, e, cursor - e.len()),
    ensures
        ({
            let k = hermes_extend(c, s, e, cursor);
            &&& cursor <= k <= c.len()
            &&& occurs_at(c, e, k - e.len())
            &&& !(s.len() == 0 && e.len() == 0) ==> !(occurs_at(c, s, skip_ws(c, k)) && find_from(
                c,
                e,
                skip_ws(c, k) + s.len(),
            ) is Some)
        }),
    decreases c.len() - cursor,
{
    if !(s.len() == 0 && e.len() == 0) {
        let t = skip_ws(c, cursor);
        lemma_skip_ws(c, cursor);
        if occurs_at(c, s, t) {
            lemma_find_from(c, e, t + s.len());
            if let Some(p) = find_from(c, e, t + s.len()) {
                lemma_hermes_extend_after_end(c, s, e, p + e.len());
            }
        }
    }
}

/// The region of a chunk always ends inside the chunk, whatever the parser
/// (for the hermes family, given that its merging terminates).
pub proof fn law_end_position_within_chunk(
    c: Seq<char>,
    parser: Seq<char>,
    starts: Seq<Seq<char>>,
    ends: Seq<Seq<char>>,
)
    requires
        is_hermes_family(parser) ==> hermes_terminates(starts, ends),
    ensures
        0 <= end_position_chars(c, parser, starts, ends) <= c.len(),
{
    if is_hermes_family(parser) {
        if ends.len() > 0 {
            lemma_find_from(c, ends[0], 0);
            if let Some(p) = find_from(c, ends[0], 0) {
                if starts.len() > 0 {
                    lemma_hermes_extend_after_end(c, starts[0], ends[0], p + ends[0].len());
                }
            }
        }
    } else if parser == "mistral"@ || parser == "phi4"@ {
        lemma_last_index_before(c, ']', c.len() as int);
    } else if parser == "internlm"@ {
        if let Some(e) = first_nonempty_from(ends, 0) {
            lemma_internlm_scan(c, nonempty_tokens(starts), e, 0, None);
        }
    }
}

/// Hermes family: when the end token occurs in the chunk, the region ends
/// right after an occurrence of the end token, no earlier than after its
/// first occurrence.
pub proof fn law_hermes_region_ends_with_end_token(
    c: Seq<char>,
    starts: Seq<Seq<char>>,
    ends: Seq<Seq<char>>,
)
    requires
        hermes_terminates(starts, ends),
        ends.len() > 0,
        find_from(c, ends[0], 0) is Some,
    ensures
        ({
            let k = hermes_end(c, starts, ends);
            &&& find_from(c, ends[0], 0)->0 + ends[0].len() <= k <= c.len()
            &&& occurs_at(c, ends[0], k - ends[0].len())
        }),
{
    lemma_find_from(c, ends[0], 0);
    let p = find_from(c, ends[0], 0)->0;
    if starts.len() > 0 {
        lemma_hermes_extend_after_end(c, starts[0], ends[0], p + ends[0].len());
    }
}

/// Hermes family: parallel calls form one region. After the region, the
/// chunk does not go on (after whitespace) with another complete
/// `start .. end` block.
pub proof fn law_hermes_region_takes_in_following_blocks(
    c: Seq<char>,
    starts: Seq<Seq<char>>,
    ends: Seq<Seq<char>>,
)
    requires
        hermes_terminates(starts, ends),
        starts.len() > 0,
        ends.len() > 0,
        find_from(c, ends[0], 0) is Some,
    ensures
        ({
            let k = hermes_end(c, starts, ends);
            let t = skip_ws(c, k);
            !(occurs_at(c, starts[0], t) && find_from(c, ends[0], t + starts[0].len()) is Some)
        }),
{
    lemma_find_from(c, ends[0], 0);
    let p = find_from(c, ends[0], 0)->0;
    lemma_hermes_extend_after_end(c, starts[0], ends[0], p + ends[0].len());
}

/// From `a` to `b` the chunk holds only whole `s .. e` blocks, one after the
/// other with only whitespace before each: each block's start token comes,
/// after whitespace, right where the previous block's end token ends, and
/// its end token is the first one after its start token.
pub open spec fn block_run(c: Seq<char>, s: Seq<char>, e: Seq<char>, a: int, b: int) -> bool
    decreases b - a,
{
    if a >= b || a < 0 || (s.len() == 0 && e.len() == 0) {
        a == b
    } else {
        let t = skip_ws(c, a);
        occurs_at(c, s, t) && match find_from(c, e, t + s.len()) {
            None => false,
            Some(q) => {
                proof {
                    lemma_skip_ws_bound(c, a);
                    lemma_find_from(c, e, t + s.len());
                }
                q + e.len() <= b && block_run(c, s, e, q + e.len(), b)
            },
        }
    }
}

pub proof fn lemma_skip_ws_bound(c: Seq<char>, a: int)
    ensures
        0 <= a ==> a <= skip_ws(c, a),
    decreases c.len() - a,
{
    if 0 <= a < c.len() && crate::text::is_ws(c[a]) {
        lemma_skip_ws_bound(c, a + 1);
    }
}

proof fn lemma_hermes_extend_block_run(c: Seq<char>, s: Seq<char>, e: Seq<char>, cursor: int)
    requires
        0 <= cursor <= c.len(),
        !(s.len() == 0 && e.len() == 0),
    ensures
        block_run(c, s, e, cursor, hermes_extend(c, s, e, cursor)),
    decreases c.len() - cursor,
{
    let t = skip_ws(c, cursor);
    lemma_skip_ws(c, cursor);
    crate::end_position::lemma_hermes_extend(c, s, e, cursor);
    if occurs_at(c, s, t) {
        lemma_find_from(c, e, t + s.len());
        if let Some(q) = find_from(c, e, t + s.len()) {
            lemma_hermes_extend_block_run(c, s, e, q + e.len());
            crate::end_position::lemma_hermes_extend(c, s, e, q + e.len());
        }
    }
}

/// `hermes` and `nemotron_deci` alike, when the first end token `e` occurs
/// in the chunk (first at `p0`) and there is a start token `s`: the region
/// ends right after an occurrence of `e`, no earlier than just past `p0`;
/// between `p0 + |e|` and the region's end the chunk holds only whole
/// `s .. e` blocks, each starting after only whitespace right where the
/// previous one ends; no such block follows the region; and when the text
/// after the first end token does not start (after whitespace) with `s`,
/// the region ends at the first end token.
pub proof fn law_hermes_family_region(
    c: Seq<char>,
    parser: Seq<char>,
    starts: Seq<Seq<char>>,
    ends: Seq<Seq<char>>,
    p0: int,
)
    requires
        parser == "hermes"@ || parser == "nemotron_deci"@,
        starts.len() > 0,
        ends.len() > 0,
        !(starts[0].len() == 0 && ends[0].len() == 0),
        occurs_at(c, ends[0], p0),
        forall|q: int| 0 <= q < p0 ==> !occurs_at(c, ends[0], q),
    ensures
        ({
            let s = starts[0];
            let e = ends[0];
            let k = end_position_chars(c, parser, starts, ends);
            &&& p0 + e.len() <= k <= c.len()
            &&& occurs_at(c, e, k - e.len())
            &&& block_run(c, s, e, p0 + e.len(), k)
            &&& !(occurs_at(c, s, skip_ws(c, k)) && find_from(c, e, skip_ws(c, k) + s.len()) is Some)
            &&& !occurs_at(c, s, skip_ws(c, p0 + e.len())) ==> k == p0 + e.len()
        }),
{
    let s = starts[0];
    let e = ends[0];
    lemma_find_from(c, e, 0);
    lemma_first_occurrence(c, e, p0);
    lemma_hermes_extend_after_end(c, s, e, p0 + e.len());
    lemma_hermes_extend_block_run(c, s, e, p0 + e.len());
}

proof fn lemma_first_occurrence(c: Seq<char>, e: Seq<char>, p0: int)
    requires
        occurs_at(c, e, p0),
        forall|q: int| 0 <= q < p0 ==> !occurs_at(c, e, q),
    ensures
        find_from(c, e, 0) == Some(p0),
{
    lemma_find_from(c, e, 0);
    if let Some(p) = find_from(c, e, 0) {
        assert(p <= p0);
    }
}

/// `hermes` and `nemotron_deci` alike: with a first end token but no start
/// token, the region ends just past the end token's first occurrence; when
/// no end token is configured or it does not occur, the region is the whole
/// chunk.
pub proof fn law_hermes_family_region_edges(
    c: Seq<char>,
    parser: Seq<char>,
    starts: Seq<Seq<char>>,
    ends: Seq<Seq<char>>,
)
    requires
        parser == "hermes"@ || parser == "nemotron_deci"@,
    ensures
        ends.len() == 0 ==> end_position_chars(c, parser, starts, ends) == c.len(),
        ends.len() > 0 && (forall|q: int| 0 <= q ==> !occurs_at(c, ends[0], q))
            ==> end_position_chars(c, parser, starts, ends) == c.len(),
        ends.len() > 0 && starts.len() == 0 ==> forall|p0: int|
            occurs_at(c, ends[0], p0) && (forall|q: int| 0 <= q < p0 ==> !occurs_at(c, ends[0], q))
                ==> end_position_chars(c, parser, starts, ends) == p0 + ends[0].len(),
{
    if ends.len() > 0 {
        lemma_find_from(c, ends[0], 0);
        assert forall|p0: int|
            occurs_at(c, ends[0], p0) && (forall|q: int| 0 <= q < p0 ==> !occurs_at(c, ends[0], q))
                implies find_from(c, ends[0], 0) == Some(p0) by {
            lemma_first_occurrence(c, ends[0], p0);
        }
    }
}

proof fn lemma_last_index_before(c: Seq<char>, ch: char, i: int)
    requires
        0 <= i <= c.len(),
    ensures
        last_index_before(c, ch, i) matches Some(k) ==> 0 <= k < i && c[k] == ch && forall|j: int|
            k < j < i ==> c[j] != ch,
        last_index_before(c, ch, i) is None ==> forall|j: int| 0 <= j < i ==> c[j] != ch,
    decreases i,
{
    if i > 0 && c[i - 1] != ch {
        lemma_last_index_before(c, ch, i - 1);
    }
}

/// `mistral`, `phi4`: the region runs to just past the last `]`, and no
/// `]` follows it; without a `]` it is the whole chunk.
pub proof fn law_bracket_region_ends_at_last_bracket(c: Seq<char>)
    ensures
        ({
            let k = bracket_end(c);
            &&& 0 <= k <= c.len()
            &&& forall|j: int| k <= j < c.len() ==> c[j] != ']'
            &&& k < c.len() ==> k > 0 && c[k - 1] == ']'
            &&& (exists|j: int| 0 <= j < c.len() && c[j] == ']') ==> k > 0 && c[k - 1] == ']'
        }),
{
    lemma_last_index_before(c, ']', c.len() as int);
}

proof fn lemma_internlm_scan_ends_with_end(
    c: Seq<char>,
    ts: Seq<Seq<char>>,
    e: Seq<char>,
    cursor: int,
    last: Option<int>,
)
    requires
        0 <= cursor <= c.len(),
        last matches Some(x) ==> e.len() <= x <= c.len() && occurs_at(c, e, x - e.len()),
    ensures
        internlm_scan(c, ts, e, cursor, last) matches Some(x) ==> e.len() <= x <= c.len()
            && occurs_at(c, e, x - e.len()),
    decreases c.len() - cursor,
{
    if e.len() > 0 && all_nonempty(ts) {
        lemma_next_start(c, cursor, ts);
        if let Some((p, l)) = next_start(c, cursor, ts) {
            let body = p + l;
            lemma_wrapper_end_given(c, body, e, body_json_len(c, body));
            lemma_wrapper_end_occurs(c, body, e, body_json_len(c, body));
            match wrapper_end(c, body, e) {
                None => {
                    if last is None {
                        lemma_internlm_scan_ends_with_end(c, ts, e, body, last);
                    }
                },
                Some(x) => {
                    lemma_internlm_scan_ends_with_end(c, ts, e, x, Some(x));
                },
            }
        }
    }
}

proof fn lemma_wrapper_end_occurs(c: Seq<char>, body: int, e: Seq<char>, json_len: Option<int>)
    requires
        0 <= body <= c.len(),
    ensures
        wrapper_end_given(c, body, e, json_len) matches Some(x) ==> occurs_at(c, e, x - e.len()),
{
    lemma_find_from(c, e, body);
}

/// `internlm`: a region that the scan finds ends right after an occurrence
/// of the (first non-empty) end token.
pub proof fn law_internlm_region_ends_with_end_token(
    c: Seq<char>,
    starts: Seq<Seq<char>>,
    ends: Seq<Seq<char>>,
)
    ensures
        internlm_end(c, starts, ends) matches Some(x) ==> ({
            let e = first_nonempty_from(ends, 0)->0;
            &&& e.len() <= x <= c.len()
            &&& occurs_at(c, e, x - e.len())
        }),
{
    if let Some(e) = first_nonempty_from(ends, 0) {
        lemma_internlm_scan_ends_with_end(c, nonempty_tokens(starts), e, 0, None);
    }
}

/// `internlm`, before any complete wrapper: with no next start there is no
/// region; a next start whose wrapper is incomplete is skipped (the scan goes
/// on just past its start token); a complete wrapper ends the first phase
/// with the region ending where that wrapper ends.
pub proof fn law_internlm_scan_before_first_wrapper(
    c: Seq<char>,
    ts: Seq<Seq<char>>,
    e: Seq<char>,
    cursor: int,
)
    requires
        e.len() > 0,
        all_nonempty(ts),
        0 <= cursor <= c.len(),
    ensures
        internlm_scan(c, ts, e, cursor, None) == match next_start(c, cursor, ts) {
            None => None,
            Some((s, l)) => match wrapper_end(c, s + l, e) {
                None => internlm_scan(c, ts, e, s + l, None),
                Some(q) => internlm_scan(c, ts, e, q, Some(q)),
            },
        },
{
}

/// `internlm`, after a complete wrapper ending at `last`: the region takes
/// in the next wrapper only when it starts right after `last` (up to
/// whitespace) and is complete; otherwise the region ends at `last`.
pub proof fn law_internlm_scan_after_wrapper(
    c: Seq<char>,
    ts: Seq<Seq<char>>,
    e: Seq<char>,
    last: int,
)
    requires
        e.len() > 0,
        all_nonempty(ts),
        0 <= last <= c.len(),
    ensures
        internlm_scan(c, ts, e, last, Some(last)) == match next_start(c, last, ts) {
            None => Some(last),
            Some((s, l)) => if all_ws(c, last, s) && wrapper_end(c, s + l, e) is Some {
                internlm_scan(c, ts, e, wrapper_end(c, s + l, e)->0, wrapper_end(c, s + l, e))
            } else {
                Some(last)
            },
        },
{
}

/// `internlm`: the region is the scan over the non-empty start tokens with
/// the first non-empty end token, from the start of the chunk with no
/// complete wrapper yet; there is no region without a non-empty end token.
pub proof fn law_internlm_end_is_scan(c: Seq<char>, starts: Seq<Seq<char>>, ends: Seq<Seq<char>>)
    ensures
        internlm_end(c, starts, ends) == match first_nonempty_from(ends, 0) {
            None => None,
            Some(e) => internlm_scan(c, nonempty_tokens(starts), e, 0, None),
        },
        all_nonempty(nonempty_tokens(starts)),
{
    lemma_nonempty_tokens(starts);
}

// ----------------------------------------------------------------------------
// Whole messages
// ----------------------------------------------------------------------------

proof fn lemma_blank_trims_to_empty(m: Seq<char>)
    requires
        all_ws(m, 0, m.len() as int),
    ensures
        trimmed(m).len() == 0,
{
    lemma_trim(m);
    let (a, b) = trim_bounds(m);
    if a < b {
        assert(!crate::text::is_ws(m[a]));
    }
}

/// An empty or whitespace-only message holds no tool calls, and its normal
/// text is empty, whichever parser reads it (given a configuration that
/// suits the parser).
pub proof fn law_blank_message_has_no_calls(m: Seq<char>, config: JsonParserConfig)
    requires
        all_ws(m, 0, m.len() as int),
        parse_outcome(m, config) is Some,
    ensures
        parse_outcome(m, config) == Some((Seq::<CallView>::empty(), Seq::<char>::empty())),
{
    lemma_blank_trims_to_empty(m);
    assert(trimmed(m) =~= Seq::<char>::empty());
}

proof fn lemma_json_scan_push(s: Seq<char>, ch: char)
    ensures
        json_scan(s.push(ch)) == scan_step(json_scan(s), ch),
{
    assert(s.push(ch).drop_last() =~= s);
}

proof fn lemma_close_brackets(s: Seq<char>, open: Seq<char>)
    requires
        json_scan(s) == (false, false, open),
    ensures
        json_scan(s + open.reverse()) == (false, false, Seq::<char>::empty()),
    decreases open.len(),
{
    if open.len() == 0 {
        assert(s + open.reverse() =~= s);
        assert(open =~= Seq::<char>::empty());
    } else {
        let ch = open.last();
        lemma_json_scan_push(s, ch);
        lemma_open_holds_closers(s);
        assert(json_scan(s.push(ch)) == (false, false, open.drop_last()));
        lemma_close_brackets(s.push(ch), open.drop_last());
        assert(s.push(ch) + open.drop_last().reverse() =~= s + open.reverse());
    }
}

/// The open-bracket stack holds only closers.
proof fn lemma_open_holds_closers(s: Seq<char>)
    ensures
        forall|i: int|
            0 <= i < json_scan(s).2.len() ==> json_scan(s).2[i] == '}' || json_scan(s).2[i]
                == ']',
    decreases s.len(),
{
    if s.len() > 0 {
        lemma_open_holds_closers(s.drop_last());
        let prev = json_scan(s.drop_last());
        let cur = json_scan(s);
        assert(cur == scan_step(prev, s.last()));
        assert forall|i: int| 0 <= i < cur.2.len() implies cur.2[i] == '}' || cur.2[i] == ']' by {
            if i < prev.2.len() {
                assert(cur.2 == prev.2 || cur.2 == prev.2.push('}') || cur.2 == prev.2.push(']')
                    || cur.2 == prev.2.drop_last());
                assert(cur.2[i] == prev.2[i]);
            }
        }
    }
}

/// Closing a truncated payload balances it: after the closing characters
/// the scanner is outside any string and every bracket is closed.
pub proof fn law_closing_balances_json(s: Seq<char>)
    ensures
        json_scan(closed_json(s)) == (false, false, Seq::<char>::empty()),
{
    let (in_string, escaped, open) = json_scan(s);
    if in_string {
        if escaped {
            assert(s.len() > 0);
            let prev = s.drop_last();
            let st = json_scan(prev);
            // the last character opened an escape inside a string
            assert(st.0 && !st.1 && s.last() == '\\');
            assert(st.2 == open);
            lemma_json_scan_push(prev, '"');
            lemma_close_brackets(prev.push('"'), open);
        } else {
            lemma_json_scan_push(s, '"');
            lemma_close_brackets(s.push('"'), open);
        }
    } else {
        assert(!escaped) by {
            lemma_not_escaped_outside_string(s);
        }
        lemma_close_brackets(s, open);
    }
}

proof fn lemma_not_escaped_outside_string(s: Seq<char>)
    ensures
        json_scan(s).1 ==> json_scan(s).0,
    decreases s.len(),
{
    if s.len() > 0 {
        lemma_not_escaped_outside_string(s.drop_last());
    }
}

/// Closing leaves a payload that is already balanced unchanged.
pub proof fn law_balanced_json_is_unchanged(s: Seq<char>)
    requires
        json_scan(s) == (false, false, Seq::<char>::empty()),
    ensures
        closed_json(s) == s,
{
    assert(closed_json(s) =~= s);
}

// ----------------------------------------------------------------------------
// Detection
// ----------------------------------------------------------------------------

/// The basic detector fires on every chunk whose trimmed text holds a
/// (non-empty) start token.
pub proof fn law_basic_detects_start_token(c: Seq<char>, starts: Seq<Seq<char>>)
    requires
        contains_some_token(trimmed(c), starts),
    ensures
        basic_detects(c, starts),
{
    let i = choose|i: int|
        0 <= i < starts.len() && starts[i].len() > 0 && #[trigger] crate::detect::contains(
            trimmed(c),
            starts[i],
        );
    let j = choose|j: int| occurs_at(trimmed(c), starts[i], j);
    assert(trimmed(c).len() > 0);
}

proof fn lemma_first_json_open(t: Seq<char>, i: int, k: int)
    requires
        0 <= i <= k < t.len(),
        t[k] == '{' || t[k] == '[',
        forall|j: int| i <= j < k ==> t[j] != '{' && t[j] != '[',
    ensures
        first_json_open(t, i) == Some(k),
    decreases k - i,
{
    if i < k {
        lemma_first_json_open(t, i + 1, k);
    }
}

/// Trimming a trimmed text changes nothing.
pub proof fn lemma_trimmed_idempotent(m: Seq<char>)
    ensures
        trimmed(trimmed(m)) == trimmed(m),
{
    lemma_trim(m);
    let t = trimmed(m);
    let (a, b) = trim_bounds(m);
    if t.len() == 0 {
        assert(trimmed(t) =~= t);
    } else {
        assert(t[0] == m[a]);
        assert(t[t.len() - 1] == m[b - 1]);
        assert(skip_ws(t, 0) == 0);
        assert(rskip_ws(t, t.len() as int) == t.len());
        assert(trimmed(t) =~= t);
    }
}

proof fn lemma_all_calls_pointwise(
    items: Seq<Seq<char>>,
    cs: Seq<CallView>,
    nk: Seq<Seq<char>>,
    ak: Seq<Seq<char>>,
)
    requires
        items.len() == cs.len(),
        forall|i: int| 0 <= i < items.len() ==> call_of(#[trigger] items[i], nk, ak) == Some(cs[i]),
    ensures
        all_calls(items, nk, ak) == Some(cs),
    decreases items.len(),
{
    if items.len() > 0 {
        let n = items.len() - 1;
        assert forall|i: int| 0 <= i < items.drop_last().len() implies call_of(
            #[trigger] items.drop_last()[i],
            nk,
            ak,
        ) == Some(cs.drop_last()[i]) by {
            assert(items.drop_last()[i] == items[i]);
        }
        lemma_all_calls_pointwise(items.drop_last(), cs.drop_last(), nk, ak);
        assert(call_of(items[n], nk, ak) == Some(cs[n]));
        assert(cs.drop_last().push(cs[n]) =~= cs);
    }
}

/// Basic parser, message without a start token: the payload is the JSON
/// from the first `{` or `[` of the (trimmed) message on, and the normal
/// text is what comes before it. Whenever that payload holds calls, those
/// are the calls, in order, and the text before is the normal text.
pub proof fn law_bare_json_starts_at_first_bracket(m: Seq<char>, config: JsonParserConfig, k: int)
    requires
        !contains_some_token(trimmed(m), config.start_tokens()),
        0 <= k < trimmed(m).len(),
        trimmed(m)[k] == '{' || trimmed(m)[k] == '[',
        forall|j: int| 0 <= j < k ==> trimmed(m)[j] != '{' && trimmed(m)[j] != '[',
        payload_calls(
            trimmed(trimmed(m).subrange(k, trimmed(m).len() as int)),
            config.name_keys(),
            config.args_keys(),
        ) is Some,
    ensures
        basic_parse(m, config) == (
            payload_calls(
                trimmed(trimmed(m).subrange(k, trimmed(m).len() as int)),
                config.name_keys(),
                config.args_keys(),
            )->0,
            trimmed(trimmed(m).take(k)),
        ),
{
    lemma_first_json_open(trimmed(m), 0, k);
}

/// Basic parser, message without a start token whose trimmed text is a JSON
/// array (not an object) of call objects: the result is exactly those
/// calls, in order, with empty normal text.
pub proof fn law_bare_json_array_of_calls(
    m: Seq<char>,
    config: JsonParserConfig,
    items: Seq<Seq<char>>,
    cs: Seq<CallView>,
)
    requires
        !contains_some_token(trimmed(m), config.start_tokens()),
        trimmed(m).len() > 0,
        trimmed(m)[0] == '[',
        json_object_members(trimmed(m)) is None,
        json_array_elements(trimmed(m)) == Some(items),
        items.len() == cs.len(),
        forall|i: int|
            0 <= i < items.len() ==> call_of(#[trigger] items[i], config.name_keys(), config.args_keys())
                == Some(cs[i]),
    ensures
        basic_parse(m, config) == (cs, Seq::<char>::empty()),
{
    let t = trimmed(m);
    lemma_trimmed_idempotent(m);
    assert(t.subrange(0, t.len() as int) =~= t);
    lemma_all_calls_pointwise(items, cs, config.name_keys(), config.args_keys());
    assert(payload_calls(t, config.name_keys(), config.args_keys()) == Some(cs));
    law_bare_json_starts_at_first_bracket(m, config, 0);
    assert(t.take(0) =~= Seq::<char>::empty());
    assert(trimmed(Seq::<char>::empty()) =~= Seq::<char>::empty());
}

/// Basic parser: a chunk whose trimmed text holds `{` anywhere is detected
/// as a tool-call start.
pub proof fn law_basic_detects_open_brace(c: Seq<char>, config: JsonParserConfig)
    requires
        config.parser_type == JsonParserType::Basic,
        exists|i: int| 0 <= i < trimmed(c).len() && trimmed(c)[i] == '{',
    ensures
        detects(c, config),
{
}

/// Basic parser: a chunk whose trimmed text holds `[` anywhere is detected
/// as a tool-call start.
pub proof fn law_basic_detects_open_bracket(c: Seq<char>, config: JsonParserConfig)
    requires
        config.parser_type == JsonParserType::Basic,
        exists|i: int| 0 <= i < trimmed(c).len() && trimmed(c)[i] == '[',
    ensures
        detects(c, config),
{
}

/// DeepSeek section: the calls found from any position are those found
/// from the next call-begin token on; text (whitespace or other) before
/// that token contributes nothing and hides no call.
pub proof fn law_section_calls_from_next_call_begin(
    r: Seq<char>,
    cb: Seq<char>,
    ce: Seq<char>,
    sep: Seq<char>,
    v3: bool,
    cursor: int,
)
    requires
        0 <= cursor <= r.len(),
        cb.len() > 0,
    ensures
        section_calls(r, cb, ce, sep, v3, cursor) == match find_from(r, cb, cursor) {
            None => Seq::<CallView>::empty(),
            Some(p) => section_calls(r, cb, ce, sep, v3, p),
        },
{
    lemma_find_from(r, cb, cursor);
    if let Some(p) = find_from(r, cb, cursor) {
        assert(find_from(r, cb, p) == Some(p));
    }
}

} // verus!
