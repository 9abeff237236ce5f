//! Character-level text model shared by the scanners.
//!
//! Every scanner works on the `char` sequence of its input (the view `s@`
//! of a `&str`), and positions are `char` indices. Where a caller needs a
//! byte offset into the input `&str`, [`byte_len`] gives the length of
//! the UTF-8 encoding of a prefix.
use vstd::prelude::*;
use vstd::slice::{slice_subrange, slice_to_vec};
use vstd::utf8::*;

verus! {

broadcast use vstd::string::group_string_axioms;

/// The Unicode `White_Space` property, which `char::is_whitespace` and
/// `str::trim_start` use.
pub open spec fn is_ws(c: char) -> bool {
    let u = c as u32;
    ||| 0x09 <= u <= 0x0D
    ||| u == 0x20
    ||| u == 0x85
    ||| u == 0xA0
    ||| u == 0x1680
    ||| 0x2000 <= u <= 0x200A
    ||| u == 0x2028
    ||| u == 0x2029
    ||| u == 0x202F
    ||| u == 0x205F
    ||| u == 0x3000
}

/// Whether `c` is whitespace, as `char::is_whitespace` decides it.
pub fn char_is_whitespace(c: char) -> (r: bool)
    ensures
        r == is_ws(c),
{
    let u = c as u32;
    (0x09 <= u && u <= 0x0D) || u == 0x20 || u == 0x85 || u == 0xA0 || u == 0x1680 || (0x2000
        <= u && u <= 0x200A) || u == 0x2028 || u == 0x2029 || u == 0x202F || u == 0x205F || u
        == 0x3000
}

/// The first index at or after `i` that does not hold whitespace (or the
/// length of `s` when there is none).
pub open spec fn skip_ws(s: Seq<char>, i: int) -> int
    decreases s.len() - i,
{
    if 0 <= i < s.len() && is_ws(s[i]) {
        skip_ws(s, i + 1)
    } else {
        i
    }
}

/// `s[from..to]` holds only whitespace.
pub open spec fn all_ws(s: Seq<char>, from: int, to: int) -> bool {
    forall|i: int| from <= i < to ==> is_ws(#[trigger] s[i])
}

pub proof fn lemma_skip_ws(s: Seq<char>, i: int)
    requires
        0 <= i <= s.len(),
    ensures
        i <= skip_ws(s, i) <= s.len(),
        all_ws(s, i, skip_ws(s, i)),
        skip_ws(s, i) < s.len() ==> !is_ws(s[skip_ws(s, i)]),
    decreases s.len() - i,
{
    if i < s.len() && is_ws(s[i]) {
        lemma_skip_ws(s, i + 1);
    }
}

/// The index of the first whitespace-free position at or after `i`.
pub fn skip_whitespace(s: &Vec<char>, i: usize) -> (r: usize)
    requires
        i <= s@.len(),
    ensures
        r == skip_ws(s@, i as int),
        i <= r <= s@.len(),
{
    let mut j = i;
    while j < s.len() && char_is_whitespace(s[j])
        invariant
            i <= j <= s@.len(),
            skip_ws(s@, j as int) == skip_ws(s@, i as int),
        decreases s@.len() - j,
    {
        j = j + 1;
    }
    j
}

/// The index just past the last position below `i` that does not hold
/// whitespace (or 0 when there is none).
pub open spec fn rskip_ws(s: Seq<char>, i: int) -> int
    decreases i,
{
    if 0 < i <= s.len() && is_ws(s[i - 1]) {
        rskip_ws(s, i - 1)
    } else {
        i
    }
}

/// The bounds of `s` with leading and trailing whitespace removed (as
/// `str::trim` removes it).
pub open spec fn trim_bounds(s: Seq<char>) -> (int, int) {
    let a = skip_ws(s, 0);
    if a >= s.len() {
        (s.len() as int, s.len() as int)
    } else {
        (a, rskip_ws(s, s.len() as int))
    }
}

/// `s` with leading and trailing whitespace removed.
pub open spec fn trimmed(s: Seq<char>) -> Seq<char> {
    s.subrange(trim_bounds(s).0, trim_bounds(s).1)
}

pub proof fn lemma_rskip_ws(s: Seq<char>, i: int)
    requires
        0 <= i <= s.len(),
    ensures
        0 <= rskip_ws(s, i) <= i,
        all_ws(s, rskip_ws(s, i), i),
        rskip_ws(s, i) > 0 ==> !is_ws(s[rskip_ws(s, i) - 1]),
    decreases i,
{
    if 0 < i && is_ws(s[i - 1]) {
        lemma_rskip_ws(s, i - 1);
    }
}

pub proof fn lemma_trim(s: Seq<char>)
    ensures
        0 <= trim_bounds(s).0 <= trim_bounds(s).1 <= s.len(),
        all_ws(s, 0, trim_bounds(s).0),
        all_ws(s, trim_bounds(s).1, s.len() as int),
        trim_bounds(s).0 < trim_bounds(s).1 ==> !is_ws(s[trim_bounds(s).0]) && !is_ws(
            s[trim_bounds(s).1 - 1],
        ),
{
    lemma_skip_ws(s, 0);
    lemma_rskip_ws(s, s.len() as int);
    let a = skip_ws(s, 0);
    let b = rskip_ws(s, s.len() as int);
    if a < s.len() && b <= a {
        assert(is_ws(s[a]));
    }
}

/// The bounds of `s` with leading and trailing whitespace removed.
pub fn trim_bounds_exec(s: &Vec<char>) -> (r: (usize, usize))
    ensures
        r.0 as int == trim_bounds(s@).0,
        r.1 as int == trim_bounds(s@).1,
{
    let a = skip_whitespace(s, 0);
    if a >= s.len() {
        return (s.len(), s.len());
    }
    let mut b = s.len();
    while b > 0 && char_is_whitespace(s[b - 1])
        invariant
            b <= s@.len(),
            rskip_ws(s@, b as int) == rskip_ws(s@, s@.len() as int),
        decreases b,
    {
        b = b - 1;
    }
    (a, b)
}

/// `pat` occurs in `s` starting at index `i`.
pub open spec fn occurs_at(s: Seq<char>, pat: Seq<char>, i: int) -> bool {
    0 <= i && i + pat.len() <= s.len() && s.subrange(i, i + pat.len()) == pat
}

/// The first index at or after `from` where `pat` occurs in `s`.
pub open spec fn find_from(s: Seq<char>, pat: Seq<char>, from: int) -> Option<int>
    decreases s.len() + 1 - from,
{
    if from < 0 || from + pat.len() > s.len() {
        None
    } else if occurs_at(s, pat, from) {
        Some(from)
    } else {
        find_from(s, pat, from + 1)
    }
}

pub proof fn lemma_find_from(s: Seq<char>, pat: Seq<char>, from: int)
    requires
        0 <= from,
    ensures
        find_from(s, pat, from) matches Some(p) ==> from <= p && occurs_at(s, pat, p)
            && p + pat.len() <= s.len() && forall|q: int|
            from <= q < p ==> !occurs_at(s, pat, q),
        find_from(s, pat, from) is None ==> forall|q: int| from <= q ==> !occurs_at(s, pat, q),
    decreases s.len() + 1 - from,
{
    if from + pat.len() > s.len() {
    } else if occurs_at(s, pat, from) {
    } else {
        lemma_find_from(s, pat, from + 1);
    }
}

/// Whether `pat` occurs in `s` at index `i`.
pub fn matches_at(s: &Vec<char>, pat: &Vec<char>, i: usize) -> (r: bool)
    ensures
        r == occurs_at(s@, pat@, i as int),
{
    if i > s.len() || pat.len() > s.len() - i {
        return false;
    }
    let n = s.len();
    let mut k: usize = 0;
    while k < pat.len()
        invariant
            n == s@.len(),
            i + pat@.len() <= n,
            k <= pat@.len(),
            forall|m: int| 0 <= m < k ==> s@[i + m] == pat@[m],
        decreases pat@.len() - k,
    {
        if s[i + k] != pat[k] {
            assert(s@.subrange(i as int, i + pat@.len())[k as int] != pat@[k as int]);
            return false;
        }
        k = k + 1;
    }
    assert(s@.subrange(i as int, i + pat@.len()) =~= pat@);
    true
}

/// The first index at or after `from` where `pat` occurs in `s`.
pub fn find_at_or_after(s: &Vec<char>, pat: &Vec<char>, from: usize) -> (r: Option<usize>)
    ensures
        r matches Some(p) ==> find_from(s@, pat@, from as int) == Some(p as int),
        r is None ==> find_from(s@, pat@, from as int) is None,
{
    let n = s.len();
    if from > n || pat.len() > n - from {
        return None;
    }
    let mut i = from;
    loop
        invariant
            n == s@.len(),
            from <= i <= n,
            find_from(s@, pat@, i as int) == find_from(s@, pat@, from as int),
        decreases n - i,
    {
        if pat.len() > n - i {
            return None;
        }
        if matches_at(s, pat, i) {
            return Some(i);
        }
        if i == n {
            return None;
        }
        i = i + 1;
    }
}

/// The `char` sequence of a string slice.
pub fn str_chars(s: &str) -> (v: Vec<char>)
    ensures
        v@ == s@,
{
    let mut v: Vec<char> = Vec::new();
    for c in it: s.chars()
        invariant
            it.seq() == s@,
            v@ == it.seq().take(it.index() as int),
    {
        v.push(c);
    }
    v
}

/// The string made of the `char`s of `cs` (`String`'s `FromIterator<&char>`).
///
/// Claimed of it: the string's `char` sequence is `cs`.
#[verifier::external_body]
pub fn string_from_chars(cs: &[char]) -> (r: String)
    ensures
        r@ == cs@,
{
    cs.iter().collect()
}

/// Whether two strings are equal.
pub fn str_equal(a: &str, b: &str) -> (r: bool)
    ensures
        r == (a@ == b@),
{
    let x = str_chars(a);
    let y = str_chars(b);
    if x.len() != y.len() {
        return false;
    }
    let mut i: usize = 0;
    while i < x.len()
        invariant
            x@ == a@,
            y@ == b@,
            x@.len() == y@.len(),
            i <= x@.len(),
            forall|k: int| 0 <= k < i ==> x@[k] == y@[k],
        decreases x@.len() - i,
    {
        if x[i] != y[i] {
            assert(x@[i as int] != y@[i as int]);
            return false;
        }
        i = i + 1;
    }
    assert(x@ =~= y@);
    true
}

/// `v[a..b]` as a new vector.
pub fn sub_vec(v: &Vec<char>, a: usize, b: usize) -> (r: Vec<char>)
    requires
        a <= b <= v@.len(),
    ensures
        r@ == v@.subrange(a as int, b as int),
{
    slice_to_vec(slice_subrange(v.as_slice(), a, b))
}

/// The trimmed text of `c`, as a new vector.
pub fn trimmed_chars(c: &Vec<char>) -> (r: Vec<char>)
    ensures
        r@ == trimmed(c@),
{
    let (start, end) = trim_bounds_exec(c);
    proof {
        lemma_trim(c@);
    }
    let mut r: Vec<char> = Vec::new();
    let mut i = start;
    while i < end
        invariant
            start <= i <= end <= c@.len(),
            trimmed(c@) == c@.subrange(start as int, end as int),
            r@ == c@.subrange(start as int, i as int),
        decreases end - i,
    {
        r.push(c[i]);
        assert(r@ =~= c@.subrange(start as int, i + 1));
        i = i + 1;
    }
    r
}

/// The length in bytes of the UTF-8 encoding of `s`.
pub open spec fn byte_len(s: Seq<char>) -> nat {
    encode_utf8(s).len()
}

/// The number of bytes of the UTF-8 encoding of `c`.
pub open spec fn char_width(c: char) -> nat {
    encode_scalar(c as u32).len()
}

pub proof fn lemma_byte_len_concat(a: Seq<char>, b: Seq<char>)
    ensures
        byte_len(a + b) == byte_len(a) + byte_len(b),
    decreases a.len(),
{
    if a.len() == 0 {
        assert(a + b =~= b);
    } else {
        assert((a + b).drop_first() =~= a.drop_first() + b);
        lemma_byte_len_concat(a.drop_first(), b);
    }
}

pub proof fn lemma_byte_len_take_step(s: Seq<char>, k: int)
    requires
        0 <= k < s.len(),
    ensures
        byte_len(s.take(k + 1)) == byte_len(s.take(k)) + char_width(s[k]),
{
    assert(s.take(k + 1) =~= s.take(k) + seq![s[k]]);
    lemma_byte_len_concat(s.take(k), seq![s[k]]);
    assert(seq![s[k]].drop_first() =~= Seq::<char>::empty());
    reveal_with_fuel(encode_utf8, 2);
    assert(encode_utf8(seq![s[k]]) =~= encode_scalar(s[k] as u32));
}

pub proof fn lemma_byte_len_take_mono(s: Seq<char>, j: int, k: int)
    requires
        0 <= j <= k <= s.len(),
    ensures
        byte_len(s.take(j)) <= byte_len(s.take(k)),
{
    assert(s.take(k) =~= s.take(j) + s.subrange(j, k));
    lemma_byte_len_concat(s.take(j), s.subrange(j, k));
}

/// The number of bytes of the UTF-8 encoding of `c`.
pub fn utf8_width(c: char) -> (r: usize)
    ensures
        r == char_width(c),
        1 <= r <= 4,
{
    let u = c as u32;
    proof {
        char_is_scalar(c);
    }
    if u <= 0x7F {
        1
    } else if u <= 0x7FF {
        2
    } else if u <= 0xFFFF {
        3
    } else {
        4
    }
}

/// The byte offset in the UTF-8 encoding of `s` of the `char` at index `k`.
pub fn byte_offset(s: &Vec<char>, k: usize) -> (r: usize)
    requires
        k <= s@.len(),
        byte_len(s@) <= usize::MAX,
    ensures
        r == byte_len(s@.take(k as int)),
{
    let mut i: usize = 0;
    let mut acc: usize = 0;
    proof {
        assert(s@.take(0) =~= Seq::<char>::empty());
        assert(s@.take(s@.len() as int) =~= s@);
    }
    while i < k
        invariant
            i <= k <= s@.len(),
            byte_len(s@) <= usize::MAX,
            s@.take(s@.len() as int) == s@,
            acc == byte_len(s@.take(i as int)),
        decreases k - i,
    {
        let w = utf8_width(s[i]);
        proof {
            lemma_byte_len_take_step(s@, i as int);
            lemma_byte_len_take_mono(s@, i + 1, s@.len() as int);
        }
        acc = acc + w;
        i = i + 1;
    }
    acc
}

/// The byte length of a string slice fits in `usize`.
pub fn str_byte_len(s: &str) -> (r: usize)
    ensures
        r == byte_len(s@),
{
    s.as_bytes().len()
}

} // verus!
