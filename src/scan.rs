//! Character-level scanning for the parser: whitespace, identifiers, digit
//! runs and case-insensitive keywords.
use vstd::prelude::*;
use crate::text::push_char;

verus! {

pub open spec fn is_ws(c: char) -> bool {
    c == ' ' || c == '\t' || c == '\r' || c == '\n'
}

pub open spec fn is_alpha(c: char) -> bool {
    ('a' <= c && c <= 'z') || ('A' <= c && c <= 'Z') || c == '_'
}

pub open spec fn is_digit(c: char) -> bool {
    '0' <= c && c <= '9'
}

pub open spec fn is_ident_char(c: char) -> bool {
    is_alpha(c) || is_digit(c)
}

/// `c` is the keyword letter `k` in either case (`k` is lower case).
pub open spec fn ci_eq(c: char, k: char) -> bool {
    c == k || ('a' <= k && k <= 'z' && (c as u32) + 32 == (k as u32))
}

/// The first position at or after `i` that is not whitespace.
pub open spec fn skip_ws(s: Seq<char>, i: int) -> int
    decreases s.len() - i,
{
    if 0 <= i < s.len() && is_ws(s[i]) { skip_ws(s, i + 1) } else { i }
}

/// The end of the run of identifier characters starting at `i`.
pub open spec fn ident_run(s: Seq<char>, i: int) -> int
    decreases s.len() - i,
{
    if 0 <= i < s.len() && is_ident_char(s[i]) { ident_run(s, i + 1) } else { i }
}

/// The end of the run of digits starting at `i`.
pub open spec fn digit_run(s: Seq<char>, i: int) -> int
    decreases s.len() - i,
{
    if 0 <= i < s.len() && is_digit(s[i]) { digit_run(s, i + 1) } else { i }
}

/// The keyword `kw` (lower case) occurs at `i`, in any case.
pub open spec fn kw_at(s: Seq<char>, i: int, kw: Seq<char>) -> bool {
    &&& 0 <= i
    &&& i + kw.len() <= s.len()
    &&& forall|j: int| 0 <= j < kw.len() ==> ci_eq(#[trigger] s[i + j], kw[j])
}

/// The character `c` occurs at `i`.
pub open spec fn char_at(s: Seq<char>, i: int, c: char) -> bool {
    0 <= i < s.len() && s[i] == c
}

/// The value of a run of decimal digits.
pub open spec fn digits_value(d: Seq<char>) -> nat
    decreases d.len(),
{
    if d.len() == 0 {
        0
    } else {
        digits_value(d.drop_last()) * 10 + ((d.last() as u32) - 48) as nat
    }
}

/// An identifier starts at `i`: its text and end.
pub open spec fn ident_spec(s: Seq<char>, i: int) -> Option<(Seq<char>, int)> {
    if 0 <= i < s.len() && is_alpha(s[i]) {
        Some((s.subrange(i, ident_run(s, i + 1)), ident_run(s, i + 1)))
    } else {
        None
    }
}

/// An unsigned decimal number that fits in a `u64` starts at `i`: its value
/// and end.
pub open spec fn uint_spec(s: Seq<char>, i: int) -> Option<(u64, int)> {
    if 0 <= i < s.len() && is_digit(s[i]) && digits_value(s.subrange(i, digit_run(s, i))) <= u64::MAX {
        Some((digits_value(s.subrange(i, digit_run(s, i))) as u64, digit_run(s, i)))
    } else {
        None
    }
}

/// The characters of `s`.
pub fn chars_of(s: &str) -> (r: Vec<char>)
    ensures
        r@ == s@,
{
    let n = s.unicode_len();
    let mut r: Vec<char> = Vec::new();
    let mut i: usize = 0;
    while i < n
        invariant
            n == s@.len(),
            i <= n,
            r@ == s@.subrange(0, i as int),
        decreases n - i,
    {
        r.push(s.get_char(i));
        i += 1;
        assert(r@ =~= s@.subrange(0, i as int));
    }
    assert(r@ =~= s@);
    r
}

/// A string of `s[i..j]`.
pub fn string_of_range(s: &Vec<char>, i: usize, j: usize) -> (r: String)
    requires
        i <= j <= s@.len(),
    ensures
        r@ == s@.subrange(i as int, j as int),
{
    let mut r = String::new();
    let mut k: usize = i;
    while k < j
        invariant
            i <= k <= j,
            j <= s@.len(),
            r@ == s@.subrange(i as int, k as int),
        decreases j - k,
    {
        push_char(&mut r, s[k]);
        k += 1;
        assert(r@ =~= s@.subrange(i as int, k as int));
    }
    r
}

pub fn skip_ws_at(s: &Vec<char>, i: usize) -> (r: usize)
    requires
        i <= s@.len(),
    ensures
        r as int == skip_ws(s@, i as int),
        i <= r <= s@.len(),
{
    let mut j = i;
    while j < s.len() && (s[j] == ' ' || s[j] == '\t' || s[j] == '\r' || s[j] == '\n')
        invariant
            i <= j <= s@.len(),
            skip_ws(s@, j as int) == skip_ws(s@, i as int),
        decreases s@.len() - j,
    {
        j += 1;
    }
    j
}

pub fn ident_run_at(s: &Vec<char>, i: usize) -> (r: usize)
    requires
        i <= s@.len(),
    ensures
        r as int == ident_run(s@, i as int),
        i <= r <= s@.len(),
{
    let mut j = i;
    while j < s.len() && (('a' <= s[j] && s[j] <= 'z') || ('A' <= s[j] && s[j] <= 'Z') || s[j] == '_'
        || ('0' <= s[j] && s[j] <= '9'))
        invariant
            i <= j <= s@.len(),
            ident_run(s@, j as int) == ident_run(s@, i as int),
        decreases s@.len() - j,
    {
        j += 1;
    }
    j
}

pub fn digit_run_at(s: &Vec<char>, i: usize) -> (r: usize)
    requires
        i <= s@.len(),
    ensures
        r as int == digit_run(s@, i as int),
        i <= r <= s@.len(),
{
    let mut j = i;
    while j < s.len() && '0' <= s[j] && s[j] <= '9'
        invariant
            i <= j <= s@.len(),
            digit_run(s@, j as int) == digit_run(s@, i as int),
        decreases s@.len() - j,
    {
        j += 1;
    }
    j
}

pub fn char_at_exec(s: &Vec<char>, i: usize, c: char) -> (r: bool)
    ensures
        r == char_at(s@, i as int, c),
{
    i < s.len() && s[i] == c
}

pub fn is_alpha_at(s: &Vec<char>, i: usize) -> (r: bool)
    ensures
        r == (0 <= i < s@.len() && is_alpha(s@[i as int])),
{
    i < s.len() && (('a' <= s[i] && s[i] <= 'z') || ('A' <= s[i] && s[i] <= 'Z') || s[i] == '_')
}

pub fn is_digit_at(s: &Vec<char>, i: usize) -> (r: bool)
    ensures
        r == (0 <= i < s@.len() && is_digit(s@[i as int])),
{
    i < s.len() && '0' <= s[i] && s[i] <= '9'
}

/// Whether the keyword `kw` (lower case) occurs at `i` in any case.
pub fn kw_at_exec(s: &Vec<char>, i: usize, kw: &[char]) -> (r: bool)
    ensures
        r == kw_at(s@, i as int, kw@),
{
    let n = kw.len();
    let len = s.len();
    if n > len || i > len - n {
        return false;
    }
    let mut j: usize = 0;
    while j < n
        invariant
            n == kw@.len(),
            len == s@.len(),
            i + n <= len,
            j <= n,
            forall|k: int| 0 <= k < j ==> ci_eq(#[trigger] s@[i + k], kw@[k]),
        decreases n - j,
    {
        let c = s[i + j];
        let k = kw[j];
        let lower_ok = 'a' <= k && k <= 'z' && (c as u32) == (k as u32) - 32;
        if !(c == k || lower_ok) {
            assert(!ci_eq(s@[i + j], kw@[j as int]));
            return false;
        }
        j += 1;
    }
    true
}

/// `skip_ws` never moves backwards, and stops inside the text or where it began.
pub proof fn lemma_skip_ws(s: Seq<char>, i: int)
    ensures
        skip_ws(s, i) >= i,
        i <= s.len() ==> skip_ws(s, i) <= s.len(),
    decreases s.len() - i,
{
    if 0 <= i < s.len() && is_ws(s[i]) {
        lemma_skip_ws(s, i + 1);
    }
}

/// An unsigned number at `i`, if its digits fit in a `u64`.
pub fn uint_at(s: &Vec<char>, i: usize) -> (r: Option<(u64, usize)>)
    requires
        i <= s@.len(),
    ensures
        match uint_spec(s@, i as int) {
            Some((v, e)) => r matches Some((v2, e2)) && v2 == v && e2 == e,
            None => r is None,
        },
{
    if !is_digit_at(s, i) {
        return None;
    }
    let e = digit_run_at(s, i);
    proof { lemma_digit_run_digits(s@, i as int); }
    let mut v: u64 = 0;
    let mut k: usize = i;
    while k < e
        invariant
            i <= k <= e,
            e as int == digit_run(s@, i as int),
            e <= s@.len(),
            forall|m: int| i <= m < e ==> is_digit(#[trigger] s@[m]),
            v as nat == digits_value(s@.subrange(i as int, k as int)),
        decreases e - k,
    {
        let d = (s[k] as u32 - 48) as u64;
        assert(s@.subrange(i as int, k + 1).drop_last() =~= s@.subrange(i as int, k as int));
        if v > (u64::MAX - d) / 10 {
            proof {
                lemma_digits_grow(s@, i as int, k as int + 1, e as int);
            }
            return None;
        }
        v = v * 10 + d;
        k += 1;
    }
    Some((v, e))
}

pub proof fn lemma_digit_run_digits(s: Seq<char>, i: int)
    requires
        0 <= i <= s.len(),
    ensures
        i <= digit_run(s, i) <= s.len(),
        forall|m: int| i <= m < digit_run(s, i) ==> is_digit(#[trigger] s[m]),
    decreases s.len() - i,
{
    if i < s.len() && is_digit(s[i]) {
        lemma_digit_run_digits(s, i + 1);
    }
}

/// A longer run of digits is worth at least as much.
proof fn lemma_digits_grow(s: Seq<char>, i: int, k: int, e: int)
    requires
        0 <= i <= k <= e <= s.len(),
        forall|m: int| i <= m < e ==> is_digit(#[trigger] s[m]),
    ensures
        digits_value(s.subrange(i, k)) <= digits_value(s.subrange(i, e)),
    decreases e - k,
{
    if k < e {
        lemma_digits_grow(s, i, k + 1, e);
        assert(s.subrange(i, k + 1).drop_last() =~= s.subrange(i, k));
        assert(s.subrange(i, k + 1).last() == s[k]);
    }
}


/// A number ends after its first digit, inside the text.
pub proof fn lemma_uint_end(s: Seq<char>, i: int)
    requires
        0 <= i <= s.len(),
    ensures
        uint_spec(s, i) matches Some((n, e)) ==> i < e <= s.len(),
{
    if i < s.len() && is_digit(s[i]) {
        lemma_digit_run_digits(s, i);
        assert(digit_run(s, i) == digit_run(s, i + 1));
        lemma_digit_run_digits(s, i + 1);
    }
}

} // verus!
