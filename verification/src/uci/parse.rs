use vstd::prelude::*;
use crate::text::{all_digits, digit_value, digits_value, is_digit};

verus! {

/// The outcome of reading part of a line from a position: done, with the position after
/// what was read and the value; failed where another reading may be tried; or failed for
/// good. Positions count characters from the start of the line.
pub enum Step<T> {
    Done(usize, T),
    Error(usize),
    Failure(usize),
}

impl<T> Step<T> {
    /// Whether the reading failed in a way that allows another to be tried.
    pub fn is_error(&self) -> (b: bool)
        ensures
            b == (self is Error),
    {
        match self {
            Step::Error(_) => true,
            _ => false,
        }
    }
}

/// Whether every position in an outcome lies within a line of `n` characters.
pub open spec fn bounded<T>(r: Step<T>, n: int) -> bool {
    match r {
        Step::Done(e, _) => e <= n,
        Step::Error(e) => e <= n,
        Step::Failure(e) => e <= n,
    }
}

/// Whether an outcome holds, through `f`, the outcome of a reading.
pub open spec fn agrees_by<T, V>(r: Step<T>, p: Step<V>, f: spec_fn(T) -> V) -> bool {
    match (r, p) {
        (Step::Done(a, x), Step::Done(b, y)) => a == b && f(x) == y,
        (Step::Error(a), Step::Error(b)) => a == b,
        (Step::Failure(a), Step::Failure(b)) => a == b,
        _ => false,
    }
}

/// Whether an outcome holds, by value view, the outcome of a reading.
pub open spec fn agrees<T: View>(r: Step<T>, p: Step<T::V>) -> bool {
    agrees_by(r, p, |x: T| x@)
}

/// Whether a character is a space or a tab.
pub open spec fn is_blank(c: char) -> bool {
    c == ' ' || c == '\t'
}

/// The first position from `i` on that holds no space or tab.
pub open spec fn skip_blanks(s: Seq<char>, i: int) -> int
    decreases s.len() - i,
{
    if i < 0 || i >= s.len() || !is_blank(s[i]) {
        i
    } else {
        skip_blanks(s, i + 1)
    }
}

/// Whether the text `t` stands at position `i`.
pub open spec fn tag_at(s: Seq<char>, i: int, t: Seq<char>) -> bool {
    0 <= i && i + t.len() <= s.len() && s.subrange(i, i + t.len()) == t
}

/// One or more spaces or tabs at `i`: the position after them.
pub open spec fn space1(s: Seq<char>, i: int) -> Step<()> {
    if skip_blanks(s, i) > i {
        Step::Done(skip_blanks(s, i) as usize, ())
    } else {
        Step::Error(i as usize)
    }
}

/// The first position from `i` on that holds no ASCII digit.
pub open spec fn digits_end(s: Seq<char>, i: int) -> int
    decreases s.len() - i,
{
    if i < 0 || i >= s.len() || !is_digit(s[i]) {
        i
    } else {
        digits_end(s, i + 1)
    }
}

/// An unsigned number at `i`: the longest run of digits, which must not be empty nor
/// exceed `max`.
pub open spec fn unsigned_at(s: Seq<char>, i: int, max: int) -> Step<int> {
    let j = digits_end(s, i);
    if j == i || digits_value(s.subrange(i, j)) > max {
        Step::Error(i as usize)
    } else {
        Step::Done(j as usize, digits_value(s.subrange(i, j)) as int)
    }
}

/// A signed number at `i`: an optional `-` or `+`, then the longest run of digits, which
/// must not be empty and must give a value between `min` and `max`.
pub open spec fn signed_at(s: Seq<char>, i: int, min: int, max: int) -> Step<int> {
    let neg = 0 <= i < s.len() && s[i] == '-';
    let k = if 0 <= i < s.len() && (s[i] == '-' || s[i] == '+') {
        i + 1
    } else {
        i
    };
    let j = digits_end(s, k);
    let m = digits_value(s.subrange(k, j)) as int;
    let v = if neg {
        -m
    } else {
        m
    };
    if j == k || v < min || v > max {
        Step::Error(i as usize)
    } else {
        Step::Done(j as usize, v)
    }
}

/// Whether a character is an ASCII letter or digit.
pub open spec fn is_alnum(c: char) -> bool {
    ('a' <= c && c <= 'z') || ('A' <= c && c <= 'Z') || ('0' <= c && c <= '9')
}

/// The first position from `i` on that holds no ASCII letter or digit.
pub open spec fn alnum_end(s: Seq<char>, i: int) -> int
    decreases s.len() - i,
{
    if i < 0 || i >= s.len() || !is_alnum(s[i]) {
        i
    } else {
        alnum_end(s, i + 1)
    }
}

/// The first position from `i` on that holds white space (by the Unicode definition).
pub open spec fn word_end(s: Seq<char>, i: int) -> int
    decreases s.len() - i,
{
    if i < 0 || i >= s.len() || crate::text::is_space(s[i]) {
        i
    } else {
        word_end(s, i + 1)
    }
}

/// The first position from `i` on that holds a line feed or carriage return.
pub open spec fn line_break_at(s: Seq<char>, i: int) -> int
    decreases s.len() - i,
{
    if i < 0 || i >= s.len() || s[i] == '\n' || s[i] == '\r' {
        i
    } else {
        line_break_at(s, i + 1)
    }
}

/// The rest of the line from `i`: up to a line feed or to a carriage return that a line
/// feed follows; a carriage return alone fails the reading at `i`.
pub open spec fn rest_of_line(s: Seq<char>, i: int) -> Step<Seq<char>> {
    let j = line_break_at(s, i);
    if j < s.len() && s[j] == '\r' && !(j + 1 < s.len() && s[j + 1] == '\n') {
        Step::Error(i as usize)
    } else {
        Step::Done(j as usize, s.subrange(i, j))
    }
}

/// Skipping spaces and tabs stays between the start and the end of the line.
pub proof fn lemma_skip_blanks_bounds(s: Seq<char>, i: int)
    requires
        0 <= i <= s.len(),
    ensures
        i <= skip_blanks(s, i) <= s.len(),
    decreases s.len() - i,
{
    if i < s.len() && is_blank(s[i]) {
        lemma_skip_blanks_bounds(s, i + 1);
    }
}

/// A run of letters and digits that starts with one ends after it, within the line.
pub proof fn lemma_alnum_end_bounds(s: Seq<char>, i: int)
    requires
        0 <= i <= s.len(),
    ensures
        i <= alnum_end(s, i) <= s.len(),
        i < s.len() && is_alnum(s[i]) ==> alnum_end(s, i) > i,
    decreases s.len() - i,
{
    if i < s.len() && is_alnum(s[i]) {
        lemma_alnum_end_bounds(s, i + 1);
    }
}

/// The rest of a line ends at or after where it starts.
pub proof fn lemma_rest_of_line_ge(s: Seq<char>, i: int)
    requires
        0 <= i <= s.len(),
    ensures
        i <= line_break_at(s, i) <= s.len(),
    decreases s.len() - i,
{
    if i < s.len() && s[i] != '\n' && s[i] != '\r' {
        lemma_rest_of_line_ge(s, i + 1);
    }
}

/// Skips spaces and tabs.
pub fn skip_blanks_exec(s: &[char], i: usize) -> (r: usize)
    requires
        i <= s@.len(),
    ensures
        r == skip_blanks(s@, i as int),
        i <= r <= s@.len(),
{
    let mut j = i;
    while j < s.len() && (s[j] == ' ' || s[j] == '\t')
        invariant
            i <= j <= s@.len(),
            skip_blanks(s@, i as int) == skip_blanks(s@, j as int),
        decreases s@.len() - j,
    {
        j = j + 1;
    }
    j
}

/// One or more spaces or tabs at `i`: the position after them.
pub fn space1_exec(s: &[char], i: usize) -> (r: Option<usize>)
    requires
        i <= s@.len(),
    ensures
        match space1(s@, i as int) {
            Step::Done(j, _) => r == Some(j) && i < j <= s@.len(),
            _ => r is None,
        },
{
    let j = skip_blanks_exec(s, i);
    if j > i {
        Some(j)
    } else {
        None
    }
}

/// Whether the text `t` stands at position `i`.
pub fn tag_exec(s: &[char], i: usize, t: &str) -> (r: bool)
    requires
        i <= s@.len(),
    ensures
        r == tag_at(s@, i as int, t@),
{
    let w = crate::text::chars_of(t);
    let n = s.len();
    if w.len() > n - i {
        return false;
    }
    let mut k: usize = 0;
    while k < w.len()
        invariant
            k <= w@.len(),
            w@ == t@,
            n == s@.len(),
            i + w@.len() <= s@.len(),
            forall|m: int| 0 <= m < k ==> s@[i + m] == w@[m],
        decreases w@.len() - k,
    {
        if s[i + k] != w[k] {
            assert(s@.subrange(i as int, i + w@.len())[k as int] != w@[k as int]);
            return false;
        }
        k = k + 1;
    }
    assert(s@.subrange(i as int, i + w@.len()) =~= w@);
    true
}

/// The end of the run of digits from `i`.
fn digits_end_exec(s: &[char], i: usize) -> (r: usize)
    requires
        i <= s@.len(),
    ensures
        r == digits_end(s@, i as int),
        i <= r <= s@.len(),
        all_digits(s@.subrange(i as int, r as int)),
{
    let mut j = i;
    while j < s.len() && ('0' <= s[j] && s[j] <= '9')
        invariant
            i <= j <= s@.len(),
            digits_end(s@, i as int) == digits_end(s@, j as int),
            all_digits(s@.subrange(i as int, j as int)),
        decreases s@.len() - j,
    {
        assert(s@.subrange(i as int, j + 1) =~= s@.subrange(i as int, j as int).push(s@[j as int]));
        j = j + 1;
    }
    j
}

/// The value of the digits from `i` to `j`, when it is at most `max`.
fn digits_value_at_most(s: &[char], i: usize, j: usize, max: u64) -> (r: Option<u64>)
    requires
        i <= j <= s@.len(),
        all_digits(s@.subrange(i as int, j as int)),
    ensures
        match r {
            Some(v) => v == digits_value(s@.subrange(i as int, j as int)) && v <= max,
            None => digits_value(s@.subrange(i as int, j as int)) > max,
        },
{
    let mut acc: u64 = 0;
    let mut k: usize = i;
    while k < j
        invariant
            i <= k <= j,
            j <= s@.len(),
            all_digits(s@.subrange(i as int, j as int)),
            acc == digits_value(s@.subrange(i as int, k as int)),
            acc <= max,
        decreases j - k,
    {
        let ghost pre = s@.subrange(i as int, k as int);
        assert(s@.subrange(i as int, k + 1).drop_last() =~= pre);
        assert(s@.subrange(i as int, k + 1).last() == s@[k as int]);
        assert(is_digit(s@.subrange(i as int, j as int)[k - i]));
        let d = crate::text::char_to_digit(s[k]) as u64;
        if d > max || acc > (max - d) / 10 {
            proof {
                assert(acc * 10 + d > max) by (nonlinear_arith)
                    requires
                        d > max || acc > (max - d) / 10,
                        acc >= 0,
                ;
                lemma_digits_value_grows(s@.subrange(i as int, j as int), (k + 1 - i) as int);
                assert(s@.subrange(i as int, j as int).take((k + 1 - i) as int) =~= s@.subrange(i as int, k + 1));
            }
            return None;
        }
        assert(acc * 10 + d <= max) by (nonlinear_arith)
            requires
                acc <= (max - d) / 10,
                d <= max,
        ;
        acc = acc * 10 + d;
        k = k + 1;
    }
    Some(acc)
}

/// The value of a run of digits is at least that of any of its prefixes.
pub proof fn lemma_digits_value_grows(d: Seq<char>, n: int)
    requires
        0 <= n <= d.len(),
        all_digits(d),
    ensures
        digits_value(d.take(n)) <= digits_value(d),
    decreases d.len() - n,
{
    if n < d.len() {
        lemma_digits_value_grows(d, n + 1);
        let t = d.take(n + 1);
        assert(t.drop_last() =~= d.take(n));
        assert(is_digit(d[n]));
        assert(digit_value(t.last()) >= 0);
    } else {
        assert(d.take(n) =~= d);
    }
}

/// Reads an unsigned number of at most `max` at `i`.
pub fn unsigned_exec(s: &[char], i: usize, max: u64) -> (r: Step<u64>)
    requires
        i <= s@.len(),
    ensures
        agrees_by(r, unsigned_at(s@, i as int, max as int), |x: u64| x as int),
        r matches Step::Done(e, _) ==> i < e <= s@.len(),
        bounded(r, s@.len() as int),
{
    let j = digits_end_exec(s, i);
    if j == i {
        return Step::Error(i);
    }
    match digits_value_at_most(s, i, j, max) {
        Some(v) => Step::Done(j, v),
        None => Step::Error(i),
    }
}

/// Reads a signed number between `-min_magnitude` and `max` at `i`, for limits of at most
/// `2^63`.
pub fn signed_exec(s: &[char], i: usize, min_magnitude: u64, max: u64) -> (r: Step<i64>)
    requires
        i <= s@.len(),
        min_magnitude <= 0x8000_0000_0000_0000,
        max < 0x8000_0000_0000_0000,
    ensures
        agrees_by(r, signed_at(s@, i as int, -(min_magnitude as int), max as int), |x: i64| x as int),
        r matches Step::Done(e, _) ==> i < e <= s@.len(),
        bounded(r, s@.len() as int),
{
    let neg = i < s.len() && s[i] == '-';
    let k = if i < s.len() && (s[i] == '-' || s[i] == '+') { i + 1 } else { i };
    let j = digits_end_exec(s, k);
    if j == k {
        return Step::Error(i);
    }
    let bound = if neg { min_magnitude } else { max };
    match digits_value_at_most(s, k, j, bound) {
        Some(m) => {
            let v: i64 = if neg {
                if m == 0x8000_0000_0000_0000 {
                    i64::MIN
                } else {
                    -(m as i64)
                }
            } else {
                m as i64
            };
            Step::Done(j, v)
        },
        None => Step::Error(i),
    }
}

/// The end of the run of ASCII letters and digits from `i`.
pub fn alnum_end_exec(s: &[char], i: usize) -> (r: usize)
    requires
        i <= s@.len(),
    ensures
        r == alnum_end(s@, i as int),
        i <= r <= s@.len(),
{
    let mut j = i;
    while j < s.len() && (('a' <= s[j] && s[j] <= 'z') || ('A' <= s[j] && s[j] <= 'Z') || ('0' <= s[j] && s[j] <= '9'))
        invariant
            i <= j <= s@.len(),
            alnum_end(s@, i as int) == alnum_end(s@, j as int),
        decreases s@.len() - j,
    {
        j = j + 1;
    }
    j
}

/// The end of the run of characters that are not white space from `i`.
pub fn word_end_exec(s: &[char], i: usize) -> (r: usize)
    requires
        i <= s@.len(),
    ensures
        r == word_end(s@, i as int),
        i <= r <= s@.len(),
{
    let mut j = i;
    while j < s.len() && !crate::text::char_is_space(s[j])
        invariant
            i <= j <= s@.len(),
            word_end(s@, i as int) == word_end(s@, j as int),
        decreases s@.len() - j,
    {
        j = j + 1;
    }
    j
}

/// The characters from `i` to `j`.
pub fn slice_chars(s: &[char], i: usize, j: usize) -> (r: Vec<char>)
    requires
        i <= j <= s@.len(),
    ensures
        r@ == s@.subrange(i as int, j as int),
{
    let mut v: Vec<char> = Vec::new();
    let mut k = i;
    while k < j
        invariant
            i <= k <= j,
            j <= s@.len(),
            v@ == s@.subrange(i as int, k as int),
        decreases j - k,
    {
        v.push(s[k]);
        assert(s@.subrange(i as int, k + 1) =~= s@.subrange(i as int, k as int).push(s@[k as int]));
        k = k + 1;
    }
    v
}

/// Reads the rest of the line from `i`.
pub fn rest_of_line_exec(s: &[char], i: usize) -> (r: Step<Vec<char>>)
    requires
        i <= s@.len(),
    ensures
        agrees(r, rest_of_line(s@, i as int)),
        bounded(r, s@.len() as int),
{
    let mut j = i;
    while j < s.len() && s[j] != '\n' && s[j] != '\r'
        invariant
            i <= j <= s@.len(),
            line_break_at(s@, i as int) == line_break_at(s@, j as int),
        decreases s@.len() - j,
    {
        j = j + 1;
    }
    if j < s.len() && s[j] == '\r' && !(j + 1 < s.len() && s[j + 1] == '\n') {
        return Step::Error(i);
    }
    Step::Done(j, slice_chars(s, i, j))
}

} // verus!
