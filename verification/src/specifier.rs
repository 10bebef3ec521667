//! The status specifier: a path segment naming one or more candidate
//! status codes, each optionally weighted, such as `200` or
//! `200:0.1,201:0.25,204:1`.
//!
//! Parsing splits the specifier on commas; each part is split on its
//! first colon into a code token and a weight token. A code token must
//! be a three-digit status code between 100 and 599; if any code token
//! fails that rule the whole specifier is rejected. A weight token is a
//! decimal with up to a millionth of resolution; a token that does not
//! denote a representable positive weight falls back silently to the
//! default weight of one. A specifier without a comma must be a bare
//! code token.

use vstd::prelude::*;

verus! {

/// A candidate status code with its sampling weight.
///
/// Weights are fixed-point numbers counted in millionths, so that the
/// default weight of one is `WEIGHT_ONE`.
#[derive(Clone, Copy, Debug, PartialEq, Eq, Structural)]
pub struct Candidate {
    pub code: u16,
    pub weight: u64,
}

/// The fixed-point representation of the default weight 1.0.
pub const WEIGHT_ONE: u64 = 1_000_000;

/// The largest representable weight, one million.
pub const WEIGHT_MAX: u64 = 1_000_000_000_000;

impl Candidate {
    /// A candidate is well formed when its code is a valid status code
    /// and its weight is positive and representable.
    pub open spec fn wf(self) -> bool {
        100 <= self.code <= 599 && 0 < self.weight <= WEIGHT_MAX
    }
}

/// The rejection of a whole specifier: some code token of it is not a
/// valid status code.
#[derive(Clone, Copy, Debug, PartialEq, Eq, Structural)]
pub struct InvalidSpec;

pub open spec fn is_digit(c: char) -> bool {
    '0' <= c && c <= '9'
}

pub open spec fn digit_val(c: char) -> int {
    c as int - '0' as int
}

/// The position of the first occurrence of `c` in `s`, or `s.len()`
/// when `c` does not occur.
pub open spec fn find(s: Seq<char>, c: char) -> int
    decreases s.len(),
{
    if s.len() == 0 {
        0
    } else if s[0] == c {
        0
    } else {
        1 + find(s.drop_first(), c)
    }
}

/// `find` stays within the sequence, lands on `c`, and nothing before
/// it is `c`.
pub proof fn lemma_find_range(s: Seq<char>, c: char)
    ensures
        0 <= find(s, c) <= s.len(),
        find(s, c) < s.len() ==> s[find(s, c)] == c,
        forall|j: int| 0 <= j < find(s, c) ==> s[j] != c,
    decreases s.len(),
{
    if s.len() == 0 {
    } else if s[0] == c {
    } else {
        lemma_find_range(s.drop_first(), c);
        assert forall|j: int| 0 <= j < find(s, c) implies s[j] != c by {
            if j > 0 {
                assert(s.drop_first()[j - 1] != c);
            }
        }
    }
}

/// `find` is the unique position that is `c` with no `c` before it,
/// or the length when no position is `c`.
pub proof fn lemma_find_is_first(s: Seq<char>, c: char, k: int)
    requires
        0 <= k <= s.len(),
        forall|j: int| 0 <= j < k ==> s[j] != c,
        k < s.len() ==> s[k] == c,
    ensures
        find(s, c) == k,
    decreases s.len(),
{
    if s.len() == 0 {
    } else if s[0] == c {
        assert(k == 0);
    } else {
        assert(s[0] != c);
        assert(k > 0 || k < s.len());
        assert(k >= 1);
        assert forall|j: int| 0 <= j < k - 1 implies s.drop_first()[j] != c by {
            assert(s[j + 1] != c);
        }
        assert(k - 1 < s.drop_first().len() ==> s.drop_first()[k - 1] == c);
        lemma_find_is_first(s.drop_first(), c, k - 1);
    }
}

/// Ten to the `n`-th power.
pub open spec fn pow10(n: nat) -> int
    decreases n,
{
    if n == 0 {
        1
    } else {
        10 * pow10((n - 1) as nat)
    }
}

pub proof fn lemma_pow10_pos(n: nat)
    ensures
        pow10(n) >= 1,
    decreases n,
{
    if n > 0 {
        lemma_pow10_pos((n - 1) as nat);
    }
}

pub open spec fn all_digits(t: Seq<char>) -> bool {
    forall|i: int| 0 <= i < t.len() ==> is_digit(t[i])
}

/// The number denoted by a digit string, most significant digit first.
pub open spec fn digits_value(t: Seq<char>) -> int
    decreases t.len(),
{
    if t.len() == 0 {
        0
    } else {
        digits_value(t.drop_last()) * 10 + digit_val(t.last())
    }
}

/// A digit string of length `n` denotes a value in `[0, 10^n)`.
pub proof fn lemma_digits_value_bounds(t: Seq<char>)
    requires
        all_digits(t),
    ensures
        0 <= digits_value(t) < pow10(t.len() as nat),
    decreases t.len(),
{
    if t.len() == 0 {
    } else {
        assert(all_digits(t.drop_last()));
        lemma_digits_value_bounds(t.drop_last());
        assert(is_digit(t.last()));
        assert(0 <= digit_val(t.last()) <= 9);
    }
}

/// A digit string splits at any point into its leading digits, scaled,
/// plus its trailing digits.
pub proof fn lemma_digits_value_split(t: Seq<char>, i: int)
    requires
        0 <= i <= t.len(),
    ensures
        digits_value(t) == digits_value(t.take(i)) * pow10((t.len() - i) as nat) + digits_value(
            t.skip(i),
        ),
    decreases t.len() - i,
{
    if i == t.len() {
        assert(t.take(i) =~= t);
        assert(t.skip(i) =~= Seq::<char>::empty());
        assert(pow10((t.len() - i) as nat) == 1);
        assert(digits_value(t.skip(i)) == 0);
        assert(digits_value(t) == digits_value(t.take(i)) * pow10((t.len() - i) as nat)
            + digits_value(t.skip(i)));
    } else {
        lemma_digits_value_split(t.drop_last(), i);
        assert(t.drop_last().take(i) =~= t.take(i));
        assert(t.drop_last().skip(i) =~= t.skip(i).drop_last());
        assert(t.skip(i).last() == t.last());
        assert(t.skip(i).len() > 0);
        let a = digits_value(t.take(i));
        let p = pow10((t.len() - 1 - i) as nat);
        let r = digits_value(t.skip(i).drop_last());
        assert(digits_value(t.drop_last()) == a * p + r);
        assert(digits_value(t.skip(i)) == r * 10 + digit_val(t.skip(i).last()));
        assert(digits_value(t) == digits_value(t.drop_last()) * 10 + digit_val(t.last()));
        assert((a * p + r) * 10 == a * (10 * p) + r * 10) by (nonlinear_arith);
        assert(pow10((t.len() - i) as nat) == 10 * p);
        assert(a * pow10((t.len() - i) as nat) == a * (10 * p)) by (nonlinear_arith)
            requires
                pow10((t.len() - i) as nat) == 10 * p,
        ;
        assert(digits_value(t) == a * pow10((t.len() - i) as nat) + digits_value(t.skip(i)));
    }
}

/// Whether a weight token is a plain decimal: digits with at most one
/// dot and at least one digit.
pub open spec fn wf_weight_token(w: Seq<char>) -> bool {
    let d = find(w, '.');
    if d == w.len() {
        w.len() > 0 && all_digits(w)
    } else {
        w.len() >= 2 && all_digits(w.take(d)) && all_digits(w.skip(d + 1)) && find(
            w.skip(d + 1),
            '.',
        ) == w.len() - d - 1
    }
}

/// The fractional digits of a weight, scaled to millionths; digits past
/// the sixth are dropped.
pub open spec fn frac_micro(f: Seq<char>) -> int {
    if f.len() >= 6 {
        digits_value(f.take(6))
    } else {
        digits_value(f) * pow10((6 - f.len()) as nat)
    }
}

/// The number of millionths a well-formed weight token denotes.
pub open spec fn weight_micro(w: Seq<char>) -> int {
    let d = find(w, '.');
    if d == w.len() {
        digits_value(w) * (WEIGHT_ONE as int)
    } else {
        digits_value(w.take(d)) * (WEIGHT_ONE as int) + frac_micro(w.skip(d + 1))
    }
}

/// The weight a token denotes: a representable positive decimal stands
/// for itself and every other token falls back to the default weight.
pub open spec fn weight_value(w: Seq<char>) -> u64 {
    if wf_weight_token(w) && 0 < weight_micro(w) <= WEIGHT_MAX as int {
        weight_micro(w) as u64
    } else {
        WEIGHT_ONE
    }
}

/// Whether a code token is a syntactically valid status code: three
/// digits with a class digit of 1 through 5.
pub open spec fn valid_code_token(t: Seq<char>) -> bool {
    t.len() == 3 && is_digit(t[0]) && is_digit(t[1]) && is_digit(t[2]) && '1' <= t[0] && t[0]
        <= '5'
}

/// The status code a valid code token denotes.
pub open spec fn code_value(t: Seq<char>) -> int {
    digit_val(t[0]) * 100 + digit_val(t[1]) * 10 + digit_val(t[2])
}

/// The parts of a specifier, split on every comma.
pub open spec fn split_commas(s: Seq<char>) -> Seq<Seq<char>>
    decreases s.len(),
    via split_commas_dec
{
    let k = find(s, ',');
    if k == s.len() {
        seq![s]
    } else {
        seq![s.take(k)] + split_commas(s.skip(k + 1))
    }
}

#[via_fn]
proof fn split_commas_dec(s: Seq<char>) {
    lemma_find_range(s, ',');
}

/// The code token of a part: what stands before its first colon.
pub open spec fn part_code_token(p: Seq<char>) -> Seq<char> {
    p.take(find(p, ':'))
}

/// The weight of a part: what stands after its first colon, or the
/// default weight when there is no colon.
pub open spec fn part_weight(p: Seq<char>) -> u64 {
    let k = find(p, ':');
    if k == p.len() {
        WEIGHT_ONE
    } else {
        weight_value(p.skip(k + 1))
    }
}

pub open spec fn part_valid(p: Seq<char>) -> bool {
    valid_code_token(part_code_token(p))
}

pub open spec fn part_candidate(p: Seq<char>) -> Candidate {
    Candidate { code: code_value(part_code_token(p)) as u16, weight: part_weight(p) }
}

/// The candidate list a specifier denotes, or `None` when the
/// specifier is invalid.
///
/// A specifier without a comma must be a bare code token; one with
/// commas is split into parts, every one of which must carry a valid
/// code token.
pub open spec fn spec_candidates(s: Seq<char>) -> Option<Seq<Candidate>> {
    if find(s, ',') == s.len() {
        if valid_code_token(s) {
            Some(seq![Candidate { code: code_value(s) as u16, weight: WEIGHT_ONE }])
        } else {
            None
        }
    } else {
        let parts = split_commas(s);
        if forall|i: int| 0 <= i < parts.len() ==> part_valid(#[trigger] parts[i]) {
            Some(parts.map_values(|p: Seq<char>| part_candidate(p)))
        } else {
            None
        }
    }
}

/// A valid code token denotes a code between 100 and 599.
pub proof fn lemma_code_value_range(t: Seq<char>)
    requires
        valid_code_token(t),
    ensures
        100 <= code_value(t) <= 599,
{
}

/// Every candidate of a parsed specifier is well formed.
pub proof fn lemma_spec_candidates_wf(s: Seq<char>)
    requires
        spec_candidates(s) is Some,
    ensures
        forall|i: int|
            0 <= i < spec_candidates(s).unwrap().len() ==> (
            #[trigger] spec_candidates(s).unwrap()[i]).wf(),
        spec_candidates(s).unwrap().len() > 0,
{
    let cs = spec_candidates(s).unwrap();
    assert forall|i: int| 0 <= i < cs.len() implies (#[trigger] cs[i]).wf() by {
        if find(s, ',') == s.len() {
            lemma_code_value_range(s);
        } else {
            let parts = split_commas(s);
            assert(part_valid(parts[i]));
            lemma_code_value_range(part_code_token(parts[i]));
            assert(cs[i] == part_candidate(parts[i]));
        }
    }
    if find(s, ',') != s.len() {
        lemma_split_commas_nonempty(s);
    }
}

/// A specifier always has at least one part.
pub proof fn lemma_split_commas_nonempty(s: Seq<char>)
    ensures
        split_commas(s).len() > 0,
    decreases s.len(),
{
    lemma_find_range(s, ',');
}

proof fn lemma_pow10_vals()
    ensures
        pow10(0) == 1,
        pow10(1) == 10,
        pow10(2) == 100,
        pow10(3) == 1000,
        pow10(4) == 10000,
        pow10(5) == 100000,
        pow10(6) == 1000000,
{
    assert(pow10(0) == 1);
    assert(pow10(1) == 10);
    assert(pow10(2) == 100);
    assert(pow10(3) == 1000);
    assert(pow10(4) == 10000);
    assert(pow10(5) == 100000);
    assert(pow10(6) == 1000000);
}

pub proof fn lemma_pow10_add(a: nat, b: nat)
    ensures
        pow10(a + b) == pow10(a) * pow10(b),
    decreases a,
{
    if a == 0 {
    } else {
        lemma_pow10_add((a - 1) as nat, b);
        assert(pow10(a + b) == 10 * pow10((a + b - 1) as nat));
        assert((a + b - 1) as nat == (a - 1) as nat + b);
        assert(pow10(a) * pow10(b) == (10 * pow10((a - 1) as nat)) * pow10(b));
        assert((10 * pow10((a - 1) as nat)) * pow10(b) == 10 * (pow10((a - 1) as nat) * pow10(b)))
            by (nonlinear_arith);
    }
}

/// The fractional digits of a weight denote fewer than a million
/// millionths.
proof fn lemma_frac_micro_range(f: Seq<char>)
    requires
        all_digits(f),
    ensures
        0 <= frac_micro(f) < 1000000,
{
    lemma_pow10_vals();
    if f.len() >= 6 {
        assert(all_digits(f.take(6)));
        lemma_digits_value_bounds(f.take(6));
    } else {
        lemma_digits_value_bounds(f);
        lemma_pow10_add(f.len() as nat, (6 - f.len()) as nat);
        let v = digits_value(f);
        let m = pow10((6 - f.len()) as nat);
        let c = pow10(f.len() as nat);
        lemma_pow10_pos((6 - f.len()) as nat);
        assert(v * m < c * m && 0 <= v * m) by (nonlinear_arith)
            requires
                0 <= v < c,
                m >= 1,
        ;
        assert(c * m == pow10(6));
    }
}

/// Scans `[start, end)` of `s` as the integer digits of a weight.
///
/// Gives the denoted value when the range is all digits and its value
/// is at most a million; otherwise nothing, in which case either some
/// character is not a digit or the denoted value is over a million.
fn scan_int_digits(s: &str, start: usize, end: usize) -> (r: Option<u64>)
    requires
        start <= end <= s@.len(),
    ensures
        ({
            let t = s@.subrange(start as int, end as int);
            match r {
                Some(v) => all_digits(t) && v as int == digits_value(t) && v <= 1000000,
                None => !all_digits(t) || digits_value(t) > 1000000,
            }
        }),
{
    let ghost t = s@.subrange(start as int, end as int);
    let mut acc: u64 = 0;
    let mut j: usize = start;
    #[verifier::loop_isolation(false)]
    while j < end
        invariant
            start <= j <= end,
            acc as int == digits_value(t.take(j - start)),
            acc <= 1000000,
            forall|i: int| 0 <= i < j - start ==> is_digit(t[i]),
        decreases end - j,
    {
        let c = s.get_char(j);
        let x = c as u32;
        if x < 48 || x > 57 {
            assert(t[j - start] == c);
            assert(!is_digit(t[j - start]));
            return None;
        }
        assert(is_digit(t[j - start]));
        let d: u64 = (x - 48) as u64;
        proof {
            assert(t.take(j - start + 1).drop_last() =~= t.take(j - start));
            assert(t.take(j - start + 1).last() == t[j - start]);
            assert(d as int == digit_val(t[j - start]));
        }
        acc = acc * 10 + d;
        j += 1;
        if acc > 1000000 {
            proof {
                let k = j - start;
                lemma_digits_value_split(t, k);
                if all_digits(t) {
                    assert(all_digits(t.skip(k)));
                    lemma_digits_value_bounds(t.skip(k));
                    lemma_pow10_pos((t.len() - k) as nat);
                    let a = digits_value(t.take(k));
                    let p = pow10((t.len() - k) as nat);
                    assert(a * p >= a) by (nonlinear_arith)
                        requires
                            a >= 0,
                            p >= 1,
                    ;
                    assert(digits_value(t) > 1000000);
                }
            }
            return None;
        }
    }
    proof {
        assert(t.take(end - start) =~= t);
    }
    Some(acc)
}

/// Scans `[start, end)` of `s` as the fractional digits of a weight,
/// worth `frac_micro` millionths, or nothing when some character is
/// not a digit.
fn scan_frac_digits(s: &str, start: usize, end: usize) -> (r: Option<u64>)
    requires
        start <= end <= s@.len(),
    ensures
        ({
            let t = s@.subrange(start as int, end as int);
            match r {
                Some(v) => all_digits(t) && v as int == frac_micro(t) && v < 1000000,
                None => !all_digits(t),
            }
        }),
{
    let ghost t = s@.subrange(start as int, end as int);
    let mut acc: u64 = 0;
    let mut j: usize = start;
    #[verifier::loop_isolation(false)]
    while j < end
        invariant
            start <= j <= end,
            j - start <= 6 ==> acc as int == digits_value(t.take(j - start)),
            j - start > 6 ==> acc as int == digits_value(t.take(6)),
            acc < 1000000,
            forall|i: int| 0 <= i < j - start ==> is_digit(t[i]),
        decreases end - j,
    {
        let c = s.get_char(j);
        let x = c as u32;
        if x < 48 || x > 57 {
            assert(t[j - start] == c);
            assert(!is_digit(t[j - start]));
            return None;
        }
        assert(is_digit(t[j - start]));
        let d: u64 = (x - 48) as u64;
        if j - start < 6 {
            proof {
                assert(t.take(j - start + 1).drop_last() =~= t.take(j - start));
                assert(t.take(j - start + 1).last() == t[j - start]);
                assert(d as int == digit_val(t[j - start]));
                assert(all_digits(t.take(j - start)));
                lemma_digits_value_bounds(t.take(j - start));
                lemma_pow10_vals();
                lemma_pow10_le((j - start) as nat, 5);
            }
            acc = acc * 10 + d;
        }
        j += 1;
    }
    proof {
        lemma_pow10_vals();
        if end - start >= 6 {
            assert(acc as int == digits_value(t.take(6)));
            assert(frac_micro(t) == digits_value(t.take(6)));
        } else {
            assert(t.take(end - start) =~= t);
            assert(acc as int == digits_value(t));
        }
    }
    if end - start >= 6 {
        Some(acc)
    } else {
        let m = pow10_u64(6 - (end - start));
        proof {
            assert(all_digits(t));
            lemma_frac_micro_range(t);
            lemma_digits_value_bounds(t);
            let v = digits_value(t);
            let p = pow10((6 - t.len()) as nat);
            assert(v * p == frac_micro(t));
        }
        Some(acc * m)
    }
}

/// Ten to a power of at most six, as a machine word.
fn pow10_u64(n: usize) -> (r: u64)
    requires
        n <= 6,
    ensures
        r as int == pow10(n as nat),
{
    proof {
        lemma_pow10_vals();
    }
    if n == 0 {
        1
    } else if n == 1 {
        10
    } else if n == 2 {
        100
    } else if n == 3 {
        1000
    } else if n == 4 {
        10000
    } else if n == 5 {
        100000
    } else {
        1000000
    }
}

/// Ten to a larger power never falls below ten to a smaller one.
pub proof fn lemma_pow10_le(a: nat, b: nat)
    requires
        a <= b,
    ensures
        pow10(a) <= pow10(b),
    decreases b,
{
    if a < b {
        lemma_pow10_le(a, (b - 1) as nat);
        lemma_pow10_pos((b - 1) as nat);
    }
}

/// The position of the first occurrence of `c` in `[start, end)` of
/// `s`, or `end` when there is none.
fn find_in(s: &str, start: usize, end: usize, c: char) -> (r: usize)
    requires
        start <= end <= s@.len(),
    ensures
        start <= r <= end,
        r - start == find(s@.subrange(start as int, end as int), c),
{
    let ghost t = s@.subrange(start as int, end as int);
    let mut j: usize = start;
    #[verifier::loop_isolation(false)]
    while j < end
        invariant
            start <= j <= end,
            forall|i: int| 0 <= i < j - start ==> t[i] != c,
        decreases end - j,
    {
        if s.get_char(j) == c {
            proof {
                assert(t[j - start] == c);
                lemma_find_is_first(t, c, j - start);
            }
            return j;
        }
        j += 1;
    }
    proof {
        lemma_find_is_first(t, c, end - start);
    }
    end
}

/// Checks `[start, end)` of `s` as a code token, giving the status
/// code it denotes when it is valid.
fn check_code(s: &str, start: usize, end: usize) -> (r: Option<u16>)
    requires
        start <= end <= s@.len(),
    ensures
        ({
            let t = s@.subrange(start as int, end as int);
            match r {
                Some(code) => valid_code_token(t) && code as int == code_value(t),
                None => !valid_code_token(t),
            }
        }),
{
    let ghost t = s@.subrange(start as int, end as int);
    if end - start != 3 {
        return None;
    }
    let c0 = s.get_char(start);
    let c1 = s.get_char(start + 1);
    let c2 = s.get_char(start + 2);
    proof {
        assert(t[0] == c0 && t[1] == c1 && t[2] == c2);
    }
    let x0 = c0 as u32;
    let x1 = c1 as u32;
    let x2 = c2 as u32;
    if x0 < 49 || x0 > 53 {
        assert(!(is_digit(t[0]) && '1' <= t[0] && t[0] <= '5'));
        return None;
    }
    if x1 < 48 || x1 > 57 {
        assert(!is_digit(t[1]));
        return None;
    }
    if x2 < 48 || x2 > 57 {
        assert(!is_digit(t[2]));
        return None;
    }
    let v: u32 = (x0 - 48) * 100 + (x1 - 48) * 10 + (x2 - 48);
    assert(v as int == code_value(t));
    Some(v as u16)
}

/// The weight denoted by `[start, end)` of `s`, with the silent
/// fallback to the default weight for anything that is not a
/// representable positive decimal.
fn weight_of_range(s: &str, start: usize, end: usize) -> (w: u64)
    requires
        start <= end <= s@.len(),
    ensures
        w == weight_value(s@.subrange(start as int, end as int)),
{
    let ghost t = s@.subrange(start as int, end as int);
    if start == end {
        assert(!wf_weight_token(t));
        return WEIGHT_ONE;
    }
    let d = find_in(s, start, end, '.');
    if d == end {
        // no dot: the whole token is the integer part
        match scan_int_digits(s, start, end) {
            None => {
                proof {
                    if wf_weight_token(t) {
                        assert(all_digits(t));
                        assert(digits_value(t) > 1000000);
                        assert(weight_micro(t) > WEIGHT_MAX as int);
                    }
                }
                WEIGHT_ONE
            },
            Some(v) => {
                assert(wf_weight_token(t));
                assert(weight_micro(t) == digits_value(t) * (WEIGHT_ONE as int));
                if v == 0 {
                    assert(weight_micro(t) == 0);
                    WEIGHT_ONE
                } else {
                    assert(0 < weight_micro(t) <= WEIGHT_MAX as int);
                    v * 1000000
                }
            },
        }
    } else {
        let ghost dt = d - start;
        let ghost int_part = t.take(dt);
        let ghost frac_part = t.skip(dt + 1);
        proof {
            assert(int_part =~= s@.subrange(start as int, d as int));
            assert(frac_part =~= s@.subrange(d + 1, end as int));
        }
        if end - start < 2 {
            assert(!wf_weight_token(t));
            return WEIGHT_ONE;
        }
        let d2 = find_in(s, d + 1, end, '.');
        if d2 < end {
            proof {
                lemma_find_range(s@.subrange(d + 1, end as int), '.');
                assert(find(frac_part, '.') == d2 - d - 1);
                assert(!wf_weight_token(t));
            }
            return WEIGHT_ONE;
        }
        proof {
            assert(find(frac_part, '.') == t.len() - dt - 1);
        }
        match scan_int_digits(s, start, d) {
            None => {
                proof {
                    if wf_weight_token(t) {
                        assert(all_digits(int_part));
                        assert(digits_value(int_part) > 1000000);
                        assert(all_digits(frac_part));
                        lemma_frac_micro_range(frac_part);
                        assert(weight_micro(t) > WEIGHT_MAX as int);
                    }
                }
                WEIGHT_ONE
            },
            Some(v) => {
                match scan_frac_digits(s, d + 1, end) {
                    None => {
                        assert(!wf_weight_token(t));
                        WEIGHT_ONE
                    },
                    Some(f) => {
                        assert(wf_weight_token(t));
                        assert(weight_micro(t) == digits_value(int_part) * (WEIGHT_ONE as int)
                            + frac_micro(frac_part));
                        let raw = v * 1000000 + f;
                        if raw == 0 || raw > WEIGHT_MAX {
                            WEIGHT_ONE
                        } else {
                            assert(0 < weight_micro(t) <= WEIGHT_MAX as int);
                            raw
                        }
                    },
                }
            },
        }
    }
}

/// Parses a specifier into its candidate list.
///
/// Succeeds exactly when every part of the specifier carries a valid
/// code token, and then gives the parts' candidates in order; a weight
/// token that does not denote a representable positive weight falls
/// back to the default weight of one.
pub fn parse(specifier: &str) -> (r: Result<Vec<Candidate>, InvalidSpec>)
    ensures
        match r {
            Ok(cands) => spec_candidates(specifier@) == Some(cands@),
            Err(_) => spec_candidates(specifier@) is None,
        },
{
    let n = specifier.unicode_len();
    proof {
        assert(specifier@.subrange(0, n as int) =~= specifier@);
    }
    let first_comma = find_in(specifier, 0, n, ',');
    if first_comma == n {
        // a lone token must be a bare code
        match check_code(specifier, 0, n) {
            Some(code) => {
                let mut cands: Vec<Candidate> = Vec::new();
                cands.push(Candidate { code, weight: WEIGHT_ONE });
                proof {
                    assert(cands@ =~= seq![
                        Candidate { code: code_value(specifier@) as u16, weight: WEIGHT_ONE },
                    ]);
                }
                Ok(cands)
            },
            None => Err(InvalidSpec),
        }
    } else {
        let mut cands: Vec<Candidate> = Vec::new();
        let mut seg_start: usize = 0;
        let ghost mut done: Seq<Seq<char>> = Seq::empty();
        #[verifier::loop_isolation(false)]
        loop
            invariant
                seg_start <= n,
                n == specifier@.len(),
                split_commas(specifier@) =~= done + split_commas(
                    specifier@.subrange(seg_start as int, n as int),
                ),
                forall|i: int| 0 <= i < done.len() ==> part_valid(#[trigger] done[i]),
                cands@ =~= done.map_values(|p: Seq<char>| part_candidate(p)),
            decreases n - seg_start,
        {
            let ghost rest = specifier@.subrange(seg_start as int, n as int);
            let k = find_in(specifier, seg_start, n, ',');
            let ghost part = specifier@.subrange(seg_start as int, k as int);
            proof {
                if k < n {
                    assert(rest.take(k - seg_start) =~= part);
                    assert(rest.skip(k - seg_start + 1) =~= specifier@.subrange(
                        k + 1,
                        n as int,
                    ));
                    assert(split_commas(rest) == seq![part] + split_commas(
                        specifier@.subrange(k + 1, n as int),
                    ));
                } else {
                    assert(rest =~= part);
                    assert(split_commas(rest) == seq![part]);
                }
            }
            let colon = find_in(specifier, seg_start, k, ':');
            proof {
                assert(find(part, ':') == colon - seg_start);
                assert(part_code_token(part) =~= specifier@.subrange(
                    seg_start as int,
                    colon as int,
                ));
            }
            match check_code(specifier, seg_start, colon) {
                None => {
                    proof {
                        assert(!part_valid(part));
                        let parts = split_commas(specifier@);
                        assert(parts[done.len() as int] == part);
                        assert(find(specifier@, ',') != specifier@.len());
                        assert(spec_candidates(specifier@) is None);
                    }
                    return Err(InvalidSpec);
                },
                Some(code) => {
                    let w: u64 = if colon < k {
                        let ww = weight_of_range(specifier, colon + 1, k);
                        proof {
                            assert(part.skip(colon - seg_start + 1) =~= specifier@.subrange(
                                colon + 1,
                                k as int,
                            ));
                            assert(part_weight(part) == weight_value(
                                part.skip(colon - seg_start + 1),
                            ));
                        }
                        ww
                    } else {
                        assert(part_weight(part) == WEIGHT_ONE);
                        WEIGHT_ONE
                    };
                    cands.push(Candidate { code, weight: w });
                    proof {
                        assert(Candidate { code, weight: w } == part_candidate(part));
                        done = done.push(part);
                        assert(cands@ =~= done.map_values(|p: Seq<char>| part_candidate(p)));
                    }
                },
            }
            if k == n {
                proof {
                    let parts = split_commas(specifier@);
                    assert(parts =~= done);
                    assert(find(specifier@, ',') != specifier@.len());
                    assert(forall|i: int|
                        0 <= i < parts.len() ==> part_valid(#[trigger] parts[i]));
                    assert(spec_candidates(specifier@) == Some(
                        parts.map_values(|p: Seq<char>| part_candidate(p)),
                    ));
                    assert(cands@ =~= parts.map_values(|p: Seq<char>| part_candidate(p)));
                }
                return Ok(cands);
            }
            seg_start = k + 1;
        }
    }
}

} // verus!
