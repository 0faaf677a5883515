//! The cell formats of a log row: bracketed lists of decimals or chest
//! indices, and the tally object, each with a reader, a writer and a proof
//! that reading back what was written gives the same value.

use vstd::prelude::*;
use crate::outcome::SCALE;
use crate::player::{ESTIMATE_BOUND, ScoreCount};
use crate::text::{chars_of, dec, dec_padded, digit_value, is_digit, lemma_dec_padded_round_trip, lemma_dec_round_trip, nat_of, pow10, lemma_pow10_pos};

verus! {

/// The elements of `v` as integers.
pub open spec fn ints_of(v: Seq<i64>) -> Seq<int> {
    v.map_values(|x: i64| x as int)
}

/// The bytes of `v` as integers.
pub open spec fn byte_ints(v: Seq<u8>) -> Seq<int> {
    v.map_values(|x: u8| x as int)
}

/// End of the run of digits that starts at `i`.
pub open spec fn digits_end(s: Seq<char>, i: int) -> int
    decreases s.len() - i,
{
    if 0 <= i < s.len() && is_digit(s[i]) { digits_end(s, i + 1) } else { i }
}

/// The number spelled by the digits at `i`, if at most `limit`, and where
/// they end.
pub open spec fn nat_token(s: Seq<char>, i: int, limit: nat) -> Option<(nat, int)> {
    let j = digits_end(s, i);
    if j == i || nat_of(s.subrange(i, j)) > limit {
        None
    } else {
        Some((nat_of(s.subrange(i, j)), j))
    }
}

/// Whether `s` holds `lit` at `i`.
pub open spec fn holds_at(s: Seq<char>, i: int, lit: Seq<char>) -> bool {
    0 <= i && i + lit.len() <= s.len() && s.subrange(i, i + lit.len()) == lit
}

proof fn lemma_digits_end(s: Seq<char>, i: int, j: int)
    requires
        0 <= i <= j <= s.len(),
        forall|k: int| i <= k < j ==> is_digit(#[trigger] s[k]),
        j == s.len() || !is_digit(s[j]),
    ensures
        digits_end(s, i) == j,
    decreases j - i,
{
    if i < j {
        lemma_digits_end(s, i + 1, j);
    }
}

proof fn lemma_digits_end_bounds(s: Seq<char>, i: int)
    requires
        0 <= i <= s.len(),
    ensures
        i <= digits_end(s, i) <= s.len(),
        forall|k: int| i <= k < digits_end(s, i) ==> is_digit(#[trigger] s[k]),
    decreases s.len() - i,
{
    if i < s.len() && is_digit(s[i]) {
        lemma_digits_end_bounds(s, i + 1);
    }
}

/// A longer run of digits spells a number at least as large.
proof fn lemma_nat_of_prefix(t: Seq<char>, k: int)
    requires
        0 <= k <= t.len(),
    ensures
        nat_of(t.subrange(0, k)) <= nat_of(t),
    decreases t.len(),
{
    if k < t.len() {
        assert(t.drop_last().subrange(0, k) =~= t.subrange(0, k));
        lemma_nat_of_prefix(t.drop_last(), k);
    } else {
        assert(t.subrange(0, k) =~= t);
    }
}

/// The decimal digits of `n` at `i`, followed by no digit, read back as `n`.
pub(crate) proof fn lemma_nat_token_of_dec(s: Seq<char>, i: int, n: nat, limit: nat)
    requires
        holds_at(s, i, dec(n)),
        n <= limit,
        i + dec(n).len() == s.len() || !is_digit(s[i + dec(n).len()]),
    ensures
        nat_token(s, i, limit) == Some((n, i + dec(n).len())),
{
    lemma_dec_round_trip(n);
    let d = dec(n);
    assert forall|k: int| i <= k < i + d.len() implies is_digit(#[trigger] s[k]) by {
        assert(s[k] == s.subrange(i, i + d.len())[k - i]);
    }
    lemma_digits_end(s, i, i + d.len());
}

fn is_digit_char(c: char) -> (r: bool)
    ensures
        r == is_digit(c),
{
    '0' <= c && c <= '9'
}

/// Reads the number spelled by the digits at `i`, up to `limit`.
pub fn read_nat(s: &Vec<char>, i: usize, limit: u64) -> (r: Option<(u64, usize)>)
    requires
        i <= s@.len(),
    ensures
        r matches Some((v, j)) ==> nat_token(s@, i as int, limit as nat) == Some((v as nat, j as int)),
        r matches Some((v, j)) ==> i < j <= s@.len(),
        r is None ==> nat_token(s@, i as int, limit as nat) is None,
{
    let mut k: usize = i;
    let mut v: u64 = 0;
    proof {
        lemma_digits_end_bounds(s@, i as int);
    }
    while k < s.len() && is_digit_char(s[k])
        invariant
            i <= k <= s@.len(),
            forall|m: int| i <= m < k ==> is_digit(#[trigger] s@[m]),
            digits_end(s@, i as int) == digits_end(s@, k as int),
            v == nat_of(s@.subrange(i as int, k as int)),
            v <= limit,
            i <= digits_end(s@, i as int) <= s@.len(),
        decreases s@.len() - k,
    {
        let d: u64 = (s[k] as u32 - '0' as u32) as u64;
        let nv: u128 = v as u128 * 10 + d as u128;
        proof {
            let t = s@.subrange(i as int, k as int + 1);
            assert(t.drop_last() =~= s@.subrange(i as int, k as int));
            assert(nat_of(t) == v * 10 + d);
            lemma_digits_end_bounds(s@, k as int + 1);
            assert(digits_end(s@, k as int) == digits_end(s@, k as int + 1));
        }
        if nv > limit as u128 {
            proof {
                let e = digits_end(s@, i as int);
                lemma_digits_end_bounds(s@, i as int);
                let full = s@.subrange(i as int, e);
                assert(full.subrange(0, k - i + 1) =~= s@.subrange(i as int, k as int + 1));
                lemma_nat_of_prefix(full, k - i + 1);
            }
            return None;
        }
        v = nv as u64;
        k = k + 1;
    }
    if k == i {
        None
    } else {
        Some((v, k))
    }
}

/// Whether `s` holds the characters of `lit` at `i`.
pub fn read_literal(s: &Vec<char>, i: usize, lit: &Vec<char>) -> (r: bool)
    ensures
        r == holds_at(s@, i as int, lit@),
{
    if i > s.len() || lit.len() > s.len() - i {
        return false;
    }
    let n = s.len();
    let mut k: usize = 0;
    while k < lit.len()
        invariant
            n == s@.len(),
            i + lit@.len() <= s@.len(),
            k <= lit@.len(),
            forall|m: int| 0 <= m < k ==> s@[i + m] == lit@[m],
        decreases lit@.len() - k,
    {
        assert(i + k < s@.len());
        if s[i + k] != lit[k] {
            assert(s@.subrange(i as int, i + lit@.len())[k as int] != lit@[k as int]);
            return false;
        }
        k = k + 1;
    }
    assert(s@.subrange(i as int, i + lit@.len()) =~= lit@);
    true
}

/// Largest magnitude of an exponent in a written estimate.
pub const EXPONENT_BOUND: u64 = 1000;

/// Most fraction digits an estimate is written with.
pub const FRACTION_DIGITS: u8 = 6;

/// Whether `c` is JSON whitespace.
pub open spec fn is_ws(c: char) -> bool {
    c == ' ' || c == '\t' || c == '\n' || c == '\r'
}

/// End of the run of whitespace that starts at `i`.
pub open spec fn ws_end(s: Seq<char>, i: int) -> int
    decreases s.len() - i,
{
    if 0 <= i < s.len() && is_ws(s[i]) { ws_end(s, i + 1) } else { i }
}

/// An optional exponent at `i`: `e` or `E`, an optional sign, and digits
/// spelling at most `EXPONENT_BOUND`; zero where there is none. Its value and
/// where it ends.
pub open spec fn exponent_token(s: Seq<char>, i: int) -> Option<(int, int)> {
    if 0 <= i < s.len() && (s[i] == 'e' || s[i] == 'E') {
        let neg = i + 1 < s.len() && s[i + 1] == '-';
        let b = if i + 1 < s.len() && (s[i + 1] == '-' || s[i + 1] == '+') { i + 2 } else { i + 1 };
        match nat_token(s, b, EXPONENT_BOUND as nat) {
            Some((e, j)) => Some((if neg { -e } else { e as int }, j)),
            None => None,
        }
    } else {
        Some((0, i))
    }
}

/// `n` times ten to the power `sh`, rounded down where `sh` is negative.
pub open spec fn scaled(n: nat, sh: int) -> nat {
    if sh >= 0 { n * pow10(sh as nat) } else { n / pow10((-sh) as nat) }
}

/// A JSON number at `i`: an optional minus sign, whole digits, optionally a
/// point and fraction digits, and an optional exponent. Its digits, read
/// without the point, must spell at most `u64::MAX`. Its value in millionths,
/// rounded toward zero and within the estimate bound, and where it ends.
pub open spec fn number_token(s: Seq<char>, i: int) -> Option<(int, int)> {
    let neg = 0 <= i < s.len() && s[i] == '-';
    let b = if neg { i + 1 } else { i };
    match nat_token(s, b, u64::MAX as nat) {
        None => None,
        Some((w, j)) => {
            let point = j < s.len() && s[j] == '.';
            let k = if point { digits_end(s, j + 1) } else { j };
            let flen = if point { k - (j + 1) } else { 0 };
            let n = if point { w * pow10(flen as nat) + nat_of(s.subrange(j + 1, k)) } else { w };
            if (point && flen < 1) || n > u64::MAX {
                None
            } else {
                match exponent_token(s, k) {
                    None => None,
                    Some((e, m)) => {
                        let mag = scaled(n, 6 + e - flen);
                        if mag > ESTIMATE_BOUND {
                            None
                        } else {
                            Some((if neg { -mag } else { mag as int }, m))
                        }
                    },
                }
            }
        },
    }
}

/// An estimate at `i`: a JSON number with whitespace allowed around it; its
/// value in millionths and where it and the whitespace after it end.
pub open spec fn fixed_token(s: Seq<char>, i: int) -> Option<(int, int)> {
    match number_token(s, ws_end(s, i)) {
        Some((v, m)) => Some((v, ws_end(s, m))),
        None => None,
    }
}

/// Spelling of an estimate (millionths) as a decimal with six fraction digits.
pub open spec fn fixed_text(v: int) -> Seq<char> {
    let mag = if v < 0 { -v } else { v };
    (if v < 0 { seq!['-'] } else { Seq::empty() }) + dec((mag / SCALE as int) as nat) + seq!['.']
        + dec_padded((mag % SCALE as int) as nat, 6)
}

/// Returns where the run of digits at `i` ends.
fn scan_digits(s: &Vec<char>, i: usize) -> (r: usize)
    requires
        i <= s@.len(),
    ensures
        r as int == digits_end(s@, i as int),
{
    let mut k: usize = i;
    while k < s.len() && is_digit_char(s[k])
        invariant
            i <= k <= s@.len(),
            digits_end(s@, i as int) == digits_end(s@, k as int),
        decreases s@.len() - k,
    {
        k = k + 1;
    }
    k
}

/// The whole digits `w` followed by the first `c` fraction digits of `t`,
/// read as one number.
pub open spec fn frac_acc(w: nat, t: Seq<char>, c: int) -> nat {
    w * pow10(c as nat) + nat_of(t.subrange(0, c))
}

proof fn lemma_frac_acc_step(w: nat, t: Seq<char>, c: int)
    requires
        0 <= c < t.len(),
    ensures
        frac_acc(w, t, c + 1) == 10 * frac_acc(w, t, c) + digit_value(t[c]),
{
    assert(t.subrange(0, c + 1).drop_last() =~= t.subrange(0, c));
    assert(pow10((c + 1) as nat) == 10 * pow10(c as nat));
    assert(w * pow10((c + 1) as nat) == 10 * (w * pow10(c as nat))) by (nonlinear_arith)
        requires pow10((c + 1) as nat) == 10 * pow10(c as nat);
}

proof fn lemma_frac_acc_mono(w: nat, t: Seq<char>, c: int, d: int)
    requires
        0 <= c <= d <= t.len(),
    ensures
        frac_acc(w, t, c) <= frac_acc(w, t, d),
    decreases d - c,
{
    if c < d {
        lemma_frac_acc_step(w, t, c);
        lemma_frac_acc_mono(w, t, c + 1, d);
    }
}

/// Ten to the powers that the reading of estimates meets.
proof fn lemma_pow10_values()
    ensures
        pow10(0) == 1,
        pow10(12) == 1_000_000_000_000,
        pow10(13) == 10_000_000_000_000,
        pow10(19) == 10_000_000_000_000_000_000,
        pow10(20) == 100_000_000_000_000_000_000,
{
    reveal_with_fuel(pow10, 21);
}

proof fn lemma_pow10_mono(a: nat, b: nat)
    requires
        a <= b,
    ensures
        pow10(a) <= pow10(b),
{
    lemma_pow10_add(a, (b - a) as nat);
    lemma_pow10_pos(a);
    lemma_pow10_pos((b - a) as nat);
    assert(pow10(a) <= pow10(a) * pow10((b - a) as nat)) by (nonlinear_arith)
        requires pow10((b - a) as nat) > 0, pow10(a) > 0;
}

/// Ten to the power `k`.
fn pow10_of(k: u32) -> (r: u64)
    requires
        k <= 19,
    ensures
        r == pow10(k as nat),
{
    let mut r: u64 = 1;
    let mut c: u32 = 0;
    proof { lemma_pow10_values(); }
    while c < k
        invariant
            c <= k <= 19,
            r == pow10(c as nat),
        decreases k - c,
    {
        proof {
            lemma_pow10_mono((c + 1) as nat, 19);
            lemma_pow10_values();
            assert(pow10((c + 1) as nat) == 10 * pow10(c as nat));
        }
        r = r * 10;
        c = c + 1;
    }
    r
}

fn is_ws_char(c: char) -> (r: bool)
    ensures
        r == is_ws(c),
{
    c == ' ' || c == '\t' || c == '\n' || c == '\r'
}

/// Returns where the run of whitespace at `i` ends.
fn skip_ws(s: &Vec<char>, i: usize) -> (r: usize)
    requires
        i <= s@.len(),
    ensures
        r as int == ws_end(s@, i as int),
        i <= r <= s@.len(),
{
    let mut k: usize = i;
    while k < s.len() && is_ws_char(s[k])
        invariant
            i <= k <= s@.len(),
            ws_end(s@, i as int) == ws_end(s@, k as int),
        decreases s@.len() - k,
    {
        k = k + 1;
    }
    k
}

/// Reads an optional exponent at `i`.
fn read_exponent(s: &Vec<char>, i: usize) -> (r: Option<(i64, usize)>)
    requires
        i <= s@.len(),
    ensures
        r matches Some((e, j)) ==> exponent_token(s@, i as int) == Some((e as int, j as int)) && j <= s@.len(),
        r matches Some((e, j)) ==> -1000 <= e <= 1000,
        r is None ==> exponent_token(s@, i as int) is None,
{
    if i < s.len() && (s[i] == 'e' || s[i] == 'E') {
        let neg = i + 1 < s.len() && s[i + 1] == '-';
        let b: usize = if i + 1 < s.len() && (s[i + 1] == '-' || s[i + 1] == '+') { i + 2 } else { i + 1 };
        match read_nat(s, b, EXPONENT_BOUND) {
            Some((e, j)) => Some((if neg { -(e as i64) } else { e as i64 }, j)),
            None => None,
        }
    } else {
        Some((0, i))
    }
}

proof fn lemma_frac_acc_zero(w: nat, t: Seq<char>)
    ensures
        frac_acc(w, t, 0) == w,
{
    assert(t.subrange(0, 0) =~= Seq::<char>::empty());
    assert(nat_of(t.subrange(0, 0)) == 0);
    assert(pow10(0) == 1);
    assert(pow10((0int) as nat) == 1);
    assert(w * 1 == w);
    assert(frac_acc(w, t, 0) == w * pow10((0int) as nat) + nat_of(t.subrange(0, 0)));
}

/// Reads the fraction digits after the point at `j`, appending them to the
/// whole digits `w`: the number they spell together, where the digits end,
/// and how many there are; none where there are no digits or the number
/// passes `u64::MAX`.
fn read_fraction(s: &Vec<char>, j: usize, w: u64) -> (r: Option<(u64, usize, usize)>)
    requires
        j < s@.len(),
    ensures
        ({
            let k = digits_end(s@, j + 1);
            let flen = k - (j + 1);
            let n = w * pow10(flen as nat) + nat_of(s@.subrange(j + 1, k));
            &&& r matches Some((nn, kk, ff)) ==> kk == k && ff == flen && nn == n && flen >= 1
                && kk <= s@.len()
            &&& r is None ==> flen < 1 || n > u64::MAX
        }),
{
    let len = s.len();
    let k = scan_digits(s, j + 1);
    proof {
        lemma_digits_end_bounds(s@, j + 1);
    }
    let flen: usize = k - (j + 1);
    if flen < 1 {
        return None;
    }
    let ghost t = s@.subrange(j + 1, k as int);
    let mut acc: u128 = w as u128;
    let mut c: usize = 0;
    proof {
        lemma_frac_acc_zero(w as nat, t);
    }
    while c < flen
        invariant
            t == s@.subrange(j + 1, k as int),
            k as int == digits_end(s@, j + 1),
            flen == t.len(),
            j + 1 + flen == k <= s@.len(),
            forall|m: int| j + 1 <= m < k ==> is_digit(#[trigger] s@[m]),
            c <= flen,
            acc == frac_acc(w as nat, t, c as int),
            acc <= u64::MAX,
        decreases flen - c,
    {
        proof {
            lemma_frac_acc_step(w as nat, t, c as int);
            assert(t[c as int] == s@[j + 1 + c]);
        }
        let d: u128 = (s[j + 1 + c] as u32 - '0' as u32) as u128;
        let na: u128 = acc * 10 + d;
        if na > u64::MAX as u128 {
            proof {
                assert(d == digit_value(t[c as int]));
                assert(na == frac_acc(w as nat, t, c as int + 1));
                lemma_frac_acc_mono(w as nat, t, c as int + 1, flen as int);
                assert(t.subrange(0, flen as int) =~= t);
                assert(frac_acc(w as nat, t, flen as int) == w * pow10(flen as nat) + nat_of(s@.subrange(j + 1, k as int)));
                assert(frac_acc(w as nat, t, flen as int) >= na);
                assert(w * pow10(flen as nat) + nat_of(s@.subrange(j + 1, k as int)) > u64::MAX);
                assert(k as int == digits_end(s@, j + 1));
                assert(flen as int == k - (j + 1));
            }
            return None;
        }
        proof {
            assert(d == digit_value(t[c as int]));
        }
        acc = na;
        c = c + 1;
    }
    proof {
        assert(t.subrange(0, flen as int) =~= t);
        assert(acc == w * pow10(flen as nat) + nat_of(s@.subrange(j + 1, k as int)));
    }
    Some((acc as u64, k, flen))
}

/// `n` times ten to the power `sh` (rounded down where `sh` is negative), if
/// it is within the estimate bound.
fn scale_millionths(n: u64, sh: i128) -> (r: Option<u64>)
    requires
        sh > i128::MIN,
    ensures
        r matches Some(x) ==> x == scaled(n as nat, sh as int) && x <= ESTIMATE_BOUND,
        r is None ==> scaled(n as nat, sh as int) > ESTIMATE_BOUND,
{
    proof {
        lemma_pow10_values();
    }
    if n == 0 {
        proof {
            if sh < 0 {
                lemma_pow10_pos((-sh) as nat);
                vstd::arithmetic::div_mod::lemma_basic_div_specific_divisor(pow10((-sh) as nat) as int);
            }
        }
        return Some(0);
    }
    if sh >= 0 {
        if sh > 12 {
            proof {
                lemma_pow10_mono(13, sh as nat);
                assert(n * pow10(sh as nat) >= pow10(sh as nat)) by (nonlinear_arith)
                    requires n >= 1, pow10(sh as nat) >= 0;
            }
            return None;
        }
        let p = pow10_of(sh as u32);
        proof {
            lemma_pow10_mono(sh as nat, 12);
            assert(n as int * p as int <= 0xffff_ffff_ffff_ffffu64 as int * 1_000_000_000_000) by (nonlinear_arith)
                requires n <= 0xffff_ffff_ffff_ffffu64, p <= 1_000_000_000_000u64;
        }
        let x: u128 = n as u128 * p as u128;
        if x > ESTIMATE_BOUND as u128 {
            return None;
        }
        Some(x as u64)
    } else {
        let ns: i128 = -sh;
        if ns >= 20 {
            proof {
                lemma_pow10_mono(20, ns as nat);
                vstd::arithmetic::div_mod::lemma_basic_div_specific_divisor(pow10(ns as nat) as int);
            }
            return Some(0);
        }
        let p = pow10_of(ns as u32);
        proof {
            lemma_pow10_pos(ns as nat);
            vstd::arithmetic::div_mod::lemma_div_is_ordered_by_denominator(n as int, 1, p as int);
            vstd::arithmetic::div_mod::lemma_div_basics(n as int);
        }
        let x = n / p;
        if x > ESTIMATE_BOUND as u64 {
            return None;
        }
        Some(x)
    }
}

/// Reads a JSON number at `i` as millionths, rounded toward zero.
fn read_number(s: &Vec<char>, i: usize) -> (r: Option<(i64, usize)>)
    requires
        i <= s@.len(),
    ensures
        r matches Some((v, j)) ==> number_token(s@, i as int) == Some((v as int, j as int)) && j <= s@.len(),
        r is None ==> number_token(s@, i as int) is None,
{
    let neg = i < s.len() && s[i] == '-';
    let b: usize = if neg { i + 1 } else { i };
    let (w, j) = match read_nat(s, b, u64::MAX) {
        None => return None,
        Some(p) => p,
    };
    let (n, k, flen) = if j < s.len() && s[j] == '.' {
        match read_fraction(s, j, w) {
            None => return None,
            Some(p) => p,
        }
    } else {
        (w, j, 0)
    };
    let (e, m) = match read_exponent(s, k) {
        None => return None,
        Some(p) => p,
    };
    let sh: i128 = 6 + e as i128 - flen as i128;
    let mag = match scale_millionths(n, sh) {
        None => return None,
        Some(x) => x,
    };
    let v: i64 = if neg { -(mag as i64) } else { mag as i64 };
    Some((v, m))
}

/// Reads an estimate at `i`: a JSON number with whitespace allowed around it.
pub fn read_fixed(s: &Vec<char>, i: usize) -> (r: Option<(i64, usize)>)
    requires
        i <= s@.len(),
    ensures
        r matches Some((v, j)) ==> fixed_token(s@, i as int) == Some((v as int, j as int)),
        r matches Some((v, j)) ==> j <= s@.len(),
        r is None ==> fixed_token(s@, i as int) is None,
{
    let a = skip_ws(s, i);
    match read_number(s, a) {
        Some((v, m)) => Some((v, skip_ws(s, m))),
        None => None,
    }
}

/// Powers of ten multiply by adding exponents.
proof fn lemma_pow10_add(a: nat, b: nat)
    ensures
        pow10(a) * pow10(b) == pow10(a + b),
    decreases a,
{
    if a > 0 {
        lemma_pow10_add((a - 1) as nat, b);
        assert(pow10(a + b) == 10 * pow10((a - 1 + b) as nat));
        assert(pow10(a) * pow10(b) == 10 * (pow10((a - 1) as nat) * pow10(b))) by (nonlinear_arith)
            requires pow10(a) == 10 * pow10((a - 1) as nat);
        assert((a - 1 + b) as nat == (a + b - 1) as nat);
    } else {
        assert(pow10(0) == 1);
        assert(a + b == b);
    }
}

/// The two kinds of bracketed list in a log row.
#[derive(Clone, Copy, Debug, PartialEq, Eq, Structural)]
pub enum ItemKind {
    /// Estimates, written as decimals and held in millionths.
    Fixed,
    /// Chest indices, written as whole numbers up to 255.
    Byte,
}

/// One list element at `i`, with whitespace allowed around it, and where it
/// and the whitespace after it end.
pub open spec fn item_token(kind: ItemKind, s: Seq<char>, i: int) -> Option<(int, int)> {
    match kind {
        ItemKind::Fixed => fixed_token(s, i),
        ItemKind::Byte => match nat_token(s, ws_end(s, i), 255) {
            Some((v, j)) => Some((v as int, ws_end(s, j))),
            None => None,
        },
    }
}

/// The elements at `i`, separated by commas and closed by `]`, and the
/// position after the bracket.
pub open spec fn list_items(kind: ItemKind, s: Seq<char>, i: int) -> Option<(Seq<int>, int)>
    decreases s.len() - i,
{
    match item_token(kind, s, i) {
        None => None,
        Some((v, j)) => {
            if j <= i || j >= s.len() {
                None
            } else if s[j] == ']' {
                Some((seq![v], j + 1))
            } else if s[j] == ',' {
                match list_items(kind, s, j + 1) {
                    Some((vs, k)) => Some((seq![v] + vs, k)),
                    None => None,
                }
            } else {
                None
            }
        }
    }
}

/// The elements of `s` read as a bracketed, comma-separated list that
/// takes the whole of `s`, with whitespace allowed around the brackets.
pub open spec fn list_of(kind: ItemKind, s: Seq<char>) -> Option<Seq<int>> {
    let a = ws_end(s, 0);
    if a < s.len() && s[a] == '[' {
        let b = ws_end(s, a + 1);
        if b < s.len() && s[b] == ']' {
            if ws_end(s, b + 1) == s.len() { Some(Seq::empty()) } else { None }
        } else {
            match list_items(kind, s, a + 1) {
                Some((vs, k)) => if ws_end(s, k) == s.len() { Some(vs) } else { None },
                None => None,
            }
        }
    } else {
        None
    }
}

/// Spelling of one element.
pub open spec fn item_text(kind: ItemKind, v: int) -> Seq<char> {
    match kind {
        ItemKind::Fixed => fixed_text(v),
        ItemKind::Byte => dec(v as nat),
    }
}

/// Spelling of the elements `vs`, separated by commas.
pub open spec fn items_text(kind: ItemKind, vs: Seq<int>) -> Seq<char>
    decreases vs.len(),
{
    if vs.len() == 0 {
        Seq::empty()
    } else if vs.len() == 1 {
        item_text(kind, vs[0])
    } else {
        item_text(kind, vs[0]) + seq![','] + items_text(kind, vs.drop_first())
    }
}

/// Spelling of the list `vs` in brackets.
pub open spec fn list_text(kind: ItemKind, vs: Seq<int>) -> Seq<char> {
    seq!['['] + items_text(kind, vs) + seq![']']
}

/// Whether `v` can stand in a list of `kind`.
pub open spec fn item_fits(kind: ItemKind, v: int) -> bool {
    match kind {
        ItemKind::Fixed => -ESTIMATE_BOUND <= v <= ESTIMATE_BOUND,
        ItemKind::Byte => 0 <= v <= 255,
    }
}

fn read_item(kind: ItemKind, s: &Vec<char>, i: usize) -> (r: Option<(i64, usize)>)
    requires
        i <= s@.len(),
    ensures
        r matches Some((v, j)) ==> item_token(kind, s@, i as int) == Some((v as int, j as int)),
        r matches Some((v, j)) ==> j <= s@.len(),
        r is None ==> item_token(kind, s@, i as int) is None,
{
    match kind {
        ItemKind::Fixed => read_fixed(s, i),
        ItemKind::Byte => {
            let a = skip_ws(s, i);
            match read_nat(s, a, 255) {
                Some((v, j)) => Some((v as i64, skip_ws(s, j))),
                None => None,
            }
        },
    }
}

/// Reads `s` as a bracketed, comma-separated list of `kind`.
pub fn read_list(kind: ItemKind, s: &Vec<char>) -> (r: Option<Vec<i64>>)
    ensures
        r matches Some(v) ==> list_of(kind, s@) == Some(ints_of(v@)),
        r is None ==> list_of(kind, s@) is None,
{
    let n = s.len();
    let a = skip_ws(s, 0);
    if a >= n || s[a] != '[' {
        return None;
    }
    let b = skip_ws(s, a + 1);
    if b < n && s[b] == ']' {
        if skip_ws(s, b + 1) == n {
            let out: Vec<i64> = Vec::new();
            assert(ints_of(out@) =~= Seq::<int>::empty());
            return Some(out);
        }
        return None;
    }
    let mut out: Vec<i64> = Vec::new();
    let mut pos: usize = a + 1;
    assert(ints_of(out@) + Seq::<int>::empty() =~= Seq::<int>::empty());
    loop
        invariant
            n == s@.len(),
            a < n,
            a + 1 <= pos <= n,
            a == ws_end(s@, 0),
            s@[a as int] == '[',
            !(b < n && s@[b as int] == ']'),
            b == ws_end(s@, a + 1),
            forall|vs: Seq<int>, k: int| list_items(kind, s@, pos as int) == Some((vs, k))
                ==> list_items(kind, s@, a + 1) == Some((ints_of(out@) + vs, k)),
            list_items(kind, s@, pos as int) is None ==> list_items(kind, s@, a + 1) is None,
        decreases n - pos,
    {
        let (v, j) = match read_item(kind, s, pos) {
            None => return None,
            Some(p) => p,
        };
        if j <= pos || j >= n {
            return None;
        }
        let ghost before = ints_of(out@);
        if s[j] == ']' {
            out.push(v);
            proof {
                assert(ints_of(out@) =~= before + seq![v as int]);
                assert(list_items(kind, s@, pos as int) == Some((seq![v as int], j + 1)));
                assert(before + seq![v as int] =~= ints_of(out@));
                assert(list_items(kind, s@, a + 1) == Some((before + seq![v as int], j + 1)));
                assert(list_items(kind, s@, a + 1) == Some((ints_of(out@), j + 1)));
            }
            if skip_ws(s, j + 1) == n {
                return Some(out);
            }
            return None;
        } else if s[j] == ',' {
            out.push(v);
            proof {
                assert(ints_of(out@) =~= before + seq![v as int]);
                assert forall|vs: Seq<int>, k: int| list_items(kind, s@, j + 1) == Some((vs, k))
                    implies list_items(kind, s@, a + 1) == Some((ints_of(out@) + vs, k)) by {
                    assert(list_items(kind, s@, pos as int) == Some((seq![v as int] + vs, k)));
                    assert(before + (seq![v as int] + vs) =~= ints_of(out@) + vs);
                }
            }
            pos = j + 1;
        } else {
            return None;
        }
    }
}

/// Appends the spelling of `v` (millionths) as a decimal with six fraction digits.
fn push_fixed(out: &mut Vec<char>, v: i64)
    requires
        -ESTIMATE_BOUND <= v <= ESTIMATE_BOUND,
    ensures
        final(out)@ == old(out)@ + fixed_text(v as int),
{
    let mag: u64 = if v < 0 { (-v) as u64 } else { v as u64 };
    if v < 0 {
        out.push('-');
    }
    crate::text::push_dec(out, mag / SCALE as u64);
    out.push('.');
    crate::text::push_dec_padded(out, mag % SCALE as u64, FRACTION_DIGITS);
    proof {
        let sign: Seq<char> = if v < 0 { seq!['-'] } else { Seq::empty() };
        assert(final(out)@ =~= old(out)@ + (sign + dec((mag / SCALE as u64) as nat) + seq!['.']
            + dec_padded((mag % SCALE as u64) as nat, 6)));
    }
}

/// Spelling one more element at the end adds a comma and its spelling.
proof fn lemma_items_text_push(kind: ItemKind, vs: Seq<int>, x: int)
    ensures
        items_text(kind, vs.push(x)) == if vs.len() == 0 {
            item_text(kind, x)
        } else {
            items_text(kind, vs) + seq![','] + item_text(kind, x)
        },
    decreases vs.len(),
{
    let w = vs.push(x);
    if vs.len() == 1 {
        assert(w.drop_first() =~= seq![x]);
        assert(items_text(kind, seq![x]) == item_text(kind, x));
    } else if vs.len() > 1 {
        assert(w.drop_first() =~= vs.drop_first().push(x));
        lemma_items_text_push(kind, vs.drop_first(), x);
        assert(w[0] == vs[0]);
    }
}

/// Appends the spelling of the list `vs` of `kind` in brackets.
pub fn push_list(out: &mut Vec<char>, kind: ItemKind, vs: &Vec<i64>)
    requires
        forall|i: int| 0 <= i < vs@.len() ==> item_fits(kind, #[trigger] vs@[i] as int),
    ensures
        final(out)@ == old(out)@ + list_text(kind, ints_of(vs@)),
{
    let ghost ints = ints_of(vs@);
    out.push('[');
    let mut i: usize = 0;
    while i < vs.len()
        invariant
            ints == ints_of(vs@),
            forall|m: int| 0 <= m < vs@.len() ==> item_fits(kind, #[trigger] vs@[m] as int),
            i <= vs@.len(),
            out@ == old(out)@.push('[') + items_text(kind, ints.subrange(0, i as int)),
        decreases vs@.len() - i,
    {
        let ghost before = out@;
        if i > 0 {
            out.push(',');
        }
        match kind {
            ItemKind::Fixed => push_fixed(out, vs[i]),
            ItemKind::Byte => crate::text::push_dec(out, vs[i] as u64),
        }
        proof {
            let pre = ints.subrange(0, i as int);
            assert(ints.subrange(0, i + 1) =~= pre.push(ints[i as int]));
            lemma_items_text_push(kind, pre, ints[i as int]);
            if i == 0 {
                assert(pre.len() == 0);
                assert(items_text(kind, pre) == Seq::<char>::empty());
            }
        }
        i = i + 1;
    }
    out.push(']');
    proof {
        assert(ints.subrange(0, i as int) =~= ints);
        assert(final(out)@ =~= old(out)@ + list_text(kind, ints));
    }
}

/// Text held at `i` as a concatenation holds each part in turn.
proof fn lemma_holds_at_concat(s: Seq<char>, i: int, a: Seq<char>, b: Seq<char>)
    requires
        holds_at(s, i, a + b),
    ensures
        holds_at(s, i, a),
        holds_at(s, i + a.len(), b),
{
    let whole = s.subrange(i, i + (a + b).len());
    assert(whole == a + b);
    assert(s.subrange(i, i + a.len()) =~= whole.subrange(0, a.len() as int));
    assert(whole.subrange(0, a.len() as int) =~= a);
    assert(s.subrange(i + a.len(), i + a.len() + b.len()) =~= whole.subrange(a.len() as int, (a + b).len() as int));
    assert(whole.subrange(a.len() as int, (a + b).len() as int) =~= b);
}

proof fn lemma_holds_at_char(s: Seq<char>, i: int, a: Seq<char>, k: int)
    requires
        holds_at(s, i, a),
        0 <= k < a.len(),
    ensures
        s[i + k] == a[k],
{
    assert(s.subrange(i, i + a.len())[k] == s[i + k]);
}

proof fn lemma_scaled_unshifted(n: nat, e: int, flen: int)
    requires
        e == 0,
        flen == 6,
    ensures
        scaled(n, 6 + e - flen) == n,
{
    assert(6 + e - flen == 0);
    assert(pow10(0) == 1);
    assert(pow10((6 + e - flen) as nat) == 1);
    assert(n * pow10((6 + e - flen) as nat) == n * 1);
    assert(n * 1 == n);
}

/// A decimal spelled by `fixed_text`, followed by a comma or a closing
/// bracket, reads back as the same value.
#[verifier::rlimit(60)]
proof fn lemma_fixed_round_trip(s: Seq<char>, i: int, v: int)
    requires
        -ESTIMATE_BOUND <= v <= ESTIMATE_BOUND,
        holds_at(s, i, fixed_text(v)),
        i + fixed_text(v).len() < s.len(),
        s[i + fixed_text(v).len()] == ',' || s[i + fixed_text(v).len()] == ']',
    ensures
        fixed_text(v).len() > 0,
        fixed_token(s, i) == Some((v, i + fixed_text(v).len())),
{
    let mag = if v < 0 { -v } else { v };
    let w = (mag / SCALE as int) as nat;
    let f = (mag % SCALE as int) as nat;
    let sign: Seq<char> = if v < 0 { seq!['-'] } else { Seq::empty() };
    let t = fixed_text(v);
    assert(t == sign + dec(w) + seq!['.'] + dec_padded(f, 6));
    lemma_dec_round_trip(w);
    lemma_dec_padded_round_trip(f, 6);
    lemma_holds_at_concat(s, i, sign + dec(w) + seq!['.'], dec_padded(f, 6));
    lemma_holds_at_concat(s, i, sign + dec(w), seq!['.']);
    lemma_holds_at_concat(s, i, sign, dec(w));
    let b = i + sign.len();
    let j = b + dec(w).len();
    let k = j + 7;
    lemma_holds_at_char(s, j, seq!['.'], 0);
    if v >= 0 {
        lemma_holds_at_char(s, b, dec(w), 0);
        assert(is_digit(dec(w)[0]));
    } else {
        lemma_holds_at_char(s, i, sign, 0);
    }
    assert(!is_ws(s[i]));
    assert(ws_end(s, i) == i);
    assert(w <= u64::MAX);
    lemma_nat_token_of_dec(s, b, w, u64::MAX as nat);
    let p = dec_padded(f, 6);
    assert forall|m: int| j + 1 <= m < j + 7 implies is_digit(#[trigger] s[m]) by {
        lemma_holds_at_char(s, j + 1, p, m - (j + 1));
    }
    assert(k == i + t.len());
    lemma_digits_end(s, j + 1, k);
    assert(s.subrange(j + 1, k) =~= p);
    vstd::arithmetic::div_mod::lemma_fundamental_div_mod(mag, SCALE as int);
    lemma_pow10_values();
    reveal_with_fuel(pow10, 7);
    assert(pow10(6) == 1_000_000);
    vstd::arithmetic::div_mod::lemma_small_mod(f, 1_000_000);
    let n = w * pow10(6) + nat_of(s.subrange(j + 1, k));
    assert(n == mag);
    assert(exponent_token(s, k) == Some((0int, k)));
    lemma_scaled_unshifted(n, 0, k - (j + 1));
    assert(number_token(s, i) == Some((v, k)));
    assert(ws_end(s, k) == k);
}

/// An element's spelling followed by a comma or a closing bracket reads back
/// as the element.
proof fn lemma_item_round_trip(kind: ItemKind, s: Seq<char>, i: int, v: int)
    requires
        item_fits(kind, v),
        holds_at(s, i, item_text(kind, v)),
        i + item_text(kind, v).len() < s.len(),
        s[i + item_text(kind, v).len()] == ',' || s[i + item_text(kind, v).len()] == ']',
    ensures
        item_text(kind, v).len() > 0,
        item_token(kind, s, i) == Some((v, i + item_text(kind, v).len())),
{
    match kind {
        ItemKind::Byte => {
            lemma_dec_round_trip(v as nat);
            lemma_nat_token_of_dec(s, i, v as nat, 255);
        },
        ItemKind::Fixed => {
            lemma_fixed_round_trip(s, i, v);
        },
    }
}

/// A list's elements spelled with commas and a closing bracket read back as
/// the elements.
proof fn lemma_items_round_trip(kind: ItemKind, s: Seq<char>, i: int, vs: Seq<int>)
    requires
        vs.len() >= 1,
        forall|k: int| 0 <= k < vs.len() ==> item_fits(kind, #[trigger] vs[k]),
        holds_at(s, i, items_text(kind, vs) + seq![']']),
    ensures
        list_items(kind, s, i) == Some((vs, i + items_text(kind, vs).len() + 1)),
    decreases vs.len(),
{
    let head = item_text(kind, vs[0]);
    assert(item_fits(kind, vs[0]));
    if vs.len() == 1 {
        lemma_holds_at_concat(s, i, head, seq![']']);
        lemma_holds_at_char(s, i + head.len(), seq![']'], 0);
        lemma_item_round_trip(kind, s, i, vs[0]);
        assert(seq![vs[0]] =~= vs);
    } else {
        let rest = vs.drop_first();
        assert(items_text(kind, vs) == head + seq![','] + items_text(kind, rest));
        assert(items_text(kind, vs) + seq![']'] =~= head + seq![','] + (items_text(kind, rest) + seq![']']));
        lemma_holds_at_concat(s, i, head + seq![','], items_text(kind, rest) + seq![']']);
        lemma_holds_at_concat(s, i, head, seq![',']);
        lemma_holds_at_char(s, i + head.len(), seq![','], 0);
        lemma_holds_at_concat(s, i + head.len() + 1, items_text(kind, rest), seq![']']);
        lemma_holds_at_char(s, i + head.len() + 1 + items_text(kind, rest).len(), seq![']'], 0);
        lemma_item_round_trip(kind, s, i, vs[0]);
        assert forall|k: int| 0 <= k < rest.len() implies item_fits(kind, #[trigger] rest[k]) by {
            assert(rest[k] == vs[k + 1]);
        }
        lemma_items_round_trip(kind, s, i + head.len() + 1, rest);
        assert(seq![vs[0]] + rest =~= vs);
    }
}

/// A list spelled by `list_text` reads back as the same list.
pub proof fn lemma_list_round_trip(kind: ItemKind, vs: Seq<int>)
    requires
        forall|k: int| 0 <= k < vs.len() ==> item_fits(kind, #[trigger] vs[k]),
    ensures
        list_of(kind, list_text(kind, vs)) == Some(vs),
{
    let s = list_text(kind, vs);
    if vs.len() == 0 {
        assert(items_text(kind, vs) == Seq::<char>::empty());
        assert(vs =~= Seq::<int>::empty());
    } else {
        assert(s =~= seq!['['] + (items_text(kind, vs) + seq![']']));
        assert(s.subrange(0, s.len() as int) =~= s);
        lemma_holds_at_concat(s, 0, seq!['['], items_text(kind, vs) + seq![']']);
        lemma_items_round_trip(kind, s, 1, vs);
        assert(item_fits(kind, vs[0]));
        lemma_item_text_nonempty(kind, vs);
    }
}

proof fn lemma_item_text_nonempty(kind: ItemKind, vs: Seq<int>)
    requires
        vs.len() >= 1,
    ensures
        items_text(kind, vs).len() >= 1,
{
    let head = item_text(kind, vs[0]);
    match kind {
        ItemKind::Byte => {
            lemma_dec_round_trip(vs[0] as nat);
        },
        ItemKind::Fixed => {},
    }
    if vs.len() > 1 {
        assert(items_text(kind, vs) == head + seq![','] + items_text(kind, vs.drop_first()));
    }
}

/// The count after `key` at `i`, up to 255, and where it ends.
pub open spec fn keyed_count(s: Seq<char>, i: int, key: Seq<char>) -> Option<(nat, int)> {
    if holds_at(s, i, key) { nat_token(s, i + key.len(), 255) } else { None }
}

/// The tally written as the object
/// `{"jackpot":a,"treasure":b,"bust":c,"loss":d,"robbed":e}` that takes the
/// whole of `s`.
pub open spec fn breakdown_of(s: Seq<char>) -> Option<ScoreCount> {
    match keyed_count(s, 0, "{\"jackpot\":"@) {
        None => None,
        Some((a, p1)) => match keyed_count(s, p1, ",\"treasure\":"@) {
            None => None,
            Some((b, p2)) => match keyed_count(s, p2, ",\"bust\":"@) {
                None => None,
                Some((c, p3)) => match keyed_count(s, p3, ",\"loss\":"@) {
                    None => None,
                    Some((d, p4)) => match keyed_count(s, p4, ",\"robbed\":"@) {
                        None => None,
                        Some((e, p5)) => if p5 + 1 == s.len() && s[p5] == '}' {
                            Some(ScoreCount { jackpot: a as u8, treasure: b as u8, bust: c as u8, loss: d as u8, robbed: e as u8 })
                        } else {
                            None
                        },
                    },
                },
            },
        },
    }
}

/// Spelling of a tally as an object with its five counts.
pub open spec fn breakdown_text(sc: ScoreCount) -> Seq<char> {
    ("{\"jackpot\":"@ + dec(sc.jackpot as nat)) + (
    (",\"treasure\":"@ + dec(sc.treasure as nat)) + (
    (",\"bust\":"@ + dec(sc.bust as nat)) + (
    (",\"loss\":"@ + dec(sc.loss as nat)) + (
    (",\"robbed\":"@ + dec(sc.robbed as nat)) + seq!['}']))))
}

fn read_keyed(s: &Vec<char>, i: usize, key: &str) -> (r: Option<(u8, usize)>)
    requires
        i <= s@.len(),
    ensures
        r matches Some((v, j)) ==> keyed_count(s@, i as int, key@) == Some((v as nat, j as int)),
        r matches Some((v, j)) ==> j <= s@.len(),
        r is None ==> keyed_count(s@, i as int, key@) is None,
{
    let k = chars_of(key);
    if !read_literal(s, i, &k) {
        return None;
    }
    let n = s.len();
    assert(i + k@.len() <= n);
    match read_nat(s, i + k.len(), 255) {
        Some((v, j)) => Some((v as u8, j)),
        None => None,
    }
}

/// Reads a tally written as an object with its five counts.
pub fn read_breakdown(s: &Vec<char>) -> (r: Option<ScoreCount>)
    ensures
        r == breakdown_of(s@),
{
    let (a, p1) = match read_keyed(s, 0, "{\"jackpot\":") {
        None => return None,
        Some(p) => p,
    };
    let (b, p2) = match read_keyed(s, p1, ",\"treasure\":") {
        None => return None,
        Some(p) => p,
    };
    let (c, p3) = match read_keyed(s, p2, ",\"bust\":") {
        None => return None,
        Some(p) => p,
    };
    let (d, p4) = match read_keyed(s, p3, ",\"loss\":") {
        None => return None,
        Some(p) => p,
    };
    let (e, p5) = match read_keyed(s, p4, ",\"robbed\":") {
        None => return None,
        Some(p) => p,
    };
    if p5 < s.len() && p5 + 1 == s.len() && s[p5] == '}' {
        Some(ScoreCount { jackpot: a, treasure: b, bust: c, loss: d, robbed: e })
    } else {
        None
    }
}

/// Appends the spelling of the tally `sc` as an object with its five counts.
pub fn push_breakdown(out: &mut Vec<char>, sc: &ScoreCount)
    ensures
        final(out)@ == old(out)@ + breakdown_text(*sc),
{
    crate::text::push_str(out, "{\"jackpot\":");
    crate::text::push_dec(out, sc.jackpot as u64);
    crate::text::push_str(out, ",\"treasure\":");
    crate::text::push_dec(out, sc.treasure as u64);
    crate::text::push_str(out, ",\"bust\":");
    crate::text::push_dec(out, sc.bust as u64);
    crate::text::push_str(out, ",\"loss\":");
    crate::text::push_dec(out, sc.loss as u64);
    crate::text::push_str(out, ",\"robbed\":");
    crate::text::push_dec(out, sc.robbed as u64);
    out.push('}');
    assert(final(out)@ =~= old(out)@ + breakdown_text(*sc));
}

/// A count after its key, followed by text that starts with no digit, reads
/// back as the count.
proof fn lemma_keyed_step(s: Seq<char>, p: int, key: Seq<char>, x: nat, rest: Seq<char>)
    requires
        holds_at(s, p, (key + dec(x)) + rest),
        x <= 255,
        rest.len() > 0,
        !is_digit(rest[0]),
    ensures
        keyed_count(s, p, key) == Some((x, p + key.len() + dec(x).len())),
        holds_at(s, p + key.len() + dec(x).len(), rest),
{
    lemma_holds_at_concat(s, p, key + dec(x), rest);
    lemma_holds_at_concat(s, p, key, dec(x));
    lemma_holds_at_char(s, p + key.len() + dec(x).len(), rest, 0);
    lemma_nat_token_of_dec(s, p + key.len(), x, 255);
}

proof fn lemma_keys()
    ensures
        "{\"jackpot\":"@.len() == 11,
        ",\"treasure\":"@.len() == 12 && ",\"treasure\":"@[0] == ',',
        ",\"bust\":"@.len() == 8 && ",\"bust\":"@[0] == ',',
        ",\"loss\":"@.len() == 8 && ",\"loss\":"@[0] == ',',
        ",\"robbed\":"@.len() == 10 && ",\"robbed\":"@[0] == ',',
{
    reveal_strlit("{\"jackpot\":");
    reveal_strlit(",\"treasure\":");
    reveal_strlit(",\"bust\":");
    reveal_strlit(",\"loss\":");
    reveal_strlit(",\"robbed\":");
}

/// Where each count of a spelled tally ends.
pub open spec fn breakdown_ends(sc: ScoreCount) -> (int, int, int, int, int) {
    let p1 = 11 + dec(sc.jackpot as nat).len() as int;
    let p2 = p1 + 12 + dec(sc.treasure as nat).len() as int;
    let p3 = p2 + 8 + dec(sc.bust as nat).len() as int;
    let p4 = p3 + 8 + dec(sc.loss as nat).len() as int;
    let p5 = p4 + 10 + dec(sc.robbed as nat).len() as int;
    (p1, p2, p3, p4, p5)
}

#[verifier::rlimit(100)]
proof fn lemma_breakdown_steps(sc: ScoreCount, s: Seq<char>)
    requires
        s == breakdown_text(sc),
    ensures
        ({
            let (p1, p2, p3, p4, p5) = breakdown_ends(sc);
            &&& keyed_count(s, 0, "{\"jackpot\":"@) == Some((sc.jackpot as nat, p1))
            &&& keyed_count(s, p1, ",\"treasure\":"@) == Some((sc.treasure as nat, p2))
            &&& keyed_count(s, p2, ",\"bust\":"@) == Some((sc.bust as nat, p3))
            &&& keyed_count(s, p3, ",\"loss\":"@) == Some((sc.loss as nat, p4))
            &&& keyed_count(s, p4, ",\"robbed\":"@) == Some((sc.robbed as nat, p5))
            &&& s.len() == p5 + 1
            &&& s[p5] == '}'
        }),
{
    lemma_keys();
    let r5 = seq!['}'];
    let r4 = (",\"robbed\":"@ + dec(sc.robbed as nat)) + r5;
    let r3 = (",\"loss\":"@ + dec(sc.loss as nat)) + r4;
    let r2 = (",\"bust\":"@ + dec(sc.bust as nat)) + r3;
    let r1 = (",\"treasure\":"@ + dec(sc.treasure as nat)) + r2;
    let (p1, p2, p3, p4, p5) = breakdown_ends(sc);
    assert(s.subrange(0, s.len() as int) =~= s);
    lemma_keyed_step(s, 0, "{\"jackpot\":"@, sc.jackpot as nat, r1);
    lemma_keyed_step(s, p1, ",\"treasure\":"@, sc.treasure as nat, r2);
    lemma_keyed_step(s, p2, ",\"bust\":"@, sc.bust as nat, r3);
    lemma_keyed_step(s, p3, ",\"loss\":"@, sc.loss as nat, r4);
    lemma_keyed_step(s, p4, ",\"robbed\":"@, sc.robbed as nat, r5);
    lemma_holds_at_char(s, p5, r5, 0);
}

/// A tally spelled by `breakdown_text` reads back as the same tally.
pub proof fn lemma_breakdown_round_trip(sc: ScoreCount)
    ensures
        breakdown_of(breakdown_text(sc)) == Some(sc),
{
    lemma_breakdown_steps(sc, breakdown_text(sc));
}

} // verus!
