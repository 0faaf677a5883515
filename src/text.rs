//! Decimal spelling and reading of numbers, on sequences of characters.

use vstd::prelude::*;
use vstd::string::StrSliceExecFns;

verus! {

/// Whether `c` is an ASCII decimal digit.
pub open spec fn is_digit(c: char) -> bool {
    '0' <= c && c <= '9'
}

/// Value of the decimal digit `c`.
pub open spec fn digit_value(c: char) -> nat {
    (c as u32 - '0' as u32) as nat
}

/// The digit character of `d < 10`.
pub open spec fn digit_char(d: nat) -> char {
    ((d + '0' as u32) as u32) as char
}

/// Whether `s` is a non-empty run of decimal digits.
pub open spec fn is_digits(s: Seq<char>) -> bool {
    s.len() > 0 && forall|i: int| 0 <= i < s.len() ==> is_digit(#[trigger] s[i])
}

/// The number that the digits `s` spell, most significant first.
pub open spec fn nat_of(s: Seq<char>) -> nat
    decreases s.len(),
{
    if s.len() == 0 {
        0
    } else {
        nat_of(s.drop_last()) * 10 + digit_value(s.last())
    }
}

/// The decimal digits of `n`, without leading zeros.
pub open spec fn dec(n: nat) -> Seq<char>
    decreases n,
{
    if n < 10 {
        seq![digit_char(n)]
    } else {
        dec(n / 10).push(digit_char(n % 10))
    }
}

/// The decimal form of the integer `n`: a minus sign before a negative one.
pub open spec fn dec_int(n: int) -> Seq<char> {
    if n < 0 { seq!['-'] + dec((-n) as nat) } else { dec(n as nat) }
}

/// `n` written with exactly `width` digits: its lowest ones, zeros in front.
pub open spec fn dec_padded(n: nat, width: nat) -> Seq<char>
    decreases width,
{
    if width == 0 {
        seq![]
    } else {
        dec_padded(n / 10, (width - 1) as nat).push(digit_char(n % 10))
    }
}

proof fn lemma_digit_char(d: nat)
    requires
        d < 10,
    ensures
        is_digit(digit_char(d)),
        digit_value(digit_char(d)) == d,
{
}

/// The decimal digits of `n` read back as `n`.
pub proof fn lemma_dec_round_trip(n: nat)
    ensures
        is_digits(dec(n)),
        nat_of(dec(n)) == n,
    decreases n,
{
    lemma_digit_char(n % 10);
    if n >= 10 {
        lemma_dec_round_trip(n / 10);
        let s = dec(n);
        assert(s.drop_last() =~= dec(n / 10));
        assert forall|i: int| 0 <= i < s.len() implies is_digit(#[trigger] s[i]) by {
            if i < s.len() - 1 {
                assert(s[i] == dec(n / 10)[i]);
            }
        }
        assert(s.last() == digit_char(n % 10));
        assert(n == (n / 10) * 10 + n % 10);
        assert(nat_of(s) == nat_of(s.drop_last()) * 10 + digit_value(s.last()));
    } else {
        let s = dec(n);
        assert(s.drop_last() =~= Seq::<char>::empty());
        assert(nat_of(s.drop_last()) == 0);
        assert(nat_of(s) == nat_of(s.drop_last()) * 10 + digit_value(s.last()));
    }
}

/// Padded digits read back as the number modulo the width's power of ten.
pub proof fn lemma_dec_padded_round_trip(n: nat, width: nat)
    ensures
        dec_padded(n, width).len() == width,
        forall|i: int| 0 <= i < width ==> is_digit(#[trigger] dec_padded(n, width)[i]),
        nat_of(dec_padded(n, width)) == n % pow10(width),
    decreases width,
{
    if width > 0 {
        lemma_dec_padded_round_trip(n / 10, (width - 1) as nat);
        lemma_digit_char(n % 10);
        let s = dec_padded(n, width);
        assert(s.drop_last() =~= dec_padded(n / 10, (width - 1) as nat));
        assert forall|i: int| 0 <= i < width implies is_digit(#[trigger] s[i]) by {
            if i < width - 1 {
                assert(s[i] == dec_padded(n / 10, (width - 1) as nat)[i]);
            }
        }
        let p = pow10((width - 1) as nat);
        assert(p > 0) by { lemma_pow10_pos((width - 1) as nat); }
        vstd::arithmetic::div_mod::lemma_breakdown(n as int, 10, p as int);
        assert(pow10(width) == 10 * p);
    }
}

/// Ten to the power `k`.
pub open spec fn pow10(k: nat) -> nat
    decreases k,
{
    if k == 0 { 1 } else { 10 * pow10((k - 1) as nat) }
}

pub proof fn lemma_pow10_pos(k: nat)
    ensures
        pow10(k) > 0,
    decreases k,
{
    if k > 0 {
        lemma_pow10_pos((k - 1) as nat);
    }
}

/// The digit character of `d`.
pub fn digit_of(d: u64) -> (c: char)
    requires
        d < 10,
    ensures
        c == digit_char(d as nat),
{
    ((d as u8) + 48u8) as char
}

/// Appends the decimal digits of `n` to `out`.
pub fn push_dec(out: &mut Vec<char>, n: u64)
    ensures
        final(out)@ == old(out)@ + dec(n as nat),
    decreases n,
{
    if n >= 10 {
        push_dec(out, n / 10);
    }
    out.push(digit_of(n % 10));
    proof {
        if n >= 10 {
            assert(dec(n as nat) == dec((n / 10) as nat).push(digit_char((n % 10) as nat)));
        } else {
            assert(dec(n as nat) == seq![digit_char(n as nat)]);
        }
    }
}

/// Appends the decimal form of `n` to `out`, a minus sign first when negative.
pub fn push_dec_int(out: &mut Vec<char>, n: i64)
    ensures
        final(out)@ == old(out)@ + dec_int(n as int),
{
    if n < 0 {
        out.push('-');
        let m: u64 = if n == i64::MIN { 0x8000_0000_0000_0000u64 } else { (-n) as u64 };
        push_dec(out, m);
        proof {
            assert(old(out)@ + dec_int(n as int) =~= old(out)@.push('-') + dec(m as nat));
        }
    } else {
        push_dec(out, n as u64);
    }
}

/// Appends `n` with exactly `width` digits to `out`, zeros in front.
pub fn push_dec_padded(out: &mut Vec<char>, n: u64, width: u8)
    ensures
        final(out)@ == old(out)@ + dec_padded(n as nat, width as nat),
    decreases width,
{
    if width > 0 {
        push_dec_padded(out, n / 10, width - 1);
        out.push(digit_of(n % 10));
    }
}

/// Appends the characters of `s` to `out`.
pub fn push_str(out: &mut Vec<char>, s: &str)
    ensures
        final(out)@ == old(out)@ + s@,
{
    let n = s.unicode_len();
    let mut i: usize = 0;
    while i < n
        invariant
            n == s@.len(),
            i <= n,
            out@ == old(out)@ + s@.subrange(0, i as int),
        decreases n - i,
    {
        out.push(s.get_char(i));
        i = i + 1;
        assert(out@ =~= old(out)@ + s@.subrange(0, i as int));
    }
    assert(s@.subrange(0, n as int) =~= s@);
}

/// The characters of `s`, one per element.
pub fn chars_of(s: &str) -> (r: Vec<char>)
    ensures
        r@ == s@,
{
    let mut r: Vec<char> = Vec::new();
    push_str(&mut r, s);
    assert(r@ =~= s@);
    r
}

/// Relies on std's `FromIterator<&char> for String`: collecting characters
/// builds the string of exactly those characters, in order.
#[verifier::external_body]
pub(crate) fn string_of(chars: &Vec<char>) -> (r: String)
    ensures
        r@ == chars@,
{
    chars.iter().collect()
}

} // verus!
