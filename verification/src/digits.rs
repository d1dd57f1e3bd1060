//! Decimal text: rendering numbers as ASCII digits and parsing them back.
//!
//! [`dec_bytes`] is the specification of a decimal rendering, most
//! significant digit first; [`parse_digits`] is the specification of a
//! greedy decimal parse.  [`lemma_parse_dec_bytes`] ties the two together:
//! a rendered number parses back to itself, whatever follows it.

use vstd::prelude::*;
use vstd::arithmetic::div_mod::lemma_fundamental_div_mod;

verus! {

/// True of the ASCII bytes `'0'` through `'9'`.
pub open spec fn is_digit_byte(b: u8) -> bool {
    0x30 <= b <= 0x39
}

/// The ASCII digit for a value below ten.
pub open spec fn digit_byte(d: nat) -> u8
    recommends
        d < 10,
{
    (0x30 + d) as u8
}

/// The numeric value of an ASCII digit.
pub open spec fn digit_value(b: u8) -> nat
    recommends
        is_digit_byte(b),
{
    (b - 0x30) as nat
}

/// The decimal rendering of a number, most significant digit first.
pub open spec fn dec_bytes(n: nat) -> Seq<u8>
    decreases n,
{
    if n < 10 {
        seq![digit_byte(n)]
    } else {
        dec_bytes(n / 10) + seq![digit_byte(n % 10)]
    }
}

/// The decimal rendering of a signed number: a minus sign before the
/// magnitude when it is negative.
pub open spec fn signed_dec_bytes(v: int) -> Seq<u8> {
    if v < 0 {
        seq![0x2du8] + dec_bytes((-v) as nat)
    } else {
        dec_bytes(v as nat)
    }
}

/// Ten to the given power.
pub open spec fn pow10(e: nat) -> nat
    decreases e,
{
    if e == 0 {
        1
    } else {
        10 * pow10((e - 1) as nat)
    }
}

/// A greedy decimal parse: consumes every leading ASCII digit, folding each
/// onto the accumulator, and returns the value together with the unconsumed
/// remainder.
pub open spec fn parse_digits(s: Seq<u8>, acc: nat) -> (nat, Seq<u8>)
    decreases s.len(),
{
    if s.len() > 0 && is_digit_byte(s[0]) {
        parse_digits(s.skip(1), acc * 10 + digit_value(s[0]))
    } else {
        (acc, s)
    }
}

/// A rendering is never empty and consists of ASCII digits only.
pub proof fn lemma_dec_bytes_digits(n: nat)
    ensures
        dec_bytes(n).len() >= 1,
        forall|k: int| 0 <= k < dec_bytes(n).len() ==> is_digit_byte(#[trigger] dec_bytes(n)[k]),
    decreases n,
{
    if n >= 10 {
        lemma_dec_bytes_digits(n / 10);
    }
}

/// What a parse leaves behind is a suffix that starts with a non-digit.
pub proof fn lemma_parse_digits_rest(s: Seq<u8>, acc: nat)
    ensures
        parse_digits(s, acc).1.len() <= s.len(),
        parse_digits(s, acc).1.len() > 0 ==> !is_digit_byte(parse_digits(s, acc).1[0]),
    decreases s.len(),
{
    if s.len() > 0 && is_digit_byte(s[0]) {
        lemma_parse_digits_rest(s.skip(1), acc * 10 + digit_value(s[0]));
    }
}

/// A parse that consumed nothing returned its accumulator unchanged.
pub proof fn lemma_parse_digits_noconsume(s: Seq<u8>, acc: nat)
    ensures
        parse_digits(s, acc).1.len() == s.len() ==> parse_digits(s, acc) == (acc, s),
{
    if s.len() > 0 && is_digit_byte(s[0]) {
        lemma_parse_digits_rest(s.skip(1), acc * 10 + digit_value(s[0]));
    }
}

/// A parse never comes back below its accumulator.
pub proof fn lemma_parse_digits_lower(s: Seq<u8>, acc: nat)
    ensures
        parse_digits(s, acc).0 >= acc,
    decreases s.len(),
{
    if s.len() > 0 && is_digit_byte(s[0]) {
        lemma_parse_digits_lower(s.skip(1), acc * 10 + digit_value(s[0]));
    }
}

/// Parsing a rendered number consumes exactly its digits: the accumulator is
/// shifted past them and the number is folded in, whatever follows.
pub proof fn lemma_parse_dec_bytes(n: nat, rest: Seq<u8>, acc: nat)
    ensures
        parse_digits(dec_bytes(n) + rest, acc) == parse_digits(
            rest,
            acc * pow10(dec_bytes(n).len()) + n,
        ),
    decreases n,
{
    lemma_dec_bytes_digits(n);
    if n < 10 {
        assert((seq![digit_byte(n)] + rest).skip(1) =~= rest);
        assert(pow10(0) == 1);
        assert(pow10(1) == 10);
    } else {
        let d = digit_byte(n % 10);
        let head = dec_bytes(n / 10);
        assert((head + seq![d]) + rest =~= head + (seq![d] + rest));
        lemma_parse_dec_bytes(n / 10, seq![d] + rest, acc);
        let mid: nat = acc * pow10(head.len()) + n / 10;
        assert((seq![d] + rest).skip(1) =~= rest);
        assert(parse_digits(seq![d] + rest, mid) == parse_digits(rest, mid * 10 + (n % 10)));
        lemma_fundamental_div_mod(n as int, 10);
        assert(dec_bytes(n).len() == head.len() + 1);
        assert(pow10(head.len() + 1) == 10 * pow10(head.len()));
        let p10: nat = pow10(head.len());
        let q: nat = n / 10;
        assert((acc * p10 + q) * 10 == acc * (10 * p10) + q * 10) by (nonlinear_arith);
    }
}

/// The common case of [`lemma_parse_dec_bytes`]: starting from an empty
/// accumulator, a rendered number followed by a non-digit parses back to
/// exactly that number and that remainder.
pub proof fn lemma_parse_dec_bytes_exact(n: nat, rest: Seq<u8>)
    requires
        rest.len() == 0 || !is_digit_byte(rest[0]),
    ensures
        parse_digits(dec_bytes(n) + rest, 0) == (n, rest),
{
    lemma_parse_dec_bytes(n, rest, 0);
}

/// Appends the decimal rendering of a 128-bit number.
pub fn push_decimal_u128(out: &mut Vec<u8>, n: u128)
    ensures
        final(out)@ == old(out)@ + dec_bytes(n as nat),
    decreases n,
{
    if n < 10 {
        out.push(0x30u8 + (n as u8));
        assert(final(out)@ =~= old(out)@ + dec_bytes(n as nat));
    } else {
        push_decimal_u128(out, n / 10);
        out.push(0x30u8 + ((n % 10) as u8));
        assert(final(out)@ =~= old(out)@ + dec_bytes(n as nat));
    }
}

/// Appends the decimal rendering of a 64-bit number.
pub fn push_decimal_u64(out: &mut Vec<u8>, n: u64)
    ensures
        final(out)@ == old(out)@ + dec_bytes(n as nat),
{
    push_decimal_u128(out, n as u128);
}

/// Appends the decimal rendering of a signed 32-bit number.
pub fn push_decimal_i32(out: &mut Vec<u8>, n: i32)
    ensures
        final(out)@ == old(out)@ + signed_dec_bytes(n as int),
{
    if n < 0 {
        out.push(0x2du8);
        let magnitude: u64 = (-(n as i64)) as u64;
        push_decimal_u64(out, magnitude);
        assert(final(out)@ =~= old(out)@ + signed_dec_bytes(n as int));
    } else {
        push_decimal_u64(out, n as u64);
    }
}

/// A greedy decimal scan of a byte slice from a position: the parsed value
/// and the position just past the digits, or nothing when the value does not
/// fit in 128 bits.
pub fn scan_decimal(s: &[u8], from: usize) -> (r: Option<(u128, usize)>)
    requires
        from <= s@.len(),
    ensures
        match r {
            Some(p) => {
                &&& from <= p.1 <= s@.len()
                &&& parse_digits(s@.skip(from as int), 0) == (p.0 as nat, s@.skip(p.1 as int))
                &&& (from < s@.len() && is_digit_byte(s@[from as int]) ==> p.1 > from)
            },
            None => parse_digits(s@.skip(from as int), 0).0 > u128::MAX,
        },
{
    let ghost whole: (nat, Seq<u8>) = parse_digits(s@.skip(from as int), 0);
    let mut j: usize = from;
    let mut val: u128 = 0;
    while j < s.len() && 0x30 <= s[j] && s[j] <= 0x39
        invariant
            from <= j <= s@.len(),
            whole == parse_digits(s@.skip(from as int), 0),
            parse_digits(s@.skip(from as int), 0) == parse_digits(s@.skip(j as int), val as nat),
            j == from ==> val == 0,
        decreases s@.len() - j,
    {
        proof {
            assert(s@.skip(j as int)[0] == s@[j as int]);
            assert(s@.skip(j as int).skip(1) =~= s@.skip(j as int + 1));
        }
        let d: u8 = s[j] - 0x30;
        let scaled: u128 = match val.checked_mul(10) {
            Some(v) => v,
            None => {
                proof {
                    lemma_parse_digits_lower(s@.skip(j as int + 1), val as nat * 10 + d as nat);
                }
                return None;
            },
        };
        let next: u128 = match scaled.checked_add(d as u128) {
            Some(v) => v,
            None => {
                proof {
                    lemma_parse_digits_lower(s@.skip(j as int + 1), val as nat * 10 + d as nat);
                }
                return None;
            },
        };
        val = next;
        j = j + 1;
    }
    proof {
        if j < s@.len() {
            assert(s@.skip(j as int)[0] == s@[j as int]);
        }
    }
    Some((val, j))
}

} // verus!
