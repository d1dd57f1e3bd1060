//! A standalone division utility with an explicit divide-by-zero error.

use vstd::prelude::*;
use vstd::arithmetic::div_mod::lemma_div_basics;
use vstd::arithmetic::div_mod::lemma_div_is_ordered;
use vstd::arithmetic::div_mod::lemma_div_is_ordered_by_denominator;
use vstd::arithmetic::div_mod::lemma_div_nonincreasing;
use vstd::arithmetic::div_mod::lemma_div_pos_is_pos;

verus! {

/// Truncating integer division: the quotient rounded towards zero, as the
/// machine division computes it.
pub open spec fn div_trunc(a: int, b: int) -> int
    recommends
        b != 0,
{
    if a == 0 {
        0
    } else if a > 0 && b > 0 {
        a / b
    } else if a < 0 && b < 0 {
        (a * -1) / (b * -1)
    } else if a < 0 {
        ((a * -1) / b) * -1
    } else {
        (a / (b * -1)) * -1
    }
}

/// The error text a zero divisor produces.
pub open spec fn divide_by_zero_error() -> Seq<char> {
    "Error: Cannot divide by zero"@
}

/// A zero divisor is the documented error; any other divisor yields the
/// exact truncated quotient.  The one quotient 64 bits cannot hold,
/// `i64::MIN / -1`, is left out by the precondition.
pub fn divide(a: i64, b: i64) -> (r: Result<i64, String>)
    requires
        !(a == i64::MIN && b == -1),
    ensures
        b == 0 <==> r is Err,
        r matches Err(m) ==> m@ == divide_by_zero_error(),
        b != 0 ==> (r matches Ok(q) && q == div_trunc(a as int, b as int)),
{
    if b == 0 {
        return Err("Error: Cannot divide by zero".to_owned());
    }
    let q: i64 = match a.checked_div(b) {
        Some(q) => q,
        None => {
            proof {
                let x = a as int;
                let d = b as int;
                lemma_div_basics(x * -1);
                lemma_div_basics(x);
                if x > 0 && d > 0 {
                    lemma_div_pos_is_pos(x, d);
                    lemma_div_nonincreasing(x, d);
                } else if x < 0 && d < 0 {
                    lemma_div_pos_is_pos(x * -1, d * -1);
                    lemma_div_nonincreasing(x * -1, d * -1);
                    if d < -1 {
                        lemma_div_is_ordered_by_denominator(x * -1, 2, d * -1);
                        lemma_div_is_ordered(x * -1, 0x8000000000000000, 2);
                    }
                } else if x < 0 {
                    lemma_div_pos_is_pos(x * -1, d);
                    lemma_div_nonincreasing(x * -1, d);
                } else if x > 0 {
                    lemma_div_pos_is_pos(x, d * -1);
                    lemma_div_nonincreasing(x, d * -1);
                }
                assert(false);
            }
            0
        },
    };
    Ok(q)
}

} // verus!
