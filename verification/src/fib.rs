//! The Fibonacci engine.
//!
//! Two variants with deliberately different overflow policies live here:
//!
//! * [`fibonacci`] / [`fibonacci_computation`]: the wide engine.  It works in
//!   128 bits, clamps an index beyond [`MAX_FIB_INDEX`] down to that maximum,
//!   and saturates the value at `u128::MAX` instead of wrapping.  Both kinds
//!   of clamping are observable through the diagnostic flags of
//!   [`FibComputation`].
//! * [`fibonacci_ffi`]: the narrow engine.  It works in 64 bits and silently
//!   wraps on overflow, as [`fib64`] specifies.

use vstd::prelude::*;

verus! {

/// The Fibonacci sequence as a mathematical function.
pub open spec fn fib(n: nat) -> nat
    decreases n,
{
    if n == 0 {
        0
    } else if n == 1 {
        1
    } else {
        fib((n - 2) as nat) + fib((n - 1) as nat)
    }
}

/// The wide engine's clamp threshold: an index beyond it is folded down to
/// it, which keeps every computed term comfortably within 128 bits.
pub const MAX_FIB_INDEX: i32 = 184;

/// An index beyond [`MAX_FIB_INDEX`] is treated as equal to that maximum.
pub open spec fn clamp_index(n: int) -> int {
    if n > MAX_FIB_INDEX {
        MAX_FIB_INDEX as int
    } else {
        n
    }
}

/// The term the wide engine aims for: negative and zero indices yield the
/// zeroth term.
pub open spec fn fib_value(n: int) -> nat {
    if n <= 0 {
        0
    } else {
        fib(n as nat)
    }
}

/// A value too wide for 128 bits is replaced by `u128::MAX`.
pub open spec fn saturate(v: nat) -> u128 {
    if v > u128::MAX {
        u128::MAX
    } else {
        v as u128
    }
}

/// What the wide engine returns for an index: the clamped index's term,
/// saturated to 128 bits.
pub open spec fn compute_spec(n: int) -> u128 {
    saturate(fib_value(clamp_index(n)))
}

/// The result of the wide engine, with its diagnostics: clamping is
/// observable, never silently swallowed.
#[derive(Clone, Copy, Debug)]
pub struct FibComputation {
    /// The computed term, saturated to 128 bits.
    pub value: u128,
    /// The requested index was beyond [`MAX_FIB_INDEX`] and was clamped.
    pub index_clamped: bool,
    /// Some addition overflowed 128 bits and the value was saturated.
    pub value_saturated: bool,
}

/// Everything [`fibonacci_computation`] promises of its result.
pub open spec fn fib_computation_spec(n: int, out: FibComputation) -> bool {
    &&& out.value == compute_spec(n)
    &&& out.index_clamped == (n > MAX_FIB_INDEX)
    &&& out.value_saturated == (fib_value(clamp_index(n)) > u128::MAX)
}

/// Every term from the first onward is positive.
pub proof fn lemma_fib_pos(n: nat)
    requires
        n >= 1,
    ensures
        fib(n) >= 1,
    decreases n,
{
    if n > 1 {
        lemma_fib_pos((n - 1) as nat);
    }
}

/// The sequence is monotonically non-decreasing.
pub proof fn lemma_fib_monotonic(i: nat, j: nat)
    requires
        i <= j,
    ensures
        fib(i) <= fib(j),
    decreases j - i,
{
    if i < j {
        if j >= 2 {
            lemma_fib_monotonic(i, (j - 1) as nat);
        } else {
            // j == 1, i == 0: fib(0) == 0 <= 1 == fib(1)
        }
    }
}

/// Monotonicity as the wide engine's callers see it: below the clamp
/// threshold, a larger index never yields a smaller value.
pub proof fn lemma_compute_monotonic(i: int, j: int)
    requires
        0 <= i <= j <= MAX_FIB_INDEX,
    ensures
        compute_spec(i) <= compute_spec(j),
{
    if i > 0 {
        lemma_fib_monotonic(i as nat, j as nat);
    }
}

/// Clamp behavior: an index beyond the maximum yields exactly the maximum
/// index's value, and the computation says so through its diagnostic.
pub proof fn lemma_clamp_behavior(n: int, out: FibComputation)
    requires
        n > MAX_FIB_INDEX,
        fib_computation_spec(n, out),
    ensures
        out.value == compute_spec(MAX_FIB_INDEX as int),
        out.index_clamped,
{
}

/// The wide engine, with diagnostics.  Maintains the pair `(prev, curr)`
/// with a checked addition; on overflow it substitutes `u128::MAX` and keeps
/// going with the clamped value.
pub fn fibonacci_computation(n: i32) -> (out: FibComputation)
    ensures
        fib_computation_spec(n as int, out),
{
    let index_clamped: bool = n > MAX_FIB_INDEX;
    let m: i32 = if index_clamped {
        MAX_FIB_INDEX
    } else {
        n
    };
    if m <= 0 {
        return FibComputation { value: 0, index_clamped, value_saturated: false };
    }
    if m == 1 {
        return FibComputation { value: 1, index_clamped, value_saturated: false };
    }
    let mut a: u128 = 0;
    let mut b: u128 = 1;
    let mut value_saturated: bool = false;
    let mut i: i32 = 2;
    while i <= m
        invariant
            2 <= i <= m + 1,
            2 <= m <= MAX_FIB_INDEX,
            a == saturate(fib_value(i - 2)),
            b == saturate(fib_value(i - 1)),
            value_saturated == (fib_value(i - 1) > u128::MAX),
        decreases m + 1 - i,
    {
        proof {
            assert(fib(i as nat) == fib((i - 2) as nat) + fib((i - 1) as nat));
            lemma_fib_pos((i - 1) as nat);
            if i > 2 {
                lemma_fib_pos((i - 2) as nat);
            }
            lemma_fib_monotonic((i - 2) as nat, (i - 1) as nat);
        }
        let t: u128 = match a.checked_add(b) {
            Some(s) => s,
            None => {
                value_saturated = true;
                u128::MAX
            },
        };
        a = b;
        b = t;
        i = i + 1;
    }
    FibComputation { value: b, index_clamped, value_saturated }
}

/// The wide engine's value alone.
pub fn fibonacci(n: i32) -> (r: u128)
    ensures
        r == compute_spec(n as int),
{
    fibonacci_computation(n).value
}

/// The narrow engine's policy: the sequence reduced modulo 2^64, exactly as
/// a wrapping 64-bit addition computes it.
pub open spec fn fib64(n: nat) -> u64
    decreases n,
{
    if n == 0 {
        0u64
    } else if n == 1 {
        1u64
    } else {
        let s = fib64((n - 2) as nat) + fib64((n - 1) as nat);
        if s > u64::MAX {
            (s - 0x1_0000_0000_0000_0000) as u64
        } else {
            s as u64
        }
    }
}

/// The narrow, fixed-width engine: pure value-in/value-out, silently
/// wrapping at 64 bits.
pub fn fibonacci_ffi(n: u32) -> (r: u64)
    ensures
        r == fib64(n as nat),
{
    if n <= 1 {
        return n as u64;
    }
    let mut a: u64 = 0;
    let mut b: u64 = 1;
    let mut i: u32 = 1;
    while i < n
        invariant
            1 <= i <= n,
            a == fib64((i - 1) as nat),
            b == fib64(i as nat),
        decreases n - i,
    {
        let t: u64 = a.wrapping_add(b);
        a = b;
        b = t;
        i = i + 1;
    }
    b
}

} // verus!
