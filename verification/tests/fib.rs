use rusty::fib::fibonacci;
use rusty::fib::fibonacci_computation;
use rusty::fib::fibonacci_ffi;
use rusty::fib::MAX_FIB_INDEX;

#[test]
fn base_values() {
    assert_eq!(fibonacci(0), 0);
    assert_eq!(fibonacci(1), 1);
    assert_eq!(fibonacci(2), 1);
    assert_eq!(fibonacci(10), 55);
}

#[test]
fn negative_index_yields_zeroth_term() {
    assert_eq!(fibonacci(-1), 0);
    assert_eq!(fibonacci(i32::MIN), 0);
}

#[test]
fn known_larger_terms() {
    assert_eq!(fibonacci(20), 6765);
    assert_eq!(fibonacci(50), 12586269025);
    assert_eq!(fibonacci(90), 2880067194370816120);
}

#[test]
fn monotone_below_clamp_threshold() {
    let mut prev = fibonacci(0);
    for i in 1..=MAX_FIB_INDEX {
        let cur = fibonacci(i);
        assert!(prev <= cur);
        prev = cur;
    }
}

#[test]
fn index_beyond_max_is_clamped_with_diagnostic() {
    let at_max = fibonacci_computation(MAX_FIB_INDEX);
    assert!(!at_max.index_clamped);
    assert!(!at_max.value_saturated);
    let beyond = fibonacci_computation(MAX_FIB_INDEX + 1);
    assert!(beyond.index_clamped);
    assert_eq!(beyond.value, at_max.value);
    let far_beyond = fibonacci_computation(i32::MAX);
    assert!(far_beyond.index_clamped);
    assert_eq!(far_beyond.value, at_max.value);
}

#[test]
fn max_index_value_is_the_largest_128_bit_term() {
    // The 184th term is the largest that fits in 128 bits.
    assert_eq!(fibonacci(184), 127127879743834334146972278486287885163);
}

#[test]
fn narrow_engine_base_values() {
    assert_eq!(fibonacci_ffi(0), 0);
    assert_eq!(fibonacci_ffi(1), 1);
    assert_eq!(fibonacci_ffi(2), 1);
    assert_eq!(fibonacci_ffi(10), 55);
    assert_eq!(fibonacci_ffi(88), 1100087778366101931);
}

#[test]
fn narrow_engine_wraps_at_64_bits() {
    // The 93rd term is the last that fits in 64 bits; later terms wrap.
    assert_eq!(fibonacci_ffi(93), 12200160415121876738);
    let wrapped = fibonacci_ffi(94);
    let expected = 12200160415121876738u64.wrapping_add(7540113804746346429);
    assert_eq!(wrapped, expected);
}
