use rusty::divide::divide;

#[test]
fn test_divide_success() {
    assert_eq!(divide(10, 2), Ok(5));
}

#[test]
fn test_divide_by_zero_returns_error() {
    assert_eq!(divide(10, 0), Err("Error: Cannot divide by zero".to_string()));
}

#[test]
fn divide_is_exact_for_exact_cases() {
    assert_eq!(divide(0, 7), Ok(0));
    assert_eq!(divide(100, 4), Ok(25));
    assert_eq!(divide(-100, 4), Ok(-25));
    assert_eq!(divide(100, -4), Ok(-25));
    assert_eq!(divide(-100, -4), Ok(25));
}

#[test]
fn divide_truncates_towards_zero() {
    assert_eq!(divide(7, 2), Ok(3));
    assert_eq!(divide(-7, 2), Ok(-3));
    assert_eq!(divide(7, -2), Ok(-3));
    assert_eq!(divide(-7, -2), Ok(3));
}

#[test]
fn divide_by_zero_for_every_numerator() {
    for x in [-5i64, -1, 0, 1, 5, i64::MAX, i64::MIN] {
        assert_eq!(divide(x, 0), Err("Error: Cannot divide by zero".to_string()));
    }
}
