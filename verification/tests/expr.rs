use toylang::ast::{Expr, IntLitParseError};

#[test]
fn decimal_value_of_digits() {
    assert_eq!(Expr::parse_int(b"0"), Ok(Expr::IntLit(0)));
    assert_eq!(Expr::parse_int(b"5"), Ok(Expr::IntLit(5)));
    assert_eq!(Expr::parse_int(b"123"), Ok(Expr::IntLit(123)));
    assert_eq!(Expr::parse_int(b"999"), Ok(Expr::IntLit(999)));
}

#[test]
fn leading_zeros_are_decimal_not_octal() {
    assert_eq!(Expr::parse_int(b"0717"), Ok(Expr::IntLit(717)));
    assert_eq!(Expr::parse_int(b"010"), Ok(Expr::IntLit(10)));
    assert_eq!(Expr::parse_int(b"0000"), Ok(Expr::IntLit(0)));
    assert_eq!(
        Expr::parse_int(b"000000000000000000000000000000000000000000000000042"),
        Ok(Expr::IntLit(42))
    );
}

#[test]
fn signs() {
    assert_eq!(Expr::parse_int(b"+7"), Ok(Expr::IntLit(7)));
    assert_eq!(Expr::parse_int(b"-7"), Ok(Expr::IntLit(-7)));
    assert_eq!(Expr::parse_int(b"-0"), Ok(Expr::IntLit(0)));
}

#[test]
fn largest_and_smallest() {
    assert_eq!(
        Expr::parse_int(b"170141183460469231731687303715884105727"),
        Ok(Expr::IntLit(i128::MAX))
    );
    assert_eq!(
        Expr::parse_int(b"-170141183460469231731687303715884105728"),
        Ok(Expr::IntLit(i128::MIN))
    );
}

#[test]
fn overflow_is_an_error() {
    assert_eq!(
        Expr::parse_int(b"170141183460469231731687303715884105728"),
        Err(IntLitParseError::PosOverflow)
    );
    assert_eq!(
        Expr::parse_int(b"-170141183460469231731687303715884105729"),
        Err(IntLitParseError::NegOverflow)
    );
    assert_eq!(
        Expr::parse_int(b"99999999999999999999999999999999999999999999999999"),
        Err(IntLitParseError::PosOverflow)
    );
}

#[test]
fn empty_text_is_an_error() {
    assert_eq!(Expr::parse_int(b""), Err(IntLitParseError::Empty));
}

#[test]
fn text_that_is_not_digits_is_an_error() {
    assert_eq!(Expr::parse_int(b"+"), Err(IntLitParseError::InvalidDigit));
    assert_eq!(Expr::parse_int(b"-"), Err(IntLitParseError::InvalidDigit));
    assert_eq!(Expr::parse_int(b"12a"), Err(IntLitParseError::InvalidDigit));
    assert_eq!(Expr::parse_int(b"a12"), Err(IntLitParseError::InvalidDigit));
    assert_eq!(Expr::parse_int(b"1_000"), Err(IntLitParseError::InvalidDigit));
    assert_eq!(Expr::parse_int(b" 1"), Err(IntLitParseError::InvalidDigit));
    assert_eq!(Expr::parse_int(b"--1"), Err(IntLitParseError::InvalidDigit));
    assert_eq!(Expr::parse_int(b"0x10"), Err(IntLitParseError::InvalidDigit));
    assert_eq!(Expr::parse_int(&[0xff]), Err(IntLitParseError::InvalidDigit));
    assert_eq!(
        Expr::parse_int(b"99999999999999999999999999999999999999999999999999x"),
        Err(IntLitParseError::InvalidDigit)
    );
}
