use calculator::ast::{Decimal, Expr, OpCode};
use calculator::interpreter::{binary, evaluate, unary, CalculateError};

#[test]
fn interpreter_test_integer() {
    let input = "12";
    let result = evaluate(input).unwrap();
    assert_eq!(result, 12);
}

#[test]
fn test_unary() {
    assert_eq!(evaluate("-1").unwrap(), -1);
}

#[test]
fn test_binary() {
    assert_eq!(evaluate("1+2*3").unwrap(), 7);
}

#[test]
fn interpreter_test_error() {
    let result = evaluate("1/0");
    assert!(result.is_err());
}

#[test]
fn test() {
    let expr = Box::new(Expr::BinaryOperator(
        Box::new(Expr::BinaryOperator(
            Box::new(Expr::IntegerLiteral(22)),
            OpCode::Mul,
            Box::new(Expr::IntegerLiteral(44)),
        )),
        OpCode::Add,
        Box::new(Expr::UnaryOperator(
            OpCode::Sub,
            Box::new(Expr::IntegerLiteral(66)),
        )),
    ));

    println!("{}", expr.tree_string());
    assert_eq!(
        expr.tree_string(),
        "BinaryOperator '+'\n  BinaryOperator '*'\n    IntegerLiteral 22\n    IntegerLiteral 44\n  UnaryOperator 'prefix' '-'\n    IntegerLiteral 66\n"
    );
    assert_eq!(calculator::interpreter::calc(&expr), Ok(902));
}

#[test]
fn precedence_value() {
    assert_eq!(evaluate("22 * 44 + 66"), Ok(1034));
    assert_eq!(evaluate("-1 || 2 && 3"), Ok(1));
    assert_eq!(evaluate("(1+2)*3"), Ok(9));
}

#[test]
fn division_by_zero() {
    assert_eq!(evaluate("1/0"), Err(CalculateError::DivisionZero));
    assert_eq!(evaluate("7 % 0"), Err(CalculateError::DivisionZero));
    assert_eq!(evaluate("5 / (3 - 3)"), Err(CalculateError::DivisionZero));
    assert_eq!(evaluate("(1/0) + 1"), Err(CalculateError::NonBinaryOperator));
    assert_eq!(evaluate("-(1/0)"), Err(CalculateError::NonUnaryOperator));
}

#[test]
fn parse_failures() {
    assert_eq!(evaluate(""), Err(CalculateError::ParsingError));
    assert_eq!(evaluate("1+2)"), Err(CalculateError::ParsingError));
    assert_eq!(evaluate("1 2"), Err(CalculateError::ParsingError));
    assert_eq!(evaluate("((1)"), Err(CalculateError::ParsingError));
    assert_eq!(evaluate("18446744073709551616"), Err(CalculateError::ParsingError));
}

#[test]
fn evaluation_repeats() {
    for _ in 0..3 {
        assert_eq!(evaluate("2 * (3 + 4)"), Ok(14));
        assert_eq!(evaluate("4 / 0"), Err(CalculateError::DivisionZero));
        assert_eq!(evaluate("4 +"), Err(CalculateError::ParsingError));
    }
}

#[test]
fn integer_division_and_remainder() {
    assert_eq!(evaluate("7 / 2"), Ok(3));
    assert_eq!(evaluate("-7 / 2"), Ok(-3));
    assert_eq!(evaluate("7 / -2"), Ok(-3));
    assert_eq!(evaluate("-7 % 3"), Ok(-1));
    assert_eq!(evaluate("7 % -3"), Ok(1));
    assert_eq!(binary(OpCode::Div, i64::MIN, -1), Ok(i64::MIN));
    assert_eq!(binary(OpCode::Mod, i64::MIN, -1), Ok(0));
}

#[test]
fn comparisons_yield_one_or_zero() {
    assert_eq!(evaluate("3 < 4"), Ok(1));
    assert_eq!(evaluate("3 >= 4"), Ok(0));
    assert_eq!(evaluate("3 == 3"), Ok(1));
    assert_eq!(evaluate("3 != 3"), Ok(0));
    assert_eq!(evaluate("0 || 0"), Ok(0));
    assert_eq!(evaluate("2 && 3"), Ok(1));
    assert_eq!(evaluate("(1 < 2) + (2 < 3)"), Ok(2));
}

#[test]
fn shifts_and_complement() {
    assert_eq!(evaluate("1 << 3"), Ok(8));
    assert_eq!(evaluate("-8 >> 1"), Ok(-4));
    assert_eq!(evaluate("1 << 65"), Ok(2));
    assert_eq!(evaluate("!0"), Ok(-1));
    assert_eq!(evaluate("!5"), Ok(-6));
}

#[test]
fn wrapping_arithmetic() {
    assert_eq!(evaluate("9223372036854775807 + 1"), Ok(i64::MIN));
    assert_eq!(evaluate("18446744073709551615"), Ok(-1));
    assert_eq!(evaluate("-9223372036854775808"), Ok(i64::MIN));
    assert_eq!(evaluate("0x7fffffffffffffff * 2"), Ok(-2));
}

#[test]
fn floating_literals_truncate() {
    assert_eq!(evaluate("12.7"), Ok(12));
    assert_eq!(evaluate("1e+1"), Ok(10));
    assert_eq!(evaluate(".1e-3"), Ok(0));
    assert_eq!(evaluate("2.5e1"), Ok(25));
    assert_eq!(evaluate("123.456e2"), Ok(12345));
    assert_eq!(evaluate("1e30"), Ok(i64::MAX));
    assert_eq!(evaluate("0e99999999999999999999999"), Ok(0));
    assert_eq!(evaluate("-2.9"), Ok(-2));
}

#[test]
fn malformed_nodes() {
    assert_eq!(calculator::interpreter::calc(&Expr::Error), Err(CalculateError::UnknownExpression));
    let bad = Expr::FloatingLiteral(Decimal {
        digits: b"1x".to_vec(),
        int_len: 1,
        exp_negative: false,
        exponent: 0,
    });
    assert_eq!(calculator::interpreter::calc(&bad), Err(CalculateError::UnknownExpression));
    let not_binary = Expr::BinaryOperator(
        Box::new(Expr::IntegerLiteral(1)),
        OpCode::Not,
        Box::new(Expr::IntegerLiteral(2)),
    );
    assert_eq!(calculator::interpreter::calc(&not_binary), Err(CalculateError::NotBinaryOperator));
    assert_eq!(unary(OpCode::Add, 3), Err(CalculateError::NotUnaryOperator));
}

#[test]
fn calculate_collapses_errors() {
    assert_eq!(calculator::calculate("1+2*3"), Some(7));
    assert_eq!(calculator::calculate("1/0"), None);
    assert_eq!(calculator::calculate("1 +"), None);
}
