use calculator::ast::{Decimal, Expr, OpCode};
use calculator::parser::{ParseError, Parser};
use calculator::CalculatorError;

fn decimal_value(d: &Decimal) -> f64 {
    let digits: String = d.digits.iter().map(|&c| c as char).collect();
    let (int_part, frac_part) = digits.split_at(d.int_len);
    let int_part = if int_part.is_empty() { "0" } else { int_part };
    let frac_part = if frac_part.is_empty() { "0" } else { frac_part };
    let sign = if d.exp_negative { "-" } else { "" };
    format!("{}.{}e{}{}", int_part, frac_part, sign, d.exponent)
        .parse::<f64>()
        .unwrap()
}

fn floating(input: &str) -> f64 {
    match *Parser::new().parse(input).unwrap() {
        Expr::FloatingLiteral(ref d) => decimal_value(d),
        ref other => panic!("not a floating literal: {:?}", other),
    }
}

#[test]
fn parser_test_integer() {
    let parser = Parser::new();
    let expr = parser.parse("123").unwrap();
    assert_eq!(expr, Box::new(Expr::IntegerLiteral(123)));
    let expr = parser.parse("0123").unwrap();
    assert_eq!(expr, Box::new(Expr::IntegerLiteral(0o123)));
    let expr = parser.parse("0x123").unwrap();
    assert_eq!(expr, Box::new(Expr::IntegerLiteral(0x123)));
}

#[test]
fn test_floating() {
    assert_eq!(floating("1e+1"), 1e+1);
    assert_eq!(floating(".1e-3"), 0.1e-3);
    assert_eq!(floating("12."), 12.);
}

#[test]
fn test_binary_expr() {
    let expr = Parser::new().parse("22 * 44 + 66").unwrap();
    assert_eq!(
        expr,
        Box::new(Expr::BinaryOperator(
            Box::new(Expr::BinaryOperator(
                Box::new(Expr::IntegerLiteral(22)),
                OpCode::Mul,
                Box::new(Expr::IntegerLiteral(44))
            )),
            OpCode::Add,
            Box::new(Expr::IntegerLiteral(66))
        ))
    )
}

#[test]
fn test_unary_expr() {
    let expr = Parser::new().parse("-1 || 2 && 3").unwrap();
    assert_eq!(
        expr,
        Box::new(Expr::BinaryOperator(
            Box::new(Expr::UnaryOperator(
                OpCode::Sub,
                Box::new(Expr::IntegerLiteral(1)),
            )),
            OpCode::OrOp,
            Box::new(Expr::BinaryOperator(
                Box::new(Expr::IntegerLiteral(2)),
                OpCode::AndOp,
                Box::new(Expr::IntegerLiteral(3))
            ))
        ))
    );
}

#[test]
fn parser_test_error() {
    let expr = Parser::new().parse("18446744073709551616");
    assert!(expr.is_err());
    assert_eq!(
        expr.unwrap_err(),
        ParseError::User {
            error: CalculatorError::InputTooBig
        }
    );
}

#[test]
fn largest_literal_is_accepted() {
    let expr = Parser::new().parse("18446744073709551615").unwrap();
    assert_eq!(expr, Box::new(Expr::IntegerLiteral(u64::MAX)));
    assert_eq!(
        Parser::new().parse("0x10000000000000000").unwrap_err(),
        ParseError::User { error: CalculatorError::InputTooBig }
    );
}

#[test]
fn floating_literal_digits() {
    let expr = Parser::new().parse("12.5e-3").unwrap();
    assert_eq!(
        expr,
        Box::new(Expr::FloatingLiteral(Decimal {
            digits: b"125".to_vec(),
            int_len: 2,
            exp_negative: true,
            exponent: 3,
        }))
    );
    assert_eq!(floating("2.5E2"), 250.0);
    assert_eq!(floating("1e99999999999999999999"), f64::INFINITY);
}

#[test]
fn subtraction_leans_left() {
    let expr = Parser::new().parse("1-2-3").unwrap();
    assert_eq!(
        expr,
        Box::new(Expr::BinaryOperator(
            Box::new(Expr::BinaryOperator(
                Box::new(Expr::IntegerLiteral(1)),
                OpCode::Sub,
                Box::new(Expr::IntegerLiteral(2))
            )),
            OpCode::Sub,
            Box::new(Expr::IntegerLiteral(3))
        ))
    );
}

#[test]
fn unary_binds_tighter_than_plus() {
    let expr = Parser::new().parse("-1+2").unwrap();
    assert_eq!(
        expr,
        Box::new(Expr::BinaryOperator(
            Box::new(Expr::UnaryOperator(OpCode::Sub, Box::new(Expr::IntegerLiteral(1)))),
            OpCode::Add,
            Box::new(Expr::IntegerLiteral(2))
        ))
    );
}

#[test]
fn parentheses_group() {
    let expr = Parser::new().parse(" ( 1 + 2 ) * 3 ").unwrap();
    assert_eq!(
        expr,
        Box::new(Expr::BinaryOperator(
            Box::new(Expr::BinaryOperator(
                Box::new(Expr::IntegerLiteral(1)),
                OpCode::Add,
                Box::new(Expr::IntegerLiteral(2))
            )),
            OpCode::Mul,
            Box::new(Expr::IntegerLiteral(3))
        ))
    );
}

#[test]
fn malformed_inputs_are_refused() {
    let parser = Parser::new();
    assert_eq!(parser.parse("").unwrap_err(), ParseError::UnrecognizedEof);
    assert_eq!(parser.parse("   ").unwrap_err(), ParseError::UnrecognizedEof);
    assert_eq!(parser.parse("(1").unwrap_err(), ParseError::UnrecognizedEof);
    assert_eq!(parser.parse("1+").unwrap_err(), ParseError::UnrecognizedEof);
    assert_eq!(parser.parse("1+2)").unwrap_err(), ParseError::ExtraToken);
    assert_eq!(parser.parse("1 2").unwrap_err(), ParseError::ExtraToken);
    assert_eq!(parser.parse("(1 2)").unwrap_err(), ParseError::UnrecognizedToken);
    assert_eq!(parser.parse("*1").unwrap_err(), ParseError::UnrecognizedToken);
    assert_eq!(parser.parse("1 = 2").unwrap_err(), ParseError::InvalidToken);
    assert_eq!(parser.parse("09").unwrap_err(), ParseError::InvalidToken);
    assert_eq!(parser.parse("0x").unwrap_err(), ParseError::InvalidToken);
    assert_eq!(parser.parse("1e").unwrap_err(), ParseError::InvalidToken);
    assert_eq!(parser.parse("a").unwrap_err(), ParseError::InvalidToken);
}

#[test]
fn shifts_only_in_shift_grammar() {
    assert!(Parser::new().parse("1 << 2").is_err());
    let expr = Parser::with_shifts().parse("1 << 2 + 3").unwrap();
    assert_eq!(
        expr,
        Box::new(Expr::BinaryOperator(
            Box::new(Expr::IntegerLiteral(1)),
            OpCode::LeftOp,
            Box::new(Expr::BinaryOperator(
                Box::new(Expr::IntegerLiteral(2)),
                OpCode::Add,
                Box::new(Expr::IntegerLiteral(3))
            ))
        ))
    );
}

#[test]
fn comparison_operators() {
    let expr = Parser::new().parse("1 <= 2 != 3 >= 4").unwrap();
    assert_eq!(
        expr,
        Box::new(Expr::BinaryOperator(
            Box::new(Expr::BinaryOperator(
                Box::new(Expr::IntegerLiteral(1)),
                OpCode::LEOp,
                Box::new(Expr::IntegerLiteral(2))
            )),
            OpCode::NeOp,
            Box::new(Expr::BinaryOperator(
                Box::new(Expr::IntegerLiteral(3)),
                OpCode::GEOp,
                Box::new(Expr::IntegerLiteral(4))
            ))
        ))
    );
}

#[test]
fn operator_symbols() {
    assert_eq!(OpCode::OrOp.symbol(), "||");
    assert_eq!(OpCode::LEOp.symbol(), "<=");
    assert_eq!(OpCode::RightOp.symbol(), ">>");
    assert_eq!(OpCode::Not.symbol(), "!");
}

#[test]
fn tree_of_literals() {
    let expr = Parser::new().parse("12.5e-3 == !18446744073709551615").unwrap();
    assert_eq!(
        expr.tree_string(),
        "BinaryOperator '=='\n  FloatingLiteral 12.5e-3\n  UnaryOperator 'prefix' '!'\n    IntegerLiteral 18446744073709551615\n"
    );
    assert_eq!(Expr::Error.tree_string(), "error");
    assert_eq!(Parser::new().parse(".5").unwrap().tree_string(), "FloatingLiteral .5\n");
}
