use vstd::prelude::*;
use vstd::wrapping::i64_specs;
use vstd::string::StringSliceAdditionalSpecFns;
use crate::ast::{cap, decimal_floor, Decimal, DecimalModel, Expr, ExprModel, OpCode};
use crate::parser::{parse_source, Parser};

verus! {

/// Why an expression has no value.
#[derive(Clone, Copy, Debug, PartialEq, Eq, Structural)]
pub enum CalculateError {
    /// The right operand of `/` or `%` is zero.
    DivisionZero,
    /// A binary node holds an operator that takes one operand.
    NotBinaryOperator,
    /// A unary node holds an operator other than `-` and `!`.
    NotUnaryOperator,
    /// An operand of a binary node has no value.
    NonBinaryOperator,
    /// The operand of a unary node has no value.
    NonUnaryOperator,
    /// An `Error` node, or a floating literal whose digits are malformed.
    UnknownExpression,
    /// The source text is not a well-formed expression.
    ParsingError,
}

/// One for true, zero for false.
pub open spec fn truth(b: bool) -> i64 {
    if b {
        1
    } else {
        0
    }
}

/// The absolute value.
pub open spec fn magnitude(x: i64) -> nat {
    if x < 0 {
        (-x) as nat
    } else {
        x as nat
    }
}

/// Division that rounds toward zero.
pub open spec fn quotient(l: i64, r: i64) -> int {
    if (l < 0) == (r < 0) {
        (magnitude(l) / magnitude(r)) as int
    } else {
        -(magnitude(l) / magnitude(r))
    }
}

/// The remainder of division toward zero; it has the sign of `l`.
pub open spec fn remainder(l: i64, r: i64) -> int {
    if l < 0 {
        -(magnitude(l) % magnitude(r))
    } else {
        (magnitude(l) % magnitude(r)) as int
    }
}

/// The quotient as an `i64`; the one quotient out of range, `i64::MIN / -1`,
/// wraps to `i64::MIN`.
pub open spec fn quotient_wrapped(l: i64, r: i64) -> i64 {
    if quotient(l, r) > i64::MAX {
        i64::MIN
    } else {
        quotient(l, r) as i64
    }
}

/// An unsigned literal read as a two's complement `i64`.
pub open spec fn literal_i64(n: u64) -> i64 {
    if n <= i64::MAX {
        n as i64
    } else {
        (n - 0x1_0000_0000_0000_0000) as i64
    }
}

/// A floating literal is well formed where its digits are ASCII digits and
/// the point stands among them.
pub open spec fn decimal_wf(d: DecimalModel) -> bool {
    d.1 <= d.0.len() && forall|k: int| 0 <= k < d.0.len() ==> 48 <= #[trigger] d.0[k] <= 57
}

/// What a binary operator yields on two values. Comparisons and logical
/// operators yield one or zero; `+ - *` wrap; shifts take the right operand
/// modulo 64.
pub open spec fn binary_value(op: OpCode, l: i64, r: i64) -> Result<i64, CalculateError> {
    match op {
        OpCode::OrOp => Ok(truth(l != 0 || r != 0)),
        OpCode::AndOp => Ok(truth(l != 0 && r != 0)),
        OpCode::EqOp => Ok(truth(l == r)),
        OpCode::NeOp => Ok(truth(l != r)),
        OpCode::LTOp => Ok(truth(l < r)),
        OpCode::LEOp => Ok(truth(l <= r)),
        OpCode::GTOp => Ok(truth(l > r)),
        OpCode::GEOp => Ok(truth(l >= r)),
        OpCode::LeftOp => Ok(i64_specs::wrapping_shl(l, (r & 63) as u32)),
        OpCode::RightOp => Ok(i64_specs::wrapping_shr(l, (r & 63) as u32)),
        OpCode::Add => Ok(i64_specs::wrapping_add(l, r)),
        OpCode::Sub => Ok(i64_specs::wrapping_sub(l, r)),
        OpCode::Mul => Ok(i64_specs::wrapping_mul(l, r)),
        OpCode::Div => if r == 0 {
            Err(CalculateError::DivisionZero)
        } else {
            Ok(quotient_wrapped(l, r))
        },
        OpCode::Mod => if r == 0 {
            Err(CalculateError::DivisionZero)
        } else {
            Ok(remainder(l, r) as i64)
        },
        OpCode::Not => Err(CalculateError::NotBinaryOperator),
    }
}

/// What a unary operator yields: `-` negates (wrapping), `!` complements
/// the bits.
pub open spec fn unary_value(op: OpCode, v: i64) -> Result<i64, CalculateError> {
    match op {
        OpCode::Sub => Ok(i64_specs::wrapping_sub(0, v)),
        OpCode::Not => Ok(!v),
        _ => Err(CalculateError::NotUnaryOperator),
    }
}

/// The value of a syntax tree, evaluated left operand first.
pub open spec fn eval(e: ExprModel) -> Result<i64, CalculateError>
    decreases e,
{
    match e {
        ExprModel::IntegerLiteral(n) => Ok(literal_i64(n)),
        ExprModel::FloatingLiteral(d) => if decimal_wf(d) {
            Ok(cap(decimal_floor(d)))
        } else {
            Err(CalculateError::UnknownExpression)
        },
        ExprModel::BinaryOperator(l, op, r) => match (eval(*l), eval(*r)) {
            (Ok(a), Ok(b)) => binary_value(op, a, b),
            _ => Err(CalculateError::NonBinaryOperator),
        },
        ExprModel::UnaryOperator(op, x) => match eval(*x) {
            Ok(a) => unary_value(op, a),
            Err(_) => Err(CalculateError::NonUnaryOperator),
        },
        ExprModel::Error => Err(CalculateError::UnknownExpression),
    }
}

/// The value of a source text, read with shift operators.
pub open spec fn evaluate_source(s: Seq<u8>) -> Result<i64, CalculateError> {
    match parse_source(s, true) {
        Ok(e) => eval(e),
        Err(_) => Err(CalculateError::ParsingError),
    }
}

fn truth_exec(b: bool) -> (r: i64)
    ensures
        r == truth(b),
{
    if b {
        1
    } else {
        0
    }
}

fn magnitude_exec(x: i64) -> (r: u64)
    ensures
        r == magnitude(x),
{
    if x < 0 {
        (0 - (x as i128)) as u64
    } else {
        x as u64
    }
}

/// Applies a binary operator to two values.
pub fn binary(op: OpCode, l: i64, r: i64) -> (res: Result<i64, CalculateError>)
    ensures
        res == binary_value(op, l, r),
{
    match op {
        OpCode::OrOp => Ok(truth_exec(l != 0 || r != 0)),
        OpCode::AndOp => Ok(truth_exec(l != 0 && r != 0)),
        OpCode::EqOp => Ok(truth_exec(l == r)),
        OpCode::NeOp => Ok(truth_exec(l != r)),
        OpCode::LTOp => Ok(truth_exec(l < r)),
        OpCode::LEOp => Ok(truth_exec(l <= r)),
        OpCode::GTOp => Ok(truth_exec(l > r)),
        OpCode::GEOp => Ok(truth_exec(l >= r)),
        OpCode::LeftOp => Ok(l.wrapping_shl((r & 63) as u32)),
        OpCode::RightOp => Ok(l.wrapping_shr((r & 63) as u32)),
        OpCode::Add => Ok(l.wrapping_add(r)),
        OpCode::Sub => Ok(l.wrapping_sub(r)),
        OpCode::Mul => Ok(l.wrapping_mul(r)),
        OpCode::Div => {
            if r == 0 {
                return Err(CalculateError::DivisionZero);
            }
            let q = magnitude_exec(l) / magnitude_exec(r);
            if q > i64::MAX as u64 {
                Ok(i64::MIN)
            } else if (l < 0) == (r < 0) {
                Ok(q as i64)
            } else {
                Ok(-(q as i64))
            }
        },
        OpCode::Mod => {
            if r == 0 {
                return Err(CalculateError::DivisionZero);
            }
            let m = magnitude_exec(l) % magnitude_exec(r);
            assert(m < magnitude(r));
            if l < 0 {
                Ok(-(m as i64))
            } else {
                Ok(m as i64)
            }
        },
        OpCode::Not => Err(CalculateError::NotBinaryOperator),
    }
}

/// Applies a unary operator to a value.
pub fn unary(op: OpCode, v: i64) -> (res: Result<i64, CalculateError>)
    ensures
        res == unary_value(op, v),
{
    match op {
        OpCode::Sub => Ok(0i64.wrapping_sub(v)),
        OpCode::Not => Ok(!v),
        _ => Err(CalculateError::NotUnaryOperator),
    }
}

fn decimal_wf_exec(d: &Decimal) -> (r: bool)
    ensures
        r == decimal_wf(d@),
{
    if d.int_len > d.digits.len() {
        return false;
    }
    let mut k: usize = 0;
    while k < d.digits.len()
        invariant
            k <= d.digits.len(),
            forall|j: int| 0 <= j < k ==> 48 <= #[trigger] d.digits@[j] <= 57,
        decreases d.digits.len() - k,
    {
        if d.digits[k] < 48 || d.digits[k] > 57 {
            return false;
        }
        k = k + 1;
    }
    true
}

/// Evaluates a syntax tree.
pub fn calc(expr: &Expr) -> (r: Result<i64, CalculateError>)
    ensures
        r == eval(expr.model()),
    decreases expr,
{
    match expr {
        Expr::IntegerLiteral(n) => {
            let n = *n;
            if n <= i64::MAX as u64 {
                Ok(n as i64)
            } else {
                Ok(((n - 0x8000_0000_0000_0000u64) as i64) - i64::MAX - 1)
            }
        },
        Expr::FloatingLiteral(d) => {
            if decimal_wf_exec(d) {
                Ok(d.truncate())
            } else {
                Err(CalculateError::UnknownExpression)
            }
        },
        Expr::BinaryOperator(lhs, op, rhs) => {
            let l = calc(lhs);
            let r = calc(rhs);
            match (l, r) {
                (Ok(a), Ok(b)) => binary(*op, a, b),
                _ => Err(CalculateError::NonBinaryOperator),
            }
        },
        Expr::UnaryOperator(op, e) => match calc(e) {
            Ok(a) => unary(*op, a),
            Err(_) => Err(CalculateError::NonUnaryOperator),
        },
        Expr::Error => Err(CalculateError::UnknownExpression),
    }
}

/// Parses a source text, with shift operators, and evaluates it.
pub fn evaluate(input: &str) -> (r: Result<i64, CalculateError>)
    ensures
        r == evaluate_source(input.spec_bytes()),
{
    let parser = Parser::with_shifts();
    match parser.parse(input) {
        Ok(expr) => calc(&expr),
        Err(_) => Err(CalculateError::ParsingError),
    }
}

/// Dividing by an operand whose value is zero fails with `DivisionZero`,
/// whatever the left operand is, for `/` and for `%`.
pub proof fn lemma_division_by_zero(l: ExprModel, r: ExprModel)
    requires
        eval(l) is Ok,
        eval(r) == Ok::<i64, CalculateError>(0),
    ensures
        eval(ExprModel::BinaryOperator(Box::new(l), OpCode::Div, Box::new(r))) == Err::<i64, CalculateError>(CalculateError::DivisionZero),
        eval(ExprModel::BinaryOperator(Box::new(l), OpCode::Mod, Box::new(r))) == Err::<i64, CalculateError>(CalculateError::DivisionZero),
{
}

/// Evaluation has no hidden state: two source texts with the same bytes
/// evaluate to the same value or fail with the same error.
pub proof fn lemma_evaluate_repeatable(a: &str, b: &str)
    requires
        a.spec_bytes() == b.spec_bytes(),
    ensures
        evaluate_source(a.spec_bytes()) == evaluate_source(b.spec_bytes()),
{
}

} // verus!
