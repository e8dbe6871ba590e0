use vstd::prelude::*;
use crate::lexer::value_of;

verus! {

/// Operator codes of the expression language.
#[derive(Clone, Copy, Debug, PartialEq, Eq, Structural)]
pub enum OpCode {
    OrOp,
    AndOp,
    EqOp,
    NeOp,
    LTOp,
    LEOp,
    GTOp,
    GEOp,
    LeftOp,
    RightOp,
    Add,
    Sub,
    Mul,
    Div,
    Mod,
    Not,
}

/// The textual symbol of an operator.
pub open spec fn symbol_of(op: OpCode) -> Seq<char> {
    match op {
        OpCode::OrOp => seq!['|', '|'],
        OpCode::AndOp => seq!['&', '&'],
        OpCode::EqOp => seq!['=', '='],
        OpCode::NeOp => seq!['!', '='],
        OpCode::LTOp => seq!['<'],
        OpCode::LEOp => seq!['<', '='],
        OpCode::GTOp => seq!['>'],
        OpCode::GEOp => seq!['>', '='],
        OpCode::LeftOp => seq!['<', '<'],
        OpCode::RightOp => seq!['>', '>'],
        OpCode::Add => seq!['+'],
        OpCode::Sub => seq!['-'],
        OpCode::Mul => seq!['*'],
        OpCode::Div => seq!['/'],
        OpCode::Mod => seq!['%'],
        OpCode::Not => seq!['!'],
    }
}

impl OpCode {
    /// The operator's symbol as it is written in source text.
    pub fn symbol(&self) -> (r: String)
        ensures
            r@ == symbol_of(*self),
    {
        let s = match self {
            OpCode::OrOp => "||",
            OpCode::AndOp => "&&",
            OpCode::EqOp => "==",
            OpCode::NeOp => "!=",
            OpCode::LTOp => "<",
            OpCode::LEOp => "<=",
            OpCode::GTOp => ">",
            OpCode::GEOp => ">=",
            OpCode::LeftOp => "<<",
            OpCode::RightOp => ">>",
            OpCode::Add => "+",
            OpCode::Sub => "-",
            OpCode::Mul => "*",
            OpCode::Div => "/",
            OpCode::Mod => "%",
            OpCode::Not => "!",
        };
        proof {
            reveal_strlit("||");
            reveal_strlit("&&");
            reveal_strlit("==");
            reveal_strlit("!=");
            reveal_strlit("<");
            reveal_strlit("<=");
            reveal_strlit(">");
            reveal_strlit(">=");
            reveal_strlit("<<");
            reveal_strlit(">>");
            reveal_strlit("+");
            reveal_strlit("-");
            reveal_strlit("*");
            reveal_strlit("/");
            reveal_strlit("%");
            reveal_strlit("!");
        }
        let r = String::from_str(s);
        proof {
            assert(r@ =~= symbol_of(*self));
        }
        r
    }
}

/// A floating literal kept exactly as decimal digits: its value is the
/// number that `digits` spell, with the point after `int_len` of them,
/// scaled by ten to the power `exponent` (negated when `exp_negative`).
/// The exponent saturates at `u64::MAX`.
#[derive(Debug, PartialEq)]
pub struct Decimal {
    pub digits: Vec<u8>,
    pub int_len: usize,
    pub exp_negative: bool,
    pub exponent: u64,
}

/// What a `Decimal` holds, as mathematical values.
pub type DecimalModel = (Seq<u8>, nat, bool, nat);

impl View for Decimal {
    type V = DecimalModel;

    open spec fn view(&self) -> DecimalModel {
        (self.digits@, self.int_len as nat, self.exp_negative, self.exponent as nat)
    }
}

/// Ten to the power `n`.
pub open spec fn pow10(n: nat) -> nat
    decreases n,
{
    if n == 0 {
        1
    } else {
        10 * pow10((n - 1) as nat)
    }
}

/// The integer part of a decimal literal's exact value.
pub open spec fn decimal_floor(d: DecimalModel) -> nat {
    let v = value_of(d.0, 10);
    let frac = d.0.len() - d.1;
    let k: int = if d.2 { -d.3 - frac } else { d.3 - frac };
    if k >= 0 {
        v * pow10(k as nat)
    } else {
        v / pow10((-k) as nat)
    }
}

/// `v` capped at `i64::MAX`.
pub open spec fn cap(v: nat) -> i64 {
    if v > i64::MAX {
        i64::MAX
    } else {
        v as i64
    }
}

proof fn lemma_pow10_pos(n: nat)
    ensures
        pow10(n) >= 1,
    decreases n,
{
    if n > 0 {
        lemma_pow10_pos((n - 1) as nat);
    }
}

proof fn lemma_pow10_mono(a: nat, b: nat)
    requires
        a <= b,
    ensures
        pow10(a) <= pow10(b),
    decreases b,
{
    if a < b {
        lemma_pow10_mono(a, (b - 1) as nat);
        lemma_pow10_pos((b - 1) as nat);
    }
}

proof fn lemma_cap_step(x: nat, d: nat)
    ensures
        cap((cap(x) as nat) * 10 + d) == cap(x * 10 + d),
{
    if x > i64::MAX {
        assert(x * 10 + d > i64::MAX) by (nonlinear_arith)
            requires
                x > i64::MAX,
        ;
    }
}

/// Dropping the last `j` digits divides by ten to the `j`.
proof fn lemma_value_div(d: Seq<u8>, j: nat)
    requires
        j <= d.len(),
        forall|k: int| 0 <= k < d.len() ==> 48 <= #[trigger] d[k] <= 57,
    ensures
        value_of(d, 10) / pow10(j) == value_of(d.subrange(0, d.len() - j), 10),
    decreases j,
{
    if j == 0 {
        assert(d.subrange(0, d.len() as int) =~= d);
        assert(pow10(0) == 1);
        let x = value_of(d, 10);
        assert(x / 1 == x);
    } else {
        let e = d.drop_last();
        lemma_value_div(e, (j - 1) as nat);
        assert(e.subrange(0, e.len() - (j - 1)) =~= d.subrange(0, d.len() - j));
        let x = value_of(d, 10);
        let y = value_of(e, 10);
        let last = crate::lexer::digit_val(d.last());
        assert(x == y * 10 + last);
        assert(last < 10);
        lemma_pow10_pos((j - 1) as nat);
        let p = pow10((j - 1) as nat);
        assert(pow10(j) == 10 * p);
        assert(forall|k: int| 0 <= k < e.len() ==> e[k] == d[k]);
        assert(x / (10 * p) == (x / 10) / p) by {
            vstd::arithmetic::div_mod::lemma_div_denominator(x as int, 10, p as int);
        }
        assert(x / 10 == y) by (nonlinear_arith)
            requires
                x == y * 10 + last,
                last < 10,
        ;
        assert(x / pow10(j) == y / p);
        assert(y / p == value_of(d.subrange(0, d.len() - j), 10));
    }
}

/// Digits spell less than ten to the power of their count.
proof fn lemma_value_bound(d: Seq<u8>)
    requires
        forall|k: int| 0 <= k < d.len() ==> 48 <= #[trigger] d[k] <= 57,
    ensures
        value_of(d, 10) < pow10(d.len()),
    decreases d.len(),
{
    if d.len() > 0 {
        let e = d.drop_last();
        lemma_value_bound(e);
        let y = value_of(e, 10);
        let p = pow10(e.len());
        let last = crate::lexer::digit_val(d.last());
        assert(y * 10 + last < 10 * p) by (nonlinear_arith)
            requires
                y < p,
                last < 10,
        ;
    }
}

impl Decimal {
    /// The literal's value as an `i64`: its integer part, or `i64::MAX`
    /// where that is larger.
    pub fn truncate(&self) -> (r: i64)
        requires
            self.int_len <= self.digits.len(),
            forall|k: int| 0 <= k < self.digits.len() ==> 48 <= #[trigger] self.digits@[k] <= 57,
        ensures
            r == cap(decimal_floor(self@)),
    {
        let len = self.digits.len();
        let keep: i128 = if self.exp_negative {
            self.int_len as i128 - self.exponent as i128
        } else {
            self.int_len as i128 + self.exponent as i128
        };
        let ghost d = self.digits@;
        let ghost v = value_of(d, 10);
        let ghost frac = len - self.int_len;
        let ghost k: int = if self.exp_negative { -self.exponent - frac } else { self.exponent - frac };
        assert(k == keep - len);
        if keep <= 0 {
            proof {
                if k == 0 {
                    assert(d.len() == 0);
                    assert(v == 0);
                    assert(v * pow10(0) == 0);
                }
                lemma_value_bound(d);
                lemma_pow10_mono(len as nat, (-k) as nat);
                assert(v / pow10((-k) as nat) == 0) by (nonlinear_arith)
                    requires
                        v < pow10(len as nat),
                        pow10(len as nat) <= pow10((-k) as nat),
                ;
            }
            return 0;
        }
        let take: usize = if keep < len as i128 { keep as usize } else { len };
        let mut acc: i64 = 0;
        let mut i: usize = 0;
        assert(d.subrange(0, 0).len() == 0);
        while i < take
            invariant
                i <= take <= len,
                len == self.digits.len(),
                d == self.digits@,
                forall|j: int| 0 <= j < d.len() ==> 48 <= #[trigger] d[j] <= 57,
                acc == cap(value_of(d.subrange(0, i as int), 10)),
            decreases take - i,
        {
            let dig = (self.digits[i] - 48) as i64;
            proof {
                assert(d.subrange(0, i + 1).drop_last() =~= d.subrange(0, i as int));
                lemma_cap_step(value_of(d.subrange(0, i as int), 10), dig as nat);
            }
            acc = if acc > (i64::MAX - dig) / 10 { i64::MAX } else { acc * 10 + dig };
            i = i + 1;
        }
        if keep < len as i128 {
            proof {
                lemma_value_div(d, (-k) as nat);
            }
            return acc;
        }
        assert(d.subrange(0, len as int) =~= d);
        assert(pow10(0) == 1);
        assert(v * pow10(0) == v);
        let zeros: i128 = keep - len as i128;
        let rounds: i128 = if zeros > 20 { 20 } else { zeros };
        let mut z: i128 = 0;
        while z < rounds
            invariant
                0 <= z <= rounds <= 20,
                acc == cap(v * pow10(z as nat)),
            decreases rounds - z,
        {
            proof {
                lemma_cap_step(v * pow10(z as nat), 0);
                assert(v * pow10((z + 1) as nat) == v * pow10(z as nat) * 10) by (nonlinear_arith)
                    requires
                        pow10((z + 1) as nat) == 10 * pow10(z as nat),
                ;
            }
            acc = if acc > i64::MAX / 10 { i64::MAX } else { acc * 10 };
            z = z + 1;
        }
        if zeros > 20 {
            proof {
                if v == 0 {
                    assert(v * pow10(zeros as nat) == 0 && v * pow10(20) == 0) by (nonlinear_arith)
                        requires
                            v == 0,
                    ;
                } else {
                    reveal_with_fuel(pow10, 21);
                    assert(pow10(20) == 100000000000000000000);
                    lemma_pow10_mono(20, zeros as nat);
                    assert(v * pow10(20) > i64::MAX) by (nonlinear_arith)
                        requires
                            v >= 1,
                            pow10(20) == 100000000000000000000,
                    ;
                    assert(v * pow10(zeros as nat) >= v * pow10(20)) by (nonlinear_arith)
                        requires
                            v >= 1,
                            pow10(zeros as nat) >= pow10(20),
                    ;
                }
            }
        }
        acc
    }

    /// A copy with the same digits and exponent.
    pub fn duplicate(&self) -> (r: Decimal)
        ensures
            r@ == self@,
    {
        Decimal {
            digits: self.digits.clone(),
            int_len: self.int_len,
            exp_negative: self.exp_negative,
            exponent: self.exponent,
        }
    }
}

/// A syntax tree node; every node owns its children.
#[derive(Debug, PartialEq)]
pub enum Expr {
    IntegerLiteral(u64),
    FloatingLiteral(Decimal),
    BinaryOperator(Box<Expr>, OpCode, Box<Expr>),
    UnaryOperator(OpCode, Box<Expr>),
    Error,
}

/// The mathematical model of a syntax tree.
pub enum ExprModel {
    IntegerLiteral(u64),
    FloatingLiteral(DecimalModel),
    BinaryOperator(Box<ExprModel>, OpCode, Box<ExprModel>),
    UnaryOperator(OpCode, Box<ExprModel>),
    Error,
}

impl Expr {
    /// The tree as a mathematical value.
    pub open spec fn model(&self) -> ExprModel
        decreases self,
    {
        match self {
            Expr::IntegerLiteral(n) => ExprModel::IntegerLiteral(*n),
            Expr::FloatingLiteral(d) => ExprModel::FloatingLiteral(d@),
            Expr::BinaryOperator(l, op, r) => ExprModel::BinaryOperator(
                Box::new(l.model()),
                *op,
                Box::new(r.model()),
            ),
            Expr::UnaryOperator(op, e) => ExprModel::UnaryOperator(*op, Box::new(e.model())),
            Expr::Error => ExprModel::Error,
        }
    }
}

} // verus!
