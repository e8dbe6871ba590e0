use vstd::prelude::*;
use crate::CalculatorError;
use vstd::string::{StrSliceExecFns, StringSliceAdditionalSpecFns};
use crate::ast::{Expr, ExprModel, OpCode};
use crate::lexer::{lex, lex_from, run_end, in_class, value_of, tokenize, tokens_model, Token, TokenModel};

verus! {

/// Why an input is not a well-formed expression.
#[derive(Clone, Copy, Debug, PartialEq, Eq, Structural)]
pub enum ParseError {
    /// No token starts at some position of the input.
    InvalidToken,
    /// The input ended inside an expression.
    UnrecognizedEof,
    /// A token stands where it cannot continue the expression.
    UnrecognizedToken,
    /// A complete expression is followed by a token that is not an operator.
    ExtraToken,
    /// The literal scanner refused a literal.
    User { error: CalculatorError },
}

/// Whether `op` is a binary operator of precedence level `lvl`: `||` at 0,
/// `&&` at 1, equality at 2, order at 3, shifts at 4 (only where `shifts`),
/// `+` `-` at 5 and `*` `/` `%` at 6. Level 7 holds the prefix operators.
pub open spec fn level_has(lvl: nat, op: OpCode, shifts: bool) -> bool {
    match op {
        OpCode::OrOp => lvl == 0,
        OpCode::AndOp => lvl == 1,
        OpCode::EqOp | OpCode::NeOp => lvl == 2,
        OpCode::LTOp | OpCode::LEOp | OpCode::GTOp | OpCode::GEOp => lvl == 3,
        OpCode::LeftOp | OpCode::RightOp => lvl == 4 && shifts,
        OpCode::Add | OpCode::Sub => lvl == 5,
        OpCode::Mul | OpCode::Div | OpCode::Mod => lvl == 6,
        OpCode::Not => false,
    }
}

/// Whether position `q` holds a binary operator of level `lvl`.
pub open spec fn binary_at(t: Seq<TokenModel>, q: int, lvl: nat, shifts: bool) -> bool {
    0 <= q < t.len() && match t[q] {
        TokenModel::Op(op) => level_has(lvl, op, shifts),
        _ => false,
    }
}

/// The operator that an operator token holds.
pub open spec fn op_of(tok: TokenModel) -> OpCode {
    match tok {
        TokenModel::Op(op) => op,
        _ => OpCode::Not,
    }
}

/// An expression of level `lvl` or higher that starts at `p`, and the
/// position after it.
pub open spec fn parse_level(t: Seq<TokenModel>, lvl: nat, p: int, shifts: bool) -> Result<(ExprModel, int), ParseError>
    decreases t.len() - p, if lvl >= 7 { 1int } else { 20 - 2 * lvl }, 0int,
{
    if lvl >= 7 {
        parse_unary(t, p, shifts)
    } else {
        match parse_level(t, lvl + 1, p, shifts) {
            Err(e) => Err(e),
            Ok((l, q)) => if q <= p || q > t.len() {
                Err(ParseError::UnrecognizedToken)
            } else {
                fold_level(t, lvl, q, l, shifts)
            },
        }
    }
}

/// Folds `left` with the operators of level `lvl` and their right operands
/// from `q` on, leaning left.
pub open spec fn fold_level(t: Seq<TokenModel>, lvl: nat, q: int, left: ExprModel, shifts: bool) -> Result<(ExprModel, int), ParseError>
    decreases t.len() - q, if lvl >= 7 { 1int } else { 20 - 2 * lvl }, 1int,
{
    if lvl < 7 && binary_at(t, q, lvl, shifts) {
        match parse_level(t, lvl + 1, q + 1, shifts) {
            Err(e) => Err(e),
            Ok((r, q2)) => if q2 <= q || q2 > t.len() {
                Err(ParseError::UnrecognizedToken)
            } else {
                fold_level(t, lvl, q2, ExprModel::BinaryOperator(Box::new(left), op_of(t[q]), Box::new(r)), shifts)
            },
        }
    } else {
        Ok((left, q))
    }
}

/// A prefix `-` or `!` applied to a unary expression, or a primary: a
/// literal or a parenthesised expression.
pub open spec fn parse_unary(t: Seq<TokenModel>, p: int, shifts: bool) -> Result<(ExprModel, int), ParseError>
    decreases t.len() - p, 0int, 0int,
{
    if p < 0 || p >= t.len() {
        Err(ParseError::UnrecognizedEof)
    } else {
        match t[p] {
            TokenModel::Op(op) => if op == OpCode::Sub || op == OpCode::Not {
                match parse_unary(t, p + 1, shifts) {
                    Err(e) => Err(e),
                    Ok((e, q)) => Ok((ExprModel::UnaryOperator(op, Box::new(e)), q)),
                }
            } else {
                Err(ParseError::UnrecognizedToken)
            },
            TokenModel::Int(n) => Ok((ExprModel::IntegerLiteral(n), p + 1)),
            TokenModel::Float(d) => Ok((ExprModel::FloatingLiteral(d), p + 1)),
            TokenModel::LParen => match parse_level(t, 0, p + 1, shifts) {
                Err(e) => Err(e),
                Ok((e, q)) => if q >= t.len() {
                    Err(ParseError::UnrecognizedEof)
                } else if t[q] is RParen {
                    Ok((e, q + 1))
                } else {
                    Err(ParseError::UnrecognizedToken)
                },
            },
            TokenModel::RParen => Err(ParseError::UnrecognizedToken),
        }
    }
}

/// A whole token sequence read as one expression.
pub open spec fn parse_tokens(t: Seq<TokenModel>, shifts: bool) -> Result<ExprModel, ParseError> {
    match parse_level(t, 0, 0, shifts) {
        Err(e) => Err(e),
        Ok((e, q)) => if q == t.len() {
            Ok(e)
        } else {
            Err(ParseError::ExtraToken)
        },
    }
}

/// A whole source text read as one expression.
pub open spec fn parse_source(s: Seq<u8>, shifts: bool) -> Result<ExprModel, ParseError> {
    match lex(s) {
        Err(e) => Err(e),
        Ok(t) => parse_tokens(t, shifts),
    }
}

/// Whether an executable partial parse stands for the spec one.
pub open spec fn step_matches(r: Result<(Box<Expr>, usize), ParseError>, m: Result<(ExprModel, int), ParseError>) -> bool {
    match r {
        Ok((e, q)) => m == Ok::<(ExprModel, int), ParseError>((e.model(), q as int)),
        Err(err) => m == Err::<(ExprModel, int), ParseError>(err),
    }
}

/// Whether an executable parse result stands for the spec one.
pub open spec fn parse_matches(r: Result<Box<Expr>, ParseError>, m: Result<ExprModel, ParseError>) -> bool {
    match r {
        Ok(e) => m == Ok::<ExprModel, ParseError>(e.model()),
        Err(err) => m == Err::<ExprModel, ParseError>(err),
    }
}

/// A parser for the expression grammar; `shifts` admits `<<` and `>>`.
pub struct Parser {
    pub shifts: bool,
}

impl Parser {
    /// The grammar without shift operators.
    pub fn new() -> (r: Parser)
        ensures
            !r.shifts,
    {
        Parser { shifts: false }
    }

    /// The grammar with `<<` and `>>` between comparisons and `+` `-`.
    pub fn with_shifts() -> (r: Parser)
        ensures
            r.shifts,
    {
        Parser { shifts: true }
    }

    fn level_op(&self, t: &Vec<Token>, q: usize, lvl: usize) -> (r: Option<OpCode>)
        ensures
            r is Some <==> (lvl < 7 && binary_at(tokens_model(t@), q as int, lvl as nat, self.shifts)),
            r matches Some(op) ==> op == op_of(tokens_model(t@)[q as int]),
    {
        if lvl >= 7 || q >= t.len() {
            return None;
        }
        match &t[q] {
            Token::Op(op) => {
                let op = *op;
                let has = match op {
                    OpCode::OrOp => lvl == 0,
                    OpCode::AndOp => lvl == 1,
                    OpCode::EqOp | OpCode::NeOp => lvl == 2,
                    OpCode::LTOp | OpCode::LEOp | OpCode::GTOp | OpCode::GEOp => lvl == 3,
                    OpCode::LeftOp | OpCode::RightOp => lvl == 4 && self.shifts,
                    OpCode::Add | OpCode::Sub => lvl == 5,
                    OpCode::Mul | OpCode::Div | OpCode::Mod => lvl == 6,
                    OpCode::Not => false,
                };
                if has { Some(op) } else { None }
            },
            _ => None,
        }
    }

    fn parse_level_exec(&self, t: &Vec<Token>, lvl: usize, p: usize) -> (r: Result<(Box<Expr>, usize), ParseError>)
        requires
            p <= t.len(),
            lvl <= 7,
        ensures
            step_matches(r, parse_level(tokens_model(t@), lvl as nat, p as int, self.shifts)),
            r matches Ok((_, q)) ==> p < q <= t.len(),
        decreases t.len() - p, 20 - 2 * lvl, 0int,
    {
        let ghost tm = tokens_model(t@);
        if lvl >= 7 {
            return self.parse_unary_exec(t, p);
        }
        let (mut left, mut q) = match self.parse_level_exec(t, lvl + 1, p) {
            Err(e) => {
                return Err(e);
            },
            Ok(x) => x,
        };
        loop
            invariant
                p < q <= t.len(),
                lvl < 7,
                tm == tokens_model(t@),
                parse_level(tm, lvl as nat, p as int, self.shifts) == fold_level(tm, lvl as nat, q as int, left.model(), self.shifts),
            decreases t.len() - q,
        {
            let op = match self.level_op(t, q, lvl) {
                None => {
                    return Ok((left, q));
                },
                Some(op) => op,
            };
            let (right, q2) = match self.parse_level_exec(t, lvl + 1, q + 1) {
                Err(e) => {
                    return Err(e);
                },
                Ok(x) => x,
            };
            left = Box::new(Expr::BinaryOperator(left, op, right));
            q = q2;
        }
    }

    fn parse_unary_exec(&self, t: &Vec<Token>, p: usize) -> (r: Result<(Box<Expr>, usize), ParseError>)
        requires
            p <= t.len(),
        ensures
            step_matches(r, parse_unary(tokens_model(t@), p as int, self.shifts)),
            r matches Ok((_, q)) ==> p < q <= t.len(),
        decreases t.len() - p, 0int, 0int,
    {
        if p >= t.len() {
            return Err(ParseError::UnrecognizedEof);
        }
        match &t[p] {
            Token::Op(op) => {
                let op = *op;
                if op == OpCode::Sub || op == OpCode::Not {
                    match self.parse_unary_exec(t, p + 1) {
                        Err(e) => Err(e),
                        Ok((e, q)) => Ok((Box::new(Expr::UnaryOperator(op, e)), q)),
                    }
                } else {
                    Err(ParseError::UnrecognizedToken)
                }
            },
            Token::Int(n) => Ok((Box::new(Expr::IntegerLiteral(*n)), p + 1)),
            Token::Float(d) => Ok((Box::new(Expr::FloatingLiteral(d.duplicate())), p + 1)),
            Token::LParen => match self.parse_level_exec(t, 0, p + 1) {
                Err(e) => Err(e),
                Ok((e, q)) => {
                    if q >= t.len() {
                        Err(ParseError::UnrecognizedEof)
                    } else {
                        match &t[q] {
                            Token::RParen => Ok((e, q + 1)),
                            _ => Err(ParseError::UnrecognizedToken),
                        }
                    }
                },
            },
            Token::RParen => Err(ParseError::UnrecognizedToken),
        }
    }

    /// Reads a token sequence as one expression.
    pub fn parse_token_vec(&self, t: &Vec<Token>) -> (r: Result<Box<Expr>, ParseError>)
        ensures
            parse_matches(r, parse_tokens(tokens_model(t@), self.shifts)),
    {
        match self.parse_level_exec(t, 0, 0) {
            Err(e) => Err(e),
            Ok((e, q)) => if q == t.len() {
                Ok(e)
            } else {
                Err(ParseError::ExtraToken)
            },
        }
    }

    /// Reads the bytes of a source text as one expression.
    pub fn parse_bytes(&self, s: &Vec<u8>) -> (r: Result<Box<Expr>, ParseError>)
        ensures
            parse_matches(r, parse_source(s@, self.shifts)),
    {
        match tokenize(s) {
            Err(e) => Err(e),
            Ok(t) => self.parse_token_vec(&t),
        }
    }

    /// Reads a source text as one expression.
    pub fn parse(&self, input: &str) -> (r: Result<Box<Expr>, ParseError>)
        ensures
            parse_matches(r, parse_source(input.spec_bytes(), self.shifts)),
    {
        let bytes = input.as_bytes_vec();
        self.parse_bytes(&bytes)
    }
}

/// An empty source text is no expression: reading it reports the early end.
pub proof fn lemma_empty_fails(shifts: bool)
    ensures
        parse_source(Seq::<u8>::empty(), shifts) == Err::<ExprModel, ParseError>(ParseError::UnrecognizedEof),
{
    reveal_with_fuel(parse_level, 9);
}

proof fn lemma_run_end_all(s: Seq<u8>, i: int, base: nat)
    requires
        0 <= i <= s.len(),
        forall|k: int| i <= k < s.len() ==> in_class(#[trigger] s[k], base),
    ensures
        run_end(s, i, base) == s.len(),
    decreases s.len() - i,
{
    if i < s.len() {
        lemma_run_end_all(s, i + 1, base);
    }
}

/// A decimal literal whose value exceeds `u64::MAX` is refused as too big,
/// never truncated.
pub proof fn lemma_literal_too_big(s: Seq<u8>, shifts: bool)
    requires
        s.len() > 0,
        s[0] != 48,
        forall|k: int| 0 <= k < s.len() ==> 48 <= #[trigger] s[k] <= 57,
        value_of(s, 10) > u64::MAX,
    ensures
        parse_source(s, shifts) == Err::<ExprModel, ParseError>(ParseError::User { error: CalculatorError::InputTooBig }),
{
    lemma_run_end_all(s, 0, 10);
    assert(s.subrange(0, s.len() as int) =~= s);
    assert(lex_from(s, 0) == Err::<Seq<TokenModel>, ParseError>(ParseError::User { error: CalculatorError::InputTooBig }));
}

/// One for an opening parenthesis, minus one for a closing one.
pub open spec fn paren_delta(tok: TokenModel) -> int {
    match tok {
        TokenModel::LParen => 1,
        TokenModel::RParen => -1,
        _ => 0,
    }
}

/// Opening parentheses minus closing ones.
pub open spec fn balance(t: Seq<TokenModel>) -> int
    decreases t.len(),
{
    if t.len() == 0 {
        0
    } else {
        balance(t.drop_last()) + paren_delta(t.last())
    }
}

proof fn lemma_balance_split(t: Seq<TokenModel>, a: int, m: int, b: int)
    requires
        0 <= a <= m <= b <= t.len(),
    ensures
        balance(t.subrange(a, b)) == balance(t.subrange(a, m)) + balance(t.subrange(m, b)),
    decreases b - m,
{
    if b == m {
        assert(t.subrange(m, b).len() == 0);
        assert(t.subrange(a, b) =~= t.subrange(a, m));
    } else {
        lemma_balance_split(t, a, m, b - 1);
        assert(t.subrange(a, b).drop_last() =~= t.subrange(a, b - 1));
        assert(t.subrange(m, b).drop_last() =~= t.subrange(m, b - 1));
    }
}

proof fn lemma_balance_one(t: Seq<TokenModel>, p: int)
    requires
        0 <= p < t.len(),
    ensures
        balance(t.subrange(p, p + 1)) == paren_delta(t[p]),
{
    let u = t.subrange(p, p + 1);
    assert(u.drop_last().len() == 0);
    assert(balance(u.drop_last()) == 0);
    assert(u.last() == t[p]);
    assert(balance(u) == balance(u.drop_last()) + paren_delta(u.last()));
}

proof fn lemma_level_balanced(t: Seq<TokenModel>, lvl: nat, p: int, shifts: bool)
    requires
        0 <= p <= t.len(),
    ensures
        parse_level(t, lvl, p, shifts) matches Ok((_, q)) ==> p < q <= t.len() && balance(t.subrange(p, q)) == 0,
    decreases t.len() - p, if lvl >= 7 { 1int } else { 20 - 2 * lvl }, 0int,
{
    if lvl >= 7 {
        lemma_unary_balanced(t, p, shifts);
    } else {
        lemma_level_balanced(t, lvl + 1, p, shifts);
        if let Ok((l, q)) = parse_level(t, lvl + 1, p, shifts) {
            if q > p && q <= t.len() {
                lemma_fold_balanced(t, lvl, q, l, shifts);
                if let Ok((_, q2)) = fold_level(t, lvl, q, l, shifts) {
                    lemma_balance_split(t, p, q, q2);
                }
            }
        }
    }
}

proof fn lemma_fold_balanced(t: Seq<TokenModel>, lvl: nat, q: int, left: ExprModel, shifts: bool)
    requires
        0 <= q <= t.len(),
    ensures
        fold_level(t, lvl, q, left, shifts) matches Ok((_, q2)) ==> q <= q2 <= t.len() && balance(t.subrange(q, q2)) == 0,
    decreases t.len() - q, if lvl >= 7 { 1int } else { 20 - 2 * lvl }, 1int,
{
    if lvl < 7 && binary_at(t, q, lvl, shifts) {
        lemma_level_balanced(t, lvl + 1, q + 1, shifts);
        if let Ok((r, q2)) = parse_level(t, lvl + 1, q + 1, shifts) {
            if q2 > q && q2 <= t.len() {
                let next = ExprModel::BinaryOperator(Box::new(left), op_of(t[q]), Box::new(r));
                lemma_fold_balanced(t, lvl, q2, next, shifts);
                if let Ok((_, q3)) = fold_level(t, lvl, q2, next, shifts) {
                    lemma_balance_split(t, q, q + 1, q2);
                    lemma_balance_split(t, q, q2, q3);
                    lemma_balance_one(t, q);
                }
            }
        }
    } else {
        assert(t.subrange(q, q).len() == 0);
    }
}

proof fn lemma_unary_balanced(t: Seq<TokenModel>, p: int, shifts: bool)
    requires
        0 <= p <= t.len(),
    ensures
        parse_unary(t, p, shifts) matches Ok((_, q)) ==> p < q <= t.len() && balance(t.subrange(p, q)) == 0,
    decreases t.len() - p, 0int, 0int,
{
    if p < t.len() {
        lemma_balance_one(t, p);
        match t[p] {
            TokenModel::Op(op) => {
                if op == OpCode::Sub || op == OpCode::Not {
                    lemma_unary_balanced(t, p + 1, shifts);
                    if let Ok((_, q)) = parse_unary(t, p + 1, shifts) {
                        lemma_balance_split(t, p, p + 1, q);
                    }
                }
            },
            TokenModel::LParen => {
                lemma_level_balanced(t, 0, p + 1, shifts);
                if let Ok((_, q)) = parse_level(t, 0, p + 1, shifts) {
                    if q < t.len() {
                        lemma_balance_split(t, p, p + 1, q);
                        lemma_balance_split(t, p, q, q + 1);
                        lemma_balance_one(t, q);
                    }
                }
            },
            _ => {},
        }
    }
}

/// Parentheses must balance: a token sequence with more opening than
/// closing parentheses, or fewer, is refused.
pub proof fn lemma_unbalanced_fails(t: Seq<TokenModel>, shifts: bool)
    requires
        balance(t) != 0,
    ensures
        parse_tokens(t, shifts) is Err,
{
    lemma_level_balanced(t, 0, 0, shifts);
    assert(t.subrange(0, t.len() as int) =~= t);
}

/// A source text whose tokens hold unbalanced parentheses is refused.
pub proof fn lemma_unbalanced_source_fails(s: Seq<u8>, shifts: bool)
    requires
        lex(s) matches Ok(t) && balance(t) != 0,
    ensures
        parse_source(s, shifts) is Err,
{
    if let Ok(t) = lex(s) {
        lemma_unbalanced_fails(t, shifts);
    }
}

/// How a parse of `t.push(x)` relates to the same parse of `t`, whose
/// length is `n`: one that stops before the end of `t` is unchanged; one
/// that reaches it either fails or stops there too.
pub open spec fn extends_ok(
    r: Result<(ExprModel, int), ParseError>,
    r2: Result<(ExprModel, int), ParseError>,
    n: int,
) -> bool {
    match r {
        Ok((_, q)) => if q < n {
            r2 == r
        } else {
            r2 is Err || r2 == r
        },
        Err(_) => true,
    }
}

proof fn lemma_level_at_end(t: Seq<TokenModel>, lvl: nat, shifts: bool)
    ensures
        parse_level(t, lvl, t.len() as int, shifts) is Err,
    decreases if lvl >= 7 { 0int } else { 7 - lvl },
{
    if lvl < 7 {
        lemma_level_at_end(t, lvl + 1, shifts);
    } else {
        assert(parse_unary(t, t.len() as int, shifts) is Err);
    }
}

proof fn lemma_level_extends(t: Seq<TokenModel>, x: TokenModel, lvl: nat, p: int, shifts: bool)
    requires
        0 <= p <= t.len(),
    ensures
        extends_ok(parse_level(t, lvl, p, shifts), parse_level(t.push(x), lvl, p, shifts), t.len() as int),
    decreases t.len() - p, if lvl >= 7 { 1int } else { 20 - 2 * lvl }, 0int,
{
    let u = t.push(x);
    if lvl >= 7 {
        lemma_unary_extends(t, x, p, shifts);
    } else {
        lemma_level_extends(t, x, lvl + 1, p, shifts);
        lemma_level_balanced(t, lvl + 1, p, shifts);
        if let Ok((l, q)) = parse_level(t, lvl + 1, p, shifts) {
            lemma_fold_extends(t, x, lvl, q, l, shifts);
        }
    }
}

proof fn lemma_fold_extends(t: Seq<TokenModel>, x: TokenModel, lvl: nat, q: int, left: ExprModel, shifts: bool)
    requires
        0 <= q <= t.len(),
    ensures
        extends_ok(fold_level(t, lvl, q, left, shifts), fold_level(t.push(x), lvl, q, left, shifts), t.len() as int),
    decreases t.len() - q, if lvl >= 7 { 1int } else { 20 - 2 * lvl }, 1int,
{
    let u = t.push(x);
    if lvl < 7 && binary_at(t, q, lvl, shifts) {
        assert(u[q] == t[q]);
        lemma_level_extends(t, x, lvl + 1, q + 1, shifts);
        lemma_level_balanced(t, lvl + 1, q + 1, shifts);
        if let Ok((r, q2)) = parse_level(t, lvl + 1, q + 1, shifts) {
            let next = ExprModel::BinaryOperator(Box::new(left), op_of(t[q]), Box::new(r));
            lemma_fold_extends(t, x, lvl, q2, next, shifts);
        }
    } else if q == t.len() {
        if lvl < 7 && binary_at(u, q, lvl, shifts) {
            lemma_level_at_end(u, lvl + 1, shifts);
        }
    } else {
        assert(u[q] == t[q]);
    }
}

proof fn lemma_unary_extends(t: Seq<TokenModel>, x: TokenModel, p: int, shifts: bool)
    requires
        0 <= p <= t.len(),
    ensures
        extends_ok(parse_unary(t, p, shifts), parse_unary(t.push(x), p, shifts), t.len() as int),
    decreases t.len() - p, 0int, 0int,
{
    let u = t.push(x);
    if p < t.len() {
        assert(u[p] == t[p]);
        match t[p] {
            TokenModel::Op(op) => {
                if op == OpCode::Sub || op == OpCode::Not {
                    lemma_unary_extends(t, x, p + 1, shifts);
                }
            },
            TokenModel::LParen => {
                lemma_level_extends(t, x, 0, p + 1, shifts);
                lemma_level_balanced(t, 0, p + 1, shifts);
                if let Ok((_, q)) = parse_level(t, 0, p + 1, shifts) {
                    if q < t.len() {
                        assert(u[q] == t[q]);
                    }
                }
            },
            _ => {},
        }
    }
}

/// Nothing may follow a complete expression: where a token sequence reads
/// as one expression, the same sequence with any token after it is refused.
pub proof fn lemma_trailing_token_fails(t: Seq<TokenModel>, x: TokenModel, shifts: bool)
    requires
        parse_tokens(t, shifts) is Ok,
    ensures
        parse_tokens(t.push(x), shifts) is Err,
{
    lemma_level_extends(t, x, 0, 0, shifts);
}

/// A source text whose tokens are those of a well-formed expression and one
/// more is refused (`1+2)`, `1 2`).
pub proof fn lemma_trailing_source_fails(s: Seq<u8>, longer: Seq<u8>, x: TokenModel, shifts: bool)
    requires
        parse_source(s, shifts) is Ok,
        lex(s) matches Ok(t) && lex(longer) == Ok::<Seq<TokenModel>, ParseError>(t.push(x)),
    ensures
        parse_source(longer, shifts) is Err,
{
    if let Ok(t) = lex(s) {
        lemma_trailing_token_fails(t, x, shifts);
    }
}

} // verus!
