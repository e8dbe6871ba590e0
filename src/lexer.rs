use vstd::prelude::*;
use crate::ast::{Decimal, DecimalModel, OpCode};
use crate::parser::ParseError;
use crate::CalculatorError;

verus! {

/// A token of the expression language.
pub enum Token {
    Int(u64),
    Float(Decimal),
    Op(OpCode),
    LParen,
    RParen,
}

/// The mathematical model of a token.
pub enum TokenModel {
    Int(u64),
    Float(DecimalModel),
    Op(OpCode),
    LParen,
    RParen,
}

impl View for Token {
    type V = TokenModel;

    open spec fn view(&self) -> TokenModel {
        match self {
            Token::Int(n) => TokenModel::Int(*n),
            Token::Float(d) => TokenModel::Float(d@),
            Token::Op(op) => TokenModel::Op(*op),
            Token::LParen => TokenModel::LParen,
            Token::RParen => TokenModel::RParen,
        }
    }
}

/// The models of a sequence of tokens.
pub open spec fn tokens_model(v: Seq<Token>) -> Seq<TokenModel> {
    v.map_values(|t: Token| t@)
}

/// ASCII codes of the characters that literals are made of.
pub const ZERO: u8 = 48;
pub const POINT: u8 = 46;
pub const LOWER_E: u8 = 101;
pub const UPPER_E: u8 = 69;
pub const LOWER_X: u8 = 120;
pub const UPPER_X: u8 = 88;
pub const PLUS: u8 = 43;
pub const MINUS: u8 = 45;

/// Space, tab, line feed and carriage return separate tokens.
pub open spec fn is_space(c: u8) -> bool {
    c == 32 || c == 9 || c == 10 || c == 13
}

/// Whether `c` is a digit of the given base (8, 10 or 16).
pub open spec fn in_class(c: u8, base: nat) -> bool {
    if base == 16 {
        (48 <= c <= 57) || (97 <= c <= 102) || (65 <= c <= 70)
    } else if base == 8 {
        48 <= c <= 55
    } else {
        48 <= c <= 57
    }
}

/// The value of a digit character of base 8, 10 or 16.
pub open spec fn digit_val(c: u8) -> nat {
    if 48 <= c <= 57 {
        (c - 48) as nat
    } else if 97 <= c <= 102 {
        (c - 87) as nat
    } else {
        (c - 55) as nat
    }
}

/// The number that the digits `d` spell in the given base.
pub open spec fn value_of(d: Seq<u8>, base: nat) -> nat
    decreases d.len(),
{
    if d.len() == 0 {
        0
    } else {
        value_of(d.drop_last(), base) * base + digit_val(d.last())
    }
}

/// The end of the run of digits of the given base that starts at `i`.
pub open spec fn run_end(s: Seq<u8>, i: int, base: nat) -> int
    decreases s.len() - i,
{
    if 0 <= i < s.len() && in_class(s[i], base) {
        run_end(s, i + 1, base)
    } else {
        i
    }
}

/// Whether position `i` of `s` holds the byte `c`.
pub open spec fn at(s: Seq<u8>, i: int, c: u8) -> bool {
    0 <= i < s.len() && s[i] == c
}

/// Whether position `i` of `s` holds a decimal digit.
pub open spec fn digit_at(s: Seq<u8>, i: int) -> bool {
    0 <= i < s.len() && in_class(s[i], 10)
}

/// An integer token, or the error for a value above `u64::MAX`.
pub open spec fn int_token(v: nat, end: int) -> Result<(TokenModel, int), ParseError> {
    if v <= u64::MAX {
        Ok((TokenModel::Int(v as u64), end))
    } else {
        Err(ParseError::User { error: CalculatorError::InputTooBig })
    }
}

/// `v` capped at `u64::MAX`.
pub open spec fn saturate(v: nat) -> nat {
    if v <= u64::MAX {
        v
    } else {
        u64::MAX as nat
    }
}

/// A numeric literal at `i`: hexadecimal `0x..`, a floating literal (with a
/// point or an exponent), octal `0..`, or decimal.
pub open spec fn scan_number(s: Seq<u8>, i: int) -> Result<(TokenModel, int), ParseError> {
    let a = run_end(s, i, 10);
    if at(s, i, ZERO) && (at(s, i + 1, LOWER_X) || at(s, i + 1, UPPER_X)) {
        let b = run_end(s, i + 2, 16);
        if b == i + 2 {
            Err(ParseError::InvalidToken)
        } else {
            int_token(value_of(s.subrange(i + 2, b), 16), b)
        }
    } else if at(s, a, POINT) || at(s, a, LOWER_E) || at(s, a, UPPER_E) {
        let f0 = if at(s, a, POINT) { a + 1 } else { a };
        let f1 = run_end(s, f0, 10);
        let digits = s.subrange(i, a) + s.subrange(f0, f1);
        if at(s, f1, LOWER_E) || at(s, f1, UPPER_E) {
            let neg = at(s, f1 + 1, MINUS);
            let d0 = if neg || at(s, f1 + 1, PLUS) { f1 + 2 } else { f1 + 1 };
            let d1 = run_end(s, d0, 10);
            if d1 == d0 {
                Err(ParseError::InvalidToken)
            } else {
                Ok((TokenModel::Float((digits, (a - i) as nat, neg, saturate(value_of(s.subrange(d0, d1), 10)))), d1))
            }
        } else {
            Ok((TokenModel::Float((digits, (a - i) as nat, false, 0)), f1))
        }
    } else if at(s, i, ZERO) && a > i + 1 {
        if run_end(s, i, 8) < a {
            Err(ParseError::InvalidToken)
        } else {
            int_token(value_of(s.subrange(i + 1, a), 8), a)
        }
    } else {
        int_token(value_of(s.subrange(i, a), 10), a)
    }
}

/// An operator token that ends before `end`.
pub open spec fn op_token(op: OpCode, end: int) -> Option<(TokenModel, int)> {
    Some((TokenModel::Op(op), end))
}

/// An operator or a parenthesis at `i`; `None` where no token starts there.
pub open spec fn scan_op(s: Seq<u8>, i: int) -> Option<(TokenModel, int)> {
    let c = s[i];
    if c == 40 { // '('
        Some((TokenModel::LParen, i + 1))
    } else if c == 41 { // ')'
        Some((TokenModel::RParen, i + 1))
    } else if c == 43 { // '+'
        op_token(OpCode::Add, i + 1)
    } else if c == 45 { // '-'
        op_token(OpCode::Sub, i + 1)
    } else if c == 42 { // '*'
        op_token(OpCode::Mul, i + 1)
    } else if c == 47 { // '/'
        op_token(OpCode::Div, i + 1)
    } else if c == 37 { // '%'
        op_token(OpCode::Mod, i + 1)
    } else if c == 33 { // '!'
        if at(s, i + 1, 61) { op_token(OpCode::NeOp, i + 2) } else { op_token(OpCode::Not, i + 1) }
    } else if c == 60 { // '<'
        if at(s, i + 1, 61) {
            op_token(OpCode::LEOp, i + 2)
        } else if at(s, i + 1, 60) {
            op_token(OpCode::LeftOp, i + 2)
        } else {
            op_token(OpCode::LTOp, i + 1)
        }
    } else if c == 62 { // '>'
        if at(s, i + 1, 61) {
            op_token(OpCode::GEOp, i + 2)
        } else if at(s, i + 1, 62) {
            op_token(OpCode::RightOp, i + 2)
        } else {
            op_token(OpCode::GTOp, i + 1)
        }
    } else if c == 61 && at(s, i + 1, 61) { // '=='
        op_token(OpCode::EqOp, i + 2)
    } else if c == 124 && at(s, i + 1, 124) { // '||'
        op_token(OpCode::OrOp, i + 2)
    } else if c == 38 && at(s, i + 1, 38) { // '&&'
        op_token(OpCode::AndOp, i + 2)
    } else {
        None
    }
}

/// The token that starts at `i`, with the position after it.
pub open spec fn scan(s: Seq<u8>, i: int) -> Result<(TokenModel, int), ParseError> {
    if digit_at(s, i) || (at(s, i, POINT) && digit_at(s, i + 1)) {
        scan_number(s, i)
    } else {
        match scan_op(s, i) {
            Some(p) => Ok(p),
            None => Err(ParseError::InvalidToken),
        }
    }
}

/// The tokens of `s` from position `i` on; whitespace separates tokens.
pub open spec fn lex_from(s: Seq<u8>, i: int) -> Result<Seq<TokenModel>, ParseError>
    decreases s.len() - i,
{
    if i < 0 || i >= s.len() {
        Ok(seq![])
    } else if is_space(s[i]) {
        lex_from(s, i + 1)
    } else {
        match scan(s, i) {
            Err(e) => Err(e),
            Ok((t, j)) => if j <= i || j > s.len() {
                Err(ParseError::InvalidToken)
            } else {
                match lex_from(s, j) {
                    Ok(ts) => Ok(seq![t] + ts),
                    Err(e) => Err(e),
                }
            },
        }
    }
}

/// The tokens of a whole input.
pub open spec fn lex(s: Seq<u8>) -> Result<Seq<TokenModel>, ParseError> {
    lex_from(s, 0)
}

/// `ts` followed by the tokens of `r`, where `r` is a success.
pub open spec fn prepend(ts: Seq<TokenModel>, r: Result<Seq<TokenModel>, ParseError>) -> Result<Seq<TokenModel>, ParseError> {
    match r {
        Ok(rest) => Ok(ts + rest),
        Err(e) => Err(e),
    }
}

proof fn lemma_prepend_assoc(ts: Seq<TokenModel>, t: TokenModel, r: Result<Seq<TokenModel>, ParseError>)
    ensures
        prepend(ts, prepend(seq![t], r)) == prepend(ts.push(t), r),
{
    if let Ok(rest) = r {
        assert(ts + (seq![t] + rest) =~= ts.push(t) + rest);
    }
}

proof fn lemma_value_mono(s: Seq<u8>, a: int, k: int, b: int, base: nat)
    requires
        0 <= a <= k <= b <= s.len(),
        base >= 1,
    ensures
        value_of(s.subrange(a, k), base) <= value_of(s.subrange(a, b), base),
    decreases b - k,
{
    if k < b {
        lemma_value_mono(s, a, k, b - 1, base);
        assert(s.subrange(a, b).drop_last() =~= s.subrange(a, b - 1));
        let v = value_of(s.subrange(a, b - 1), base);
        assert(v * base >= v) by (nonlinear_arith)
            requires
                base >= 1,
        ;
    }
}

fn run_end_exec(s: &Vec<u8>, i: usize, base: u64) -> (r: usize)
    requires
        i <= s.len(),
    ensures
        r as int == run_end(s@, i as int, base as nat),
        i <= r <= s.len(),
        forall|k: int| i <= k < r ==> in_class(s@[k], base as nat),
        r < s.len() ==> !in_class(s@[r as int], base as nat),
{
    let mut j = i;
    while j < s.len() && in_class_exec(s[j], base)
        invariant
            i <= j <= s.len(),
            run_end(s@, i as int, base as nat) == run_end(s@, j as int, base as nat),
            forall|k: int| i <= k < j ==> in_class(s@[k], base as nat),
        decreases s.len() - j,
    {
        j = j + 1;
    }
    j
}

fn in_class_exec(c: u8, base: u64) -> (r: bool)
    ensures
        r == in_class(c, base as nat),
{
    if base == 16 {
        (48 <= c && c <= 57) || (97 <= c && c <= 102) || (65 <= c && c <= 70)
    } else if base == 8 {
        48 <= c && c <= 55
    } else {
        48 <= c && c <= 57
    }
}

fn digit_val_exec(c: u8) -> (r: u64)
    requires
        in_class(c, 16),
    ensures
        r == digit_val(c),
{
    if 48 <= c && c <= 57 {
        (c - 48) as u64
    } else if 97 <= c && c <= 102 {
        (c - 87) as u64
    } else {
        (c - 55) as u64
    }
}

/// The value of the digits in `s[a..b]`, or `None` where it exceeds `u64::MAX`.
fn value_exec(s: &Vec<u8>, a: usize, b: usize, base: u64) -> (r: Option<u64>)
    requires
        a <= b <= s.len(),
        base == 8 || base == 10 || base == 16,
        forall|k: int| a <= k < b ==> in_class(s@[k], base as nat),
    ensures
        r == (if value_of(s@.subrange(a as int, b as int), base as nat) <= u64::MAX {
            Some(value_of(s@.subrange(a as int, b as int), base as nat) as u64)
        } else {
            None::<u64>
        }),
{
    let mut acc: u64 = 0;
    let mut k = a;
    assert(s@.subrange(a as int, a as int).len() == 0);
    while k < b
        invariant
            a <= k <= b <= s.len(),
            base == 8 || base == 10 || base == 16,
            forall|k: int| a <= k < b ==> in_class(s@[k], base as nat),
            acc as nat == value_of(s@.subrange(a as int, k as int), base as nat),
        decreases b - k,
    {
        let d = digit_val_exec(s[k]);
        assert(s@.subrange(a as int, k + 1).drop_last() =~= s@.subrange(a as int, k as int));
        match acc.checked_mul(base) {
            None => {
                proof {
                    lemma_value_mono(s@, a as int, k + 1, b as int, base as nat);
                }
                return None;
            },
            Some(m) => match m.checked_add(d) {
                None => {
                    proof {
                        lemma_value_mono(s@, a as int, k + 1, b as int, base as nat);
                    }
                    return None;
                },
                Some(v) => {
                    acc = v;
                },
            },
        }
        k = k + 1;
    }
    assert(k == b);
    Some(acc)
}

/// Appends `s[a..b]` to `v`.
fn push_range(v: &mut Vec<u8>, s: &Vec<u8>, a: usize, b: usize)
    requires
        a <= b <= s.len(),
    ensures
        final(v)@ == old(v)@ + s@.subrange(a as int, b as int),
{
    let mut k = a;
    while k < b
        invariant
            a <= k <= b <= s.len(),
            v@ == old(v)@ + s@.subrange(a as int, k as int),
        decreases b - k,
    {
        v.push(s[k]);
        assert(old(v)@ + s@.subrange(a as int, k + 1) =~= (old(v)@ + s@.subrange(a as int, k as int)).push(s@[k as int]));
        k = k + 1;
    }
}

/// Whether an executable scan result stands for the spec one.
pub open spec fn scan_matches(r: Result<(Token, usize), ParseError>, m: Result<(TokenModel, int), ParseError>) -> bool {
    match r {
        Ok((t, j)) => m == Ok::<(TokenModel, int), ParseError>((t@, j as int)),
        Err(e) => m == Err::<(TokenModel, int), ParseError>(e),
    }
}

fn int_token_exec(v: Option<u64>, end: usize) -> (r: Result<(Token, usize), ParseError>)
    ensures
        match v {
            Some(n) => r == Ok::<(Token, usize), ParseError>((Token::Int(n), end)),
            None => r == Err::<(Token, usize), ParseError>(ParseError::User { error: CalculatorError::InputTooBig }),
        },
{
    match v {
        Some(n) => Ok((Token::Int(n), end)),
        None => Err(ParseError::User { error: CalculatorError::InputTooBig }),
    }
}

fn scan_number_exec(s: &Vec<u8>, i: usize) -> (r: Result<(Token, usize), ParseError>)
    requires
        i < s.len(),
        digit_at(s@, i as int) || (at(s@, i as int, POINT) && digit_at(s@, i + 1)),
    ensures
        scan_matches(r, scan_number(s@, i as int)),
        r matches Ok((_, j)) ==> i < j <= s.len(),
{
    let n = s.len();
    let a = run_end_exec(s, i, 10);
    if s[i] == ZERO && i + 1 < n && (s[i + 1] == LOWER_X || s[i + 1] == UPPER_X) {
        let b = run_end_exec(s, i + 2, 16);
        if b == i + 2 {
            return Err(ParseError::InvalidToken);
        }
        return int_token_exec(value_exec(s, i + 2, b, 16), b);
    }
    if a < n && (s[a] == POINT || s[a] == LOWER_E || s[a] == UPPER_E) {
        let f0 = if s[a] == POINT { a + 1 } else { a };
        let f1 = run_end_exec(s, f0, 10);
        let mut digits: Vec<u8> = Vec::new();
        push_range(&mut digits, s, i, a);
        push_range(&mut digits, s, f0, f1);
        assert(digits@ =~= s@.subrange(i as int, a as int) + s@.subrange(f0 as int, f1 as int));
        if f1 < n && (s[f1] == LOWER_E || s[f1] == UPPER_E) {
            let neg = f1 + 1 < n && s[f1 + 1] == MINUS;
            let d0 = if neg || (f1 + 1 < n && s[f1 + 1] == PLUS) { f1 + 2 } else { f1 + 1 };
            let d1 = run_end_exec(s, d0, 10);
            if d1 == d0 {
                return Err(ParseError::InvalidToken);
            }
            let e = match value_exec(s, d0, d1, 10) {
                Some(v) => v,
                None => u64::MAX,
            };
            let d = Decimal { digits, int_len: a - i, exp_negative: neg, exponent: e };
            return Ok((Token::Float(d), d1));
        }
        let d = Decimal { digits, int_len: a - i, exp_negative: false, exponent: 0 };
        return Ok((Token::Float(d), f1));
    }
    if s[i] == ZERO && a > i + 1 {
        let o = run_end_exec(s, i, 8);
        if o < a {
            return Err(ParseError::InvalidToken);
        }
        return int_token_exec(value_exec(s, i + 1, a, 8), a);
    }
    int_token_exec(value_exec(s, i, a, 10), a)
}

fn op_exec(op: OpCode, end: usize) -> (r: Option<(Token, usize)>)
    ensures
        r == Some((Token::Op(op), end)),
{
    Some((Token::Op(op), end))
}

fn scan_op_exec(s: &Vec<u8>, i: usize) -> (r: Option<(Token, usize)>)
    requires
        i < s.len(),
    ensures
        match r {
            Some((t, j)) => scan_op(s@, i as int) == Some((t@, j as int)) && i < j <= s.len(),
            None => scan_op(s@, i as int) is None,
        },
{
    let c = s[i];
    let next: u8 = if i + 1 < s.len() { s[i + 1] } else { 0 };
    if c == 40 { // '('
        Some((Token::LParen, i + 1))
    } else if c == 41 { // ')'
        Some((Token::RParen, i + 1))
    } else if c == 43 { // '+'
        op_exec(OpCode::Add, i + 1)
    } else if c == 45 { // '-'
        op_exec(OpCode::Sub, i + 1)
    } else if c == 42 { // '*'
        op_exec(OpCode::Mul, i + 1)
    } else if c == 47 { // '/'
        op_exec(OpCode::Div, i + 1)
    } else if c == 37 { // '%'
        op_exec(OpCode::Mod, i + 1)
    } else if c == 33 { // '!'
        if next == 61 { op_exec(OpCode::NeOp, i + 2) } else { op_exec(OpCode::Not, i + 1) }
    } else if c == 60 { // '<'
        if next == 61 {
            op_exec(OpCode::LEOp, i + 2)
        } else if next == 60 {
            op_exec(OpCode::LeftOp, i + 2)
        } else {
            op_exec(OpCode::LTOp, i + 1)
        }
    } else if c == 62 { // '>'
        if next == 61 {
            op_exec(OpCode::GEOp, i + 2)
        } else if next == 62 {
            op_exec(OpCode::RightOp, i + 2)
        } else {
            op_exec(OpCode::GTOp, i + 1)
        }
    } else if c == 61 && next == 61 { // '=='
        op_exec(OpCode::EqOp, i + 2)
    } else if c == 124 && next == 124 { // '||'
        op_exec(OpCode::OrOp, i + 2)
    } else if c == 38 && next == 38 { // '&&'
        op_exec(OpCode::AndOp, i + 2)
    } else {
        None
    }
}

fn scan_exec(s: &Vec<u8>, i: usize) -> (r: Result<(Token, usize), ParseError>)
    requires
        i < s.len(),
    ensures
        scan_matches(r, scan(s@, i as int)),
        r matches Ok((_, j)) ==> i < j <= s.len(),
{
    let c = s[i];
    let next_digit = i + 1 < s.len() && 48 <= s[i + 1] && s[i + 1] <= 57;
    if (48 <= c && c <= 57) || (c == POINT && next_digit) {
        scan_number_exec(s, i)
    } else {
        match scan_op_exec(s, i) {
            Some(p) => Ok(p),
            None => Err(ParseError::InvalidToken),
        }
    }
}

/// Splits the bytes of a source text into tokens.
pub fn tokenize(s: &Vec<u8>) -> (r: Result<Vec<Token>, ParseError>)
    ensures
        match r {
            Ok(v) => lex(s@) == Ok::<Seq<TokenModel>, ParseError>(tokens_model(v@)),
            Err(e) => lex(s@) == Err::<Seq<TokenModel>, ParseError>(e),
        },
{
    let mut toks: Vec<Token> = Vec::new();
    let mut i: usize = 0;
    assert(tokens_model(toks@) =~= Seq::<TokenModel>::empty());
    proof {
        if let Ok(rest) = lex_from(s@, 0) {
            assert(Seq::<TokenModel>::empty() + rest =~= rest);
        }
    }
    while i < s.len()
        invariant
            i <= s.len(),
            lex(s@) == prepend(tokens_model(toks@), lex_from(s@, i as int)),
        decreases s.len() - i,
    {
        let c = s[i];
        if c == 32 || c == 9 || c == 10 || c == 13 {
            i = i + 1;
        } else {
            match scan_exec(s, i) {
                Err(e) => {
                    return Err(e);
                },
                Ok((t, j)) => {
                    proof {
                        lemma_prepend_assoc(tokens_model(toks@), t@, lex_from(s@, j as int));
                    }
                    let ghost old_toks = toks@;
                    toks.push(t);
                    assert(tokens_model(toks@) =~= tokens_model(old_toks).push(t@));
                    i = j;
                },
            }
        }
    }
    assert(tokens_model(toks@) + Seq::<TokenModel>::empty() =~= tokens_model(toks@));
    Ok(toks)
}

} // verus!
