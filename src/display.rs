use vstd::prelude::*;
use vstd::string::StringExecFns;
use crate::ast::{symbol_of, Decimal, DecimalModel, Expr, ExprModel};

verus! {

/// The character of a decimal digit.
pub open spec fn digit_char(d: nat) -> char {
    if d == 0 {
        '0'
    } else if d == 1 {
        '1'
    } else if d == 2 {
        '2'
    } else if d == 3 {
        '3'
    } else if d == 4 {
        '4'
    } else if d == 5 {
        '5'
    } else if d == 6 {
        '6'
    } else if d == 7 {
        '7'
    } else if d == 8 {
        '8'
    } else {
        '9'
    }
}

/// The decimal numeral of `n`.
pub open spec fn num_text(n: nat) -> Seq<char>
    decreases n,
{
    if n < 10 {
        seq![digit_char(n)]
    } else {
        num_text(n / 10).push(digit_char(n % 10))
    }
}

/// The character of an ASCII digit byte; `?` for any other byte.
pub open spec fn byte_char(c: u8) -> char {
    if 48 <= c <= 57 {
        digit_char((c - 48) as nat)
    } else {
        '?'
    }
}

/// The characters of a run of digit bytes.
pub open spec fn bytes_text(b: Seq<u8>) -> Seq<char> {
    b.map_values(|c: u8| byte_char(c))
}

/// A floating literal written back as digits, a point, more digits, and an
/// exponent where it is not zero.
pub open spec fn decimal_text(d: DecimalModel) -> Seq<char> {
    let cut = if d.1 <= d.0.len() { d.1 as int } else { d.0.len() as int };
    let mantissa = bytes_text(d.0.subrange(0, cut)) + seq!['.'] + bytes_text(d.0.subrange(cut, d.0.len() as int));
    if d.3 == 0 {
        mantissa
    } else if d.2 {
        mantissa + seq!['e', '-'] + num_text(d.3)
    } else {
        mantissa + seq!['e'] + num_text(d.3)
    }
}

/// The tree printed one node per line, each child indented two spaces
/// deeper than its parent.
pub open spec fn tree_text(e: ExprModel, prefix: Seq<char>) -> Seq<char>
    decreases e,
{
    match e {
        ExprModel::IntegerLiteral(n) => prefix + "IntegerLiteral "@ + num_text(n as nat) + "\n"@,
        ExprModel::FloatingLiteral(d) => prefix + "FloatingLiteral "@ + decimal_text(d) + "\n"@,
        ExprModel::BinaryOperator(l, op, r) => prefix + "BinaryOperator '"@ + symbol_of(op) + "'\n"@
            + tree_text(*l, prefix + "  "@) + tree_text(*r, prefix + "  "@),
        ExprModel::UnaryOperator(op, x) => prefix + "UnaryOperator 'prefix' '"@ + symbol_of(op) + "'\n"@
            + tree_text(*x, prefix + "  "@),
        ExprModel::Error => "error"@,
    }
}

fn digit_str(d: u64) -> (r: &'static str)
    ensures
        r@ == seq![digit_char(d as nat)],
{
    proof {
        reveal_strlit("0");
        reveal_strlit("1");
        reveal_strlit("2");
        reveal_strlit("3");
        reveal_strlit("4");
        reveal_strlit("5");
        reveal_strlit("6");
        reveal_strlit("7");
        reveal_strlit("8");
        reveal_strlit("9");
    }
    let r = match d {
        0 => "0",
        1 => "1",
        2 => "2",
        3 => "3",
        4 => "4",
        5 => "5",
        6 => "6",
        7 => "7",
        8 => "8",
        _ => "9",
    };
    assert(r@ =~= seq![digit_char(d as nat)]);
    r
}

fn append_num(out: &mut String, n: u64)
    ensures
        final(out)@ == old(out)@ + num_text(n as nat),
    decreases n,
{
    if n >= 10 {
        append_num(out, n / 10);
    }
    out.append(digit_str(n % 10));
    assert(old(out)@ + num_text(n as nat) =~= final(out)@);
}

fn append_bytes(out: &mut String, b: &Vec<u8>, a: usize, e: usize)
    requires
        a <= e <= b.len(),
    ensures
        final(out)@ == old(out)@ + bytes_text(b@.subrange(a as int, e as int)),
{
    let mut k = a;
    while k < e
        invariant
            a <= k <= e <= b.len(),
            out@ == old(out)@ + bytes_text(b@.subrange(a as int, k as int)),
        decreases e - k,
    {
        let c = b[k];
        if 48 <= c && c <= 57 {
            out.append(digit_str((c - 48) as u64));
        } else {
            proof {
                reveal_strlit("?");
            }
            out.append("?");
        }
        assert(bytes_text(b@.subrange(a as int, k + 1)) =~= bytes_text(b@.subrange(a as int, k as int)).push(byte_char(c)));
        k = k + 1;
    }
}

fn append_decimal(out: &mut String, d: &Decimal)
    ensures
        final(out)@ == old(out)@ + decimal_text(d@),
{
    let len = d.digits.len();
    let cut = if d.int_len <= len { d.int_len } else { len };
    append_bytes(out, &d.digits, 0, cut);
    proof {
        reveal_strlit(".");
    }
    out.append(".");
    append_bytes(out, &d.digits, cut, len);
    if d.exponent != 0 {
        if d.exp_negative {
            proof {
                reveal_strlit("e-");
            }
            out.append("e-");
        } else {
            proof {
                reveal_strlit("e");
            }
            out.append("e");
        }
        append_num(out, d.exponent);
    }
    assert(final(out)@ =~= old(out)@ + decimal_text(d@));
}

fn write_tree(e: &Expr, out: &mut String, prefix: &String)
    ensures
        final(out)@ == old(out)@ + tree_text(e.model(), prefix@),
    decreases e,
{
    match e {
        Expr::IntegerLiteral(n) => {
            out.append(prefix.as_str());
            out.append("IntegerLiteral ");
            append_num(out, *n);
            out.append("\n");
        },
        Expr::FloatingLiteral(d) => {
            out.append(prefix.as_str());
            out.append("FloatingLiteral ");
            append_decimal(out, d);
            out.append("\n");
        },
        Expr::BinaryOperator(l, op, r) => {
            out.append(prefix.as_str());
            out.append("BinaryOperator '");
            let sym = op.symbol();
            out.append(sym.as_str());
            out.append("'\n");
            let deeper = prefix.clone().concat("  ");
            write_tree(l, out, &deeper);
            write_tree(r, out, &deeper);
        },
        Expr::UnaryOperator(op, x) => {
            out.append(prefix.as_str());
            out.append("UnaryOperator 'prefix' '");
            let sym = op.symbol();
            out.append(sym.as_str());
            out.append("'\n");
            let deeper = prefix.clone().concat("  ");
            write_tree(x, out, &deeper);
        },
        Expr::Error => {
            out.append("error");
        },
    }
    assert(final(out)@ =~= old(out)@ + tree_text(e.model(), prefix@));
}

impl Expr {
    /// The tree printed one node per line, children indented by two spaces.
    pub fn tree_string(&self) -> (r: String)
        ensures
            r@ == tree_text(self.model(), Seq::empty()),
    {
        let mut out = String::new();
        let prefix = String::new();
        write_tree(self, &mut out, &prefix);
        out
    }
}

} // verus!
