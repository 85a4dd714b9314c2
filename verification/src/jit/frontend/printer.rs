//! The text of an expression.

use super::ast::binary;
use super::ast::BinaryOp;
use super::ast::Expr;
use super::ast::Term;
use super::ast::terms_of;
use super::ast::UnaryOp;
use vstd::prelude::*;
use vstd::string::StringExecFns;

verus! {

/// The text of a two-operand operator.
pub open spec fn token(op: BinaryOp) -> Seq<char> {
    match op {
        BinaryOp::Add => "+"@,
        BinaryOp::Sub => "-"@,
        BinaryOp::Mul => "*"@,
        BinaryOp::Div => "/"@,
        BinaryOp::Mod => "%"@,
        BinaryOp::Exp => "^"@,
        BinaryOp::Eq => "=="@,
        BinaryOp::Neq => "!="@,
        BinaryOp::Gt => ">"@,
        BinaryOp::Lt => "<"@,
        BinaryOp::Geq => ">="@,
        BinaryOp::Leq => "<="@,
        BinaryOp::And => "&&"@,
        BinaryOp::Or => "||"@,
    }
}

/// The text of a one-operand operator.
pub open spec fn sign(op: UnaryOp) -> Seq<char> {
    match op {
        UnaryOp::Neg => "-"@,
        UnaryOp::Not => "!"@,
    }
}

/// `text` in parentheses.
pub open spec fn wrapped(text: Seq<char>) -> Seq<char> {
    "("@ + text + ")"@
}

/// The text of a term. Every operand stands in parentheses, so that the
/// text means the term whatever the precedence of its operators.
pub open spec fn print(t: Term) -> Seq<char>
    decreases t,
{
    match t {
        Term::Read { identifier } => identifier,
        Term::Const { text } => text,
        Term::Chain { side, ret } => wrapped(print(*side)) + "; "@ + wrapped(print(*ret)),
        Term::Call { identifier, args } => identifier + "("@ + print_each(args) + ")"@,
        Term::Binary { op, lhs, rhs } => wrapped(print(*lhs)) + " "@ + token(op) + " "@ + wrapped(
            print(*rhs),
        ),
        Term::Unary { op, value } => sign(op) + wrapped(print(*value)),
        Term::Assign { identifier, value } => identifier + " = "@ + wrapped(print(*value)),
    }
}

/// The texts of the terms of a sequence, each in parentheses, with `, `
/// between them.
pub open spec fn print_each(ts: Seq<Term>) -> Seq<char>
    decreases ts,
{
    if ts.len() == 0 {
        Seq::empty()
    } else if ts.len() == 1 {
        wrapped(print(ts.last()))
    } else {
        print_each(ts.drop_last()) + ", "@ + wrapped(print(ts.last()))
    }
}

/// Appends `text` in parentheses to `out`.
fn push_wrapped(out: &mut String, text: &String)
    ensures
        final(out)@ == old(out)@ + wrapped(text@),
{
    out.append("(");
    out.append(text.as_str());
    out.append(")");
    assert(out@ =~= old(out)@ + wrapped(text@));
}

/// The text of a two-operand operator.
fn token_of(op: BinaryOp) -> (text: &'static str)
    ensures
        text@ == token(op),
{
    match op {
        BinaryOp::Add => "+",
        BinaryOp::Sub => "-",
        BinaryOp::Mul => "*",
        BinaryOp::Div => "/",
        BinaryOp::Mod => "%",
        BinaryOp::Exp => "^",
        BinaryOp::Eq => "==",
        BinaryOp::Neq => "!=",
        BinaryOp::Gt => ">",
        BinaryOp::Lt => "<",
        BinaryOp::Geq => ">=",
        BinaryOp::Leq => "<=",
        BinaryOp::And => "&&",
        BinaryOp::Or => "||",
    }
}

impl Expr {
    /// The expression as a text that reads as the expression again.
    pub fn to_string(&self) -> (text: String)
        ensures
            text@ == print(self@),
        decreases self, 2nat,
    {
        match self {
            Expr::VariableRead { identifier } => identifier.clone(),
            Expr::Const { value } => value.clone(),
            Expr::Chain { side, ret } => Self::infix_text(self, side, "; ", ret),
            Expr::Call { identifier, args } => {
                let ghost ts = terms_of(args@);
                let mut list = String::new();
                let mut i: usize = 0;
                assert(list@ =~= print_each(ts.take(0)));
                while i < args.len()
                    invariant
                        i <= args.len(),
                        self is Call,
                        self->args == *args,
                        ts == terms_of(args@),
                        list@ == print_each(ts.take(i as int)),
                    decreases args.len() - i,
                {
                    if i > 0 {
                        list.append(", ");
                    }
                    let argument = args[i].to_string();
                    push_wrapped(&mut list, &argument);
                    proof {
                        assert(ts.take(i + 1).drop_last() =~= ts.take(i as int));
                        assert(ts.take(i + 1).last() == args[i as int]@);
                        if i == 0 {
                            assert(list@ =~= wrapped(print(ts.take(1).last())));
                        }
                    }
                    i += 1;
                }
                assert(ts.take(i as int) =~= ts);
                let mut out = identifier.clone();
                out.append("(");
                out.append(list.as_str());
                out.append(")");
                assert(out@ =~= print(self@));
                out
            },
            Expr::Add { lhs, rhs } => Self::binary_text(self, BinaryOp::Add, lhs, rhs),
            Expr::Sub { lhs, rhs } => Self::binary_text(self, BinaryOp::Sub, lhs, rhs),
            Expr::Mul { lhs, rhs } => Self::binary_text(self, BinaryOp::Mul, lhs, rhs),
            Expr::Div { lhs, rhs } => Self::binary_text(self, BinaryOp::Div, lhs, rhs),
            Expr::Mod { lhs, rhs } => Self::binary_text(self, BinaryOp::Mod, lhs, rhs),
            Expr::Exp { lhs, rhs } => Self::binary_text(self, BinaryOp::Exp, lhs, rhs),
            Expr::Eq { lhs, rhs } => Self::binary_text(self, BinaryOp::Eq, lhs, rhs),
            Expr::Neq { lhs, rhs } => Self::binary_text(self, BinaryOp::Neq, lhs, rhs),
            Expr::Gt { lhs, rhs } => Self::binary_text(self, BinaryOp::Gt, lhs, rhs),
            Expr::Lt { lhs, rhs } => Self::binary_text(self, BinaryOp::Lt, lhs, rhs),
            Expr::Geq { lhs, rhs } => Self::binary_text(self, BinaryOp::Geq, lhs, rhs),
            Expr::Leq { lhs, rhs } => Self::binary_text(self, BinaryOp::Leq, lhs, rhs),
            Expr::And { lhs, rhs } => Self::binary_text(self, BinaryOp::And, lhs, rhs),
            Expr::Or { lhs, rhs } => Self::binary_text(self, BinaryOp::Or, lhs, rhs),
            Expr::Neg { value } => {
                let mut out = String::from_str("-");
                let inner = value.to_string();
                push_wrapped(&mut out, &inner);
                out
            },
            Expr::Not { value } => {
                let mut out = String::from_str("!");
                let inner = value.to_string();
                push_wrapped(&mut out, &inner);
                out
            },
            Expr::Assign { identifier, value } => {
                let mut out = identifier.clone();
                out.append(" = ");
                let inner = value.to_string();
                push_wrapped(&mut out, &inner);
                assert(out@ =~= print(self@));
                out
            },
        }
    }

    /// The texts of the operands `lhs` and `rhs` of `whole`, each in
    /// parentheses, with `between` between them.
    fn infix_text(whole: &Expr, lhs: &Expr, between: &str, rhs: &Expr) -> (text: String)
        requires
            decreases_to!(*whole => *lhs),
            decreases_to!(*whole => *rhs),
        ensures
            text@ == wrapped(print(lhs@)) + between@ + wrapped(print(rhs@)),
        decreases whole, 0nat,
    {
        let mut out = String::new();
        let left = lhs.to_string();
        push_wrapped(&mut out, &left);
        out.append(between);
        let right = rhs.to_string();
        push_wrapped(&mut out, &right);
        assert(out@ =~= wrapped(print(lhs@)) + between@ + wrapped(print(rhs@)));
        out
    }

    /// The text of the two-operand expression `whole`.
    fn binary_text(whole: &Expr, op: BinaryOp, lhs: &Expr, rhs: &Expr) -> (text: String)
        requires
            whole@ == binary(op, lhs@, rhs@),
            decreases_to!(*whole => *lhs),
            decreases_to!(*whole => *rhs),
        ensures
            text@ == print(whole@),
        decreases whole, 1nat,
    {
        let mut between = String::from_str(" ");
        between.append(token_of(op));
        between.append(" ");
        let out = Self::infix_text(whole, lhs, between.as_str(), rhs);
        assert(out@ =~= print(whole@));
        out
    }
}

} // verus!
