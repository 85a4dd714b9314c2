//! The expressions of the language and their mathematical model.

use vstd::prelude::*;

verus! {

/// The two-operand operators of the language.
#[derive(Debug, Clone, Copy, PartialEq, Eq)]
pub enum BinaryOp {
    Add,
    Sub,
    Mul,
    Div,
    Mod,
    Exp,
    Eq,
    Neq,
    Gt,
    Lt,
    Geq,
    Leq,
    And,
    Or,
}

/// The one-operand operators of the language.
#[derive(Debug, Clone, Copy, PartialEq, Eq)]
pub enum UnaryOp {
    Neg,
    Not,
}

/// The mathematical model of an expression. Names and literals are character
/// sequences, and the operators are grouped by their number of operands.
#[allow(inconsistent_fields)]
pub enum Term {
    Read { identifier: Seq<char> },
    Const { text: Seq<char> },
    Chain { side: Box<Term>, ret: Box<Term> },
    Call { identifier: Seq<char>, args: Seq<Term> },
    Binary { op: BinaryOp, lhs: Box<Term>, rhs: Box<Term> },
    Unary { op: UnaryOp, value: Box<Term> },
    Assign { identifier: Seq<char>, value: Box<Term> },
}

/// An expression of the language, as the parser produces it.
///
/// A numeric literal is kept as its decimal text: the element type of a
/// compilation decides later which number it stands for.
#[derive(Debug, PartialEq, Eq)]
#[allow(inconsistent_fields)]
pub enum Expr {
    VariableRead { identifier: String },
    Const { value: String },
    Chain { side: Box<Expr>, ret: Box<Expr> },
    Call { identifier: String, args: Vec<Expr> },
    Add { lhs: Box<Expr>, rhs: Box<Expr> },
    Sub { lhs: Box<Expr>, rhs: Box<Expr> },
    Mul { lhs: Box<Expr>, rhs: Box<Expr> },
    Div { lhs: Box<Expr>, rhs: Box<Expr> },
    Mod { lhs: Box<Expr>, rhs: Box<Expr> },
    Exp { lhs: Box<Expr>, rhs: Box<Expr> },
    Neg { value: Box<Expr> },
    Assign { identifier: String, value: Box<Expr> },
    Eq { lhs: Box<Expr>, rhs: Box<Expr> },
    Neq { lhs: Box<Expr>, rhs: Box<Expr> },
    Gt { lhs: Box<Expr>, rhs: Box<Expr> },
    Lt { lhs: Box<Expr>, rhs: Box<Expr> },
    Geq { lhs: Box<Expr>, rhs: Box<Expr> },
    Leq { lhs: Box<Expr>, rhs: Box<Expr> },
    And { lhs: Box<Expr>, rhs: Box<Expr> },
    Or { lhs: Box<Expr>, rhs: Box<Expr> },
    Not { value: Box<Expr> },
}

/// The model of each expression of a sequence, in order.
pub open spec fn terms_of(es: Seq<Expr>) -> Seq<Term>
    decreases es,
{
    Seq::new(
        es.len(),
        |i: int|
            if 0 <= i < es.len() {
                term_of(es[i])
            } else {
                arbitrary()
            },
    )
}

/// The model of a two-operand expression, from the models of its operands.
pub open spec fn binary(op: BinaryOp, lhs: Term, rhs: Term) -> Term {
    Term::Binary { op, lhs: Box::new(lhs), rhs: Box::new(rhs) }
}

/// The model of an expression.
pub open spec fn term_of(e: Expr) -> Term
    decreases e,
{
    match e {
        Expr::VariableRead { identifier } => Term::Read { identifier: identifier@ },
        Expr::Const { value } => Term::Const { text: value@ },
        Expr::Chain { side, ret } => Term::Chain {
            side: Box::new(term_of(*side)),
            ret: Box::new(term_of(*ret)),
        },
        Expr::Call { identifier, args } => Term::Call {
            identifier: identifier@,
            args: terms_of(args@),
        },
        Expr::Add { lhs, rhs } => binary(BinaryOp::Add, term_of(*lhs), term_of(*rhs)),
        Expr::Sub { lhs, rhs } => binary(BinaryOp::Sub, term_of(*lhs), term_of(*rhs)),
        Expr::Mul { lhs, rhs } => binary(BinaryOp::Mul, term_of(*lhs), term_of(*rhs)),
        Expr::Div { lhs, rhs } => binary(BinaryOp::Div, term_of(*lhs), term_of(*rhs)),
        Expr::Mod { lhs, rhs } => binary(BinaryOp::Mod, term_of(*lhs), term_of(*rhs)),
        Expr::Exp { lhs, rhs } => binary(BinaryOp::Exp, term_of(*lhs), term_of(*rhs)),
        Expr::Eq { lhs, rhs } => binary(BinaryOp::Eq, term_of(*lhs), term_of(*rhs)),
        Expr::Neq { lhs, rhs } => binary(BinaryOp::Neq, term_of(*lhs), term_of(*rhs)),
        Expr::Gt { lhs, rhs } => binary(BinaryOp::Gt, term_of(*lhs), term_of(*rhs)),
        Expr::Lt { lhs, rhs } => binary(BinaryOp::Lt, term_of(*lhs), term_of(*rhs)),
        Expr::Geq { lhs, rhs } => binary(BinaryOp::Geq, term_of(*lhs), term_of(*rhs)),
        Expr::Leq { lhs, rhs } => binary(BinaryOp::Leq, term_of(*lhs), term_of(*rhs)),
        Expr::And { lhs, rhs } => binary(BinaryOp::And, term_of(*lhs), term_of(*rhs)),
        Expr::Or { lhs, rhs } => binary(BinaryOp::Or, term_of(*lhs), term_of(*rhs)),
        Expr::Neg { value } => Term::Unary { op: UnaryOp::Neg, value: Box::new(term_of(*value)) },
        Expr::Not { value } => Term::Unary { op: UnaryOp::Not, value: Box::new(term_of(*value)) },
        Expr::Assign { identifier, value } => Term::Assign {
            identifier: identifier@,
            value: Box::new(term_of(*value)),
        },
    }
}

impl View for Expr {
    type V = Term;

    open spec fn view(&self) -> Term {
        term_of(*self)
    }
}

impl Clone for Expr {
    fn clone(&self) -> (r: Expr)
        ensures
            r@ == self@,
        decreases self,
    {
        match self {
            Expr::VariableRead { identifier } => Expr::VariableRead { identifier: identifier.clone() },
            Expr::Const { value } => Expr::Const { value: value.clone() },
            Expr::Chain { side, ret } => Expr::Chain {
                side: Box::new((**side).clone()),
                ret: Box::new((**ret).clone()),
            },
            Expr::Call { identifier, args } => {
                let mut copies: Vec<Expr> = Vec::new();
                let mut i: usize = 0;
                while i < args.len()
                    invariant
                        i <= args.len(),
                        self is Call,
                        self->args == *args,
                        copies.len() == i,
                        forall|k: int| 0 <= k < i ==> (#[trigger] copies[k])@ == args[k]@,
                    decreases args.len() - i,
                {
                    let copy = args[i].clone();
                    copies.push(copy);
                    i += 1;
                }
                assert(terms_of(copies@) =~= terms_of(args@));
                Expr::Call { identifier: identifier.clone(), args: copies }
            },
            Expr::Add { lhs, rhs } => Expr::Add { lhs: Box::new((**lhs).clone()), rhs: Box::new((**rhs).clone()) },
            Expr::Sub { lhs, rhs } => Expr::Sub { lhs: Box::new((**lhs).clone()), rhs: Box::new((**rhs).clone()) },
            Expr::Mul { lhs, rhs } => Expr::Mul { lhs: Box::new((**lhs).clone()), rhs: Box::new((**rhs).clone()) },
            Expr::Div { lhs, rhs } => Expr::Div { lhs: Box::new((**lhs).clone()), rhs: Box::new((**rhs).clone()) },
            Expr::Mod { lhs, rhs } => Expr::Mod { lhs: Box::new((**lhs).clone()), rhs: Box::new((**rhs).clone()) },
            Expr::Exp { lhs, rhs } => Expr::Exp { lhs: Box::new((**lhs).clone()), rhs: Box::new((**rhs).clone()) },
            Expr::Eq { lhs, rhs } => Expr::Eq { lhs: Box::new((**lhs).clone()), rhs: Box::new((**rhs).clone()) },
            Expr::Neq { lhs, rhs } => Expr::Neq { lhs: Box::new((**lhs).clone()), rhs: Box::new((**rhs).clone()) },
            Expr::Gt { lhs, rhs } => Expr::Gt { lhs: Box::new((**lhs).clone()), rhs: Box::new((**rhs).clone()) },
            Expr::Lt { lhs, rhs } => Expr::Lt { lhs: Box::new((**lhs).clone()), rhs: Box::new((**rhs).clone()) },
            Expr::Geq { lhs, rhs } => Expr::Geq { lhs: Box::new((**lhs).clone()), rhs: Box::new((**rhs).clone()) },
            Expr::Leq { lhs, rhs } => Expr::Leq { lhs: Box::new((**lhs).clone()), rhs: Box::new((**rhs).clone()) },
            Expr::And { lhs, rhs } => Expr::And { lhs: Box::new((**lhs).clone()), rhs: Box::new((**rhs).clone()) },
            Expr::Or { lhs, rhs } => Expr::Or { lhs: Box::new((**lhs).clone()), rhs: Box::new((**rhs).clone()) },
            Expr::Neg { value } => Expr::Neg { value: Box::new((**value).clone()) },
            Expr::Not { value } => Expr::Not { value: Box::new((**value).clone()) },
            Expr::Assign { identifier, value } => Expr::Assign {
                identifier: identifier.clone(),
                value: Box::new((**value).clone()),
            },
        }
    }
}

} // verus!
