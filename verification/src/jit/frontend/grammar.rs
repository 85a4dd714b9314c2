//! The grammar of the language, as functions from a text to what the parser
//! makes of it.

use super::ast::binary;
use super::ast::BinaryOp;
use super::ast::Term;
use super::ast::UnaryOp;
use vstd::prelude::*;

verus! {

/// Whether `c` is inline whitespace.
pub open spec fn is_space(c: char) -> bool {
    c == ' ' || c == '\t'
}

/// Whether `c` is a decimal digit.
pub open spec fn is_digit(c: char) -> bool {
    '0' <= c <= '9'
}

/// Whether an identifier may begin with `c`.
pub open spec fn is_start(c: char) -> bool {
    'a' <= c <= 'z' || 'A' <= c <= 'Z' || c == '_'
}

/// Whether an identifier may go on with `c`.
pub open spec fn is_part(c: char) -> bool {
    is_start(c) || is_digit(c)
}

/// The position of the first character from `pos` on that is no whitespace.
pub open spec fn skip(s: Seq<char>, pos: nat) -> nat
    decreases s.len() - pos,
{
    if pos < s.len() && is_space(s[pos as int]) {
        skip(s, pos + 1)
    } else {
        pos
    }
}

/// The position of the first character from `pos` on that is no digit.
pub open spec fn digits(s: Seq<char>, pos: nat) -> nat
    decreases s.len() - pos,
{
    if pos < s.len() && is_digit(s[pos as int]) {
        digits(s, pos + 1)
    } else {
        pos
    }
}

/// The position of the first character from `pos` on that cannot be part of
/// an identifier.
pub open spec fn parts(s: Seq<char>, pos: nat) -> nat
    decreases s.len() - pos,
{
    if pos < s.len() && is_part(s[pos as int]) {
        parts(s, pos + 1)
    } else {
        pos
    }
}

/// Whether the text `token` stands in `s` at `pos`.
pub open spec fn stands(s: Seq<char>, pos: nat, token: Seq<char>) -> bool {
    pos + token.len() <= s.len() && s.subrange(pos as int, (pos + token.len()) as int) == token
}

/// The end of the identifier that begins at `pos`, if one begins there: a
/// letter or `_`, then letters, digits and `_`.
pub open spec fn identifier(s: Seq<char>, pos: nat) -> Option<nat> {
    if pos < s.len() && is_start(s[pos as int]) {
        Some(parts(s, pos + 1))
    } else {
        None
    }
}

/// What the parser may look for at a place of the text.
#[derive(Debug, Clone, Copy, PartialEq, Eq)]
pub enum Token {
    Semicolon,
    And,
    Or,
    Equal,
    NotEqual,
    Greater,
    GreaterEqual,
    Less,
    LessEqual,
    Plus,
    Minus,
    Star,
    Slash,
    Percent,
    Caret,
    Assign,
    Not,
    Open,
    Close,
    Comma,
    Dot,
    Digit,
    Identifier,
    End,
}

/// How far the reading of a text got: the last position at which the parser
/// looked for something that does not stand there, and what it looked for at
/// that position.
pub ghost struct Marks {
    pub reach: nat,
    pub expected: Set<Token>,
}

/// The parser looked for nothing in vain.
pub open spec fn nothing() -> Marks {
    Marks { reach: 0, expected: Set::empty() }
}

/// The parser looked for `token` at `pos` in vain.
pub open spec fn mark(pos: nat, token: Token) -> Marks {
    Marks { reach: pos, expected: set![token] }
}

/// The marks of two readings together: those of the reading that got
/// further, or of both where they got equally far.
pub open spec fn join(a: Marks, b: Marks) -> Marks {
    if a.reach > b.reach {
        a
    } else if a.reach < b.reach {
        b
    } else {
        Marks { reach: a.reach, expected: a.expected.union(b.expected) }
    }
}

/// The end of the numeric literal that begins at `pos`, if one begins there,
/// and how far the reading of it got: an optional `-`, digits, and
/// optionally a `.` with further digits.
pub open spec fn literal(s: Seq<char>, pos: nat) -> (Option<nat>, Marks) {
    let signed = pos < s.len() && s[pos as int] == '-';
    let first = if signed {
        pos + 1
    } else {
        pos
    };
    let sign = if signed {
        nothing()
    } else {
        mark(pos, Token::Minus)
    };
    let whole = digits(s, first);
    let integer = join(sign, mark(whole, Token::Digit));
    if whole == first {
        (None, integer)
    } else if whole < s.len() && s[whole as int] == '.' {
        let end = digits(s, whole + 1);
        (Some(end), join(integer, mark(end, Token::Digit)))
    } else {
        (Some(whole), join(integer, mark(whole, Token::Dot)))
    }
}

/// What combines the operands of an infix operator.
pub enum Infix {
    /// The sequence `side; ret`.
    Chain,
    /// A two-operand operator.
    Binary(BinaryOp),
}

/// An infix operator of the grammar: its level of precedence, its text,
/// what the parser looks for where it tries the operator, the lowest level
/// of its right operand, and what it makes of its operands.
pub struct Operator {
    pub level: u8,
    pub token: &'static str,
    pub mark: Token,
    pub right: u8,
    pub infix: Infix,
}

/// The number of infix operators.
pub const OPERATORS: usize = 15;

/// The infix operators in the order in which the parser tries them: from
/// the loosest level to the tightest, and within a level as listed. One
/// that is tried earlier wins, so `>` is tried, and given up for want of a
/// right operand, before `>=` is.
pub open spec fn operator(k: int) -> Operator {
    if k == 0 {
        Operator { level: 0, token: ";", mark: Token::Semicolon, right: 0, infix: Infix::Chain }
    } else if k == 1 {
        Operator { level: 2, token: "&&", mark: Token::And, right: 3, infix: Infix::Binary(BinaryOp::And) }
    } else if k == 2 {
        Operator { level: 2, token: "||", mark: Token::Or, right: 3, infix: Infix::Binary(BinaryOp::Or) }
    } else if k == 3 {
        Operator { level: 3, token: "==", mark: Token::Equal, right: 4, infix: Infix::Binary(BinaryOp::Eq) }
    } else if k == 4 {
        Operator { level: 3, token: "!=", mark: Token::NotEqual, right: 4, infix: Infix::Binary(BinaryOp::Neq) }
    } else if k == 5 {
        Operator { level: 3, token: ">", mark: Token::Greater, right: 4, infix: Infix::Binary(BinaryOp::Gt) }
    } else if k == 6 {
        Operator { level: 3, token: ">=", mark: Token::GreaterEqual, right: 4, infix: Infix::Binary(BinaryOp::Geq) }
    } else if k == 7 {
        Operator { level: 3, token: "<", mark: Token::Less, right: 4, infix: Infix::Binary(BinaryOp::Lt) }
    } else if k == 8 {
        Operator { level: 3, token: "<=", mark: Token::LessEqual, right: 4, infix: Infix::Binary(BinaryOp::Leq) }
    } else if k == 9 {
        Operator { level: 4, token: "+", mark: Token::Plus, right: 5, infix: Infix::Binary(BinaryOp::Add) }
    } else if k == 10 {
        Operator { level: 4, token: "-", mark: Token::Minus, right: 5, infix: Infix::Binary(BinaryOp::Sub) }
    } else if k == 11 {
        Operator { level: 5, token: "*", mark: Token::Star, right: 6, infix: Infix::Binary(BinaryOp::Mul) }
    } else if k == 12 {
        Operator { level: 5, token: "/", mark: Token::Slash, right: 6, infix: Infix::Binary(BinaryOp::Div) }
    } else if k == 13 {
        Operator { level: 5, token: "%", mark: Token::Percent, right: 6, infix: Infix::Binary(BinaryOp::Mod) }
    } else {
        Operator { level: 5, token: "^", mark: Token::Caret, right: 6, infix: Infix::Binary(BinaryOp::Exp) }
    }
}

/// The level above all infix operators: the operand of `!` and of a unary
/// `-` takes no infix operator.
pub const TIGHTEST: u8 = 7;

/// The term that an infix operator makes of its operands.
pub open spec fn combine(infix: Infix, lhs: Term, rhs: Term) -> Term {
    match infix {
        Infix::Chain => Term::Chain { side: Box::new(lhs), ret: Box::new(rhs) },
        Infix::Binary(op) => binary(op, lhs, rhs),
    }
}

/// What an attempt to read a term gives: the term with the position after
/// it, if there is one, and how far the reading got.
pub type Reading = (Option<(Term, nat)>, Marks);

/// The expression that begins at `pos` and takes infix operators from
/// the level `min` on: an operand, and then operators with their right
/// operands as long as there are any.
pub open spec fn expression(s: Seq<char>, pos: nat, min: u8) -> Reading
    decreases s.len() - pos, 3nat, 0nat,
{
    match operand(s, pos) {
        (Some((lhs, end)), reach) => if pos < end <= s.len() {
            let (whole, more) = climb(s, lhs, end, min);
            (Some(whole), join(reach, more))
        } else {
            (None, reach)
        },
        (None, reach) => (None, reach),
    }
}

/// The expression `lhs`, which ends at `pos`, with the infix operators that
/// follow it.
pub open spec fn climb(s: Seq<char>, lhs: Term, pos: nat, min: u8) -> ((Term, nat), Marks)
    decreases s.len() - pos, 1nat, 0nat,
{
    match infix(s, lhs, pos, min, 0) {
        (Some((node, end)), reach) => if pos < end <= s.len() {
            let (whole, more) = climb(s, node, end, min);
            (whole, join(reach, more))
        } else {
            ((lhs, pos), reach)
        },
        (None, reach) => ((lhs, pos), reach),
    }
}

/// The first of the operators from the `k`-th on that stands after `lhs`,
/// which ends at `pos`, at a level from `min` on and with a right operand:
/// the term that it makes.
pub open spec fn infix(s: Seq<char>, lhs: Term, pos: nat, min: u8, k: nat) -> Reading
    decreases s.len() - pos, 0nat, OPERATORS - k,
{
    if k >= OPERATORS {
        (None, nothing())
    } else {
        let op = operator(k as int);
        let at = skip(s, pos);
        if op.level < min {
            infix(s, lhs, pos, min, k + 1)
        } else if !stands(s, at, op.token@) {
            let (found, reach) = infix(s, lhs, pos, min, k + 1);
            (found, join(mark(at, op.mark), reach))
        } else {
            let from = skip(s, at + op.token@.len());
            if pos < from <= s.len() {
                match expression(s, from, op.right) {
                    (Some((rhs, end)), reach) => (Some((combine(op.infix, lhs, rhs), end)), reach),
                    (None, reach) => {
                        let (found, more) = infix(s, lhs, pos, min, k + 1);
                        (found, join(reach, more))
                    },
                }
            } else {
                (None, nothing())
            }
        }
    }
}

/// The operand that begins at `pos`. The first of these that fits is it: a
/// literal; an assignment `name = value`; `!` or `-` before an operand; an
/// expression in parentheses; a call `name(arguments)`; a name.
pub open spec fn operand(s: Seq<char>, pos: nat) -> Reading
    decreases s.len() - pos, 2nat, 0nat,
{
    match literal(s, pos) {
        (Some(end), reach) => (Some((Term::Const { text: s.subrange(pos as int, end as int) }, end)), reach),
        (None, reach) => {
            let (found, more) = assignment(s, pos);
            match found {
                Some(_) => (found, join(reach, more)),
                None => {
                    let (found, further) = prefixed(s, pos);
                    match found {
                        Some(_) => (found, join(join(reach, more), further)),
                        None => {
                            let (found, last) = named(s, pos);
                            (found, join(join(join(reach, more), further), last))
                        },
                    }
                },
            }
        },
    }
}

/// The assignment `name = value` that begins at `pos`.
pub open spec fn assignment(s: Seq<char>, pos: nat) -> Reading
    decreases s.len() - pos, 1nat, 0nat,
{
    match identifier(s, pos) {
        None => (None, mark(pos, Token::Identifier)),
        Some(end) => {
            let at = skip(s, end);
            if stands(s, at, "="@) {
                let from = skip(s, at + 1);
                if pos < from <= s.len() {
                    match expression(s, from, 1) {
                        (Some((value, after)), reach) => (
                            Some(
                                (
                                    Term::Assign {
                                        identifier: s.subrange(pos as int, end as int),
                                        value: Box::new(value),
                                    },
                                    after,
                                ),
                            ),
                            reach,
                        ),
                        (None, reach) => (None, reach),
                    }
                } else {
                    (None, nothing())
                }
            } else {
                (None, mark(at, Token::Assign))
            }
        },
    }
}

/// The operand with a prefix that begins at `pos`: `!operand`, `-operand`,
/// or `( expression )`, tried in this order.
pub open spec fn prefixed(s: Seq<char>, pos: nat) -> Reading
    decreases s.len() - pos, 1nat, 0nat,
{
    let no_not = mark(pos, Token::Not);
    let no_minus = mark(pos, Token::Minus);
    let no_open = mark(pos, Token::Open);
    if pos < s.len() && s[pos as int] == '!' {
        match expression(s, pos + 1, TIGHTEST) {
            (Some((value, end)), reach) => (
                Some((Term::Unary { op: UnaryOp::Not, value: Box::new(value) }, end)),
                reach,
            ),
            (None, reach) => (None, join(reach, join(no_minus, no_open))),
        }
    } else if pos < s.len() && s[pos as int] == '-' {
        match expression(s, pos + 1, TIGHTEST) {
            (Some((value, end)), reach) => (
                Some((Term::Unary { op: UnaryOp::Neg, value: Box::new(value) }, end)),
                join(no_not, reach),
            ),
            (None, reach) => (None, join(no_not, join(reach, no_open))),
        }
    } else if pos < s.len() && s[pos as int] == '(' {
        let before = join(no_not, no_minus);
        let from = skip(s, pos + 1);
        if pos < from <= s.len() {
            match expression(s, from, 0) {
                (Some((inner, end)), reach) => {
                    let at = skip(s, end);
                    if stands(s, at, ")"@) {
                        (Some((inner, at + 1)), join(before, reach))
                    } else {
                        (None, join(before, join(reach, mark(at, Token::Close))))
                    }
                },
                (None, reach) => (None, join(before, reach)),
            }
        } else {
            (None, nothing())
        }
    } else {
        (None, join(no_not, join(no_minus, no_open)))
    }
}

/// The call `name(arguments)` or the name that begins at `pos`.
pub open spec fn named(s: Seq<char>, pos: nat) -> Reading
    decreases s.len() - pos, 1nat, 0nat,
{
    match identifier(s, pos) {
        None => (None, mark(pos, Token::Identifier)),
        Some(end) => {
            let name = s.subrange(pos as int, end as int);
            let read = Some((Term::Read { identifier: name }, end));
            let at = skip(s, end);
            if stands(s, at, "("@) {
                if pos < at + 1 <= s.len() {
                    let ((args, after), reach) = arguments(s, at + 1);
                    if stands(s, after, ")"@) {
                        (Some((Term::Call { identifier: name, args }, after + 1)), reach)
                    } else {
                        (read, join(reach, mark(after, Token::Close)))
                    }
                } else {
                    (None, nothing())
                }
            } else {
                (read, mark(at, Token::Open))
            }
        },
    }
}

/// The arguments that begin at `pos`: expressions with commas between them,
/// each with whitespace around it as it likes. There may be none.
pub open spec fn arguments(s: Seq<char>, pos: nat) -> ((Seq<Term>, nat), Marks)
    decreases s.len() - pos, 5nat, 0nat,
{
    match argument(s, pos) {
        (Some((first, end)), reach) => if pos < end <= s.len() {
            let (all, more) = further(s, seq![first], end);
            (all, join(reach, more))
        } else {
            ((Seq::empty(), pos), reach)
        },
        (None, reach) => ((Seq::empty(), pos), reach),
    }
}

/// One argument: an expression with whitespace before and after it.
pub open spec fn argument(s: Seq<char>, pos: nat) -> Reading
    decreases s.len() - pos, 4nat, 0nat,
{
    let from = skip(s, pos);
    if pos <= from <= s.len() {
        match expression(s, from, 0) {
            (Some((value, end)), reach) => (Some((value, skip(s, end))), reach),
            (None, reach) => (None, reach),
        }
    } else {
        (None, nothing())
    }
}

/// The arguments `found`, which end at `pos`, with those that follow them,
/// each after a comma.
pub open spec fn further(s: Seq<char>, found: Seq<Term>, pos: nat) -> ((Seq<Term>, nat), Marks)
    decreases s.len() - pos, 6nat, 0nat,
{
    if pos < s.len() && stands(s, pos, ","@) {
        match argument(s, pos + 1) {
            (Some((next, end)), reach) => if pos < end <= s.len() {
                let (all, more) = further(s, found.push(next), end);
                (all, join(reach, more))
            } else {
                ((found, pos), reach)
            },
            (None, reach) => ((found, pos), reach),
        }
    } else {
        ((found, pos), mark(pos, Token::Comma))
    }
}

/// What the parser makes of a whole text.
pub enum Parsed {
    /// The text is an expression.
    Expression(Term),
    /// The text is no expression. The marks say where the reading stopped and
    /// what the parser looked for there.
    Failure { marks: Marks },
}

/// What the parser makes of `s`: the expression that begins at its first
/// character, if it ends at its last.
pub open spec fn parse(s: Seq<char>) -> Parsed {
    match expression(s, 0, 0) {
        (Some((term, end)), reach) => if end == s.len() {
            Parsed::Expression(term)
        } else {
            Parsed::Failure { marks: join(reach, mark(end, Token::End)) }
        },
        (None, reach) => Parsed::Failure { marks: reach },
    }
}

/// The line of the position `offset` in `s`, counted from 1.
pub open spec fn line_of(s: Seq<char>, offset: nat) -> nat
    decreases offset,
{
    if offset == 0 || offset > s.len() {
        1
    } else if s[offset - 1] == '\n' {
        line_of(s, (offset - 1) as nat) + 1
    } else {
        line_of(s, (offset - 1) as nat)
    }
}

/// The column of the position `offset` in its line, counted from 1.
pub open spec fn column_of(s: Seq<char>, offset: nat) -> nat
    decreases offset,
{
    if offset == 0 || offset > s.len() || s[offset - 1] == '\n' {
        1
    } else {
        column_of(s, (offset - 1) as nat) + 1
    }
}

} // verus!
