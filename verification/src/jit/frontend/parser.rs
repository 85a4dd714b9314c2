//! The parser: it reads a text as the grammar says.

use super::ast::BinaryOp;
use super::ast::Expr;
use super::ast::Term;
use super::ast::terms_of;
use super::grammar::Infix;
use super::grammar::Marks;
use super::grammar::Operator;
use super::grammar::OPERATORS;
use super::grammar::Parsed;
use super::grammar::Reading;
use super::grammar::TIGHTEST;
use super::grammar::Token;
use super::grammar;
use vstd::prelude::*;
use vstd::string::StringExecFns;
use vstd::string::StrSliceExecFns;

verus! {

/// The characters of a text, one by one.
fn characters(text: &str) -> (chars: Vec<char>)
    ensures
        chars@ == text@,
{
    let n = text.unicode_len();
    let mut chars: Vec<char> = Vec::new();
    let mut i: usize = 0;
    while i < n
        invariant
            i <= n,
            n == text@.len(),
            chars@ == text@.take(i as int),
        decreases n - i,
    {
        chars.push(text.get_char(i));
        assert(text@.take(i + 1) =~= text@.take(i as int).push(text@[i as int]));
        i += 1;
    }
    assert(text@.take(n as int) =~= text@);
    chars
}

/// The place of a token among the tokens.
pub open spec fn place(token: Token) -> u32 {
    match token {
        Token::Semicolon => 0,
        Token::And => 1,
        Token::Or => 2,
        Token::Equal => 3,
        Token::NotEqual => 4,
        Token::Greater => 5,
        Token::GreaterEqual => 6,
        Token::Less => 7,
        Token::LessEqual => 8,
        Token::Plus => 9,
        Token::Minus => 10,
        Token::Star => 11,
        Token::Slash => 12,
        Token::Percent => 13,
        Token::Caret => 14,
        Token::Assign => 15,
        Token::Not => 16,
        Token::Open => 17,
        Token::Close => 18,
        Token::Comma => 19,
        Token::Dot => 20,
        Token::Digit => 21,
        Token::Identifier => 22,
        Token::End => 23,
    }
}

/// The name of a token in a message.
pub open spec fn name(token: Token) -> Seq<char> {
    match token {
        Token::Semicolon => "\";\""@,
        Token::And => "\"&&\""@,
        Token::Or => "\"||\""@,
        Token::Equal => "\"==\""@,
        Token::NotEqual => "\"!=\""@,
        Token::Greater => "\">\""@,
        Token::GreaterEqual => "\">=\""@,
        Token::Less => "\"<\""@,
        Token::LessEqual => "\"<=\""@,
        Token::Plus => "\"+\""@,
        Token::Minus => "\"-\""@,
        Token::Star => "\"*\""@,
        Token::Slash => "\"/\""@,
        Token::Percent => "\"%\""@,
        Token::Caret => "\"^\""@,
        Token::Assign => "\"=\""@,
        Token::Not => "\"!\""@,
        Token::Open => "\"(\""@,
        Token::Close => "\")\""@,
        Token::Comma => "\",\""@,
        Token::Dot => "\".\""@,
        Token::Digit => "['0'..='9']"@,
        Token::Identifier => "identifier"@,
        Token::End => "EOF"@,
    }
}

/// The number of tokens.
pub const TOKENS: u32 = 24;

impl Token {
    /// The place of the token among the tokens.
    pub fn index(self) -> (i: u32)
        ensures
            i == place(self),
            i < TOKENS,
    {
        match self {
            Token::Semicolon => 0,
            Token::And => 1,
            Token::Or => 2,
            Token::Equal => 3,
            Token::NotEqual => 4,
            Token::Greater => 5,
            Token::GreaterEqual => 6,
            Token::Less => 7,
            Token::LessEqual => 8,
            Token::Plus => 9,
            Token::Minus => 10,
            Token::Star => 11,
            Token::Slash => 12,
            Token::Percent => 13,
            Token::Caret => 14,
            Token::Assign => 15,
            Token::Not => 16,
            Token::Open => 17,
            Token::Close => 18,
            Token::Comma => 19,
            Token::Dot => 20,
            Token::Digit => 21,
            Token::Identifier => 22,
            Token::End => 23,
        }
    }

    /// The token at a place.
    pub fn at(i: u32) -> (token: Token)
        requires
            i < TOKENS,
        ensures
            place(token) == i,
    {
        if i == 0 {
            Token::Semicolon
        } else if i == 1 {
            Token::And
        } else if i == 2 {
            Token::Or
        } else if i == 3 {
            Token::Equal
        } else if i == 4 {
            Token::NotEqual
        } else if i == 5 {
            Token::Greater
        } else if i == 6 {
            Token::GreaterEqual
        } else if i == 7 {
            Token::Less
        } else if i == 8 {
            Token::LessEqual
        } else if i == 9 {
            Token::Plus
        } else if i == 10 {
            Token::Minus
        } else if i == 11 {
            Token::Star
        } else if i == 12 {
            Token::Slash
        } else if i == 13 {
            Token::Percent
        } else if i == 14 {
            Token::Caret
        } else if i == 15 {
            Token::Assign
        } else if i == 16 {
            Token::Not
        } else if i == 17 {
            Token::Open
        } else if i == 18 {
            Token::Close
        } else if i == 19 {
            Token::Comma
        } else if i == 20 {
            Token::Dot
        } else if i == 21 {
            Token::Digit
        } else if i == 22 {
            Token::Identifier
        } else {
            Token::End
        }
    }

    /// The token as it is named in a message: the text of an operator or of
    /// a sign between quotes, the range of the digits, `identifier`, or `EOF`
    /// for the end of the text.
    pub fn text(self) -> (text: &'static str)
        ensures
            text@ == name(self),
    {
        match self {
            Token::Semicolon => "\";\"",
            Token::And => "\"&&\"",
            Token::Or => "\"||\"",
            Token::Equal => "\"==\"",
            Token::NotEqual => "\"!=\"",
            Token::Greater => "\">\"",
            Token::GreaterEqual => "\">=\"",
            Token::Less => "\"<\"",
            Token::LessEqual => "\"<=\"",
            Token::Plus => "\"+\"",
            Token::Minus => "\"-\"",
            Token::Star => "\"*\"",
            Token::Slash => "\"/\"",
            Token::Percent => "\"%\"",
            Token::Caret => "\"^\"",
            Token::Assign => "\"=\"",
            Token::Not => "\"!\"",
            Token::Open => "\"(\"",
            Token::Close => "\")\"",
            Token::Comma => "\",\"",
            Token::Dot => "\".\"",
            Token::Digit => "['0'..='9']",
            Token::Identifier => "identifier",
            Token::End => "EOF",
        }
    }
}

/// Whether the bit at a place is set.
pub open spec fn bit(bits: u32, i: u32) -> bool {
    bits & (1u32 << i) != 0
}

/// A set of tokens.
#[derive(Debug, Clone, Copy, PartialEq, Eq)]
pub struct Expected {
    bits: u32,
}

impl Expected {
    /// The tokens of the set.
    pub closed spec fn view(&self) -> Set<Token> {
        Set::new(|token: Token| bit(self.bits, place(token)))
    }

    /// The set without a token.
    fn empty() -> (set: Self)
        ensures
            set@ == Set::<Token>::empty(),
    {
        let set = Expected { bits: 0 };
        assert(forall|i: u32| i < 32 ==> !bit(0u32, i)) by {
            assert(forall|i: u32| i < 32 ==> 0u32 & (1u32 << i) == 0) by (bit_vector);
        }
        assert(set@ =~= Set::<Token>::empty());
        set
    }

    /// The set of one token.
    fn only(token: Token) -> (set: Self)
        ensures
            set@ == set![token],
    {
        let i = token.index();
        let set = Expected { bits: 1u32 << i };
        assert forall|other: Token| bit(1u32 << i, place(other)) == (other == token) by {
            let j = place(other);
            assert(i < 32 && j < 32 ==> (((1u32 << i) & (1u32 << j)) != 0) == (i == j)) by (bit_vector);
        }
        assert(set@ =~= set![token]);
        set
    }

    /// The tokens of this set and of `other`.
    fn union(self, other: Self) -> (set: Self)
        ensures
            set@ == self@.union(other@),
    {
        let a = self.bits;
        let b = other.bits;
        let set = Expected { bits: a | b };
        assert forall|token: Token| bit(a | b, place(token)) == (bit(a, place(token)) || bit(b, place(token))) by {
            let i = place(token);
            assert(i < 32 ==> ((((a | b) & (1u32 << i)) != 0) == (((a & (1u32 << i)) != 0) || ((b & (1u32 << i))
                != 0)))) by (bit_vector);
        }
        assert(set@ =~= self@.union(other@));
        set
    }

    /// Whether `token` is in the set.
    pub fn contains(&self, token: Token) -> (found: bool)
        ensures
            found == self@.contains(token),
    {
        let i = token.index();
        self.bits & (1u32 << i) != 0
    }

    /// The tokens of the set, in the order of their places.
    pub fn tokens(&self) -> (list: Vec<Token>)
        ensures
            forall|token: Token| list@.contains(token) <==> self@.contains(token),
            forall|i: int, j: int| 0 <= i < j < list.len() ==> place(list[i]) < place(list[j]),
    {
        let mut list: Vec<Token> = Vec::new();
        let mut i: u32 = 0;
        while i < TOKENS
            invariant
                i <= TOKENS,
                forall|token: Token|
                    list@.contains(token) <==> self@.contains(token) && place(token) < i,
                forall|k: int| 0 <= k < list.len() ==> place(#[trigger] list[k]) < i,
                forall|k: int, j: int| 0 <= k < j < list.len() ==> place(list[k]) < place(list[j]),
            decreases TOKENS - i,
        {
            let token = Token::at(i);
            let ghost before = list@;
            if self.contains(token) {
                list.push(token);
            }
            proof {
                lemma_place_injective();
                assert forall|other: Token|
                    list@.contains(other) <==> self@.contains(other) && place(other) < i + 1 by {
                    if list@.contains(other) {
                        let k = choose|k: int| 0 <= k < list@.len() && list@[k] == other;
                        if k < before.len() {
                            assert(before[k] == other);
                            assert(before.contains(other));
                        }
                    }
                    if self@.contains(other) && place(other) < i + 1 {
                        if place(other) < i {
                            assert(before.contains(other));
                            let k = choose|k: int| 0 <= k < before.len() && before[k] == other;
                            assert(list@[k] == other);
                        } else {
                            assert(other == token);
                            assert(list@[list@.len() - 1] == other);
                        }
                    }
                }
            }
            i += 1;
        }
        list
    }
}

/// No two tokens have the same place.
pub proof fn lemma_place_injective()
    ensures
        forall|a: Token, b: Token| place(a) == place(b) ==> a == b,
{
}

/// How far a reading got, as the parser keeps it.
#[derive(Clone, Copy)]
struct Reach {
    at: usize,
    expected: Expected,
}

impl Reach {
    /// The marks that the reach stands for.
    spec fn view(&self) -> Marks {
        Marks { reach: self.at as nat, expected: self.expected@ }
    }

    fn nothing() -> (reach: Self)
        ensures
            reach@ == grammar::nothing(),
    {
        Reach { at: 0, expected: Expected::empty() }
    }

    fn mark(pos: usize, token: Token) -> (reach: Self)
        ensures
            reach@ == grammar::mark(pos as nat, token),
    {
        Reach { at: pos, expected: Expected::only(token) }
    }

    fn join(self, other: Self) -> (reach: Self)
        ensures
            reach@ == grammar::join(self@, other@),
    {
        if self.at > other.at {
            self
        } else if self.at < other.at {
            other
        } else {
            Reach { at: self.at, expected: self.expected.union(other.expected) }
        }
    }
}

/// The model of what an attempt to read an expression gave.
spec fn reading(r: (Option<(Expr, usize)>, Reach)) -> Reading {
    (
        match r.0 {
            Some((expr, end)) => Some((expr@, end as nat)),
            None => None,
        },
        r.1@,
    )
}

/// The model of what a climb gave.
spec fn climbing(r: ((Expr, usize), Reach)) -> ((Term, nat), Marks) {
    let found = r.0;
    ((found.0@, found.1 as nat), r.1@)
}

/// The position at which a climb ended.
spec fn climbed_to(r: ((Expr, usize), Reach)) -> usize {
    let found = r.0;
    found.1
}

/// The position at which arguments ended.
spec fn ended(r: ((Vec<Expr>, usize), Reach)) -> usize {
    let found = r.0;
    found.1
}

/// The model of what an attempt to read arguments gave.
spec fn readings(r: ((Vec<Expr>, usize), Reach)) -> ((Seq<Term>, nat), Marks) {
    let found = r.0;
    ((terms_of(found.0@), found.1 as nat), r.1@)
}

/// The `k`-th infix operator.
fn operator(k: usize) -> (op: Operator)
    requires
        k < OPERATORS,
    ensures
        op == grammar::operator(k as int),
        0 < op.token@.len() <= 2,
{
    proof {
        reveal_strlit(";");
        reveal_strlit("&&");
        reveal_strlit("||");
        reveal_strlit("==");
        reveal_strlit("!=");
        reveal_strlit(">");
        reveal_strlit(">=");
        reveal_strlit("<");
        reveal_strlit("<=");
        reveal_strlit("+");
        reveal_strlit("-");
        reveal_strlit("*");
        reveal_strlit("/");
        reveal_strlit("%");
        reveal_strlit("^");
    }
    if k == 0 {
        Operator { level: 0, token: ";", mark: Token::Semicolon, right: 0, infix: Infix::Chain }
    } else if k == 1 {
        Operator { level: 2, token: "&&", mark: Token::And, right: 3, infix: Infix::Binary(BinaryOp::And) }
    } else if k == 2 {
        Operator { level: 2, token: "||", mark: Token::Or, right: 3, infix: Infix::Binary(BinaryOp::Or) }
    } else if k == 3 {
        Operator { level: 3, token: "==", mark: Token::Equal, right: 4, infix: Infix::Binary(BinaryOp::Eq) }
    } else if k == 4 {
        Operator { level: 3, token: "!=", mark: Token::NotEqual, right: 4, infix: Infix::Binary(BinaryOp::Neq) }
    } else if k == 5 {
        Operator { level: 3, token: ">", mark: Token::Greater, right: 4, infix: Infix::Binary(BinaryOp::Gt) }
    } else if k == 6 {
        Operator { level: 3, token: ">=", mark: Token::GreaterEqual, right: 4, infix: Infix::Binary(BinaryOp::Geq) }
    } else if k == 7 {
        Operator { level: 3, token: "<", mark: Token::Less, right: 4, infix: Infix::Binary(BinaryOp::Lt) }
    } else if k == 8 {
        Operator { level: 3, token: "<=", mark: Token::LessEqual, right: 4, infix: Infix::Binary(BinaryOp::Leq) }
    } else if k == 9 {
        Operator { level: 4, token: "+", mark: Token::Plus, right: 5, infix: Infix::Binary(BinaryOp::Add) }
    } else if k == 10 {
        Operator { level: 4, token: "-", mark: Token::Minus, right: 5, infix: Infix::Binary(BinaryOp::Sub) }
    } else if k == 11 {
        Operator { level: 5, token: "*", mark: Token::Star, right: 6, infix: Infix::Binary(BinaryOp::Mul) }
    } else if k == 12 {
        Operator { level: 5, token: "/", mark: Token::Slash, right: 6, infix: Infix::Binary(BinaryOp::Div) }
    } else if k == 13 {
        Operator { level: 5, token: "%", mark: Token::Percent, right: 6, infix: Infix::Binary(BinaryOp::Mod) }
    } else {
        Operator { level: 5, token: "^", mark: Token::Caret, right: 6, infix: Infix::Binary(BinaryOp::Exp) }
    }
}

/// The expression that an infix operator makes of its operands.
fn combine(infix: &Infix, lhs: Expr, rhs: Expr) -> (expr: Expr)
    ensures
        expr@ == grammar::combine(*infix, lhs@, rhs@),
{
    let lhs = Box::new(lhs);
    let rhs = Box::new(rhs);
    match infix {
        Infix::Chain => Expr::Chain { side: lhs, ret: rhs },
        Infix::Binary(BinaryOp::Add) => Expr::Add { lhs, rhs },
        Infix::Binary(BinaryOp::Sub) => Expr::Sub { lhs, rhs },
        Infix::Binary(BinaryOp::Mul) => Expr::Mul { lhs, rhs },
        Infix::Binary(BinaryOp::Div) => Expr::Div { lhs, rhs },
        Infix::Binary(BinaryOp::Mod) => Expr::Mod { lhs, rhs },
        Infix::Binary(BinaryOp::Exp) => Expr::Exp { lhs, rhs },
        Infix::Binary(BinaryOp::Eq) => Expr::Eq { lhs, rhs },
        Infix::Binary(BinaryOp::Neq) => Expr::Neq { lhs, rhs },
        Infix::Binary(BinaryOp::Gt) => Expr::Gt { lhs, rhs },
        Infix::Binary(BinaryOp::Lt) => Expr::Lt { lhs, rhs },
        Infix::Binary(BinaryOp::Geq) => Expr::Geq { lhs, rhs },
        Infix::Binary(BinaryOp::Leq) => Expr::Leq { lhs, rhs },
        Infix::Binary(BinaryOp::And) => Expr::And { lhs, rhs },
        Infix::Binary(BinaryOp::Or) => Expr::Or { lhs, rhs },
    }
}

/// A text that is being read, with its characters side by side.
pub struct Parser<'a> {
    text: &'a str,
    chars: Vec<char>,
}

impl<'a> Parser<'a> {
    /// The characters of the text.
    pub closed spec fn view(&self) -> Seq<char> {
        self.chars@
    }

    /// Whether the characters are those of the text.
    pub closed spec fn wf(&self) -> bool {
        self.chars@ == self.text@ && self.chars@.len() <= usize::MAX
    }

    /// A reader of `text`.
    pub fn new(text: &'a str) -> (parser: Self)
        ensures
            parser.wf(),
            parser@ == text@,
    {
        let chars = characters(text);
        let n = chars.len();
        Parser { text, chars }
    }

    /// The text from `from` up to `to`.
    fn slice(&self, from: usize, to: usize) -> (text: String)
        requires
            self.wf(),
            from <= to <= self@.len(),
        ensures
            text@ == self@.subrange(from as int, to as int),
    {
        String::from_str(self.text.substring_char(from, to))
    }

    fn skip(&self, pos: usize) -> (end: usize)
        requires
            pos <= self@.len(),
        ensures
            end == grammar::skip(self@, pos as nat),
            pos <= end <= self@.len(),
        decreases self@.len() - pos,
    {
        if pos < self.chars.len() && (self.chars[pos] == ' ' || self.chars[pos] == '\t') {
            self.skip(pos + 1)
        } else {
            pos
        }
    }

    fn digits(&self, pos: usize) -> (end: usize)
        requires
            pos <= self@.len(),
        ensures
            end == grammar::digits(self@, pos as nat),
            pos <= end <= self@.len(),
        decreases self@.len() - pos,
    {
        if pos < self.chars.len() && '0' <= self.chars[pos] && self.chars[pos] <= '9' {
            self.digits(pos + 1)
        } else {
            pos
        }
    }

    fn parts(&self, pos: usize) -> (end: usize)
        requires
            pos <= self@.len(),
        ensures
            end == grammar::parts(self@, pos as nat),
            pos <= end <= self@.len(),
        decreases self@.len() - pos,
    {
        if pos < self.chars.len() {
            let c = self.chars[pos];
            if ('a' <= c && c <= 'z') || ('A' <= c && c <= 'Z') || c == '_' || ('0' <= c && c <= '9') {
                return self.parts(pos + 1);
            }
        }
        pos
    }

    /// Whether `token` stands at `pos`.
    fn stands(&self, pos: usize, token: &str) -> (found: bool)
        requires
            self.wf(),
            pos <= self@.len(),
        ensures
            found == grammar::stands(self@, pos as nat, token@),
    {
        let n = token.unicode_len();
        if n > self.chars.len() - pos {
            return false;
        }
        let mut i: usize = 0;
        while i < n
            invariant
                i <= n,
                n == token@.len(),
                pos + n <= self@.len(),
                self.wf(),
                forall|k: int| 0 <= k < i ==> self@[pos + k] == token@[k],
            decreases n - i,
        {
            if self.chars[pos + i] != token.get_char(i) {
                assert(self@.subrange(pos as int, pos + n)[i as int] != token@[i as int]);
                return false;
            }
            i += 1;
        }
        assert(self@.subrange(pos as int, pos + n) =~= token@);
        true
    }

    fn identifier(&self, pos: usize) -> (end: Option<usize>)
        requires
            pos <= self@.len(),
        ensures
            match end {
                Some(end) => grammar::identifier(self@, pos as nat) == Some(end as nat) && pos < end
                    <= self@.len(),
                None => grammar::identifier(self@, pos as nat) is None,
            },
    {
        if pos < self.chars.len() {
            let c = self.chars[pos];
            if ('a' <= c && c <= 'z') || ('A' <= c && c <= 'Z') || c == '_' {
                return Some(self.parts(pos + 1));
            }
        }
        None
    }

    fn literal(&self, pos: usize) -> (r: (Option<usize>, Reach))
        requires
            pos <= self@.len(),
        ensures
            grammar::literal(self@, pos as nat) == (
                match r.0 {
                    Some(end) => Some(end as nat),
                    None => None,
                },
                r.1@,
            ),
            r.0 is Some ==> pos < r.0->0 <= self@.len(),
            r.1@.reach <= self@.len(),
    {
        let signed = pos < self.chars.len() && self.chars[pos] == '-';
        let first = if signed {
            pos + 1
        } else {
            pos
        };
        let sign = if signed {
            Reach::nothing()
        } else {
            Reach::mark(pos, Token::Minus)
        };
        let whole = self.digits(first);
        let integer = sign.join(Reach::mark(whole, Token::Digit));
        if whole == first {
            (None, integer)
        } else if whole < self.chars.len() && self.chars[whole] == '.' {
            let end = self.digits(whole + 1);
            (Some(end), integer.join(Reach::mark(end, Token::Digit)))
        } else {
            (Some(whole), integer.join(Reach::mark(whole, Token::Dot)))
        }
    }

    fn expression(&self, pos: usize, min: u8) -> (r: (Option<(Expr, usize)>, Reach))
        requires
            self.wf(),
            pos <= self@.len(),
        ensures
            reading(r) == grammar::expression(self@, pos as nat, min),
            r.0 matches Some((_, end)) ==> pos < end <= self@.len(),
            r.1@.reach <= self@.len(),
        decreases self@.len() - pos, 3nat, 0nat,
    {
        match self.operand(pos) {
            (Some((lhs, end)), reach) => {
                let (whole, more) = self.climb(lhs, end, min);
                (Some(whole), reach.join(more))
            },
            (None, reach) => (None, reach),
        }
    }

    fn climb(&self, lhs: Expr, pos: usize, min: u8) -> (r: ((Expr, usize), Reach))
        requires
            self.wf(),
            pos <= self@.len(),
        ensures
            climbing(r) == grammar::climb(self@, lhs@, pos as nat, min),
            pos <= climbed_to(r) <= self@.len(),
            r.1@.reach <= self@.len(),
        decreases self@.len() - pos, 1nat, 0nat,
    {
        match self.infix(lhs, pos, min, 0) {
            (Ok((node, end)), reach) => {
                let (whole, more) = self.climb(node, end, min);
                (whole, reach.join(more))
            },
            (Err(lhs), reach) => ((lhs, pos), reach),
        }
    }

    /// Tries the operators from the `k`-th on after `lhs`. Where none fits,
    /// `lhs` comes back.
    fn infix(&self, lhs: Expr, pos: usize, min: u8, k: usize) -> (r: (Result<(Expr, usize), Expr>, Reach))
        requires
            self.wf(),
            pos <= self@.len(),
            k <= OPERATORS,
        ensures
            (
                match r.0 {
                    Ok((node, end)) => Some((node@, end as nat)),
                    Err(_) => None,
                },
                r.1@,
            ) == grammar::infix(self@, lhs@, pos as nat, min, k as nat),
            r.0 matches Ok((_, end)) ==> pos < end <= self@.len(),
            r.0 matches Err(same) ==> same@ == lhs@,
            r.1@.reach <= self@.len(),
        decreases self@.len() - pos, 0nat, OPERATORS - k,
    {
        if k >= OPERATORS {
            return (Err(lhs), Reach::nothing());
        }
        let op = operator(k);
        let at = self.skip(pos);
        if op.level < min {
            self.infix(lhs, pos, min, k + 1)
        } else if !self.stands(at, op.token) {
            let (found, reach) = self.infix(lhs, pos, min, k + 1);
            (found, Reach::mark(at, op.mark).join(reach))
        } else {
            let from = self.skip(at + op.token.unicode_len());
            match self.expression(from, op.right) {
                (Some((rhs, end)), reach) => (Ok((combine(&op.infix, lhs, rhs), end)), reach),
                (None, reach) => {
                    let (found, more) = self.infix(lhs, pos, min, k + 1);
                    (found, reach.join(more))
                },
            }
        }
    }

    fn operand(&self, pos: usize) -> (r: (Option<(Expr, usize)>, Reach))
        requires
            self.wf(),
            pos <= self@.len(),
        ensures
            reading(r) == grammar::operand(self@, pos as nat),
            r.0 matches Some((_, end)) ==> pos < end <= self@.len(),
            r.1@.reach <= self@.len(),
        decreases self@.len() - pos, 2nat, 0nat,
    {
        let reach = match self.literal(pos) {
            (Some(end), reach) => {
                return (Some((Expr::Const { value: self.slice(pos, end) }, end)), reach);
            },
            (None, reach) => reach,
        };
        let (found, more) = self.assignment(pos);
        let reach = reach.join(more);
        if found.is_some() {
            return (found, reach);
        }
        let (found, further) = self.prefixed(pos);
        let reach = reach.join(further);
        if found.is_some() {
            return (found, reach);
        }
        let (found, last) = self.named(pos);
        (found, reach.join(last))
    }

    fn assignment(&self, pos: usize) -> (r: (Option<(Expr, usize)>, Reach))
        requires
            self.wf(),
            pos <= self@.len(),
        ensures
            reading(r) == grammar::assignment(self@, pos as nat),
            r.0 matches Some((_, end)) ==> pos < end <= self@.len(),
            r.1@.reach <= self@.len(),
        decreases self@.len() - pos, 1nat, 0nat,
    {
        let end = match self.identifier(pos) {
            None => {
                return (None, Reach::mark(pos, Token::Identifier));
            },
            Some(end) => end,
        };
        let at = self.skip(end);
        proof {
            reveal_strlit("=");
        }
        if !self.stands(at, "=") {
            return (None, Reach::mark(at, Token::Assign));
        }
        let from = self.skip(at + 1);
        match self.expression(from, 1) {
            (Some((value, after)), reach) => (
                Some((Expr::Assign { identifier: self.slice(pos, end), value: Box::new(value) }, after)),
                reach,
            ),
            (None, reach) => (None, reach),
        }
    }

    fn prefixed(&self, pos: usize) -> (r: (Option<(Expr, usize)>, Reach))
        requires
            self.wf(),
            pos <= self@.len(),
        ensures
            reading(r) == grammar::prefixed(self@, pos as nat),
            r.0 matches Some((_, end)) ==> pos < end <= self@.len(),
            r.1@.reach <= self@.len(),
        decreases self@.len() - pos, 1nat, 0nat,
    {
        let no_not = Reach::mark(pos, Token::Not);
        let no_minus = Reach::mark(pos, Token::Minus);
        let no_open = Reach::mark(pos, Token::Open);
        if pos >= self.chars.len() {
            return (None, no_not.join(no_minus.join(no_open)));
        }
        let c = self.chars[pos];
        if c == '!' {
            match self.expression(pos + 1, TIGHTEST) {
                (Some((value, end)), reach) => (Some((Expr::Not { value: Box::new(value) }, end)), reach),
                (None, reach) => (None, reach.join(no_minus.join(no_open))),
            }
        } else if c == '-' {
            match self.expression(pos + 1, TIGHTEST) {
                (Some((value, end)), reach) => (
                    Some((Expr::Neg { value: Box::new(value) }, end)),
                    no_not.join(reach),
                ),
                (None, reach) => (None, no_not.join(reach.join(no_open))),
            }
        } else if c == '(' {
            let before = no_not.join(no_minus);
            let from = self.skip(pos + 1);
            match self.expression(from, 0) {
                (Some((inner, end)), reach) => {
                    let at = self.skip(end);
                    proof {
                        reveal_strlit(")");
                    }
                    if self.stands(at, ")") {
                        (Some((inner, at + 1)), before.join(reach))
                    } else {
                        (None, before.join(reach.join(Reach::mark(at, Token::Close))))
                    }
                },
                (None, reach) => (None, before.join(reach)),
            }
        } else {
            (None, no_not.join(no_minus.join(no_open)))
        }
    }

    fn named(&self, pos: usize) -> (r: (Option<(Expr, usize)>, Reach))
        requires
            self.wf(),
            pos <= self@.len(),
        ensures
            reading(r) == grammar::named(self@, pos as nat),
            r.0 matches Some((_, end)) ==> pos < end <= self@.len(),
            r.1@.reach <= self@.len(),
        decreases self@.len() - pos, 1nat, 0nat,
    {
        let end = match self.identifier(pos) {
            None => {
                return (None, Reach::mark(pos, Token::Identifier));
            },
            Some(end) => end,
        };
        let at = self.skip(end);
        proof {
            reveal_strlit("(");
            reveal_strlit(")");
        }
        if !self.stands(at, "(") {
            return (
                Some((Expr::VariableRead { identifier: self.slice(pos, end) }, end)),
                Reach::mark(at, Token::Open),
            );
        }
        let ((args, after), reach) = self.arguments(at + 1);
        if self.stands(after, ")") {
            (Some((Expr::Call { identifier: self.slice(pos, end), args }, after + 1)), reach)
        } else {
            (
                Some((Expr::VariableRead { identifier: self.slice(pos, end) }, end)),
                reach.join(Reach::mark(after, Token::Close)),
            )
        }
    }

    fn arguments(&self, pos: usize) -> (r: ((Vec<Expr>, usize), Reach))
        requires
            self.wf(),
            pos <= self@.len(),
        ensures
            readings(r) == grammar::arguments(self@, pos as nat),
            pos <= ended(r) <= self@.len(),
            r.1@.reach <= self@.len(),
        decreases self@.len() - pos, 5nat, 0nat,
    {
        match self.argument(pos) {
            (Some((first, end)), reach) => {
                let mut found: Vec<Expr> = Vec::new();
                found.push(first);
                assert(terms_of(found@) =~= seq![first@]);
                let (all, more) = self.further(found, end);
                (all, reach.join(more))
            },
            (None, reach) => {
                let found: Vec<Expr> = Vec::new();
                assert(terms_of(found@) =~= Seq::<Term>::empty());
                ((found, pos), reach)
            },
        }
    }

    fn argument(&self, pos: usize) -> (r: (Option<(Expr, usize)>, Reach))
        requires
            self.wf(),
            pos <= self@.len(),
        ensures
            reading(r) == grammar::argument(self@, pos as nat),
            r.0 matches Some((_, end)) ==> pos < end <= self@.len(),
            r.1@.reach <= self@.len(),
        decreases self@.len() - pos, 4nat, 0nat,
    {
        let from = self.skip(pos);
        match self.expression(from, 0) {
            (Some((value, end)), reach) => (Some((value, self.skip(end))), reach),
            (None, reach) => (None, reach),
        }
    }

    fn further(&self, found: Vec<Expr>, pos: usize) -> (r: ((Vec<Expr>, usize), Reach))
        requires
            self.wf(),
            pos <= self@.len(),
        ensures
            readings(r) == grammar::further(self@, terms_of(found@), pos as nat),
            pos <= ended(r) <= self@.len(),
            r.1@.reach <= self@.len(),
        decreases self@.len() - pos, 6nat, 0nat,
    {
        proof {
            reveal_strlit(",");
        }
        if !self.stands(pos, ",") {
            return ((found, pos), Reach::mark(pos, Token::Comma));
        }
        match self.argument(pos + 1) {
            (Some((next, end)), reach) => {
                let mut found = found;
                let ghost before = terms_of(found@);
                found.push(next);
                assert(terms_of(found@) =~= before.push(next@));
                let (all, more) = self.further(found, end);
                (all, reach.join(more))
            },
            (None, reach) => ((found, pos), reach),
        }
    }
}

/// Where and why a text is no expression.
#[derive(Debug, Clone, Copy, PartialEq, Eq)]
pub struct ParseError {
    /// The line of the position, counted from 1.
    pub line: usize,
    /// The column of the position in its line, counted from 1.
    pub column: usize,
    /// The position: the number of characters before the last place at which
    /// the parser looked for something that does not stand there.
    pub offset: usize,
    /// What the parser looked for at the position.
    pub expected: Expected,
}

impl ParseError {
    /// Whether the error is what the marks of a reading of `s` say: their
    /// position with its line and column, and what was looked for there.
    pub open spec fn reports(&self, s: Seq<char>, marks: Marks) -> bool {
        &&& self.offset == marks.reach
        &&& self.line == capped(grammar::line_of(s, marks.reach))
        &&& self.column == capped(grammar::column_of(s, marks.reach))
        &&& self.expected@ == marks.expected
    }
}

/// `n` as a machine number, or the largest machine number if `n` is larger.
pub open spec fn capped(n: nat) -> usize {
    if n <= usize::MAX {
        n as usize
    } else {
        usize::MAX
    }
}

/// One more than `n`, as far as the machine counts.
fn successor(n: usize) -> (m: usize)
    ensures
        m == capped((n + 1) as nat),
{
    if n < usize::MAX {
        n + 1
    } else {
        n
    }
}

impl<'a> Parser<'a> {
    /// The line and the column of `offset`.
    fn locate(&self, offset: usize) -> (at: (usize, usize))
        requires
            self.wf(),
            offset <= self@.len(),
        ensures
            at.0 == capped(grammar::line_of(self@, offset as nat)),
            at.1 == capped(grammar::column_of(self@, offset as nat)),
    {
        let mut line: usize = 1;
        let mut column: usize = 1;
        let mut i: usize = 0;
        while i < offset
            invariant
                i <= offset <= self@.len(),
                self.wf(),
                line == capped(grammar::line_of(self@, i as nat)),
                column == capped(grammar::column_of(self@, i as nat)),
                grammar::line_of(self@, i as nat) <= i + 1,
                grammar::column_of(self@, i as nat) <= i + 1,
            decreases offset - i,
        {
            if self.chars[i] == '\n' {
                line = successor(line);
                column = 1;
            } else {
                column = successor(column);
            }
            i += 1;
        }
        (line, column)
    }

    /// The expression that the whole text is, or the place at which the
    /// reading of it stopped.
    pub fn parse(&self) -> (result: Result<Expr, ParseError>)
        requires
            self.wf(),
        ensures
            match grammar::parse(self@) {
                Parsed::Expression(term) => result is Ok && result->Ok_0@ == term,
                Parsed::Failure { marks } => result is Err && result->Err_0.reports(self@, marks),
            },
    {
        let reach = match self.expression(0, 0) {
            (Some((expr, end)), reach) => {
                if end == self.chars.len() {
                    return Ok(expr);
                }
                reach.join(Reach::mark(end, Token::End))
            },
            (None, reach) => reach,
        };
        let (line, column) = self.locate(reach.at);
        Err(ParseError { line, column, offset: reach.at, expected: reach.expected })
    }
}

/// Reads `input` as an expression.
///
/// The operators bind in this order, from the loosest to the tightest: `;`;
/// `name = value`; `&&`, `||`; `==`, `!=`, `>`, `>=`, `<`, `<=`; `+`, `-`;
/// `*`, `/`, `%`, `^`; `!` and unary `-`; parentheses, calls and names. `;`
/// and `=` group to the right, the other infix operators to the left. Spaces
/// and tabs may stand between tokens, but neither before the first nor
/// after the last.
pub fn expression(input: &str) -> (result: Result<Expr, ParseError>)
    ensures
        match grammar::parse(input@) {
            Parsed::Expression(term) => result is Ok && result->Ok_0@ == term,
            Parsed::Failure { marks } => result is Err && result->Err_0.reports(input@, marks),
        },
{
    Parser::new(input).parse()
}

} // verus!
