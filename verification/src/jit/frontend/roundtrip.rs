//! The printer and the grammar agree: the text of an expression reads as
//! the expression.

use super::ast::BinaryOp;
use super::ast::Term;
use super::ast::UnaryOp;
use super::grammar::argument;
use super::grammar::arguments;
use super::grammar::assignment;
use super::grammar::climb;
use super::grammar::combine;
use super::grammar::digits;
use super::grammar::expression;
use super::grammar::further;
use super::grammar::identifier;
use super::grammar::Infix;
use super::grammar::infix;
use super::grammar::is_digit;
use super::grammar::is_part;
use super::grammar::is_space;
use super::grammar::is_start;
use super::grammar::literal;
use super::grammar::Marks;
use super::grammar::named;
use super::grammar::operand;
use super::grammar::operator;
use super::grammar::OPERATORS;
use super::grammar::parse;
use super::grammar::Parsed;
use super::grammar::parts;
use super::grammar::prefixed;
use super::grammar::skip;
use super::grammar::stands;
use super::grammar::TIGHTEST;
use super::printer::print;
use super::printer::print_each;
use super::printer::sign;
use super::printer::token;
use super::printer::wrapped;
use vstd::prelude::*;

verus! {

/// Whether `name` is an identifier: a letter or `_`, then letters, digits
/// and `_`.
pub open spec fn is_identifier(name: Seq<char>) -> bool {
    &&& name.len() > 0
    &&& is_start(name[0])
    &&& forall|i: int| 1 <= i < name.len() ==> is_part(#[trigger] name[i])
}

/// Whether `text` is a numeric literal, all of it.
pub open spec fn is_literal(text: Seq<char>) -> bool {
    literal(text, 0).0 == Some(text.len())
}

/// Whether the names and the literals of a term are what the grammar takes
/// for names and literals.
pub open spec fn well_formed(t: Term) -> bool
    decreases t,
{
    match t {
        Term::Read { identifier } => is_identifier(identifier),
        Term::Const { text } => is_literal(text),
        Term::Chain { side, ret } => well_formed(*side) && well_formed(*ret),
        Term::Call { identifier, args } => is_identifier(identifier) && forall|i: int|
            0 <= i < args.len() ==> well_formed(#[trigger] args[i]),
        Term::Binary { op, lhs, rhs } => well_formed(*lhs) && well_formed(*rhs),
        Term::Unary { op, value } => well_formed(*value),
        Term::Assign { identifier, value } => is_identifier(identifier) && well_formed(*value),
    }
}

/// Whether nothing of an expression can go on at `pos`: the text ends
/// there, or a `)` or a `,` stands there.
pub open spec fn stops(s: Seq<char>, pos: nat) -> bool {
    pos >= s.len() || s[pos as int] == ')' || s[pos as int] == ','
}

/// A text stands at a position exactly if its two halves stand there one
/// after the other.
pub proof fn lemma_stands_concat(s: Seq<char>, pos: nat, a: Seq<char>, b: Seq<char>)
    ensures
        stands(s, pos, a + b) <==> stands(s, pos, a) && stands(s, pos + a.len(), b),
{
    if stands(s, pos, a + b) {
        assert(s.subrange(pos as int, (pos + a.len()) as int) =~= a) by {
            assert forall|i: int| 0 <= i < a.len() implies s[pos + i] == a[i] by {
                assert(s.subrange(pos as int, (pos + (a + b).len()) as int)[i] == (a + b)[i]);
            }
        }
        assert(s.subrange((pos + a.len()) as int, (pos + a.len() + b.len()) as int) =~= b) by {
            assert forall|i: int| 0 <= i < b.len() implies s[pos + a.len() + i] == b[i] by {
                assert(s.subrange(pos as int, (pos + (a + b).len()) as int)[a.len() + i] == (a + b)[a.len()
                    + i]);
            }
        }
    }
    if stands(s, pos, a) && stands(s, pos + a.len(), b) {
        assert(s.subrange(pos as int, (pos + (a + b).len()) as int) =~= a + b) by {
            assert forall|i: int| 0 <= i < (a + b).len() implies s[pos + i] == (a + b)[i] by {
                if i < a.len() {
                    assert(s.subrange(pos as int, (pos + a.len()) as int)[i] == a[i]);
                } else {
                    assert(s.subrange((pos + a.len()) as int, (pos + a.len() + b.len()) as int)[i
                        - a.len()] == b[i - a.len()]);
                }
            }
        }
    }
}

/// The characters of a text that stands at a position.
pub proof fn lemma_stands_index(s: Seq<char>, pos: nat, text: Seq<char>, i: int)
    requires
        stands(s, pos, text),
        0 <= i < text.len(),
    ensures
        pos + i < s.len(),
        s[pos + i] == text[i],
{
    assert(s.subrange(pos as int, (pos + text.len()) as int)[i] == text[i]);
}

/// Skipping goes forward, and not beyond the end of the text.
pub proof fn lemma_skip_bounds(s: Seq<char>, pos: nat)
    ensures
        pos <= skip(s, pos),
        pos <= s.len() ==> skip(s, pos) <= s.len(),
    decreases s.len() - pos,
{
    if pos < s.len() && is_space(s[pos as int]) {
        lemma_skip_bounds(s, pos + 1);
    }
}

/// Nothing is skipped where no whitespace stands.
pub proof fn lemma_skip_none(s: Seq<char>, pos: nat)
    requires
        pos >= s.len() || !is_space(s[pos as int]),
    ensures
        skip(s, pos) == pos,
{
}

/// One space is skipped where something else follows it.
pub proof fn lemma_skip_one(s: Seq<char>, pos: nat)
    requires
        pos + 1 < s.len(),
        s[pos as int] == ' ',
        !is_space(s[(pos + 1) as int]),
    ensures
        skip(s, pos) == pos + 1,
{
    reveal_with_fuel(skip, 2);
}

/// The scan of the parts of an identifier goes over `n` parts and stops at
/// what is none.
pub proof fn lemma_parts_scan(s: Seq<char>, pos: nat, n: nat)
    requires
        pos + n <= s.len(),
        forall|i: int| 0 <= i < n ==> is_part(#[trigger] s[pos + i]),
        pos + n == s.len() || !is_part(s[(pos + n) as int]),
    ensures
        parts(s, pos) == pos + n,
    decreases n,
{
    if n > 0 {
        assert(is_part(s[(pos + 0) as int]));
        assert forall|i: int| 0 <= i < n - 1 implies is_part(#[trigger] s[pos + 1 + i]) by {
            assert(is_part(s[pos + (i + 1)]));
        }
        lemma_parts_scan(s, pos + 1, (n - 1) as nat);
    }
}

/// The scan of digits in a text that stands in another goes as far as in
/// the text alone, where no digit follows the text.
pub proof fn lemma_digits_within(s: Seq<char>, pos: nat, text: Seq<char>, i: nat)
    requires
        stands(s, pos, text),
        i <= text.len(),
        pos + text.len() >= s.len() || !is_digit(s[(pos + text.len()) as int]),
    ensures
        digits(s, pos + i) == pos + digits(text, i),
        i <= digits(text, i) <= text.len(),
    decreases text.len() - i,
{
    if i < text.len() {
        lemma_stands_index(s, pos, text, i as int);
        if is_digit(text[i as int]) {
            lemma_digits_within(s, pos, text, i + 1);
        }
    }
}

/// An identifier that stands at a position, with nothing after it that
/// could be part of it, is the identifier that the grammar finds there.
pub proof fn lemma_identifier_at(s: Seq<char>, pos: nat, name: Seq<char>)
    requires
        is_identifier(name),
        stands(s, pos, name),
        pos + name.len() >= s.len() || !is_part(s[(pos + name.len()) as int]),
    ensures
        identifier(s, pos) == Some(pos + name.len()),
        s.subrange(pos as int, (pos + name.len()) as int) == name,
{
    lemma_stands_index(s, pos, name, 0);
    assert forall|i: int| 0 <= i < name.len() - 1 implies is_part(#[trigger] s[pos + 1 + i]) by {
        lemma_stands_index(s, pos, name, i + 1);
        assert(is_part(name[i + 1]));
    }
    lemma_parts_scan(s, pos + 1, (name.len() - 1) as nat);
}

/// A literal that stands at a position, with neither a digit nor a `.`
/// after it, is the literal that the grammar finds there.
pub proof fn lemma_literal_at(s: Seq<char>, pos: nat, text: Seq<char>)
    requires
        is_literal(text),
        stands(s, pos, text),
        pos + text.len() >= s.len() || (!is_digit(s[(pos + text.len()) as int]) && s[(pos + text.len()) as int] != '.'),
    ensures
        literal(s, pos).0 == Some(pos + text.len()),
        s.subrange(pos as int, (pos + text.len()) as int) == text,
        text.len() > 0,
        text[0] == '-' || is_digit(text[0]),
{
    let first = if 0 < text.len() && text[0] == '-' {
        1nat
    } else {
        0nat
    };
    if text.len() > 0 {
        lemma_stands_index(s, pos, text, 0);
    }
    lemma_digits_within(s, pos, text, first);
    let whole = digits(text, first);
    assert(whole != first);
    if whole < text.len() {
        lemma_stands_index(s, pos, text, whole as int);
        lemma_digits_within(s, pos, text, whole + 1);
    }
    if !(text[0] == '-') {
        assert(is_digit(text[0]));
    }
}

/// The characters with which the infix operators begin.
pub open spec fn begins_operator(c: char) -> bool {
    c == ';' || c == '&' || c == '|' || c == '=' || c == '!' || c == '>' || c == '<' || c == '+'
        || c == '-' || c == '*' || c == '/' || c == '%' || c == '^'
}

/// The texts of the infix operators.
pub proof fn lemma_tokens()
    ensures
        operator(0).token@ == seq![';'],
        operator(1).token@ == seq!['&', '&'],
        operator(2).token@ == seq!['|', '|'],
        operator(3).token@ == seq!['=', '='],
        operator(4).token@ == seq!['!', '='],
        operator(5).token@ == seq!['>'],
        operator(6).token@ == seq!['>', '='],
        operator(7).token@ == seq!['<'],
        operator(8).token@ == seq!['<', '='],
        operator(9).token@ == seq!['+'],
        operator(10).token@ == seq!['-'],
        operator(11).token@ == seq!['*'],
        operator(12).token@ == seq!['/'],
        operator(13).token@ == seq!['%'],
        operator(14).token@ == seq!['^'],
        forall|k: int|
            0 <= k < OPERATORS ==> 0 < (#[trigger] operator(k)).token@.len() <= 2 && begins_operator(
                operator(k).token@[0],
            ),
{
    reveal_strlit(";");
    reveal_strlit("&&");
    reveal_strlit("||");
    reveal_strlit("==");
    reveal_strlit("!=");
    reveal_strlit(">");
    reveal_strlit(">=");
    reveal_strlit("<");
    reveal_strlit("<=");
    reveal_strlit("+");
    reveal_strlit("-");
    reveal_strlit("*");
    reveal_strlit("/");
    reveal_strlit("%");
    reveal_strlit("^");
    assert(operator(0).token@ =~= seq![';']);
    assert(operator(1).token@ =~= seq!['&', '&']);
    assert(operator(2).token@ =~= seq!['|', '|']);
    assert(operator(3).token@ =~= seq!['=', '=']);
    assert(operator(4).token@ =~= seq!['!', '=']);
    assert(operator(5).token@ =~= seq!['>']);
    assert(operator(6).token@ =~= seq!['>', '=']);
    assert(operator(7).token@ =~= seq!['<']);
    assert(operator(8).token@ =~= seq!['<', '=']);
    assert(operator(9).token@ =~= seq!['+']);
    assert(operator(10).token@ =~= seq!['-']);
    assert(operator(11).token@ =~= seq!['*']);
    assert(operator(12).token@ =~= seq!['/']);
    assert(operator(13).token@ =~= seq!['%']);
    assert(operator(14).token@ =~= seq!['^']);
}

/// No infix operator stands where the text ends or something stands that
/// begins none.
pub proof fn lemma_no_infix(s: Seq<char>, lhs: Term, pos: nat, min: u8, k: nat)
    requires
        pos >= s.len() || (!is_space(s[pos as int]) && !begins_operator(s[pos as int])),
        k <= OPERATORS,
    ensures
        infix(s, lhs, pos, min, k).0 is None,
    decreases OPERATORS - k,
{
    if k < OPERATORS {
        lemma_tokens();
        lemma_skip_none(s, pos);
        let op = operator(k as int);
        if stands(s, pos, op.token@) {
            lemma_stands_index(s, pos, op.token@, 0);
        }
        lemma_no_infix(s, lhs, pos, min, k + 1);
    }
}

/// An expression ends where no infix operator stands.
pub proof fn lemma_climb_stops(s: Seq<char>, lhs: Term, pos: nat, min: u8)
    requires
        pos >= s.len() || (!is_space(s[pos as int]) && !begins_operator(s[pos as int])),
    ensures
        climb(s, lhs, pos, min).0 == (lhs, pos),
{
    lemma_no_infix(s, lhs, pos, min, 0);
}

/// No operand begins where the text ends or where a `=`, a `)` or a `,`
/// stands.
pub proof fn lemma_no_operand(s: Seq<char>, pos: nat, min: u8)
    requires
        pos >= s.len() || s[pos as int] == '=' || s[pos as int] == ')' || s[pos as int] == ',',
    ensures
        operand(s, pos).0 is None,
        expression(s, pos, min).0 is None,
{
    assert(digits(s, pos) == pos);
    assert(literal(s, pos).0 is None);
    assert(identifier(s, pos) is None);
    assert(assignment(s, pos).0 is None);
    assert(prefixed(s, pos).0 is None);
    assert(named(s, pos).0 is None);
}

/// A text does not stand where the text ends or another character stands
/// than its first.
pub proof fn lemma_stands_not(s: Seq<char>, pos: nat, token: Seq<char>)
    requires
        token.len() > 0,
        pos >= s.len() || s[pos as int] != token[0],
    ensures
        !stands(s, pos, token),
{
    if stands(s, pos, token) {
        lemma_stands_index(s, pos, token, 0);
    }
}

/// The text of a well-formed term is not empty, and it begins with a
/// letter, `_`, a digit, `-`, `!` or `(`.
pub proof fn lemma_print_begins(t: Term)
    requires
        well_formed(t),
    ensures
        print(t).len() > 0,
        is_start(print(t)[0]) || is_digit(print(t)[0]) || print(t)[0] == '-' || print(t)[0] == '!'
            || print(t)[0] == '(',
{
    reveal_strlit("(");
    reveal_strlit("-");
    reveal_strlit("!");
    match t {
        Term::Read { identifier } => {},
        Term::Const { text } => {
            assert(stands(text, 0, text)) by {
                assert(text.subrange(0, text.len() as int) =~= text);
            }
            lemma_literal_at(text, 0, text);
        },
        Term::Chain { side, ret } => {
            assert(print(t)[0] == '(');
        },
        Term::Call { identifier, args } => {
            assert(print(t)[0] == identifier[0]);
        },
        Term::Binary { op, lhs, rhs } => {
            assert(print(t)[0] == '(');
        },
        Term::Unary { op, value } => {
            assert(print(t)[0] == sign(op)[0]);
        },
        Term::Assign { identifier, value } => {
            assert(print(t)[0] == identifier[0]);
        },
    }
}

/// Where the name of a variable stands and nothing of an expression goes
/// on after it, the grammar reads the variable.
pub proof fn lemma_reads_back_name(s: Seq<char>, pos: nat, name: Seq<char>)
    requires
        is_identifier(name),
        stands(s, pos, name),
        stops(s, pos + name.len()),
    ensures
        expression(s, pos, 0).0 == Some((Term::Read { identifier: name }, pos + name.len())),
{
    let end = pos + name.len();
    reveal_strlit("=");
    reveal_strlit("(");
    lemma_stands_index(s, pos, name, 0);
    lemma_identifier_at(s, pos, name);
    lemma_skip_none(s, end);
    lemma_stands_not(s, end, "="@);
    lemma_stands_not(s, end, "("@);
    assert(digits(s, pos) == pos);
    assert(literal(s, pos).0 is None);
    assert(assignment(s, pos).0 is None);
    assert(prefixed(s, pos).0 is None);
    assert(named(s, pos).0 == Some((Term::Read { identifier: name }, end)));
    assert(operand(s, pos).0 == Some((Term::Read { identifier: name }, end)));
    lemma_climb_stops(s, Term::Read { identifier: name }, end, 0);
}

/// Where a literal stands and nothing of an expression goes on after it,
/// the grammar reads the literal.
pub proof fn lemma_reads_back_literal(s: Seq<char>, pos: nat, text: Seq<char>)
    requires
        is_literal(text),
        stands(s, pos, text),
        stops(s, pos + text.len()),
    ensures
        expression(s, pos, 0).0 == Some((Term::Const { text }, pos + text.len())),
{
    let end = pos + text.len();
    lemma_literal_at(s, pos, text);
    assert(operand(s, pos).0 == Some((Term::Const { text }, end)));
    lemma_climb_stops(s, Term::Const { text }, end, 0);
}

/// What stands where a text in parentheses stands.
pub proof fn lemma_wrapped_at(s: Seq<char>, pos: nat, text: Seq<char>)
    requires
        stands(s, pos, wrapped(text)),
    ensures
        wrapped(text).len() == text.len() + 2,
        pos + text.len() + 2 <= s.len(),
        s[pos as int] == '(',
        stands(s, pos + 1, text),
        s[(pos + 1 + text.len()) as int] == ')',
{
    reveal_strlit("(");
    reveal_strlit(")");
    lemma_stands_concat(s, pos, "("@ + text, ")"@);
    lemma_stands_concat(s, pos, "("@, text);
    lemma_stands_index(s, pos, "("@, 0);
    lemma_stands_index(s, pos + 1 + text.len(), ")"@, 0);
}

/// An expression in parentheses is an operand.
pub proof fn lemma_parenthesized(s: Seq<char>, pos: nat, t: Term, end: nat)
    requires
        pos + 1 < s.len(),
        s[pos as int] == '(',
        !is_space(s[(pos + 1) as int]),
        expression(s, pos + 1, 0).0 == Some((t, end)),
        end < s.len(),
        s[end as int] == ')',
    ensures
        operand(s, pos).0 == Some((t, end + 1)),
{
    reveal_strlit(")");
    lemma_skip_none(s, pos + 1);
    lemma_skip_none(s, end);
    assert(stands(s, end, ")"@)) by {
        assert(s.subrange(end as int, (end + 1) as int) =~= ")"@);
    }
    assert(digits(s, pos) == pos);
    assert(literal(s, pos).0 is None);
    assert(identifier(s, pos) is None);
    assert(assignment(s, pos).0 is None);
    assert(prefixed(s, pos).0 == Some((t, end + 1)));
}

/// An operand after which nothing of an expression goes on is an
/// expression, whatever operators it may take.
pub proof fn lemma_operand_alone(s: Seq<char>, pos: nat, t: Term, end: nat, min: u8)
    requires
        operand(s, pos).0 == Some((t, end)),
        pos < end <= s.len(),
        end >= s.len() || (!is_space(s[end as int]) && !begins_operator(s[end as int])),
    ensures
        expression(s, pos, min).0 == Some((t, end)),
{
    lemma_climb_stops(s, t, end, min);
}

/// An expression with one infix operator after which nothing goes on.
pub proof fn lemma_climb_once(s: Seq<char>, lhs: Term, pos: nat, min: u8, node: Term, end: nat)
    requires
        infix(s, lhs, pos, min, 0).0 == Some((node, end)),
        pos < end <= s.len(),
        end >= s.len() || (!is_space(s[end as int]) && !begins_operator(s[end as int])),
    ensures
        climb(s, lhs, pos, min).0 == (node, end),
{
    lemma_climb_stops(s, node, end, min);
}

/// Whether the `j`-th operator does not fit after an operand that ends
/// before `at`: it does not stand there, or no right operand follows it.
pub open spec fn gives_way(s: Seq<char>, at: nat, j: int) -> bool {
    let op = operator(j);
    !stands(s, at, op.token@) || expression(s, skip(s, at + op.token@.len()), op.right).0 is None
}

/// The operator that stands after an operand, with its right operand, is
/// the one that the grammar finds, where the operators before it give way.
pub proof fn lemma_infix_found(s: Seq<char>, lhs: Term, pos: nat, k: nat, rhs: Term, end: nat, j: nat)
    requires
        j <= k < OPERATORS,
        stands(s, skip(s, pos), operator(k as int).token@),
        pos < skip(s, skip(s, pos) + operator(k as int).token@.len()) <= s.len(),
        expression(
            s,
            skip(s, skip(s, pos) + operator(k as int).token@.len()),
            operator(k as int).right,
        ).0 == Some((rhs, end)),
        forall|i: int| j <= i < k ==> gives_way(s, skip(s, pos), i),
    ensures
        infix(s, lhs, pos, 0, j).0 == Some((combine(operator(k as int).infix, lhs, rhs), end)),
    decreases k - j,
{
    if j < k {
        let at = skip(s, pos);
        let op = operator(j as int);
        assert(gives_way(s, at, j as int));
        lemma_tokens();
        lemma_skip_bounds(s, pos);
        lemma_skip_bounds(s, at + op.token@.len());
        lemma_infix_found(s, lhs, pos, k, rhs, end, j + 1);
    }
}

/// Where an operator stands with a space after it, the operators that the
/// grammar tries before it give way: they begin otherwise, or they are the
/// `>` of a `>=` or the `<` of a `<=`, after which no operand begins.
pub proof fn lemma_operators_give_way(s: Seq<char>, at: nat, k: nat)
    requires
        k < OPERATORS,
        stands(s, at, operator(k as int).token@),
        at + operator(k as int).token@.len() < s.len(),
        s[(at + operator(k as int).token@.len()) as int] == ' ',
    ensures
        forall|j: int| 0 <= j < k ==> gives_way(s, at, j),
{
    lemma_tokens();
    let mine = operator(k as int).token@;
    lemma_stands_index(s, at, mine, 0);
    if mine.len() == 2 {
        lemma_stands_index(s, at, mine, 1);
    }
    assert forall|j: int| 0 <= j < k implies gives_way(s, at, j) by {
        let other = operator(j).token@;
        if stands(s, at, other) {
            lemma_stands_index(s, at, other, 0);
            if other.len() == 2 {
                lemma_stands_index(s, at, other, 1);
            }
            assert((j == 5 && k == 6) || (j == 7 && k == 8));
            lemma_skip_none(s, at + 1);
            lemma_no_operand(s, at + 1, operator(j).right);
        }
    }
}

/// The two-operand case and the case of the sequence: where an operand in
/// parentheses stands, then an operator between spaces as the printer sets
/// them, then a right operand in parentheses, and nothing goes on after it,
/// the grammar reads the combination of the two.
pub proof fn lemma_reads_back_infix(
    s: Seq<char>,
    pos: nat,
    lhs: Term,
    mid: nat,
    k: nat,
    at: nat,
    rhs: Term,
    from: nat,
    end: nat,
)
    requires
        k < OPERATORS,
        operand(s, pos).0 == Some((lhs, mid)),
        pos < mid,
        at == skip(s, mid),
        stands(s, at, operator(k as int).token@),
        from == at + operator(k as int).token@.len() + 1,
        from < s.len(),
        s[from - 1] == ' ',
        !is_space(s[from as int]),
        operand(s, from).0 == Some((rhs, end)),
        from < end <= s.len(),
        stops(s, end),
    ensures
        expression(s, pos, 0).0 == Some((combine(operator(k as int).infix, lhs, rhs), end)),
{
    let op = operator(k as int);
    lemma_tokens();
    lemma_skip_bounds(s, mid);
    lemma_skip_one(s, (from - 1) as nat);
    lemma_operand_alone(s, from, rhs, end, op.right);
    lemma_operators_give_way(s, at, k);
    lemma_infix_found(s, lhs, mid, k, rhs, end, 0);
    lemma_climb_once(s, lhs, mid, 0, combine(op.infix, lhs, rhs), end);
}

/// The one-operand case: where `-` or `!` stands before an operand in
/// parentheses after which nothing goes on, the grammar reads the operator
/// on that operand.
pub proof fn lemma_reads_back_prefix(s: Seq<char>, pos: nat, op: UnaryOp, value: Term, end: nat)
    requires
        pos + 1 < s.len(),
        s[pos as int] == sign(op)[0],
        s[(pos + 1) as int] == '(',
        operand(s, pos + 1).0 == Some((value, end)),
        pos + 1 < end <= s.len(),
        stops(s, end),
    ensures
        expression(s, pos, 0).0 == Some((Term::Unary { op, value: Box::new(value) }, end)),
{
    reveal_strlit("-");
    reveal_strlit("!");
    lemma_operand_alone(s, pos + 1, value, end, TIGHTEST);
    assert(digits(s, pos + 1) == pos + 1);
    assert(digits(s, pos) == pos);
    assert(literal(s, pos).0 is None);
    assert(identifier(s, pos) is None);
    assert(assignment(s, pos).0 is None);
    let whole = Term::Unary { op, value: Box::new(value) };
    assert(prefixed(s, pos).0 == Some((whole, end)));
    assert(operand(s, pos).0 == Some((whole, end)));
    lemma_climb_stops(s, whole, end, 0);
}

/// The case of the assignment: where a name stands, then ` = `, then an
/// operand in parentheses after which nothing goes on, the grammar reads the
/// assignment of that operand to the name.
pub proof fn lemma_reads_back_assignment(
    s: Seq<char>,
    pos: nat,
    name: Seq<char>,
    value: Term,
    from: nat,
    end: nat,
)
    requires
        is_identifier(name),
        stands(s, pos, name),
        from == pos + name.len() + 3,
        from < s.len(),
        s[from - 3] == ' ',
        s[from - 2] == '=',
        s[from - 1] == ' ',
        s[from as int] == '(',
        operand(s, from).0 == Some((value, end)),
        from < end <= s.len(),
        stops(s, end),
    ensures
        expression(s, pos, 0).0 == Some(
            (Term::Assign { identifier: name, value: Box::new(value) }, end),
        ),
{
    reveal_strlit("=");
    let after = pos + name.len();
    lemma_stands_index(s, pos, name, 0);
    lemma_identifier_at(s, pos, name);
    lemma_skip_one(s, after);
    lemma_skip_one(s, after + 2);
    assert(stands(s, after + 1, "="@)) by {
        assert(s.subrange((after + 1) as int, (after + 2) as int) =~= "="@);
    }
    lemma_operand_alone(s, from, value, end, 1);
    assert(digits(s, pos) == pos);
    assert(literal(s, pos).0 is None);
    let whole = Term::Assign { identifier: name, value: Box::new(value) };
    assert(assignment(s, pos).0 == Some((whole, end)));
    assert(operand(s, pos).0 == Some((whole, end)));
    lemma_climb_stops(s, whole, end, 0);
}

/// The case of the call, once its arguments are read: where a name stands,
/// then `(`, then arguments that the grammar reads up to a `)`, and nothing
/// goes on after that, the grammar reads the call.
pub proof fn lemma_reads_back_call(
    s: Seq<char>,
    pos: nat,
    name: Seq<char>,
    args: Seq<Term>,
    close: nat,
)
    requires
        is_identifier(name),
        stands(s, pos, name),
        pos + name.len() < close < s.len(),
        s[(pos + name.len()) as int] == '(',
        arguments(s, pos + name.len() + 1).0 == (args, close),
        s[close as int] == ')',
        stops(s, close + 1),
    ensures
        expression(s, pos, 0).0 == Some((Term::Call { identifier: name, args }, close + 1)),
{
    reveal_strlit("=");
    reveal_strlit("(");
    reveal_strlit(")");
    let after = pos + name.len();
    lemma_stands_index(s, pos, name, 0);
    lemma_identifier_at(s, pos, name);
    lemma_skip_none(s, after);
    lemma_stands_not(s, after, "="@);
    assert(stands(s, after, "("@)) by {
        assert(s.subrange(after as int, (after + 1) as int) =~= "("@);
    }
    assert(stands(s, close, ")"@)) by {
        assert(s.subrange(close as int, (close + 1) as int) =~= ")"@);
    }
    assert(digits(s, pos) == pos);
    assert(literal(s, pos).0 is None);
    assert(assignment(s, pos).0 is None);
    assert(prefixed(s, pos).0 is None);
    let whole = Term::Call { identifier: name, args };
    assert(named(s, pos).0 == Some((whole, close + 1)));
    assert(operand(s, pos).0 == Some((whole, close + 1)));
    lemma_climb_stops(s, whole, close + 1, 0);
}

/// The texts of the terms from the `i`-th on, each in parentheses and after
/// `, `.
pub open spec fn rest(ts: Seq<Term>, i: nat) -> Seq<char>
    decreases ts.len() - i,
{
    if i >= ts.len() {
        Seq::empty()
    } else {
        ", "@ + wrapped(print(ts[i as int])) + rest(ts, i + 1)
    }
}

/// The rest of a sequence is the rest of the sequence without its last term,
/// and then the last term.
proof fn lemma_rest_last(ts: Seq<Term>, i: nat)
    requires
        i < ts.len(),
    ensures
        rest(ts, i) == rest(ts.drop_last(), i) + ", "@ + wrapped(print(ts.last())),
    decreases ts.len() - i,
{
    let short = ts.drop_last();
    if i + 1 < ts.len() {
        lemma_rest_last(ts, i + 1);
        assert(short[i as int] == ts[i as int]);
        assert(rest(ts, i) =~= rest(short, i) + ", "@ + wrapped(print(ts.last())));
    } else {
        assert(rest(ts, i + 1) =~= Seq::<char>::empty());
        assert(rest(short, i) =~= Seq::<char>::empty());
        assert(rest(ts, i) =~= rest(short, i) + ", "@ + wrapped(print(ts.last())));
    }
}

/// The text of a sequence of terms is the text of the first in parentheses
/// and the rest.
pub proof fn lemma_print_each_first(ts: Seq<Term>)
    requires
        ts.len() > 0,
    ensures
        print_each(ts) == wrapped(print(ts[0])) + rest(ts, 1),
    decreases ts.len(),
{
    if ts.len() == 1 {
        assert(rest(ts, 1) =~= Seq::<char>::empty());
        assert(print_each(ts) =~= wrapped(print(ts[0])) + rest(ts, 1));
    } else {
        let short = ts.drop_last();
        lemma_print_each_first(short);
        lemma_rest_last(ts, 1);
        assert(short[0] == ts[0]);
        assert(print_each(ts) =~= wrapped(print(ts[0])) + rest(ts, 1));
    }
}

/// Where the text of a well-formed term stands and nothing of an expression
/// goes on after it, the grammar reads the term, up to the end of the text.
pub proof fn lemma_reads_back(s: Seq<char>, pos: nat, t: Term)
    requires
        well_formed(t),
        stands(s, pos, print(t)),
        stops(s, pos + print(t).len()),
    ensures
        expression(s, pos, 0).0 == Some((t, pos + print(t).len())),
    decreases t, 1nat,
{
    match t {
        Term::Read { identifier } => {
            lemma_reads_back_name(s, pos, identifier);
        },
        Term::Const { text } => {
            lemma_reads_back_literal(s, pos, text);
        },
        Term::Chain { .. } => {
            lemma_case_chain(s, pos, t);
        },
        Term::Call { .. } => {
            lemma_case_call(s, pos, t);
        },
        Term::Binary { .. } => {
            lemma_case_binary(s, pos, t);
        },
        Term::Unary { .. } => {
            lemma_case_unary(s, pos, t);
        },
        Term::Assign { .. } => {
            lemma_case_assign(s, pos, t);
        },
    }
}

/// `lemma_reads_back`, for the sequence.
proof fn lemma_case_chain(s: Seq<char>, pos: nat, t: Term)
    requires
        t is Chain,
        well_formed(t),
        stands(s, pos, print(t)),
        stops(s, pos + print(t).len()),
    ensures
        expression(s, pos, 0).0 == Some((t, pos + print(t).len())),
    decreases t, 0nat,
{
    reveal_strlit("(");
    reveal_strlit(")");
    reveal_strlit(" ");
    reveal_strlit("; ");
    reveal_strlit(", ");
    reveal_strlit(" = ");
    reveal_strlit("-");
    reveal_strlit("!");
    match t {
        Term::Chain { side, ret } => {

        let left = wrapped(print(*side));
        let right = wrapped(print(*ret));
        lemma_stands_concat(s, pos, left + "; "@, right);
        lemma_stands_concat(s, pos, left, "; "@);
        let mid = pos + left.len();
        let from = mid + 2;
        lemma_stands_index(s, mid, "; "@, 0);
        lemma_stands_index(s, mid, "; "@, 1);
        lemma_reads_back_wrapped(s, pos, *side);
        lemma_reads_back_wrapped(s, from, *ret);
        lemma_wrapped_at(s, pos, print(*side));
        lemma_wrapped_at(s, from, print(*ret));
        lemma_tokens();
        lemma_skip_none(s, mid);
        assert(stands(s, mid, operator(0).token@)) by {
            assert(s.subrange(mid as int, (mid + 1) as int) =~= operator(0).token@);
        }
        lemma_reads_back_infix(s, pos, *side, mid, 0, mid, *ret, from, from + right.len());
        },
        _ => {},
    }
}

/// `lemma_reads_back`, for the call.
proof fn lemma_case_call(s: Seq<char>, pos: nat, t: Term)
    requires
        t is Call,
        well_formed(t),
        stands(s, pos, print(t)),
        stops(s, pos + print(t).len()),
    ensures
        expression(s, pos, 0).0 == Some((t, pos + print(t).len())),
    decreases t, 0nat,
{
    reveal_strlit("(");
    reveal_strlit(")");
    reveal_strlit(" ");
    reveal_strlit("; ");
    reveal_strlit(", ");
    reveal_strlit(" = ");
    reveal_strlit("-");
    reveal_strlit("!");
    match t {
        Term::Call { identifier, args } => {

        let open = pos + identifier.len();
        let list = print_each(args);
        lemma_stands_concat(s, pos, identifier + "("@ + list, ")"@);
        lemma_stands_concat(s, pos, identifier + "("@, list);
        lemma_stands_concat(s, pos, identifier, "("@);
        lemma_stands_index(s, open, "("@, 0);
        let close = open + 1 + list.len();
        lemma_stands_index(s, close, ")"@, 0);
        if args.len() == 0 {
            lemma_skip_none(s, open + 1);
            lemma_no_operand(s, open + 1, 0);
            assert(argument(s, open + 1).0 is None);
            assert(arguments(s, open + 1).0 == (Seq::<Term>::empty(), open + 1));
            assert(args =~= Seq::<Term>::empty());
        } else {
            lemma_print_each_first(args);
            let first = wrapped(print(args[0]));
            lemma_stands_concat(s, open + 1, first, rest(args, 1));
            let after = open + 1 + first.len();
            lemma_reads_back_wrapped(s, open + 1, args[0]);
            lemma_wrapped_at(s, open + 1, print(args[0]));
            assert(stands(s, after, rest(args, 1) + ")"@)) by {
                lemma_stands_concat(s, after, rest(args, 1), ")"@);
            }
            lemma_rest_begins(s, after, args, 1);
            lemma_operand_alone(s, open + 1, args[0], after, 0);
            lemma_skip_none(s, open + 1);
            lemma_skip_none(s, after);
            assert(argument(s, open + 1).0 == Some((args[0], after)));
            assert(seq![args[0]] =~= args.take(1));
            lemma_reads_back_rest(s, after, args, 1);
            assert(arguments(s, open + 1).0 == (args, close));
        }
        lemma_reads_back_call(s, pos, identifier, args, close);
        },
        _ => {},
    }
}

/// `lemma_reads_back`, for the two-operand operator.
proof fn lemma_case_binary(s: Seq<char>, pos: nat, t: Term)
    requires
        t is Binary,
        well_formed(t),
        stands(s, pos, print(t)),
        stops(s, pos + print(t).len()),
    ensures
        expression(s, pos, 0).0 == Some((t, pos + print(t).len())),
    decreases t, 0nat,
{
    reveal_strlit("(");
    reveal_strlit(")");
    reveal_strlit(" ");
    reveal_strlit("; ");
    reveal_strlit(", ");
    reveal_strlit(" = ");
    reveal_strlit("-");
    reveal_strlit("!");
    match t {
        Term::Binary { op, lhs, rhs } => {

        let left = wrapped(print(*lhs));
        let right = wrapped(print(*rhs));
        lemma_stands_concat(s, pos, left + " "@ + token(op) + " "@, right);
        lemma_stands_concat(s, pos, left + " "@ + token(op), " "@);
        lemma_stands_concat(s, pos, left + " "@, token(op));
        lemma_stands_concat(s, pos, left, " "@);
        let mid = pos + left.len();
        let at = mid + 1;
        let from = at + token(op).len() + 1;
        lemma_stands_index(s, mid, " "@, 0);
        lemma_stands_index(s, (from - 1) as nat, " "@, 0);
        lemma_reads_back_wrapped(s, pos, *lhs);
        lemma_reads_back_wrapped(s, from, *rhs);
        lemma_wrapped_at(s, pos, print(*lhs));
        lemma_wrapped_at(s, from, print(*rhs));
        lemma_tokens();
        let k = index_of(op);
        lemma_index_of(op);
        lemma_stands_index(s, at, token(op), 0);
        lemma_skip_one(s, mid);
        lemma_reads_back_infix(s, pos, *lhs, mid, k, at, *rhs, from, from + right.len());
        },
        _ => {},
    }
}

/// `lemma_reads_back`, for the one-operand operator.
proof fn lemma_case_unary(s: Seq<char>, pos: nat, t: Term)
    requires
        t is Unary,
        well_formed(t),
        stands(s, pos, print(t)),
        stops(s, pos + print(t).len()),
    ensures
        expression(s, pos, 0).0 == Some((t, pos + print(t).len())),
    decreases t, 0nat,
{
    reveal_strlit("(");
    reveal_strlit(")");
    reveal_strlit(" ");
    reveal_strlit("; ");
    reveal_strlit(", ");
    reveal_strlit(" = ");
    reveal_strlit("-");
    reveal_strlit("!");
    match t {
        Term::Unary { op, value } => {

        let inner = wrapped(print(*value));
        lemma_stands_concat(s, pos, sign(op), inner);
        lemma_stands_index(s, pos, sign(op), 0);
        lemma_reads_back_wrapped(s, pos + 1, *value);
        lemma_wrapped_at(s, pos + 1, print(*value));
        lemma_reads_back_prefix(s, pos, op, *value, pos + 1 + inner.len());
        },
        _ => {},
    }
}

/// `lemma_reads_back`, for the assignment.
proof fn lemma_case_assign(s: Seq<char>, pos: nat, t: Term)
    requires
        t is Assign,
        well_formed(t),
        stands(s, pos, print(t)),
        stops(s, pos + print(t).len()),
    ensures
        expression(s, pos, 0).0 == Some((t, pos + print(t).len())),
    decreases t, 0nat,
{
    reveal_strlit("(");
    reveal_strlit(")");
    reveal_strlit(" ");
    reveal_strlit("; ");
    reveal_strlit(", ");
    reveal_strlit(" = ");
    reveal_strlit("-");
    reveal_strlit("!");
    match t {
        Term::Assign { identifier, value } => {

        let inner = wrapped(print(*value));
        lemma_stands_concat(s, pos, identifier + " = "@, inner);
        lemma_stands_concat(s, pos, identifier, " = "@);
        let after = pos + identifier.len();
        let from = after + 3;
        lemma_stands_index(s, after, " = "@, 0);
        lemma_stands_index(s, after, " = "@, 1);
        lemma_stands_index(s, after, " = "@, 2);
        lemma_reads_back_wrapped(s, from, *value);
        lemma_wrapped_at(s, from, print(*value));
        lemma_reads_back_assignment(s, pos, identifier, *value, from, from + inner.len());
        },
        _ => {},
    }
}

/// The place of a two-operand operator among the infix operators.
pub open spec fn index_of(op: BinaryOp) -> nat {
    match op {
        BinaryOp::And => 1,
        BinaryOp::Or => 2,
        BinaryOp::Eq => 3,
        BinaryOp::Neq => 4,
        BinaryOp::Gt => 5,
        BinaryOp::Geq => 6,
        BinaryOp::Lt => 7,
        BinaryOp::Leq => 8,
        BinaryOp::Add => 9,
        BinaryOp::Sub => 10,
        BinaryOp::Mul => 11,
        BinaryOp::Div => 12,
        BinaryOp::Mod => 13,
        BinaryOp::Exp => 14,
    }
}

/// The operator at the place of a two-operand operator is that operator,
/// with the text that the printer gives it.
pub proof fn lemma_index_of(op: BinaryOp)
    ensures
        index_of(op) < OPERATORS,
        operator(index_of(op) as int).token@ == token(op),
        operator(index_of(op) as int).infix == Infix::Binary(op),
        token(op).len() > 0,
        !is_space(token(op)[0]),
{
    lemma_tokens();
}

/// After an argument, a `,` or a `)` stands.
proof fn lemma_rest_begins(s: Seq<char>, pos: nat, ts: Seq<Term>, i: nat)
    requires
        stands(s, pos, rest(ts, i) + ")"@),
    ensures
        pos < s.len(),
        s[pos as int] == ',' || s[pos as int] == ')',
        i >= ts.len() ==> s[pos as int] == ')',
        i < ts.len() ==> s[pos as int] == ',',
{
    reveal_strlit(")");
    reveal_strlit(", ");
    if i >= ts.len() {
        assert(rest(ts, i) + ")"@ =~= ")"@);
        lemma_stands_index(s, pos, ")"@, 0);
    } else {
        let text = rest(ts, i) + ")"@;
        assert(text[0] == ',');
        lemma_stands_index(s, pos, text, 0);
    }
}

/// Where the text of a well-formed term stands in parentheses, the grammar
/// reads the term as an operand.
pub proof fn lemma_reads_back_wrapped(s: Seq<char>, pos: nat, t: Term)
    requires
        well_formed(t),
        stands(s, pos, wrapped(print(t))),
    ensures
        operand(s, pos).0 == Some((t, pos + wrapped(print(t)).len())),
    decreases t, 2nat,
{
    lemma_wrapped_at(s, pos, print(t));
    lemma_print_begins(t);
    lemma_stands_index(s, pos + 1, print(t), 0);
    lemma_reads_back(s, pos + 1, t);
    lemma_parenthesized(s, pos, t, pos + 1 + print(t).len());
}

/// Where the arguments of a call from the `i`-th on stand, each after `, `
/// and in parentheses, and a `)` after them, the grammar reads them after
/// those before them.
pub proof fn lemma_reads_back_rest(s: Seq<char>, pos: nat, ts: Seq<Term>, i: nat)
    requires
        forall|j: int| 0 <= j < ts.len() ==> well_formed(#[trigger] ts[j]),
        1 <= i <= ts.len(),
        stands(s, pos, rest(ts, i) + ")"@),
    ensures
        further(s, ts.take(i as int), pos).0 == (ts, pos + rest(ts, i).len()),
    decreases ts, ts.len() - i,
{
    reveal_strlit(")");
    reveal_strlit(",");
    reveal_strlit(", ");
    lemma_rest_begins(s, pos, ts, i);
    if i >= ts.len() {
        assert(ts.take(i as int) =~= ts);
        assert(rest(ts, i) =~= Seq::<char>::empty());
        lemma_stands_not(s, pos, ","@);
    } else {
        let item = wrapped(print(ts[i as int]));
        let tail = rest(ts, i + 1);
        assert(rest(ts, i) + ")"@ =~= ", "@ + (item + (tail + ")"@)));
        lemma_stands_concat(s, pos, ", "@, item + (tail + ")"@));
        lemma_stands_concat(s, pos + 2, item, tail + ")"@);
        lemma_stands_index(s, pos, ", "@, 0);
        lemma_stands_index(s, pos, ", "@, 1);
        let after = pos + 2 + item.len();
        assert(well_formed(ts[i as int]));
        lemma_reads_back_wrapped(s, pos + 2, ts[i as int]);
        lemma_wrapped_at(s, pos + 2, print(ts[i as int]));
        lemma_rest_begins(s, after, ts, i + 1);
        lemma_operand_alone(s, pos + 2, ts[i as int], after, 0);
        lemma_skip_one(s, pos + 1);
        lemma_skip_none(s, after);
        assert(stands(s, pos, ","@)) by {
            assert(s.subrange(pos as int, (pos + 1) as int) =~= ","@);
        }
        assert(argument(s, pos + 1).0 == Some((ts[i as int], after)));
        assert(ts.take(i as int).push(ts[i as int]) =~= ts.take((i + 1) as int));
        lemma_reads_back_rest(s, after, ts, i + 1);
        assert(rest(ts, i).len() == 2 + item.len() + tail.len());
    }
}

/// The text of a well-formed term reads as the term.
pub proof fn lemma_print_then_parse(t: Term)
    requires
        well_formed(t),
    ensures
        parse(print(t)) == Parsed::Expression(t),
{
    let s = print(t);
    assert(stands(s, 0, s)) by {
        assert(s.subrange(0, s.len() as int) =~= s);
    }
    lemma_reads_back(s, 0, t);
}

/// The scan of the parts of an identifier goes over parts only.
proof fn lemma_parts_are_parts(s: Seq<char>, pos: nat, i: int)
    requires
        pos <= i < parts(s, pos),
    ensures
        i < s.len(),
        is_part(s[i]),
    decreases s.len() - pos,
{
    if pos < s.len() && is_part(s[pos as int]) {
        if i > pos {
            lemma_parts_are_parts(s, pos + 1, i);
        }
    }
}

/// The scan of the parts of an identifier ends within the text.
proof fn lemma_parts_bounds(s: Seq<char>, pos: nat)
    requires
        pos <= s.len(),
    ensures
        pos <= parts(s, pos) <= s.len(),
    decreases s.len() - pos,
{
    if pos < s.len() && is_part(s[pos as int]) {
        lemma_parts_bounds(s, pos + 1);
    }
}

/// The scan of digits ends within the text, at what is no digit.
proof fn lemma_digits_bounds(s: Seq<char>, pos: nat)
    requires
        pos <= s.len(),
    ensures
        pos <= digits(s, pos) <= s.len(),
        digits(s, pos) == s.len() || !is_digit(s[digits(s, pos) as int]),
    decreases s.len() - pos,
{
    if pos < s.len() && is_digit(s[pos as int]) {
        lemma_digits_bounds(s, pos + 1);
    }
}

/// What the grammar takes for an identifier is one.
pub proof fn lemma_identifier_found(s: Seq<char>, pos: nat)
    requires
        identifier(s, pos) is Some,
    ensures
        pos < identifier(s, pos)->0 <= s.len(),
        is_identifier(s.subrange(pos as int, identifier(s, pos)->0 as int)),
{
    let end = parts(s, pos + 1);
    lemma_parts_bounds(s, pos + 1);
    let name = s.subrange(pos as int, end as int);
    assert forall|i: int| 1 <= i < name.len() implies is_part(#[trigger] name[i]) by {
        lemma_parts_are_parts(s, pos + 1, pos + i);
    }
}

/// What the grammar takes for a literal is one.
pub proof fn lemma_literal_found(s: Seq<char>, pos: nat)
    requires
        pos <= s.len(),
        literal(s, pos).0 is Some,
    ensures
        pos < literal(s, pos).0->0 <= s.len(),
        is_literal(s.subrange(pos as int, literal(s, pos).0->0 as int)),
{
    let end = literal(s, pos).0->0;
    let first = if pos < s.len() && s[pos as int] == '-' {
        pos + 1
    } else {
        pos
    };
    lemma_digits_bounds(s, first);
    let whole = digits(s, first);
    if whole < s.len() && s[whole as int] == '.' {
        lemma_digits_bounds(s, whole + 1);
    }
    let text = s.subrange(pos as int, end as int);
    assert(stands(s, pos, text));
    lemma_digits_within(s, pos, text, (first - pos) as nat);
    if whole < s.len() && s[whole as int] == '.' {
        lemma_digits_within(s, pos, text, (whole + 1 - pos) as nat);
    }
}

/// Every expression that the grammar reads is well-formed.
pub proof fn lemma_expression_well_formed(s: Seq<char>, pos: nat, min: u8)
    requires
        pos <= s.len(),
    ensures
        expression(s, pos, min).0 matches Some((t, _)) ==> well_formed(t),
    decreases s.len() - pos, 3nat, 0nat,
{
    lemma_operand_well_formed(s, pos);
    match operand(s, pos) {
        (Some((lhs, end)), _) => {
            if pos < end <= s.len() {
                lemma_climb_well_formed(s, lhs, end, min);
            }
        },
        (None, _) => {},
    }
}

/// Whether the term that a climb gave is well-formed.
pub open spec fn climbed(r: ((Term, nat), Marks)) -> bool {
    let found = r.0;
    well_formed(found.0)
}

/// `lemma_expression_well_formed`, for an expression with the operators
/// after it.
proof fn lemma_climb_well_formed(s: Seq<char>, lhs: Term, pos: nat, min: u8)
    requires
        pos <= s.len(),
        well_formed(lhs),
    ensures
        climbed(climb(s, lhs, pos, min)),
    decreases s.len() - pos, 1nat, 0nat,
{
    lemma_infix_well_formed(s, lhs, pos, min, 0);
    match infix(s, lhs, pos, min, 0) {
        (Some((node, end)), _) => {
            if pos < end <= s.len() {
                lemma_climb_well_formed(s, node, end, min);
            }
        },
        (None, _) => {},
    }
}

/// `lemma_expression_well_formed`, for one infix operator.
proof fn lemma_infix_well_formed(s: Seq<char>, lhs: Term, pos: nat, min: u8, k: nat)
    requires
        pos <= s.len(),
        well_formed(lhs),
    ensures
        infix(s, lhs, pos, min, k).0 matches Some((t, _)) ==> well_formed(t),
    decreases s.len() - pos, 0nat, OPERATORS - k,
{
    if k < OPERATORS {
        let op = operator(k as int);
        let at = skip(s, pos);
        lemma_infix_well_formed(s, lhs, pos, min, k + 1);
        if op.level >= min && stands(s, at, op.token@) {
            let from = skip(s, at + op.token@.len());
            if pos < from <= s.len() {
                lemma_expression_well_formed(s, from, op.right);
            }
        }
    }
}

/// `lemma_expression_well_formed`, for an operand.
proof fn lemma_operand_well_formed(s: Seq<char>, pos: nat)
    requires
        pos <= s.len(),
    ensures
        operand(s, pos).0 matches Some((t, _)) ==> well_formed(t),
    decreases s.len() - pos, 2nat, 0nat,
{
    if literal(s, pos).0 is Some {
        lemma_literal_found(s, pos);
    } else {
        lemma_assignment_well_formed(s, pos);
        lemma_prefixed_well_formed(s, pos);
        lemma_named_well_formed(s, pos);
    }
}

/// `lemma_expression_well_formed`, for an assignment.
proof fn lemma_assignment_well_formed(s: Seq<char>, pos: nat)
    requires
        pos <= s.len(),
    ensures
        assignment(s, pos).0 matches Some((t, _)) ==> well_formed(t),
    decreases s.len() - pos, 1nat, 0nat,
{
    if identifier(s, pos) is Some {
        lemma_identifier_found(s, pos);
        let end = identifier(s, pos)->0;
        let at = skip(s, end);
        if stands(s, at, "="@) {
            let from = skip(s, at + 1);
            if pos < from <= s.len() {
                lemma_expression_well_formed(s, from, 1);
            }
        }
    }
}

/// `lemma_expression_well_formed`, for an operand with a prefix.
proof fn lemma_prefixed_well_formed(s: Seq<char>, pos: nat)
    requires
        pos <= s.len(),
    ensures
        prefixed(s, pos).0 matches Some((t, _)) ==> well_formed(t),
    decreases s.len() - pos, 1nat, 0nat,
{
    if pos < s.len() && (s[pos as int] == '!' || s[pos as int] == '-') {
        lemma_expression_well_formed(s, pos + 1, TIGHTEST);
    } else if pos < s.len() && s[pos as int] == '(' {
        let from = skip(s, pos + 1);
        if pos < from <= s.len() {
            lemma_expression_well_formed(s, from, 0);
        }
    }
}

/// `lemma_expression_well_formed`, for a call and for a name.
proof fn lemma_named_well_formed(s: Seq<char>, pos: nat)
    requires
        pos <= s.len(),
    ensures
        named(s, pos).0 matches Some((t, _)) ==> well_formed(t),
    decreases s.len() - pos, 1nat, 0nat,
{
    if identifier(s, pos) is Some {
        lemma_identifier_found(s, pos);
        let end = identifier(s, pos)->0;
        let at = skip(s, end);
        if stands(s, at, "("@) {
            if pos < at + 1 <= s.len() {
                lemma_arguments_well_formed(s, at + 1);
                let read = arguments(s, at + 1).0;
                let args = read.0;
                assert(each_well_formed(args));
            }
        }
    }
}

/// Whether each term of a sequence is well-formed.
pub open spec fn each_well_formed(ts: Seq<Term>) -> bool {
    forall|i: int| 0 <= i < ts.len() ==> well_formed(#[trigger] ts[i])
}

/// The terms that were read as arguments.
pub open spec fn read_arguments(r: ((Seq<Term>, nat), Marks)) -> Seq<Term> {
    let found = r.0;
    found.0
}

/// `lemma_expression_well_formed`, for the arguments of a call.
proof fn lemma_arguments_well_formed(s: Seq<char>, pos: nat)
    requires
        pos <= s.len(),
    ensures
        each_well_formed(read_arguments(arguments(s, pos))),
    decreases s.len() - pos, 5nat, 0nat,
{
    lemma_argument_well_formed(s, pos);
    match argument(s, pos) {
        (Some((first, end)), _) => {
            if pos < end <= s.len() {
                assert(each_well_formed(seq![first]));
                lemma_further_well_formed(s, seq![first], end);
            }
        },
        (None, _) => {},
    }
}

/// `lemma_expression_well_formed`, for one argument.
proof fn lemma_argument_well_formed(s: Seq<char>, pos: nat)
    requires
        pos <= s.len(),
    ensures
        argument(s, pos).0 matches Some((t, _)) ==> well_formed(t),
    decreases s.len() - pos, 4nat, 0nat,
{
    let from = skip(s, pos);
    if pos <= from <= s.len() {
        lemma_expression_well_formed(s, from, 0);
    }
}

/// `lemma_expression_well_formed`, for the arguments after the first.
proof fn lemma_further_well_formed(s: Seq<char>, found: Seq<Term>, pos: nat)
    requires
        pos <= s.len(),
        each_well_formed(found),
    ensures
        each_well_formed(read_arguments(further(s, found, pos))),
    decreases s.len() - pos, 6nat, 0nat,
{
    if pos < s.len() && stands(s, pos, ","@) {
        lemma_argument_well_formed(s, pos + 1);
        match argument(s, pos + 1) {
            (Some((next, end)), _) => {
                if pos < end <= s.len() {
                    assert(each_well_formed(found.push(next))) by {
                        assert forall|i: int| 0 <= i < found.push(next).len() implies well_formed(
                            #[trigger] found.push(next)[i],
                        ) by {
                            if i < found.len() {
                                assert(found.push(next)[i] == found[i]);
                            }
                        }
                    }
                    lemma_further_well_formed(s, found.push(next), end);
                }
            },
            (None, _) => {},
        }
    }
}

/// An expression that was read from a text is read again from the text that
/// the printer gives it: the two readings are the same expression, whatever
/// parentheses and whitespace the first text had.
pub proof fn lemma_round_trip(s: Seq<char>)
    ensures
        parse(s) matches Parsed::Expression(t) ==> parse(print(t)) == Parsed::Expression(t),
{
    lemma_expression_well_formed(s, 0, 0);
    if let Parsed::Expression(t) = parse(s) {
        lemma_print_then_parse(t);
    }
}

} // verus!
