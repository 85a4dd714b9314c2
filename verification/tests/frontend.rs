use anita::jit::frontend::ast::Expr;
use anita::jit::frontend::grammar::Token;
use anita::jit::frontend::parser::expression;

/// What the parser looks for where an operand must begin.
const OPERAND: [&str; 5] = ["\"-\"", "\"!\"", "\"(\"", "['0'..='9']", "identifier"];

/// The infix operators, as the parser looks for them after an operand.
const INFIX: [&str; 15] = [
    "\";\"", "\"&&\"", "\"||\"", "\"==\"", "\"!=\"", "\">\"", "\">=\"", "\"<\"", "\"<=\"", "\"+\"",
    "\"-\"", "\"*\"", "\"/\"", "\"%\"", "\"^\"",
];

/// The line, the column and the offset at which `input` fails to be an
/// expression, and what the parser looked for there.
fn failure(input: &str) -> (usize, usize, usize, Vec<&'static str>) {
    let error = expression(input).unwrap_err();
    let expected = error.expected.tokens().into_iter().map(Token::text).collect();
    (error.line, error.column, error.offset, expected)
}

/// The infix operators and `more`, in the order of the tokens.
fn infix_and(more: &[&'static str]) -> Vec<&'static str> {
    let mut all = INFIX.to_vec();
    all.extend_from_slice(more);
    all
}

fn read(name: &str) -> Box<Expr> {
    Box::new(Expr::VariableRead { identifier: name.to_string() })
}

fn number(text: &str) -> Box<Expr> {
    Box::new(Expr::Const { value: text.to_string() })
}

#[test]
fn a_name_is_a_variable_read() {
    assert_eq!(expression("x"), Ok(*read("x")));
    assert_eq!(expression("_a1"), Ok(*read("_a1")));
}

#[test]
fn a_literal_keeps_its_text() {
    assert_eq!(expression("2"), Ok(*number("2")));
    assert_eq!(expression("1.50"), Ok(*number("1.50")));
    assert_eq!(expression("-3."), Ok(*number("-3.")));
}

#[test]
fn a_minus_before_a_digit_belongs_to_the_literal() {
    assert_eq!(expression("-1"), Ok(*number("-1")));
    assert_eq!(expression("-x"), Ok(Expr::Neg { value: read("x") }));
    assert_eq!(
        expression("2 - -1"),
        Ok(Expr::Sub { lhs: number("2"), rhs: number("-1") })
    );
}

#[test]
fn the_product_binds_tighter_than_the_sum() {
    assert_eq!(
        expression("a + b * c"),
        Ok(Expr::Add {
            lhs: read("a"),
            rhs: Box::new(Expr::Mul { lhs: read("b"), rhs: read("c") }),
        })
    );
}

#[test]
fn the_power_shares_the_level_of_the_product() {
    assert_eq!(
        expression("8 * x ^ 2"),
        Ok(Expr::Exp {
            lhs: Box::new(Expr::Mul { lhs: number("8"), rhs: read("x") }),
            rhs: number("2"),
        })
    );
}

#[test]
fn infix_operators_group_to_the_left() {
    assert_eq!(
        expression("a - b - c"),
        Ok(Expr::Sub {
            lhs: Box::new(Expr::Sub { lhs: read("a"), rhs: read("b") }),
            rhs: read("c"),
        })
    );
}

#[test]
fn sequences_group_to_the_right() {
    assert_eq!(
        expression("y = 2; z = 2; x + y + z"),
        Ok(Expr::Chain {
            side: Box::new(Expr::Assign { identifier: "y".to_string(), value: number("2") }),
            ret: Box::new(Expr::Chain {
                side: Box::new(Expr::Assign { identifier: "z".to_string(), value: number("2") }),
                ret: Box::new(Expr::Add {
                    lhs: Box::new(Expr::Add { lhs: read("x"), rhs: read("y") }),
                    rhs: read("z"),
                }),
            }),
        })
    );
}

#[test]
fn an_assignment_takes_everything_but_a_sequence() {
    assert_eq!(
        expression("a = b == c"),
        Ok(Expr::Assign {
            identifier: "a".to_string(),
            value: Box::new(Expr::Eq { lhs: read("b"), rhs: read("c") }),
        })
    );
    assert_eq!(
        expression("a = b = c"),
        Ok(Expr::Assign {
            identifier: "a".to_string(),
            value: Box::new(Expr::Assign { identifier: "b".to_string(), value: read("c") }),
        })
    );
}

#[test]
fn comparisons_are_told_apart() {
    assert_eq!(expression("a == b"), Ok(Expr::Eq { lhs: read("a"), rhs: read("b") }));
    assert_eq!(expression("a != b"), Ok(Expr::Neq { lhs: read("a"), rhs: read("b") }));
    assert_eq!(expression("a > b"), Ok(Expr::Gt { lhs: read("a"), rhs: read("b") }));
    assert_eq!(expression("a >= b"), Ok(Expr::Geq { lhs: read("a"), rhs: read("b") }));
    assert_eq!(expression("a < b"), Ok(Expr::Lt { lhs: read("a"), rhs: read("b") }));
    assert_eq!(expression("a <= b"), Ok(Expr::Leq { lhs: read("a"), rhs: read("b") }));
}

#[test]
fn logic_binds_looser_than_comparison() {
    assert_eq!(
        expression("a < b && !c || d"),
        Ok(Expr::Or {
            lhs: Box::new(Expr::And {
                lhs: Box::new(Expr::Lt { lhs: read("a"), rhs: read("b") }),
                rhs: Box::new(Expr::Not { value: read("c") }),
            }),
            rhs: read("d"),
        })
    );
}

#[test]
fn the_remaining_arithmetic_operators() {
    assert_eq!(expression("a / b"), Ok(Expr::Div { lhs: read("a"), rhs: read("b") }));
    assert_eq!(expression("a % b"), Ok(Expr::Mod { lhs: read("a"), rhs: read("b") }));
}

#[test]
fn parentheses_group() {
    assert_eq!(
        expression("( a + b ) * c"),
        Ok(Expr::Mul {
            lhs: Box::new(Expr::Add { lhs: read("a"), rhs: read("b") }),
            rhs: read("c"),
        })
    );
}

#[test]
fn a_prefix_takes_one_operand() {
    assert_eq!(
        expression("!a + b"),
        Ok(Expr::Add { lhs: Box::new(Expr::Not { value: read("a") }), rhs: read("b") })
    );
    assert_eq!(
        expression("--a"),
        Ok(Expr::Neg { value: Box::new(Expr::Neg { value: read("a") }) })
    );
}

#[test]
fn calls_take_their_arguments_in_order() {
    assert_eq!(
        expression("f()"),
        Ok(Expr::Call { identifier: "f".to_string(), args: vec![] })
    );
    assert_eq!(
        expression("if(is_normal(x), x, 0.0)"),
        Ok(Expr::Call {
            identifier: "if".to_string(),
            args: vec![
                Expr::Call { identifier: "is_normal".to_string(), args: vec![*read("x")] },
                *read("x"),
                *number("0.0"),
            ],
        })
    );
    assert_eq!(
        expression("tanh(a * x^3) + b * sin(c * x)"),
        Ok(Expr::Add {
            lhs: Box::new(Expr::Call {
                identifier: "tanh".to_string(),
                args: vec![Expr::Exp {
                    lhs: Box::new(Expr::Mul { lhs: read("a"), rhs: read("x") }),
                    rhs: number("3"),
                }],
            }),
            rhs: Box::new(Expr::Mul {
                lhs: read("b"),
                rhs: Box::new(Expr::Call {
                    identifier: "sin".to_string(),
                    args: vec![Expr::Mul { lhs: read("c"), rhs: read("x") }],
                }),
            }),
        })
    );
}

#[test]
fn whitespace_stands_between_tokens_only() {
    assert_eq!(expression("x\t+  y"), Ok(Expr::Add { lhs: read("x"), rhs: read("y") }));
    assert_eq!(failure("x  "), (1, 4, 3, infix_and(&["\"=\"", "\"(\""])));
    assert_eq!(failure(" x"), (1, 1, 0, OPERAND.to_vec()));
    assert_eq!(failure("! x"), (1, 2, 1, OPERAND.to_vec()));
    assert_eq!(failure("f( )"), (1, 4, 3, OPERAND.to_vec()));
}

#[test]
fn the_empty_text_is_no_expression() {
    assert_eq!(failure(""), (1, 1, 0, OPERAND.to_vec()));
}

#[test]
fn an_error_is_where_the_reading_stopped() {
    assert_eq!(failure("12 +"), (1, 5, 4, OPERAND.to_vec()));
    assert_eq!(
        failure("a + (b * 2"),
        (1, 11, 10, infix_and(&["\")\"", "\".\"", "['0'..='9']"]))
    );
    assert_eq!(failure("f(x,)"), (1, 5, 4, OPERAND.to_vec()));
    assert_eq!(failure("a $ b"), (1, 3, 2, infix_and(&["\"=\"", "\"(\""])));
    assert_eq!(
        failure("f(x y)"),
        (1, 5, 4, infix_and(&["\"=\"", "\"(\"", "\")\"", "\",\""]))
    );
    assert_eq!(failure("1.5x"), (1, 4, 3, infix_and(&["['0'..='9']", "EOF"])));
}

#[test]
fn a_line_break_is_no_whitespace() {
    assert_eq!(failure("a\n+ b"), (1, 2, 1, infix_and(&["\"=\"", "\"(\"", "EOF"])));
}

#[test]
fn an_expected_token_is_found_by_its_name() {
    let error = expression("(x").unwrap_err();
    assert_eq!(error.offset, 2);
    assert!(error.expected.contains(Token::Close));
    assert!(error.expected.contains(Token::Plus));
    assert!(!error.expected.contains(Token::End));
    assert!(!error.expected.contains(Token::Identifier));
    for (place, token) in error.expected.tokens().into_iter().enumerate() {
        assert!(token.index() as usize >= place);
        assert_eq!(Token::at(token.index()), token);
    }
}

#[test]
fn the_text_of_an_expression_sets_every_operand_in_parentheses() {
    let text = |input: &str| expression(input).unwrap().to_string();
    assert_eq!(text("x"), "x");
    assert_eq!(text("-1.5"), "-1.5");
    assert_eq!(text("a+b*c"), "(a) + ((b) * (c))");
    assert_eq!(text("(a+b)*c"), "((a) + (b)) * (c)");
    assert_eq!(text("-x"), "-(x)");
    assert_eq!(text("!x"), "!(x)");
    assert_eq!(text("y = 2; y"), "(y = (2)); (y)");
    assert_eq!(text("f()"), "f()");
    assert_eq!(text("f(x)"), "f((x))");
    assert_eq!(text("f(x, 1 , g(y))"), "f((x), (1), (g((y))))");
    assert_eq!(text("a >= b"), "(a) >= (b)");
    assert_eq!(text("a || b && c"), "((a) || (b)) && (c)");
}

#[test]
fn the_text_of_an_expression_reads_as_the_expression() {
    for input in [
        "x",
        "12",
        "-0.5",
        "-x",
        "--x",
        "!-x",
        "a + b * c - d / e % f ^ g",
        "a == b",
        "a != b",
        "a > b",
        "a >= b",
        "a < b",
        "a <= b",
        "a && b || c",
        "y = 2; z = y = 3; x + y + z",
        "(a; b); c",
        "f()",
        "f(x)",
        "if(is_normal(x), x, 0.0)",
        "tanh(a * x^3) + b * sin(c * x)",
        "a == b = c",
        "!y = 3",
        "2 - -1",
        "f(a = 1, (b; c))",
    ] {
        let first = expression(input).unwrap();
        let again = expression(&first.to_string());
        assert_eq!(again, Ok(first));
    }
}
