use arithma_core::expression::ArithmaExpression as E;
use arithma_core::function::ArithmaFunction;
use arithma_core::parse::free_variables;
use arithma_core::parse::grammar::call_target;
use arithma_core::parse::{lex, ParseError, Token};

fn kinds(text: &str) -> Vec<Token> {
    lex(text).expect("lexes").into_iter().map(|(t, _)| t).collect()
}

#[test]
fn operators_and_offsets() {
    let toks = lex("1 + 2*x").unwrap();
    assert_eq!(
        toks,
        vec![
            (Token::Number { start: 0, end: 1 }, 0),
            (Token::Plus, 2),
            (Token::Number { start: 4, end: 5 }, 4),
            (Token::Star, 5),
            (Token::Name { start: 6, end: 7 }, 6),
        ]
    );
}

#[test]
fn lexer_reads_every_number_spelling() {
    assert_eq!(kinds("42"), vec![Token::Number { start: 0, end: 2 }]);
    assert_eq!(kinds("3.25"), vec![Token::Number { start: 0, end: 4 }]);
    assert_eq!(kinds(".5"), vec![Token::Number { start: 0, end: 2 }]);
    assert_eq!(kinds("5."), vec![Token::Number { start: 0, end: 2 }]);
    assert_eq!(kinds("1e3"), vec![Token::Number { start: 0, end: 3 }]);
    assert_eq!(kinds("2.5E-2"), vec![Token::Number { start: 0, end: 6 }]);
}

#[test]
fn lexer_takes_e_as_an_exponent_only_before_a_digit() {
    assert_eq!(
        kinds("2e"),
        vec![Token::Number { start: 0, end: 1 }, Token::Name { start: 1, end: 2 }]
    );
    assert_eq!(
        kinds("2e+x"),
        vec![
            Token::Number { start: 0, end: 1 },
            Token::Name { start: 1, end: 2 },
            Token::Plus,
            Token::Name { start: 3, end: 4 },
        ]
    );
}

#[test]
fn malformed_numbers_say_where() {
    assert_eq!(
        lex("1 + 1.2.3"),
        Err(ParseError::Expected { expected: "a number", found: "`1.2.3`".to_string(), at: 4 })
    );
    assert_eq!(
        lex("."),
        Err(ParseError::Expected { expected: "a number", found: "`.`".to_string(), at: 0 })
    );
}

#[test]
fn bad_characters_and_empty_input() {
    assert_eq!(lex("2 $ 3"), Err(ParseError::BadCharacter { found: '$', at: 2 }));
    assert_eq!(lex(""), Err(ParseError::Empty));
    assert_eq!(lex("  \t\n "), Err(ParseError::Empty));
}

/// The tokens with their spans blanked out.
fn shapes(text: &str) -> Vec<Token> {
    kinds(text)
        .into_iter()
        .map(|t| match t {
            Token::Name { .. } => Token::Name { start: 0, end: 0 },
            Token::Number { .. } => Token::Number { start: 0, end: 0 },
            other => other,
        })
        .collect()
}

#[test]
fn lexer_skips_whitespace() {
    assert_eq!(shapes("(a,b)^c%d-e/f"), shapes(" ( a , b ) ^ c % d - e / f "));
    assert_eq!(
        kinds("atan2(y_1, x)"),
        vec![
            Token::Name { start: 0, end: 5 },
            Token::LParen,
            Token::Name { start: 6, end: 9 },
            Token::Comma,
            Token::Name { start: 11, end: 12 },
            Token::RParen,
        ]
    );
}

#[test]
fn latin_letters_continue_a_name() {
    // U+00EA is two bytes, 0xC3 0xAA, both letters when read byte by byte.
    assert_eq!(kinds("\u{ea}"), vec![Token::Name { start: 0, end: 2 }]);
}

use arithma_core::parse::grammar::{
    parse_syntax, BinaryOp, Expectation, ReadError, Syntax, SyntaxError, FUNCTIONS,
};

fn num(start: usize, end: usize) -> Box<Syntax> {
    Box::new(Syntax::Number { start, end })
}

fn var(start: usize, end: usize) -> Box<Syntax> {
    Box::new(Syntax::Variable { start, end })
}

fn bin(op: BinaryOp, l: Box<Syntax>, r: Box<Syntax>) -> Syntax {
    Syntax::Binary(op, l, r)
}

fn call(start: usize, end: usize, args: Vec<Syntax>) -> Syntax {
    Syntax::Call { start, end, args }
}

#[test]
fn arithmetic_and_precedence() {
    assert_eq!(parse_syntax("1 + 2"), Ok(bin(BinaryOp::Add, num(0, 1), num(4, 5))));
    // times binds tighter
    assert_eq!(
        parse_syntax("2 + 3 * 4"),
        Ok(bin(BinaryOp::Add, num(0, 1), Box::new(bin(BinaryOp::Mul, num(4, 5), num(8, 9)))))
    );
    assert_eq!(
        parse_syntax("(2 + 3) * 4"),
        Ok(bin(BinaryOp::Mul, Box::new(bin(BinaryOp::Add, num(1, 2), num(5, 6))), num(10, 11)))
    );
    assert_eq!(parse_syntax("10 / 4"), Ok(bin(BinaryOp::Div, num(0, 2), num(5, 6))));
    // minus is left-associative
    assert_eq!(
        parse_syntax("10 - 3 - 2"),
        Ok(bin(BinaryOp::Sub, Box::new(bin(BinaryOp::Sub, num(0, 2), num(5, 6))), num(9, 10)))
    );
    // so is divide
    assert_eq!(
        parse_syntax("100 / 10 / 2"),
        Ok(bin(BinaryOp::Div, Box::new(bin(BinaryOp::Div, num(0, 3), num(6, 8))), num(11, 12)))
    );
}

#[test]
fn power_is_right_associative_and_beats_unary_minus_on_its_left() {
    // 2^(3^2), not (2^3)^2
    assert_eq!(
        parse_syntax("2 ^ 3 ^ 2"),
        Ok(bin(BinaryOp::Pow, num(0, 1), Box::new(bin(BinaryOp::Pow, num(4, 5), num(8, 9)))))
    );
    // -(2^2), not (-2)^2
    assert_eq!(
        parse_syntax("-2 ^ 2"),
        Ok(Syntax::Neg(Box::new(bin(BinaryOp::Pow, num(1, 2), num(5, 6)))))
    );
    // a negative exponent still parses
    assert_eq!(
        parse_syntax("2 ^ -1"),
        Ok(bin(BinaryOp::Pow, num(0, 1), Box::new(Syntax::Neg(num(5, 6)))))
    );
}

#[test]
fn unary_minus_stacks_and_unary_plus_is_a_no_op() {
    assert_eq!(parse_syntax("--3"), Ok(Syntax::Neg(Box::new(Syntax::Neg(num(2, 3))))));
    assert_eq!(parse_syntax("-(-3)"), Ok(Syntax::Neg(Box::new(Syntax::Neg(num(3, 4))))));
    assert_eq!(parse_syntax("+4"), Ok(Syntax::Number { start: 1, end: 2 }));
    assert_eq!(
        parse_syntax("3 - -2"),
        Ok(bin(BinaryOp::Sub, num(0, 1), Box::new(Syntax::Neg(num(5, 6)))))
    );
}

#[test]
fn functions_of_one_and_two_arguments() {
    assert_eq!(parse_syntax("sqrt(16)"), Ok(call(0, 4, vec![*num(5, 7)])));
    assert_eq!(parse_syntax("abs(-3)"), Ok(call(0, 3, vec![Syntax::Neg(num(5, 6))])));
    assert_eq!(parse_syntax("floor(2.7)"), Ok(call(0, 5, vec![*num(6, 9)])));
    assert_eq!(parse_syntax("ceil(2.1)"), Ok(call(0, 4, vec![*num(5, 8)])));
    assert_eq!(parse_syntax("sin(0)"), Ok(call(0, 3, vec![*num(4, 5)])));
    assert_eq!(parse_syntax("atan2(0, 1)"), Ok(call(0, 5, vec![*num(6, 7), *num(9, 10)])));
    // the name is case-insensitive
    assert_eq!(parse_syntax("SQRT(9)"), Ok(call(0, 4, vec![*num(5, 6)])));
    assert_eq!(parse_syntax("2 * radius"), Ok(bin(BinaryOp::Mul, num(0, 1), var(4, 10))));
}

#[test]
fn the_wrong_number_of_arguments_says_how_many_it_wanted() {
    assert_eq!(
        parse_syntax("sqrt(1, 2)"),
        Err(ReadError::Grammatical(SyntaxError::WrongArity { index: 0, wanted: 1, given: 2 }))
    );
    assert!(parse_syntax("atan2(1)").is_err());
    assert_eq!(
        parse_syntax("frobnicate(2)"),
        Err(ReadError::Grammatical(SyntaxError::UnknownFunction { index: 0 }))
    );
}

#[test]
fn malformed_input_is_an_error_that_says_where() {
    assert!(matches!(parse_syntax(""), Err(ReadError::Lexical(ParseError::Empty))));
    assert!(matches!(parse_syntax("   "), Err(ReadError::Lexical(ParseError::Empty))));
    assert_eq!(
        parse_syntax("2 +"),
        Err(ReadError::Grammatical(SyntaxError::UnexpectedEnd { after: 1 }))
    );
    assert_eq!(
        parse_syntax("(2 + 3"),
        Err(ReadError::Grammatical(SyntaxError::UnexpectedEnd { after: 3 }))
    );
    assert_eq!(
        parse_syntax("2 $ 3"),
        Err(ReadError::Lexical(ParseError::BadCharacter { found: '$', at: 2 }))
    );
    assert_eq!(
        parse_syntax("2 3"),
        Err(ReadError::Grammatical(SyntaxError::TrailingInput { index: 1 }))
    );
}

#[test]
fn the_grammar_says_what_it_wanted() {
    assert_eq!(
        parse_syntax("(2 3)"),
        Err(ReadError::Grammatical(SyntaxError::Expected {
            expected: Expectation::ClosingParen,
            index: 2
        }))
    );
    assert_eq!(
        parse_syntax("2 * )"),
        Err(ReadError::Grammatical(SyntaxError::Expected {
            expected: Expectation::Operand,
            index: 2
        }))
    );
    assert_eq!(
        parse_syntax("sqrt()"),
        Err(ReadError::Grammatical(SyntaxError::Expected {
            expected: Expectation::Operand,
            index: 2
        }))
    );
}

#[test]
fn the_function_table_is_sorted_and_every_entry_parses() {
    let names: Vec<&str> = FUNCTIONS.iter().map(|(n, _)| *n).collect();
    let mut sorted = names.clone();
    sorted.sort_unstable();
    assert_eq!(names, sorted, "the table is out of order");
    for (name, arity) in FUNCTIONS {
        let args = vec!["1"; arity].join(", ");
        let text = format!("{name}({args})");
        assert!(parse_syntax(&text).is_ok(), "`{text}`");
    }
}

/// `tree` with its spans blanked out, to compare shapes.
fn shape(tree: &Syntax) -> Syntax {
    match tree {
        Syntax::Number { .. } => Syntax::Number { start: 0, end: 0 },
        Syntax::Variable { .. } => Syntax::Variable { start: 0, end: 0 },
        Syntax::Neg(e) => Syntax::Neg(Box::new(shape(e))),
        Syntax::Binary(op, l, r) => Syntax::Binary(*op, Box::new(shape(l)), Box::new(shape(r))),
        Syntax::Call { args, .. } => {
            Syntax::Call { start: 0, end: 0, args: args.iter().map(shape).collect() }
        }
    }
}

#[test]
fn numbers_in_every_spelling_a_person_writes() {
    for text in ["1.5", ".5", "2e3", "2e-3", "1E2"] {
        assert_eq!(
            parse_syntax(text),
            Ok(Syntax::Number { start: 0, end: text.len() }),
            "`{text}`"
        );
    }
}

#[test]
fn e_after_a_number_is_an_exponent_only_when_a_digit_follows() {
    assert_eq!(parse_syntax("2e5"), Ok(Syntax::Number { start: 0, end: 3 }));
    assert_eq!(parse_syntax("2 * e"), Ok(bin(BinaryOp::Mul, num(0, 1), var(4, 5))));
    assert_eq!(parse_syntax("e"), Ok(Syntax::Variable { start: 0, end: 1 }));
}

#[test]
fn variables_come_from_the_bindings() {
    assert_eq!(parse_syntax("2 * radius"), Ok(bin(BinaryOp::Mul, num(0, 1), var(4, 10))));
    assert_eq!(
        parse_syntax("2 * pi * r"),
        Ok(bin(BinaryOp::Mul, Box::new(bin(BinaryOp::Mul, num(0, 1), var(4, 6))), var(9, 10)))
    );
}

#[test]
fn pi_is_not_special_cased_so_a_project_can_define_its_own_constants() {
    assert_eq!(parse_syntax("pi"), Ok(Syntax::Variable { start: 0, end: 2 }));
}

#[test]
fn functions_nest_and_take_expressions() {
    assert_eq!(
        parse_syntax("sqrt(2 * 8)"),
        Ok(call(0, 4, vec![bin(BinaryOp::Mul, num(5, 6), num(9, 10))]))
    );
    assert_eq!(
        parse_syntax("abs(floor(-2.5))"),
        Ok(call(0, 3, vec![call(4, 9, vec![Syntax::Neg(num(11, 14))])]))
    );
    assert_eq!(
        parse_syntax("sqrt(r * r)"),
        Ok(call(0, 4, vec![bin(BinaryOp::Mul, var(5, 6), var(9, 10))]))
    );
}

#[test]
fn modulo_is_built_from_what_the_tree_already_has() {
    assert_eq!(parse_syntax("7 % 3"), Ok(bin(BinaryOp::Rem, num(0, 1), num(4, 5))));
    assert_eq!(parse_syntax("7.5 % 2"), Ok(bin(BinaryOp::Rem, num(0, 3), num(6, 7))));
}

#[test]
fn an_unknown_function_lists_the_ones_that_exist() {
    assert_eq!(
        parse_syntax("frobnicate(2)"),
        Err(ReadError::Grammatical(SyntaxError::UnknownFunction { index: 0 }))
    );
    assert!(FUNCTIONS.iter().any(|(n, _)| *n == "sqrt"));
    assert!(FUNCTIONS.iter().any(|(n, _)| *n == "sin"));
}

#[test]
fn whitespace_is_irrelevant() {
    let tight = parse_syntax("2*3+4").unwrap();
    let loose = parse_syntax("  2 * 3   +  4 ").unwrap();
    assert_eq!(shape(&tight), shape(&loose));
}

#[test]
fn free_variables_are_listed_once_and_in_order() {
    // a * b + sqrt(a) - c
    let expr = E::sub(
        E::add(E::mul(E::var("a"), E::var("b")), E::sqrt(E::var("a"))),
        E::var("c"),
    );
    assert_eq!(free_variables(&expr), vec!["a", "b", "c"]);
    assert!(free_variables(&E::add(E::from_i64(1), E::from_i64(2))).is_empty());
}

#[test]
fn free_variables_sort_by_code_point_and_skip_other_nodes() {
    let expr = E::add(
        E::mul(E::var("radius"), E::var("Radius")),
        E::add(E::var("r"), E::var("radius")),
    );
    assert_eq!(free_variables(&expr), vec!["Radius", "r", "radius"]);
    let sum = E::Sum {
        variable: "k".to_string(),
        start: Box::new(E::from_i64(1)),
        end: Box::new(E::var("n")),
        expression: Box::new(E::var("k")),
    };
    assert!(free_variables(&sum).is_empty());
}

#[test]
fn call_targets_are_found_without_regard_to_case() {
    let text = "SQRT atan2 nope";
    assert!(matches!(call_target(text.as_bytes(), 0, 4), Some(ArithmaFunction::Sqrt)));
    assert!(matches!(call_target(text.as_bytes(), 5, 10), Some(ArithmaFunction::Atan2)));
    assert!(call_target(text.as_bytes(), 11, 15).is_none());
}

#[test]
fn a_constant_expression_has_no_free_variables() {
    let e = E::mul(E::add(E::from_i64(2), E::zero()), E::sqrt(E::from_i64(9)));
    assert!(e.is_constant());
    assert!(free_variables(&e).is_empty());
    let with_x = E::mul(e, E::var("x"));
    assert!(!with_x.is_constant());
    assert_eq!(free_variables(&with_x), vec!["x"]);
}
