use vvdl::lexer::lex_program;
use vvdl::parser::{parse, Expression, ExpressionType, ParseError};
use vvdl::tokens::TokenType;

#[test]
fn literals() {
    let tokens = lex_program(r#"1337 "banana" tomato;"#).unwrap();
    let expressions = parse(tokens).unwrap();

    assert_eq!(3, expressions.len());
    assert_eq!(ExpressionType::Number, expressions[0].get_type(), "expected a number");
    assert_eq!(format!("{}", 1337), expressions[0].as_str(), "wrong number value");
    assert_eq!(ExpressionType::String, expressions[1].get_type(), "expected a string");
    assert_eq!("banana", expressions[1].as_str(), "wrong string value");
    assert_eq!(ExpressionType::Identifier, expressions[2].get_type(), "expected an identifier");
    assert_eq!("tomato", expressions[2].as_str(), "wrong literal value");
}

#[test]
fn return_wraps_its_value() {
    let tokens = lex_program("return 42;").unwrap();
    let expressions = parse(tokens).unwrap();

    assert_eq!(1, expressions.len());
    let ret = match &expressions[0] {
        Expression::Return(r) => r,
        _ => panic!("expected a return"),
    };
    assert_eq!(TokenType::KeywordReturn, ret.token.token_type);
    match &*ret.value {
        Expression::Number(n) => assert_eq!(42, n.value),
        _ => panic!("expected a number"),
    }
}

#[test]
fn addition_parses_to_a_right_leaning_tree() {
    let tokens = lex_program("12 + 4 + 6;").unwrap();
    let expressions = parse(tokens).unwrap();

    assert_eq!(1, expressions.len());
    let outer = match &expressions[0] {
        Expression::Infix(inf) => inf,
        _ => panic!("expected an infix expression"),
    };
    assert_eq!(TokenType::Plus, outer.token.token_type);
    match &*outer.left {
        Expression::Number(n) => assert_eq!(12, n.value),
        _ => panic!("expected a number on the left"),
    }
    let inner = match &*outer.right {
        Expression::Infix(inf) => inf,
        _ => panic!("expected a nested infix expression"),
    };
    assert_eq!(TokenType::Plus, inner.token.token_type);
    match &*inner.left {
        Expression::Number(n) => assert_eq!(4, n.value),
        _ => panic!("expected a number"),
    }
    match &*inner.right {
        Expression::Number(n) => assert_eq!(6, n.value),
        _ => panic!("expected a number"),
    }
}

#[test]
fn double_negation_nests_two_prefixes() {
    let tokens = lex_program("!!5;").unwrap();
    let expressions = parse(tokens).unwrap();

    assert_eq!(1, expressions.len());
    let outer = match &expressions[0] {
        Expression::Prefix(p) => p,
        _ => panic!("expected a prefix expression"),
    };
    assert_eq!(TokenType::Bang, outer.token.token_type);
    let inner = match &*outer.right {
        Expression::Prefix(p) => p,
        _ => panic!("expected a nested prefix expression"),
    };
    match &*inner.right {
        Expression::Number(n) => assert_eq!(5, n.value),
        _ => panic!("expected a number"),
    }
}

#[test]
fn statement_count_matches_semicolon_delimited_statements() {
    let tokens = lex_program("return 1; return 2; !3; 4 + 5;").unwrap();
    let expressions = parse(tokens).unwrap();
    assert_eq!(4, expressions.len());

    let tokens = lex_program(";; return 7 ;;;").unwrap();
    let expressions = parse(tokens).unwrap();
    assert_eq!(1, expressions.len());

    let tokens = lex_program("").unwrap();
    let expressions = parse(tokens).unwrap();
    assert_eq!(0, expressions.len());
}

#[test]
fn operator_without_right_operand_is_unexpected_end() {
    let tokens = lex_program("1 +").unwrap();
    assert_eq!(Err(ParseError::UnexpectedEnd), parse(tokens));

    let tokens = lex_program("!").unwrap();
    assert_eq!(Err(ParseError::UnexpectedEnd), parse(tokens));

    let tokens = lex_program("return").unwrap();
    assert_eq!(Err(ParseError::UnexpectedEnd), parse(tokens));
}

#[test]
fn unsupported_construct_names_the_token_kind() {
    let tokens = lex_program("2 * 3;").unwrap();
    assert_eq!(Err(ParseError::UnsupportedToken(TokenType::Asterisk)), parse(tokens));

    let tokens = lex_program("let x;").unwrap();
    assert_eq!(Err(ParseError::UnsupportedToken(TokenType::KeywordLet)), parse(tokens));

    let tokens = lex_program("(1);").unwrap();
    assert_eq!(Err(ParseError::UnsupportedToken(TokenType::Lparen)), parse(tokens));
}

#[test]
fn numeric_overflow_is_fatal_at_conversion() {
    let tokens = lex_program("return 99999999999999999999;").unwrap();
    assert_eq!(Err(ParseError::InvalidNumericLiteral), parse(tokens));

    let tokens = lex_program("return 9223372036854775807;").unwrap();
    let expressions = parse(tokens).unwrap();
    match &expressions[0] {
        Expression::Return(r) => match &*r.value {
            Expression::Number(n) => assert_eq!(i64::MAX, n.value),
            _ => panic!("expected a number"),
        },
        _ => panic!("expected a return"),
    }
}

#[test]
fn operator_with_nothing_to_negate_is_missing_operand() {
    let tokens = lex_program("!;").unwrap();
    assert_eq!(Err(ParseError::MissingOperand), parse(tokens));
}

#[test]
fn infix_operator_without_left_literal_is_rejected() {
    let tokens = lex_program("+ 4;").unwrap();
    assert_eq!(Err(ParseError::MissingLeftOperand), parse(tokens));

    let tokens = lex_program("; + 4;").unwrap();
    assert_eq!(Err(ParseError::MissingLeftOperand), parse(tokens));
}

#[test]
fn negating_a_return_is_rejected() {
    let tokens = lex_program("!return 5;").unwrap();
    assert_eq!(Err(ParseError::CannotNegateReturn), parse(tokens));
}

#[test]
fn returning_a_return_is_rejected() {
    let tokens = lex_program("return return 5;").unwrap();
    assert_eq!(Err(ParseError::CannotReturnReturn), parse(tokens));
}
