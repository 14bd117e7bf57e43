use vvdl::codegen::{generate_code, GenError};
use vvdl::lexer::lex_program;
use vvdl::parser::{
    parse, Expression, ExpressionType, InfixExpression, NumberLiteralExpression, PrefixExpression,
    ReturnExpression,
};
use vvdl::tokens::{Token, TokenType};

fn compile(source: &str) -> String {
    let tokens = lex_program(source).unwrap();
    let expressions = parse(tokens).unwrap();
    generate_code(expressions).unwrap()
}

#[test]
fn main_test() {}

#[test]
fn empty_program_emits_only_the_prelude() {
    assert_eq!(
        r#"section .text
global _start
_start:
"#,
        compile("")
    );
}

#[test]
fn return_a_literal() {
    assert_eq!(
        r#"section .text
global _start
_start:
mov rbx, 13
mov rax, 1
int 0x80
"#,
        compile("return 13;")
    );
}

#[test]
fn return_a_negated_positive_number() {
    assert_eq!(
        r#"section .text
global _start
_start:
mov rbx, 0
mov rax, 1
int 0x80
"#,
        compile("return !5;")
    );
}

#[test]
fn return_a_negated_zero() {
    assert_eq!(
        r#"section .text
global _start
_start:
mov rbx, 1
mov rax, 1
int 0x80
"#,
        compile("return !0;")
    );
}

#[test]
fn return_negation_of_a_negation_of_a_literal() {
    assert_eq!(
        r#"section .text
global _start
_start:
mov rbx, 0
xor rbx, 1
mov rax, 1
int 0x80
"#,
        compile("return !!5;")
    );
}

#[test]
fn double_negation_of_zero_flips_back_to_zero() {
    assert_eq!(
        r#"section .text
global _start
_start:
mov rbx, 1
xor rbx, 1
mov rax, 1
int 0x80
"#,
        compile("return !!0;")
    );
}

#[test]
fn return_addition_of_two_numbers() {
    assert_eq!(
        r#"section .text
global _start
_start:
mov rbx, 12
add rbx, 4
mov rax, 1
int 0x80
"#,
        compile("return 12 + 4;")
    );
}

#[test]
fn return_addition_of_four_numbers_flattens_left_to_right() {
    assert_eq!(
        r#"section .text
global _start
_start:
mov rbx, 12
add rbx, 4
add rbx, 6
add rbx, 3
mov rax, 1
int 0x80
"#,
        compile("return 12 + 4 + 6 + 3;")
    );
}

#[test]
fn return_subtraction_chain_uses_sub() {
    assert_eq!(
        r#"section .text
global _start
_start:
mov rbx, 10
sub rbx, 2
sub rbx, 4
sub rbx, 1
mov rax, 1
int 0x80
"#,
        compile("return 10 - 2 - 4 - 1;")
    );
}

#[test]
fn mixed_addition_and_subtraction_keeps_each_operator() {
    assert_eq!(
        r#"section .text
global _start
_start:
mov rbx, 10
sub rbx, 2
add rbx, 3
mov rax, 1
int 0x80
"#,
        compile("return 10 - 2 + 3;")
    );
}

#[test]
fn several_return_statements_emit_in_program_order() {
    assert_eq!(
        r#"section .text
global _start
_start:
mov rbx, 1
mov rax, 1
int 0x80
mov rbx, 2
mov rax, 1
int 0x80
"#,
        compile("return 1; return 2;")
    );
}

fn number(value: i64) -> Expression {
    Expression::Number(NumberLiteralExpression {
        token: Token::new(TokenType::Number, value.to_string()),
        value,
    })
}

#[test]
fn top_level_statement_must_be_a_return() {
    let tokens = lex_program("5;").unwrap();
    let expressions = parse(tokens).unwrap();
    assert_eq!(
        Err(GenError::UnsupportedTopLevel(ExpressionType::Number)),
        generate_code(expressions)
    );
}

#[test]
fn negating_an_identifier_is_unsupported() {
    let tokens = lex_program("return !tomato;").unwrap();
    let expressions = parse(tokens).unwrap();
    assert_eq!(
        Err(GenError::UnsupportedOperand(ExpressionType::Identifier)),
        generate_code(expressions)
    );
}

#[test]
fn string_in_an_additive_chain_is_unsupported() {
    let tokens = lex_program(r#"return 1 + "kiwi";"#).unwrap();
    let expressions = parse(tokens).unwrap();
    assert_eq!(
        Err(GenError::UnsupportedOperand(ExpressionType::String)),
        generate_code(expressions)
    );
}

#[test]
fn infix_operator_beyond_additive_is_unsupported() {
    let program = vec![Expression::Return(ReturnExpression {
        token: Token::new(TokenType::KeywordReturn, "return".to_string()),
        value: Box::new(Expression::Infix(InfixExpression {
            token: Token::new(TokenType::Asterisk, "*".to_string()),
            left: Box::new(number(2)),
            right: Box::new(number(3)),
        })),
    })];
    assert_eq!(
        Err(GenError::UnsupportedOperator(TokenType::Asterisk)),
        generate_code(program)
    );
}

#[test]
fn return_nested_under_negation_is_rejected_by_the_generator() {
    let inner_return = Expression::Return(ReturnExpression {
        token: Token::new(TokenType::KeywordReturn, "return".to_string()),
        value: Box::new(number(1)),
    });
    let program = vec![Expression::Return(ReturnExpression {
        token: Token::new(TokenType::KeywordReturn, "return".to_string()),
        value: Box::new(Expression::Prefix(PrefixExpression {
            token: Token::new(TokenType::Bang, "!".to_string()),
            right: Box::new(inner_return),
        })),
    })];
    assert_eq!(Err(GenError::ReturnInsideExpression), generate_code(program));
}
