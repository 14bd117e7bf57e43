use vvdl::lexer::{lex_program, LexError};
use vvdl::tokens::{Token, TokenType};

fn tokens_to_literals(tokens: &Vec<Token>) -> Vec<String> {
    tokens.into_iter().map(|token| token.literal.clone()).collect()
}

#[test]
fn empty_string_produces_empty_list_of_tokens() {
    let tokens = lex_program("").unwrap();
    assert_eq!(0, tokens.len());
}

#[test]
fn token_assignment() {
    let tokens = lex_program("=").unwrap();
    assert_eq!(["="], &tokens_to_literals(&tokens)[..]);
}

#[test]
fn token_plus() {
    let tokens = lex_program("+").unwrap();
    assert_eq!(["+"], &tokens_to_literals(&tokens)[..]);
}

#[test]
fn token_minus() {
    let tokens = lex_program("-").unwrap();
    assert_eq!(["-"], &tokens_to_literals(&tokens)[..]);
}

#[test]
fn token_asterisk() {
    let tokens = lex_program("*").unwrap();
    assert_eq!(["*"], &tokens_to_literals(&tokens)[..]);
}

#[test]
fn token_equals() {
    let tokens = lex_program("==").unwrap();
    assert_eq!(["=="], &tokens_to_literals(&tokens)[..]);
}

#[test]
#[should_panic]
fn invalid_token_should_raise_error() {
    let tokens = lex_program("=%").unwrap();
    assert_eq!(0, tokens.len());
}

#[test]
fn several_tokens() {
    let tokens = lex_program(" + - ==  ;; *").unwrap();
    assert_eq!(["+", "-", "==", ";", ";", "*"], &tokens_to_literals(&tokens)[..]);
}

#[test]
fn literal() {
    let tokens = lex_program("banana").unwrap();
    assert_eq!(["banana"], &tokens_to_literals(&tokens)[..]);
}

#[test]
fn literal_and_token() {
    let tokens = lex_program("mango=").unwrap();
    assert_eq!(["mango", "="], &tokens_to_literals(&tokens)[..]);
}

#[test]
fn two_literals() {
    let tokens = lex_program("t omate").unwrap();
    assert_eq!(["t", "omate"], &tokens_to_literals(&tokens)[..]);
}

#[test]
fn literal_number_and_string() {
    let tokens = lex_program(r#" banana 1337 "kiwi" "#).unwrap();
    assert_eq!(["banana", "1337", "kiwi"], &tokens_to_literals(&tokens)[..]);
}

#[test]
fn complex_expression() {
    let tokens = lex_program("radio = pi*3 + 2;").unwrap();
    assert_eq!(["radio", "=", "pi", "*", "3", "+", "2", ";"], &tokens_to_literals(&tokens)[..]);
}

#[test]
fn complex_expression_comparisons() {
    let tokens = lex_program("4 < 19>2 >= !1 <= 1!=10").unwrap();
    assert_eq!(
        ["4", "<", "19", ">", "2", ">=", "!", "1", "<=", "1", "!=", "10"],
        &tokens_to_literals(&tokens)[..]
    );
}

#[test]
fn parentheses_and_braces() {
    let tokens = lex_program("((2)) == !{{4}}").unwrap();
    assert_eq!(
        ["(", "(", "2", ")", ")", "==", "!", "{", "{", "4", "}", "}"],
        &tokens_to_literals(&tokens)[..]
    );
}

#[test]
fn single_letter_as_string() {
    let tokens = lex_program(r#""f""#).unwrap();
    assert_eq!(["f"], &tokens_to_literals(&tokens)[..]);
}

#[test]
fn string_with_spaces() {
    let tokens = lex_program(r#""canada is a nice country""#).unwrap();
    assert_eq!(["canada is a nice country"], &tokens_to_literals(&tokens)[..]);
}

#[test]
fn newlines() {
    let tokens = lex_program("3*\n2 + \n 3;").unwrap();
    assert_eq!(["3", "*", "2", "+", "3", ";"], &tokens_to_literals(&tokens)[..]);
}

#[test]
fn keywords() {
    let tokens: Vec<Token> = lex_program("if print while return let fn").unwrap();
    assert_eq!(
        ["if", "print", "while", "return", "let", "fn"],
        &tokens_to_literals(&tokens)[..]
    );
    let token_types: Vec<TokenType> = tokens.into_iter().map(|token| token.token_type).collect();
    assert_eq!(
        [
            TokenType::KeywordIf,
            TokenType::KeywordPrint,
            TokenType::KeywordWhile,
            TokenType::KeywordReturn,
            TokenType::KeywordLet,
            TokenType::KeywordFn
        ],
        &token_types[..]
    );
}

#[test]
fn sample_program() {
    let tokens = lex_program(
        r#"
            fn square(x) {
                return x * x;
            }

            fn main() {
                let y = square(4);
                while y >= 12 {
                    print("answer is " y);
                }
                return 0;
            }
            "#,
    )
    .unwrap();

    assert_eq!(
        ["fn", "square", "(", "x", ")", "{", "return", "x", "*", "x", ";", "}",
         "fn", "main", "(", ")", "{", "let", "y", "=", "square", "(", "4", ")", ";",
         "while", "y", ">=", "12", "{", "print", "(", "answer is ", "y", ")", ";", "}",
         "return", "0", ";", "}"],
        &tokens_to_literals(&tokens)[..]
    );
}

#[test]
fn unrecognized_character_reports_the_character_and_position() {
    assert_eq!(Err(LexError::UnrecognizedChar('%', 1)), lex_program("=%"));
    assert_eq!(Err(LexError::UnrecognizedChar('#', 4)), lex_program("1 + #"));
}

#[test]
fn unterminated_string_is_a_lexical_error() {
    assert_eq!(Err(LexError::UnterminatedString(0)), lex_program(r#""never closed"#));
    assert_eq!(Err(LexError::UnterminatedString(4)), lex_program(r#"1 + "oops"#));
}

#[test]
fn lone_comparison_operators_at_end_of_input() {
    let tokens = lex_program("a <").unwrap();
    assert_eq!(["a", "<"], &tokens_to_literals(&tokens)[..]);
    assert_eq!(TokenType::Lt, tokens[1].token_type);
    let tokens = lex_program("b >").unwrap();
    assert_eq!(TokenType::Gt, tokens[1].token_type);
    let tokens = lex_program("c !").unwrap();
    assert_eq!(TokenType::Bang, tokens[1].token_type);
}

#[test]
fn number_token_text_round_trips() {
    let tokens = lex_program("9223372036854775807").unwrap();
    assert_eq!(1, tokens.len());
    assert_eq!(TokenType::Number, tokens[0].token_type);
    assert_eq!("9223372036854775807", tokens[0].literal);
}

#[test]
fn huge_digit_runs_still_lex_as_one_number_token() {
    let tokens = lex_program("99999999999999999999").unwrap();
    assert_eq!(1, tokens.len());
    assert_eq!(TokenType::Number, tokens[0].token_type);
    assert_eq!("99999999999999999999", tokens[0].literal);
}

#[test]
fn keyword_lookalikes_are_identifiers() {
    let tokens = lex_program("iff returns fns prints").unwrap();
    for token in &tokens {
        assert_eq!(TokenType::Identifier, token.token_type);
    }
}

#[test]
fn number_tokens_convert_to_their_decimal_value() {
    let token = Token::new(TokenType::Number, "42".to_string());
    assert_eq!(42, token.to_numeric());
    let token = Token::new(TokenType::Number, "007".to_string());
    assert_eq!(7, token.to_numeric());
    let token = Token::new(TokenType::Number, "99999999999999999999".to_string());
    assert_eq!(None, token.to_numeric_checked());
    let word = Token::new_with_identifier("mango");
    assert_eq!(None, word.to_numeric_checked());
}
