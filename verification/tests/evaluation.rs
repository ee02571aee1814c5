use calc::CalcError;
use calc::Interpreter;
use calc::Token;
use calc::TokenType;
use calc::evaluate;
use calc::interpreter::parse_decimal;

#[test]
fn five_plus_three() {
    assert_eq!(evaluate("5 + 3"), Ok(8));
}

#[test]
fn ten_minus_twelve() {
    assert_eq!(evaluate("10-12"), Ok(-2));
}

#[test]
fn chain_of_operators() {
    assert_eq!(evaluate("1 + 2 - 3 + 4"), Ok(4));
}

#[test]
fn single_operand() {
    assert_eq!(evaluate("7"), Ok(7));
    assert_eq!(evaluate(" 42 "), Ok(42));
}

#[test]
fn all_whitespace_is_parse_error() {
    assert_eq!(evaluate("   "), Err(CalcError::ParseError));
}

#[test]
fn zero_plus_zero() {
    assert_eq!(evaluate("0 + 0"), Ok(0));
}

#[test]
fn negative_result() {
    assert_eq!(evaluate("123 - 456"), Ok(-333));
}

#[test]
fn whitespace_insensitive() {
    assert_eq!(evaluate("3+4"), Ok(7));
    assert_eq!(evaluate(" 3 + 4 "), Ok(7));
    assert_eq!(evaluate("3  +  4"), Ok(7));
}

#[test]
fn whitespace_kinds() {
    assert_eq!(evaluate("3\t+\n4"), Ok(7));
    assert_eq!(evaluate("3\r+\u{000C}4"), Ok(7));
}

#[test]
fn left_associative() {
    assert_eq!(evaluate("10 - 2 + 3"), Ok(11));
}

#[test]
fn empty_input_is_parse_error() {
    assert_eq!(evaluate(""), Err(CalcError::ParseError));
}

#[test]
fn lone_operator_is_parse_error() {
    assert_eq!(evaluate("+"), Err(CalcError::ParseError));
}

#[test]
fn missing_operand_is_parse_error() {
    assert_eq!(evaluate("3 +"), Err(CalcError::ParseError));
}

#[test]
fn unsupported_operator_is_lex_error() {
    assert_eq!(evaluate("3 * 4"), Err(CalcError::LexError));
}

#[test]
fn alphabetic_input_is_lex_error() {
    assert_eq!(evaluate("abc"), Err(CalcError::LexError));
}

#[test]
fn garbage_after_literal_is_lex_error() {
    assert_eq!(evaluate("1 x"), Err(CalcError::LexError));
    assert_eq!(evaluate("3 + 4 x"), Err(CalcError::LexError));
}

#[test]
fn trailing_integer_token_is_ignored() {
    assert_eq!(evaluate("3 + 4 5"), Ok(7));
}

#[test]
fn deterministic_across_instances() {
    let mut first = Interpreter::new();
    let mut second = Interpreter::new();
    assert_eq!(
        first.expr("5 + 3".to_string()),
        second.expr("5 + 3".to_string())
    );
    let mut third = Interpreter::new();
    let mut fourth = Interpreter::new();
    assert_eq!(
        third.expr("abc".to_string()),
        fourth.expr("abc".to_string())
    );
}

#[test]
fn reuse_resets_state() {
    let mut interpreter = Interpreter::new();
    assert_eq!(interpreter.expr("1+1".to_string()), Ok(2));
    assert_eq!(interpreter.expr("2+2".to_string()), Ok(4));
    assert_eq!(interpreter.expr("1+1".to_string()), Ok(2));
}

#[test]
fn largest_literal() {
    assert_eq!(evaluate("2147483647"), Ok(2147483647));
}

#[test]
fn literal_overflow() {
    assert_eq!(evaluate("2147483648"), Err(CalcError::OverflowError));
}

#[test]
fn addition_overflow() {
    assert_eq!(evaluate("2147483647 + 1"), Err(CalcError::OverflowError));
}

#[test]
fn subtraction_overflow() {
    assert_eq!(
        evaluate("0 - 2147483647 - 2147483647"),
        Err(CalcError::OverflowError)
    );
}

#[test]
fn negated_literal_still_parsed_as_i32() {
    assert_eq!(evaluate("0 - 2147483648"), Err(CalcError::OverflowError));
}

#[test]
fn leading_zeros_accepted() {
    assert_eq!(evaluate("007 + 08"), Ok(15));
}

#[test]
fn parse_decimal_exact_values() {
    assert_eq!(parse_decimal("0"), Ok(0));
    assert_eq!(parse_decimal("42"), Ok(42));
    assert_eq!(parse_decimal("2147483647"), Ok(2147483647));
}

#[test]
fn parse_decimal_overflow() {
    assert_eq!(parse_decimal("2147483648"), Err(CalcError::OverflowError));
    assert_eq!(parse_decimal("99999999999999999999"), Err(CalcError::OverflowError));
}

#[test]
fn token_new_keeps_fields() {
    let token = Token::new(TokenType::Integer, Some("12".to_string()));
    assert_eq!(token.token_type, TokenType::Integer);
    assert_eq!(token.value.as_deref(), Some("12"));
    let end = Token::new(TokenType::Eof, None);
    assert_eq!(end.token_type, TokenType::Eof);
    assert!(end.value.is_none());
}

#[test]
fn fresh_lexer_returns_end_of_input() {
    let mut interpreter = Interpreter::new();
    let token = interpreter.get_next_token().unwrap();
    assert_eq!(token.token_type, TokenType::Eof);
    assert!(token.value.is_none());
}

#[test]
fn eat_without_lookahead_is_parse_error() {
    let mut interpreter = Interpreter::new();
    assert_eq!(interpreter.eat(TokenType::Integer), Err(CalcError::ParseError));
}

#[test]
fn term_without_lookahead_is_parse_error() {
    let mut interpreter = Interpreter::new();
    assert_eq!(interpreter.term(), Err(CalcError::ParseError));
}

#[test]
fn integer_at_end_of_text_is_empty() {
    let mut interpreter = Interpreter::new();
    assert_eq!(interpreter.integer().as_str(), "");
}

#[test]
fn error_messages() {
    assert_eq!(CalcError::LexError.message(), "Unexpected character");
    assert_eq!(CalcError::ParseError.message(), "Unexpected token");
    assert_eq!(CalcError::OverflowError.message(), "Integer overflow");
    let interpreter = Interpreter::new();
    assert_eq!(
        interpreter.error(CalcError::ParseError.message()),
        "Error parsing input: Unexpected token"
    );
}
