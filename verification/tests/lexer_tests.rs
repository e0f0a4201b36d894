use matheval::error::LexError;
use matheval::lexer::{Lexer, Token, TokenWithPos};

/// A number token whose literal stands for `value`.
fn number(literal: &str, value: f64) -> Token {
    assert_eq!(literal.parse::<f64>().unwrap(), value);
    Token::Number(literal.to_string())
}

#[test]
fn test_lexer_basic_tokens() {
    let mut lexer = Lexer::new("3 + 4 * (.1 - 1.2)");
    assert_eq!(lexer.next_token().unwrap(), TokenWithPos { token: number("3", 3.0), position: 0, length: 1 });
    assert_eq!(lexer.next_token().unwrap(), TokenWithPos { token: Token::Plus, position: 2, length: 1 });
    assert_eq!(lexer.next_token().unwrap(), TokenWithPos { token: number("4", 4.0), position: 4, length: 1 });
    assert_eq!(lexer.next_token().unwrap(), TokenWithPos { token: Token::Asterisk, position: 6, length: 1 });
    assert_eq!(lexer.next_token().unwrap(), TokenWithPos { token: Token::LParen, position: 8, length: 1 });
    assert_eq!(lexer.next_token().unwrap(), TokenWithPos { token: number(".1", 0.1), position: 9, length: 2 });
    assert_eq!(lexer.next_token().unwrap(), TokenWithPos { token: Token::Minus, position: 12, length: 1 });
    assert_eq!(lexer.next_token().unwrap(), TokenWithPos { token: number("1.2", 1.2), position: 14, length: 3 });
    assert_eq!(lexer.next_token().unwrap(), TokenWithPos { token: Token::RParen, position: 17, length: 1 });
    assert_eq!(lexer.next_token().unwrap(), TokenWithPos { token: Token::EOF, position: 18, length: 1 });
}

#[test]
fn test_function_and_identifier_tokens() {
    let mut lexer = Lexer::new("sin(x) + cos(y)");
    assert_eq!(lexer.next_token().unwrap(), TokenWithPos { token: Token::Identifier("sin".to_string()), position: 0, length: 3 });
    assert_eq!(lexer.next_token().unwrap(), TokenWithPos { token: Token::LParen, position: 3, length: 1 });
    assert_eq!(lexer.next_token().unwrap(), TokenWithPos { token: Token::Identifier("x".to_string()), position: 4, length: 1 });
    assert_eq!(lexer.next_token().unwrap(), TokenWithPos { token: Token::RParen, position: 5, length: 1 });
    assert_eq!(lexer.next_token().unwrap(), TokenWithPos { token: Token::Plus, position: 7, length: 1 });
    assert_eq!(lexer.next_token().unwrap(), TokenWithPos { token: Token::Identifier("cos".to_string()), position: 9, length: 3 });
    assert_eq!(lexer.next_token().unwrap(), TokenWithPos { token: Token::LParen, position: 12, length: 1 });
    assert_eq!(lexer.next_token().unwrap(), TokenWithPos { token: Token::Identifier("y".to_string()), position: 13, length: 1 });
    assert_eq!(lexer.next_token().unwrap(), TokenWithPos { token: Token::RParen, position: 14, length: 1 });
    assert_eq!(lexer.next_token().unwrap(), TokenWithPos { token: Token::EOF, position: 15, length: 1 });
}

fn kinds(input: &str) -> Vec<Token> {
    Lexer::new(input).tokenize().unwrap().into_iter().map(|t| t.token).collect()
}

#[test]
fn every_symbol_is_one_token() {
    assert_eq!(
        kinds("+-*/()^!,="),
        vec![
            Token::Plus,
            Token::Minus,
            Token::Asterisk,
            Token::Slash,
            Token::LParen,
            Token::RParen,
            Token::Caret,
            Token::Exclamation,
            Token::Comma,
            Token::Equals,
            Token::EOF,
        ]
    );
}

#[test]
fn token_stream_ends_with_exactly_one_end_marker() {
    for input in ["", "   ", "1", "x = 2 + 3", "sin(1) , )", "a b c"] {
        let tokens = Lexer::new(input).tokenize().unwrap();
        let ends = tokens.iter().filter(|t| t.token == Token::EOF).count();
        assert_eq!(ends, 1);
        assert_eq!(tokens.last().unwrap().token, Token::EOF);
        assert_eq!(tokens.last().unwrap().position, input.chars().count());
    }
}

#[test]
fn empty_input_is_the_end_marker_alone() {
    let tokens = Lexer::new("").tokenize().unwrap();
    assert_eq!(tokens, vec![TokenWithPos { token: Token::EOF, position: 0, length: 1 }]);
}

#[test]
fn white_space_is_skipped_and_not_tokenized() {
    let tokens = Lexer::new(" \t 7\u{a0}\n").tokenize().unwrap();
    assert_eq!(
        tokens,
        vec![
            TokenWithPos { token: Token::Number("7".to_string()), position: 3, length: 1 },
            TokenWithPos { token: Token::EOF, position: 6, length: 1 },
        ]
    );
}

#[test]
fn positions_count_characters_not_bytes() {
    let tokens = Lexer::new("é + ünï_2").tokenize().unwrap();
    assert_eq!(
        tokens,
        vec![
            TokenWithPos { token: Token::Identifier("é".to_string()), position: 0, length: 1 },
            TokenWithPos { token: Token::Plus, position: 2, length: 1 },
            TokenWithPos { token: Token::Identifier("ünï_2".to_string()), position: 4, length: 5 },
            TokenWithPos { token: Token::EOF, position: 9, length: 1 },
        ]
    );
}

#[test]
fn identifiers_keep_their_case_and_take_digits_and_underscores() {
    assert_eq!(
        kinds("Ab_1c SIN"),
        vec![Token::Identifier("Ab_1c".to_string()), Token::Identifier("SIN".to_string()), Token::EOF]
    );
}

#[test]
fn an_identifier_cannot_start_with_an_underscore() {
    assert_eq!(Lexer::new("_x").tokenize(), Err(LexError::UnexpectedCharacter('_', 0)));
}

#[test]
fn a_number_takes_at_most_one_dot() {
    assert_eq!(
        Lexer::new("1.2.3").tokenize().unwrap(),
        vec![
            TokenWithPos { token: Token::Number("1.2".to_string()), position: 0, length: 3 },
            TokenWithPos { token: Token::Number(".3".to_string()), position: 3, length: 2 },
            TokenWithPos { token: Token::EOF, position: 5, length: 1 },
        ]
    );
    assert_eq!(kinds("5."), vec![Token::Number("5.".to_string()), Token::EOF]);
    assert_eq!("5.".parse::<f64>().unwrap(), 5.0);
}

#[test]
fn a_number_stops_at_the_first_other_character() {
    assert_eq!(
        kinds("12abc"),
        vec![Token::Number("12".to_string()), Token::Identifier("abc".to_string()), Token::EOF]
    );
}

#[test]
fn a_lone_dot_is_an_invalid_number() {
    assert_eq!(Lexer::new(".").tokenize(), Err(LexError::InvalidNumber(".".to_string())));
    assert_eq!(Lexer::new("1 + . 2").tokenize(), Err(LexError::InvalidNumber(".".to_string())));
    assert!(".".parse::<f64>().is_err());
}

#[test]
fn every_number_token_is_a_number_to_the_host() {
    for input in ["0", "007", ".5", "5.", "3.14159", "123456789012345678901234567890", "0.000000000000000000001"] {
        match &kinds(input)[0] {
            Token::Number(text) => {
                assert_eq!(text, input);
                assert!(text.parse::<f64>().is_ok());
            }
            other => panic!("not a number: {:?}", other),
        }
    }
}

#[test]
fn an_unexpected_character_is_reported_with_its_index() {
    assert_eq!(Lexer::new("2 # 3").tokenize(), Err(LexError::UnexpectedCharacter('#', 2)));
    assert_eq!(Lexer::new("ab $").tokenize(), Err(LexError::UnexpectedCharacter('$', 3)));
}

#[test]
fn next_token_keeps_returning_the_end_marker() {
    let mut lexer = Lexer::new("1");
    assert_eq!(lexer.next_token().unwrap().token, Token::Number("1".to_string()));
    assert_eq!(lexer.next_token().unwrap(), TokenWithPos { token: Token::EOF, position: 1, length: 1 });
    assert_eq!(lexer.next_token().unwrap(), TokenWithPos { token: Token::EOF, position: 1, length: 1 });
}

#[test]
fn lex_error_messages() {
    assert_eq!(
        LexError::UnexpectedCharacter('#', 12).to_string(),
        "Unexpected character encountered: '#' at position 12"
    );
    assert_eq!(LexError::InvalidNumber(".".to_string()).to_string(), "Invalid number format: '.'");
}

#[test]
fn lex_error_positions() {
    assert_eq!(matheval::error::get_lexer_error_position(&LexError::UnexpectedCharacter('#', 4)), Some(4));
    assert_eq!(matheval::error::get_lexer_error_position(&LexError::InvalidNumber(".".to_string())), None);
}

#[test]
fn token_with_pos_new_keeps_its_arguments() {
    assert_eq!(
        TokenWithPos::new(Token::Comma, 3, 1),
        TokenWithPos { token: Token::Comma, position: 3, length: 1 }
    );
}
