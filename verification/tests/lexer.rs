use c420::lexer::{tokenzine, LexError, Token, TokenType};

fn token(value: &str, kind: TokenType) -> Token {
    Token::new(value.to_string(), kind)
}

#[test]
fn tokens_of_an_expression() {
    let tokens = tokenzine("(a_1 + 22) * None").unwrap();
    assert_eq!(
        tokens,
        vec![
            token("(", TokenType::OpenParen),
            token("a_1", TokenType::Identifier),
            token("+", TokenType::BinaryOperator),
            token("22", TokenType::Number),
            token(")", TokenType::CloseParen),
            token("*", TokenType::BinaryOperator),
            token("None", TokenType::NoneLiteral),
        ]
    );
}

#[test]
fn blanks_give_no_token() {
    assert_eq!(tokenzine(" \t\r\n").unwrap(), vec![]);
    assert_eq!(tokenzine("").unwrap(), vec![]);
}

#[test]
fn unexpected_character() {
    assert_eq!(tokenzine("1 + #"), Err(LexError::UnexpectedCharacter('#')));
    assert_eq!(tokenzine("_a"), Err(LexError::UnexpectedCharacter('_')));
}

#[test]
fn token_new_keeps_its_arguments() {
    let t = Token::new("x".to_string(), TokenType::Identifier);
    assert_eq!(t.value, "x");
    assert_eq!(t.kind, TokenType::Identifier);
}

#[test]
fn letters_and_digits_beyond_ascii() {
    assert_eq!(
        tokenzine("\u{663}\u{664}+\u{e9}t\u{e9}_1").unwrap(),
        vec![
            token("\u{663}\u{664}", TokenType::Number),
            token("+", TokenType::BinaryOperator),
            token("\u{e9}t\u{e9}_1", TokenType::Identifier),
        ]
    );
}

#[test]
fn none_is_a_word_of_its_own() {
    assert_eq!(
        tokenzine("None Nonex None_").unwrap(),
        vec![
            token("None", TokenType::NoneLiteral),
            token("Nonex", TokenType::Identifier),
            token("None_", TokenType::Identifier),
        ]
    );
    assert_eq!(tokenzine("12ab").unwrap(), vec![token("12", TokenType::Number), token("ab", TokenType::Identifier)]);
}
