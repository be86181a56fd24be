use lox::error::LoxError;
use lox::token::{Token, TokenType};

#[test]
fn new_token() {
    let mut exp = Token::new(TokenType::RightBrace, String::new(), 2);
    let mut act = Token::new(TokenType::RightBrace, String::new(), 2);
    assert_eq!(exp, act);
    assert_eq!(act.kind(), TokenType::RightBrace);
    assert_eq!(act.lexeme(), "");
    assert_eq!(act.line(), 2);

    exp = Token::new(TokenType::EqualEqual, String::from("e"), 3);
    act = Token::new(TokenType::EqualEqual, String::from("e"), 3);
    assert_eq!(exp, act);
    assert_eq!(act.lexeme(), "e");
}

#[test]
fn build_token() {
    let mut exp = Token::new(TokenType::And, String::from("and"), 3);
    let mut act = Token::build("and", 3).unwrap();
    assert_eq!(exp, act);

    exp = Token::new(TokenType::Or, String::from("or"), 4);
    act = Token::build("or", 4).unwrap();
    assert_eq!(exp, act);
}

#[test]
fn build_invalid_token_throws_error() {
    let exp = Some(LoxError::InvalidToken {
        line: 5,
        token: String::from("trash_string"),
    });
    let act = Token::build("trash_string", 5).err();
    assert_eq!(exp, act);
}

#[test]
fn build_every_fixed_spelling() {
    let table = [
        ("(", TokenType::LeftParen),
        (")", TokenType::RightParen),
        ("{", TokenType::LeftBrace),
        ("}", TokenType::RightBrace),
        (",", TokenType::Comma),
        (".", TokenType::Dot),
        ("-", TokenType::Minus),
        ("+", TokenType::Plus),
        (";", TokenType::Semicolon),
        ("/", TokenType::Slash),
        ("*", TokenType::Star),
        ("!", TokenType::Bang),
        ("!=", TokenType::BangEqual),
        ("=", TokenType::Equal),
        ("==", TokenType::EqualEqual),
        (">", TokenType::Greater),
        (">=", TokenType::GreaterEqual),
        ("<", TokenType::Less),
        ("<=", TokenType::LessEqual),
        ("and", TokenType::And),
        ("class", TokenType::Class),
        ("else", TokenType::Else),
        ("false", TokenType::False),
        ("fun", TokenType::Fun),
        ("for", TokenType::For),
        ("if", TokenType::If),
        ("nil", TokenType::Nil),
        ("or", TokenType::Or),
        ("print", TokenType::Print),
        ("return", TokenType::Return),
        ("super", TokenType::Super),
        ("this", TokenType::This),
        ("true", TokenType::True),
        ("var", TokenType::Var),
        ("while", TokenType::While),
        ("EOF", TokenType::Eof),
    ];
    for (spelling, kind) in table {
        let tok = Token::build(spelling, 7).unwrap();
        assert_eq!(tok, Token::new(kind, spelling.to_string(), 7));
    }
}

#[test]
fn build_rejects_near_misses() {
    for text in ["", "An", "ands", "returns", "whilst", "=>", "eof", "x", "Or", "identifier"] {
        assert_eq!(
            Token::build(text, 1),
            Err(LoxError::InvalidToken {
                line: 1,
                token: text.to_string()
            })
        );
    }
}

#[test]
fn default_token_is_end_of_input_on_line_zero() {
    let tok = Token::default();
    assert_eq!(tok, Token::new(TokenType::Eof, String::new(), 0));
}
