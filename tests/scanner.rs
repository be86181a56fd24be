use lox::error::LoxError;
use lox::scanner::Scanner;
use lox::token::{Token, TokenType};

#[test]
fn scan_empty() {
    let exp = vec![Token::new(TokenType::Eof, "".into(), 1)];
    let act = Scanner::new("".into()).scan_tokens().unwrap();
    assert_eq!(exp, act);
}

#[test]
fn scan_plus() {
    let exp = vec![
        Token::new(TokenType::Plus, "+".into(), 1),
        Token::new(TokenType::Eof, "".into(), 1),
    ];
    let act = Scanner::new(r#"+"#.into()).scan_tokens().unwrap();
    assert_eq!(exp, act);
}

#[test]
fn scan_minus() {
    let exp = vec![
        Token::new(TokenType::Minus, "-".into(), 1),
        Token::new(TokenType::Eof, "".into(), 1),
    ];
    let act = Scanner::new(r#"-"#.into()).scan_tokens().unwrap();
    assert_eq!(exp, act);
}

#[test]
fn scan_multiple_operators() {
    let exp = vec![
        Token::new(TokenType::Plus, "+".into(), 1),
        Token::new(TokenType::Minus, "-".into(), 1),
        Token::new(TokenType::Bang, "!".into(), 1),
        Token::new(TokenType::Eof, "".into(), 1),
    ];
    let act = Scanner::new(r#"+-!"#.into()).scan_tokens().unwrap();
    assert_eq!(exp, act);
}

#[test]
fn scan_multi_char_operators() {
    let exp = vec![
        Token::new(TokenType::GreaterEqual, ">=".into(), 1),
        Token::new(TokenType::LessEqual, "<=".into(), 1),
        Token::new(TokenType::EqualEqual, "==".into(), 1),
        Token::new(TokenType::BangEqual, "!=".into(), 1),
        Token::new(TokenType::Eof, "".into(), 1),
    ];
    let act = Scanner::new(r#">=<===!="#.into()).scan_tokens().unwrap();
    assert_eq!(exp, act);
}

#[test]
fn scan_divide() {
    let exp = vec![
        Token::new(TokenType::Slash, "/".into(), 1),
        Token::new(TokenType::Eof, "".into(), 1),
    ];
    let act = Scanner::new(r#"/"#.into()).scan_tokens().unwrap();
    assert_eq!(exp, act);
}

#[test]
fn scan_comment() {
    let exp = vec![Token::new(TokenType::Eof, "".into(), 1)];
    let act = Scanner::new(r#"// Ignore this line."#.into())
        .scan_tokens()
        .unwrap();
    assert_eq!(exp, act);
}

#[test]
fn scan_string() {
    let exp = vec![
        Token::new(TokenType::String, r#"My own string"#.into(), 1),
        Token::new(TokenType::Eof, "".into(), 1),
    ];
    let act = Scanner::new(r#""My own string""#.into())
        .scan_tokens()
        .unwrap();
    assert_eq!(exp, act);
}

#[test]
fn scan_string_across_newlines() {
    let exp = vec![
        Token::new(TokenType::String, "My own\nstring".into(), 2),
        Token::new(TokenType::Eof, "".into(), 2),
    ];
    let act = Scanner::new(
        r#""My own
string""#
            .into(),
    )
    .scan_tokens()
    .unwrap();
    assert_eq!(exp, act);
}

#[test]
fn scan_strings() {
    let exp = vec![
        Token::new(TokenType::String, r#"aaaa"#.into(), 1),
        Token::new(TokenType::String, r#"bbbb"#.into(), 1),
        Token::new(TokenType::Eof, "".into(), 1),
    ];
    let act = Scanner::new(r#""aaaa" "bbbb""#.into())
        .scan_tokens()
        .unwrap();
    assert_eq!(exp, act);
}

#[test]
fn scan_unterminated_string_throws_error() {
    let exp = Some(LoxError::UnterminatedString { line: 1 });
    let act = Scanner::new(r#""aaaa"#.into()).scan_tokens().err();
    assert_eq!(exp, act);
}

#[test]
fn scan_string_plus_operator() {
    let exp = vec![
        Token::new(TokenType::String, r#"My own string"#.into(), 1),
        Token::new(TokenType::Plus, "+".into(), 1),
        Token::new(TokenType::Eof, "".into(), 1),
    ];
    let act = Scanner::new(r#""My own string" +"#.into())
        .scan_tokens()
        .unwrap();
    assert_eq!(exp, act);
}

#[test]
fn scan_number() {
    let exp = vec![
        Token::new(TokenType::Number, "2".into(), 1),
        Token::new(TokenType::Eof, "".into(), 1),
    ];
    let act = Scanner::new(r#"2"#.into()).scan_tokens().unwrap();
    assert_eq!(exp, act);
}

#[test]
fn scan_multi_digit_number() {
    let exp = vec![
        Token::new(TokenType::Number, "42".into(), 1),
        Token::new(TokenType::Eof, "".into(), 1),
    ];
    let act = Scanner::new(r#"42"#.into()).scan_tokens().unwrap();
    assert_eq!(exp, act);
}

#[test]
fn scan_float() {
    let exp = vec![
        Token::new(TokenType::Number, "6.9".into(), 1),
        Token::new(TokenType::Eof, "".into(), 1),
    ];
    let act = Scanner::new(r#"6.9"#.into()).scan_tokens().unwrap();
    assert_eq!(exp, act);
}

#[test]
fn scan_unterminated_float_throws_error() {
    let exp = Some(LoxError::UnterminatedFloat { line: 1 });
    let act = Scanner::new(r#"6."#.into()).scan_tokens().err();
    assert_eq!(exp, act);
}

#[test]
fn scan_numbers() {
    let exp = vec![
        Token::new(TokenType::Number, "2".into(), 1),
        Token::new(TokenType::Number, "3".into(), 1),
        Token::new(TokenType::Number, "4".into(), 1),
        Token::new(TokenType::Eof, "".into(), 1),
    ];
    let act = Scanner::new(r#"2 3 4"#.into()).scan_tokens().unwrap();
    assert_eq!(exp, act);
}

#[test]
fn scan_identifier() {
    let exp = vec![
        Token::new(TokenType::And, "and".into(), 1),
        Token::new(TokenType::Eof, "".into(), 1),
    ];
    let act = Scanner::new("and".into()).scan_tokens().unwrap();
    assert_eq!(exp, act);
}

#[test]
fn scan_identifiers() {
    let exp = vec![
        Token::new(TokenType::Or, "or".into(), 1),
        Token::new(TokenType::Fun, "fun".into(), 1),
        Token::new(TokenType::Eof, "".into(), 1),
    ];
    let act = Scanner::new("or fun".into()).scan_tokens().unwrap();
    assert_eq!(exp, act);
}

#[test]
fn scan_newlines() {
    let exp = vec![Token::new(TokenType::Eof, "".into(), 4)];
    let act = Scanner::new("\n\n\n".into()).scan_tokens().unwrap();
    assert_eq!(exp, act);
}

#[test]
fn scan_invalid_token_throws_error() {
    let token = "\0".to_string();
    let exp = Some(LoxError::InvalidToken {
        line: 1,
        token: token.clone(),
    });
    let act = Scanner::new(token).scan_tokens().err();
    assert_eq!(exp, act);
}

fn eof(line: usize) -> Token {
    Token::new(TokenType::Eof, "".into(), line)
}

#[test]
fn scan_each_single_character() {
    let table = [
        ('(', TokenType::LeftParen),
        (')', TokenType::RightParen),
        ('{', TokenType::LeftBrace),
        ('}', TokenType::RightBrace),
        (',', TokenType::Comma),
        ('.', TokenType::Dot),
        ('-', TokenType::Minus),
        ('+', TokenType::Plus),
        (';', TokenType::Semicolon),
        ('*', TokenType::Star),
        ('/', TokenType::Slash),
        ('!', TokenType::Bang),
        ('=', TokenType::Equal),
        ('<', TokenType::Less),
        ('>', TokenType::Greater),
    ];
    for (c, kind) in table {
        let act = Scanner::new(c.to_string()).scan_tokens().unwrap();
        assert_eq!(act, vec![Token::new(kind, c.to_string(), 1), eof(1)]);
    }
}

#[test]
fn scan_less_equal_is_one_token() {
    let act = Scanner::new("<=".into()).scan_tokens().unwrap();
    assert_eq!(
        act,
        vec![Token::new(TokenType::LessEqual, "<=".into(), 1), eof(1)]
    );
}

#[test]
fn scan_operator_before_space_is_single() {
    let act = Scanner::new("= =".into()).scan_tokens().unwrap();
    assert_eq!(
        act,
        vec![
            Token::new(TokenType::Equal, "=".into(), 1),
            Token::new(TokenType::Equal, "=".into(), 1),
            eof(1)
        ]
    );
}

#[test]
fn scan_line_numbers_follow_newlines() {
    let act = Scanner::new("+\n-\n\n*\r\t".into()).scan_tokens().unwrap();
    assert_eq!(
        act,
        vec![
            Token::new(TokenType::Plus, "+".into(), 1),
            Token::new(TokenType::Minus, "-".into(), 2),
            Token::new(TokenType::Star, "*".into(), 4),
            eof(4)
        ]
    );
}

#[test]
fn scan_comment_then_next_line() {
    let act = Scanner::new("// note\n;".into()).scan_tokens().unwrap();
    assert_eq!(
        act,
        vec![Token::new(TokenType::Semicolon, ";".into(), 2), eof(2)]
    );
}

#[test]
fn scan_string_line_is_closing_quote() {
    let act = Scanner::new("\"a\nb\nc\" .".into()).scan_tokens().unwrap();
    assert_eq!(
        act,
        vec![
            Token::new(TokenType::String, "a\nb\nc".into(), 3),
            Token::new(TokenType::Dot, ".".into(), 3),
            eof(3)
        ]
    );
}

#[test]
fn scan_empty_string_literal() {
    let act = Scanner::new("\"\"".into()).scan_tokens().unwrap();
    assert_eq!(
        act,
        vec![Token::new(TokenType::String, "".into(), 1), eof(1)]
    );
}

#[test]
fn scan_unterminated_string_counts_its_newlines() {
    let act = Scanner::new("\"a\n\nb".into()).scan_tokens().err();
    assert_eq!(act, Some(LoxError::UnterminatedString { line: 3 }));
}

#[test]
fn scan_number_then_dot() {
    let act = Scanner::new("6.a".into()).scan_tokens().err();
    assert_eq!(
        act,
        Some(LoxError::InvalidToken {
            line: 1,
            token: "a".into()
        })
    );
    let act = Scanner::new("12.+".into()).scan_tokens().unwrap();
    assert_eq!(
        act,
        vec![
            Token::new(TokenType::Number, "12".into(), 1),
            Token::new(TokenType::Dot, ".".into(), 1),
            Token::new(TokenType::Plus, "+".into(), 1),
            eof(1)
        ]
    );
}

#[test]
fn scan_float_with_many_digits() {
    let act = Scanner::new("123.4567;".into()).scan_tokens().unwrap();
    assert_eq!(
        act,
        vec![
            Token::new(TokenType::Number, "123.4567".into(), 1),
            Token::new(TokenType::Semicolon, ";".into(), 1),
            eof(1)
        ]
    );
}

#[test]
fn scan_every_keyword() {
    let words = [
        ("and", TokenType::And),
        ("class", TokenType::Class),
        ("else", TokenType::Else),
        ("false", TokenType::False),
        ("fun", TokenType::Fun),
        ("for", TokenType::For),
        ("if", TokenType::If),
        ("nil", TokenType::Nil),
        ("or", TokenType::Or),
        ("print", TokenType::Print),
        ("return", TokenType::Return),
        ("super", TokenType::Super),
        ("this", TokenType::This),
        ("true", TokenType::True),
        ("var", TokenType::Var),
        ("while", TokenType::While),
    ];
    for (w, kind) in words {
        let act = Scanner::new(w.to_string()).scan_tokens().unwrap();
        assert_eq!(act, vec![Token::new(kind, w.to_string(), 1), eof(1)]);
    }
}

#[test]
fn scan_plain_identifier_is_invalid() {
    let act = Scanner::new("var x1".into()).scan_tokens().err();
    assert_eq!(
        act,
        Some(LoxError::InvalidToken {
            line: 1,
            token: "x1".into()
        })
    );
}

#[test]
fn scan_word_runs_through_digits() {
    let act = Scanner::new("or2".into()).scan_tokens().err();
    assert_eq!(
        act,
        Some(LoxError::InvalidToken {
            line: 1,
            token: "or2".into()
        })
    );
}

#[test]
fn scan_underscore_is_invalid() {
    let act = Scanner::new("\n_".into()).scan_tokens().err();
    assert_eq!(
        act,
        Some(LoxError::InvalidToken {
            line: 2,
            token: "_".into()
        })
    );
}

#[test]
fn scan_non_ascii_reads_bytes() {
    // 'é' is two bytes, 0xC3 0xA9; the first reads as 'Ã', a letter.
    let act = Scanner::new("é".into()).scan_tokens().err();
    assert_eq!(
        act,
        Some(LoxError::InvalidToken {
            line: 1,
            token: "\u{c3}".into()
        })
    );
}

#[test]
fn scan_empty_repeatedly() {
    let mut scanner = Scanner::new("".into());
    for _ in 0..3 {
        assert_eq!(scanner.scan_tokens().unwrap(), vec![eof(1)]);
    }
}

#[test]
fn scan_again_after_end() {
    let mut scanner = Scanner::new("+\n".into());
    assert_eq!(
        scanner.scan_tokens().unwrap(),
        vec![Token::new(TokenType::Plus, "+".into(), 1), eof(2)]
    );
    assert_eq!(scanner.scan_tokens().unwrap(), vec![eof(2)]);
}

#[test]
fn scan_error_discards_earlier_tokens() {
    let act = Scanner::new("+ - #".into()).scan_tokens();
    assert_eq!(
        act,
        Err(LoxError::InvalidToken {
            line: 1,
            token: "#".into()
        })
    );
}
