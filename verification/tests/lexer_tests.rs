use weclang::lexer::Lexer;
use weclang::token::{Token, Type};

/// All tokens of `input`, up to and including the first `EndOfFile`.
fn lex_all(input: &str) -> Vec<Token> {
    let mut lexer = Lexer::new(input);
    let mut tokens = Vec::new();
    loop {
        let token = lexer.next_token();
        let done = token == Token::EndOfFile;
        tokens.push(token);
        if done {
            break;
        }
    }
    tokens
}

#[test]
fn test_next_token() {
    let input = "
            let five = 5;
            let ten = 10;

            let add = fn(x: int, y: int) -> int {
                return x + y;
            };

            let result = add(five, ten);
            !-/*5;
            5 < 10 > 5;

            if (5 < 10) {
                return true;
            } else {
                return false;
            }

            10 == 10;
            10 != 9;
        ";
    let tests = vec![
        Token::Let,
        Token::Ident("five".to_string()),
        Token::Assign,
        Token::Integer(5),
        Token::Semicolon,
        Token::Let,
        Token::Ident("ten".to_string()),
        Token::Assign,
        Token::Integer(10),
        Token::Semicolon,
        Token::Let,
        Token::Ident("add".to_string()),
        Token::Assign,
        Token::Function,
        Token::LeftParenthesis,
        Token::Ident("x".to_string()),
        Token::Colon,
        Token::Type(Type::Integer),
        Token::Comma,
        Token::Ident("y".to_string()),
        Token::Colon,
        Token::Type(Type::Integer),
        Token::RightParenthesis,
        Token::RightArrow,
        Token::Type(Type::Integer),
        Token::LeftBrace,
        Token::Return,
        Token::Ident("x".to_string()),
        Token::Plus,
        Token::Ident("y".to_string()),
        Token::Semicolon,
        Token::RightBrace,
        Token::Semicolon,
        Token::Let,
        Token::Ident("result".to_string()),
        Token::Assign,
        Token::Ident("add".to_string()),
        Token::LeftParenthesis,
        Token::Ident("five".to_string()),
        Token::Comma,
        Token::Ident("ten".to_string()),
        Token::RightParenthesis,
        Token::Semicolon,
        Token::Bang,
        Token::Minus,
        Token::Slash,
        Token::Asterisk,
        Token::Integer(5),
        Token::Semicolon,
        Token::Integer(5),
        Token::LessThan,
        Token::Integer(10),
        Token::GreaterThan,
        Token::Integer(5),
        Token::Semicolon,
        Token::If,
        Token::LeftParenthesis,
        Token::Integer(5),
        Token::LessThan,
        Token::Integer(10),
        Token::RightParenthesis,
        Token::LeftBrace,
        Token::Return,
        Token::Boolean(true),
        Token::Semicolon,
        Token::RightBrace,
        Token::Else,
        Token::LeftBrace,
        Token::Return,
        Token::Boolean(false),
        Token::Semicolon,
        Token::RightBrace,
        Token::Integer(10),
        Token::Equal,
        Token::Integer(10),
        Token::Semicolon,
        Token::Integer(10),
        Token::NotEqual,
        Token::Integer(9),
        Token::Semicolon,
    ];
    let mut lexer = Lexer::new(input);
    for test in tests {
        let token = lexer.next_token();
        assert_eq!(token, test);
    }
}

#[test]
fn scenario_let_statement() {
    assert_eq!(
        lex_all("let x = 5;"),
        vec![
            Token::Let,
            Token::Ident("x".to_string()),
            Token::Assign,
            Token::Integer(5),
            Token::Semicolon,
            Token::EndOfFile,
        ]
    );
}

#[test]
fn scenario_comparisons_and_float() {
    assert_eq!(
        lex_all("x == y != 3.14"),
        vec![
            Token::Ident("x".to_string()),
            Token::Equal,
            Token::Ident("y".to_string()),
            Token::NotEqual,
            Token::Float("3.14".to_string()),
            Token::EndOfFile,
        ]
    );
}

#[test]
fn scenario_function_header() {
    assert_eq!(
        lex_all("fn f(a: int) -> bool { return true; }"),
        vec![
            Token::Function,
            Token::Ident("f".to_string()),
            Token::LeftParenthesis,
            Token::Ident("a".to_string()),
            Token::Colon,
            Token::Type(Type::Integer),
            Token::RightParenthesis,
            Token::RightArrow,
            Token::Type(Type::Boolean),
            Token::LeftBrace,
            Token::Return,
            Token::Boolean(true),
            Token::Semicolon,
            Token::RightBrace,
            Token::EndOfFile,
        ]
    );
}

#[test]
fn scenario_illegal_character() {
    assert_eq!(
        lex_all("@"),
        vec![Token::Illegal("@".to_string()), Token::EndOfFile]
    );
}

#[test]
fn scenario_empty_input() {
    assert_eq!(lex_all(""), vec![Token::EndOfFile]);
}

#[test]
fn end_of_file_is_idempotent() {
    let mut lexer = Lexer::new("x");
    assert_eq!(lexer.next_token(), Token::Ident("x".to_string()));
    for _ in 0..5 {
        assert_eq!(lexer.next_token(), Token::EndOfFile);
    }
}

#[test]
fn whitespace_between_tokens_is_transparent() {
    let spread = lex_all(" \t let \n\r  x\t=\n5 ;  ");
    let tight = lex_all("let x = 5;");
    assert_eq!(spread, tight);
}

#[test]
fn keyword_precedence_over_identifiers() {
    assert_eq!(lex_all("let"), vec![Token::Let, Token::EndOfFile]);
    assert_eq!(
        lex_all("lett"),
        vec![Token::Ident("lett".to_string()), Token::EndOfFile]
    );
}

#[test]
fn identifier_run_is_maximal() {
    assert_eq!(
        lex_all("foo123_bar baz"),
        vec![
            Token::Ident("foo123_bar".to_string()),
            Token::Ident("baz".to_string()),
            Token::EndOfFile,
        ]
    );
}

#[test]
fn numeral_run_is_maximal() {
    assert_eq!(
        lex_all("12.34.56"),
        vec![Token::Illegal("12.34.56".to_string()), Token::EndOfFile]
    );
}

#[test]
fn reserved_words_and_literals() {
    assert_eq!(
        lex_all("true false int float bool string"),
        vec![
            Token::Boolean(true),
            Token::Boolean(false),
            Token::Type(Type::Integer),
            Token::Type(Type::Float),
            Token::Type(Type::Boolean),
            Token::Type(Type::String),
            Token::EndOfFile,
        ]
    );
}

#[test]
fn float_with_trailing_dot() {
    assert_eq!(
        lex_all("5."),
        vec![Token::Float("5.".to_string()), Token::EndOfFile]
    );
}

#[test]
fn integer_at_i64_limit() {
    assert_eq!(
        lex_all("9223372036854775807"),
        vec![Token::Integer(9223372036854775807), Token::EndOfFile]
    );
}

#[test]
fn integer_overflow_is_illegal() {
    assert_eq!(
        lex_all("9223372036854775808"),
        vec![
            Token::Illegal("9223372036854775808".to_string()),
            Token::EndOfFile,
        ]
    );
}

#[test]
fn integer_with_leading_zeros() {
    assert_eq!(
        lex_all("007"),
        vec![Token::Integer(7), Token::EndOfFile]
    );
}

#[test]
fn compound_operators_need_exact_lookahead() {
    assert_eq!(
        lex_all("= == ! != - -> < >"),
        vec![
            Token::Assign,
            Token::Equal,
            Token::Bang,
            Token::NotEqual,
            Token::Minus,
            Token::RightArrow,
            Token::LessThan,
            Token::GreaterThan,
            Token::EndOfFile,
        ]
    );
}

#[test]
fn underscore_alone_is_illegal() {
    assert_eq!(
        lex_all("_a"),
        vec![
            Token::Illegal("_".to_string()),
            Token::Ident("a".to_string()),
            Token::EndOfFile,
        ]
    );
}

#[test]
fn unskipped_whitespace_like_character_is_illegal() {
    assert_eq!(
        lex_all("\u{000C}5"),
        vec![
            Token::Illegal("\u{000C}".to_string()),
            Token::Integer(5),
            Token::EndOfFile,
        ]
    );
}

#[test]
fn non_ascii_character_is_illegal() {
    assert_eq!(
        lex_all("é"),
        vec![Token::Illegal("é".to_string()), Token::EndOfFile]
    );
}
