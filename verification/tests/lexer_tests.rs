use monkey_lexer::lexer::Lexer;
use monkey_lexer::token::Token;

fn all_tokens(input: &str) -> Vec<Token> {
    let mut lexer = Lexer::new(input.to_string());
    let mut out = Vec::new();
    loop {
        let token = lexer.next_token();
        let done = token == Token::Eof;
        out.push(token);
        if done {
            return out;
        }
    }
}

#[test]
fn get_next_token() {
    let input = r#"let five = 5;
        let ten = 10;
        let add = fn(x, y) {
            x + y;
        };
        let result = add(five, ten);
        "#;
    let mut lexer = Lexer::new(input.into());

    let tokens = vec![
        Token::Let,
        Token::Ident("five".into()),
        Token::Assign,
        Token::Int("5".into()),
        Token::Semicolon,
        Token::Let,
        Token::Ident("ten".into()),
        Token::Assign,
        Token::Int("10".into()),
        Token::Semicolon,
        Token::Let,
        Token::Ident("add".into()),
        Token::Assign,
        Token::Function,
        Token::Lparen,
        Token::Ident("x".into()),
        Token::Comma,
        Token::Ident("y".into()),
        Token::Rparen,
        Token::Lbrace,
        Token::Ident("x".into()),
        Token::Plus,
        Token::Ident("y".into()),
        Token::Semicolon,
        Token::Rbrace,
        Token::Semicolon,
        Token::Let,
        Token::Ident("result".into()),
        Token::Assign,
        Token::Ident("add".into()),
        Token::Lparen,
        Token::Ident("five".into()),
        Token::Comma,
        Token::Ident("ten".into()),
        Token::Rparen,
        Token::Semicolon,
        Token::Eof,
    ];

    for token in tokens {
        let next_token = lexer.next_token();
        println!("type: {:?}, literal: {}", token, token.literal());
        assert_eq!(token, next_token);
    }
}

#[test]
fn end_to_end_scenario() {
    let input = "let five = 5;\nlet add = fn(x, y) { x + y; };";
    let expected = vec![
        Token::Let,
        Token::Ident("five".into()),
        Token::Assign,
        Token::Int("5".into()),
        Token::Semicolon,
        Token::Let,
        Token::Ident("add".into()),
        Token::Assign,
        Token::Function,
        Token::Lparen,
        Token::Ident("x".into()),
        Token::Comma,
        Token::Ident("y".into()),
        Token::Rparen,
        Token::Lbrace,
        Token::Ident("x".into()),
        Token::Plus,
        Token::Ident("y".into()),
        Token::Semicolon,
        Token::Rbrace,
        Token::Semicolon,
        Token::Eof,
    ];
    assert_eq!(all_tokens(input), expected);
}

#[test]
fn remaining_tokens_matches_pulling_one_by_one() {
    let input = "let x = 1; @ { }";
    let mut lexer = Lexer::new(input.to_string());
    assert_eq!(lexer.remaining_tokens(), all_tokens(input));
    // the terminal state is stable: pulling again yields only Eof
    assert_eq!(lexer.remaining_tokens(), vec![Token::Eof]);
}

#[test]
fn empty_input_yields_only_eof() {
    assert_eq!(all_tokens(""), vec![Token::Eof]);
}

#[test]
fn unrecognized_byte_yields_illegal_then_eof() {
    assert_eq!(all_tokens("@"), vec![Token::Illegal, Token::Eof]);
}

#[test]
fn embedded_zero_byte_is_illegal() {
    assert_eq!(
        all_tokens("\u{0}+"),
        vec![Token::Illegal, Token::Plus, Token::Eof]
    );
}

#[test]
fn keyword_precedence_is_exact_and_case_sensitive() {
    assert_eq!(
        all_tokens("fn let function lets Fn Let"),
        vec![
            Token::Function,
            Token::Let,
            Token::Ident("function".into()),
            Token::Ident("lets".into()),
            Token::Ident("Fn".into()),
            Token::Ident("Let".into()),
            Token::Eof,
        ]
    );
}

#[test]
fn maximal_munch_takes_whole_runs() {
    assert_eq!(
        all_tokens("(abcde)"),
        vec![
            Token::Lparen,
            Token::Ident("abcde".into()),
            Token::Rparen,
            Token::Eof,
        ]
    );
    assert_eq!(
        all_tokens(";98765;"),
        vec![
            Token::Semicolon,
            Token::Int("98765".into()),
            Token::Semicolon,
            Token::Eof,
        ]
    );
    // an identifier run stops at a digit, a number run at a letter
    assert_eq!(
        all_tokens("abc123"),
        vec![
            Token::Ident("abc".into()),
            Token::Int("123".into()),
            Token::Eof,
        ]
    );
}

#[test]
fn underscore_starts_and_extends_identifiers() {
    assert_eq!(
        all_tokens("_foo_bar"),
        vec![Token::Ident("_foo_bar".into()), Token::Eof]
    );
}

#[test]
fn eof_is_idempotent() {
    let mut lexer = Lexer::new("+".to_string());
    assert_eq!(lexer.next_token(), Token::Plus);
    assert_eq!(lexer.next_token(), Token::Eof);
    assert_eq!(lexer.next_token(), Token::Eof);
    assert_eq!(lexer.next_token(), Token::Eof);
}

#[test]
fn whitespace_between_tokens_is_transparent() {
    let spaced = " let \t x =\r\n 42 ; ";
    let tight = "let x=42;";
    assert_eq!(all_tokens(spaced), all_tokens(tight));
    assert_eq!(
        all_tokens(tight),
        vec![
            Token::Let,
            Token::Ident("x".into()),
            Token::Assign,
            Token::Int("42".into()),
            Token::Semicolon,
            Token::Eof,
        ]
    );
}

#[test]
fn whitespace_alone_yields_only_eof() {
    assert_eq!(all_tokens(" \t\r\n "), vec![Token::Eof]);
}

#[test]
fn every_structural_symbol_lexes() {
    assert_eq!(
        all_tokens("=+,;(){}"),
        vec![
            Token::Assign,
            Token::Plus,
            Token::Comma,
            Token::Semicolon,
            Token::Lparen,
            Token::Rparen,
            Token::Lbrace,
            Token::Rbrace,
            Token::Eof,
        ]
    );
}

#[test]
fn literal_renders_every_token() {
    assert_eq!(Token::Illegal.literal(), "Illegal");
    assert_eq!(Token::Eof.literal(), "");
    assert_eq!(Token::Ident("five".into()).literal(), "five");
    assert_eq!(Token::Int("10".into()).literal(), "10");
    assert_eq!(Token::Assign.literal(), "=");
    assert_eq!(Token::Plus.literal(), "+");
    assert_eq!(Token::Comma.literal(), ",");
    assert_eq!(Token::Semicolon.literal(), ";");
    assert_eq!(Token::Lparen.literal(), "(");
    assert_eq!(Token::Rparen.literal(), ")");
    assert_eq!(Token::Lbrace.literal(), "{");
    assert_eq!(Token::Rbrace.literal(), "}");
    assert_eq!(Token::Function.literal(), "fn");
    assert_eq!(Token::Let.literal(), "let");
}
