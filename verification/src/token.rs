//! The token taxonomy: the closed set of lexical categories that scanning
//! produces, together with its mathematical model.

use vstd::prelude::*;

verus! {

/// A lexical token. `Ident` and `Int` carry the exact matched text.
#[derive(Debug, PartialEq)]
pub enum Token {
    /// A byte that matched no known category.
    Illegal,
    /// The buffer is exhausted.
    Eof,
    /// A maximal run of ASCII-alphabetic or underscore bytes that is not a keyword.
    Ident(String),
    /// A maximal run of ASCII decimal digits, kept as unparsed text.
    Int(String),
    Assign,
    Plus,
    Comma,
    Semicolon,
    Lparen,
    Rparen,
    Lbrace,
    Rbrace,
    /// The keyword `fn`.
    Function,
    /// The keyword `let`.
    Let,
}

/// The mathematical model of a token: literal text is a sequence of
/// characters, everything else is a bare tag.
pub enum TokenModel {
    Illegal,
    Eof,
    Ident(Seq<char>),
    Int(Seq<char>),
    Assign,
    Plus,
    Comma,
    Semicolon,
    Lparen,
    Rparen,
    Lbrace,
    Rbrace,
    Function,
    Let,
}

impl View for Token {
    type V = TokenModel;

    open spec fn view(&self) -> TokenModel {
        match self {
            Token::Illegal => TokenModel::Illegal,
            Token::Eof => TokenModel::Eof,
            Token::Ident(s) => TokenModel::Ident(s@),
            Token::Int(s) => TokenModel::Int(s@),
            Token::Assign => TokenModel::Assign,
            Token::Plus => TokenModel::Plus,
            Token::Comma => TokenModel::Comma,
            Token::Semicolon => TokenModel::Semicolon,
            Token::Lparen => TokenModel::Lparen,
            Token::Rparen => TokenModel::Rparen,
            Token::Lbrace => TokenModel::Lbrace,
            Token::Rbrace => TokenModel::Rbrace,
            Token::Function => TokenModel::Function,
            Token::Let => TokenModel::Let,
        }
    }
}

/// The characters that a sequence of bytes spells, each byte read as the
/// character with that code point.
pub open spec fn chars_of(s: Seq<u8>) -> Seq<char> {
    s.map_values(|b: u8| b as char)
}

/// The canonical display text of a token: the carried text for `Ident` and
/// `Int`, the printed character for a structural token, the reserved
/// spelling for a keyword, the empty text for `Eof`, and a fixed placeholder
/// for `Illegal`.
pub open spec fn literal_text(t: TokenModel) -> Seq<char> {
    match t {
        TokenModel::Illegal => "Illegal"@,
        TokenModel::Eof => ""@,
        TokenModel::Ident(text) => text,
        TokenModel::Int(text) => text,
        TokenModel::Assign => "="@,
        TokenModel::Plus => "+"@,
        TokenModel::Comma => ","@,
        TokenModel::Semicolon => ";"@,
        TokenModel::Lparen => "("@,
        TokenModel::Rparen => ")"@,
        TokenModel::Lbrace => "{"@,
        TokenModel::Rbrace => "}"@,
        TokenModel::Function => "fn"@,
        TokenModel::Let => "let"@,
    }
}

impl Token {
    /// The canonical display string of the token, for diagnostics.
    pub fn literal(&self) -> (text: String)
        ensures
            text@ == literal_text(self@),
    {
        match self {
            Token::Illegal => String::from_str("Illegal"),
            Token::Eof => String::from_str(""),
            Token::Ident(text) => text.clone(),
            Token::Int(text) => text.clone(),
            Token::Assign => String::from_str("="),
            Token::Plus => String::from_str("+"),
            Token::Comma => String::from_str(","),
            Token::Semicolon => String::from_str(";"),
            Token::Lparen => String::from_str("("),
            Token::Rparen => String::from_str(")"),
            Token::Lbrace => String::from_str("{"),
            Token::Rbrace => String::from_str("}"),
            Token::Function => String::from_str("fn"),
            Token::Let => String::from_str("let"),
        }
    }
}

} // verus!
