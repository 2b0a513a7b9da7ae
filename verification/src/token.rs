//! The token vocabulary: the closed set of lexical units the tokenizer can
//! produce, together with its mathematical counterpart used in contracts.

use vstd::prelude::*;

verus! {

/// The reserved type names of the language.
#[derive(Clone, Copy, Debug, PartialEq, Eq, Structural)]
pub enum Type {
    Integer,
    Float,
    Boolean,
    String,
}

/// One lexical unit of source text.
///
/// `Illegal` carries the offending text; `EndOfFile` marks exhaustion of the
/// input. `Float` carries the numeral text (a digit run holding exactly one
/// decimal point): tokens stay exact character data, and a consumer that
/// needs a machine float converts at its own edge.
#[derive(Debug)]
pub enum Token {
    Illegal(String),
    EndOfFile,
    Ident(String),
    Integer(i64),
    Float(String),
    Boolean(bool),
    Type(Type),
    If,
    Else,
    Function,
    Let,
    Return,
    Assign,
    Plus,
    Minus,
    Bang,
    Asterisk,
    Slash,
    GreaterThan,
    LessThan,
    Equal,
    NotEqual,
    Comma,
    Semicolon,
    Colon,
    LeftParenthesis,
    RightParenthesis,
    LeftBrace,
    RightBrace,
    RightArrow,
}

/// The mathematical image of a `Token`: text as a sequence of characters,
/// an integer literal as an unbounded integer. Contracts and lemmas speak
/// of tokens through this type.
pub enum TokenModel {
    Illegal(Seq<char>),
    EndOfFile,
    Ident(Seq<char>),
    Integer(int),
    Float(Seq<char>),
    Boolean(bool),
    Type(Type),
    If,
    Else,
    Function,
    Let,
    Return,
    Assign,
    Plus,
    Minus,
    Bang,
    Asterisk,
    Slash,
    GreaterThan,
    LessThan,
    Equal,
    NotEqual,
    Comma,
    Semicolon,
    Colon,
    LeftParenthesis,
    RightParenthesis,
    LeftBrace,
    RightBrace,
    RightArrow,
}

impl View for Token {
    type V = TokenModel;

    open spec fn view(&self) -> TokenModel {
        match self {
            Token::Illegal(s) => TokenModel::Illegal(s@),
            Token::EndOfFile => TokenModel::EndOfFile,
            Token::Ident(s) => TokenModel::Ident(s@),
            Token::Integer(i) => TokenModel::Integer(*i as int),
            Token::Float(s) => TokenModel::Float(s@),
            Token::Boolean(b) => TokenModel::Boolean(*b),
            Token::Type(t) => TokenModel::Type(*t),
            Token::If => TokenModel::If,
            Token::Else => TokenModel::Else,
            Token::Function => TokenModel::Function,
            Token::Let => TokenModel::Let,
            Token::Return => TokenModel::Return,
            Token::Assign => TokenModel::Assign,
            Token::Plus => TokenModel::Plus,
            Token::Minus => TokenModel::Minus,
            Token::Bang => TokenModel::Bang,
            Token::Asterisk => TokenModel::Asterisk,
            Token::Slash => TokenModel::Slash,
            Token::GreaterThan => TokenModel::GreaterThan,
            Token::LessThan => TokenModel::LessThan,
            Token::Equal => TokenModel::Equal,
            Token::NotEqual => TokenModel::NotEqual,
            Token::Comma => TokenModel::Comma,
            Token::Semicolon => TokenModel::Semicolon,
            Token::Colon => TokenModel::Colon,
            Token::LeftParenthesis => TokenModel::LeftParenthesis,
            Token::RightParenthesis => TokenModel::RightParenthesis,
            Token::LeftBrace => TokenModel::LeftBrace,
            Token::RightBrace => TokenModel::RightBrace,
            Token::RightArrow => TokenModel::RightArrow,
        }
    }
}

impl PartialEq for Token {
    /// Two tokens are equal exactly when their mathematical images are.
    #[verifier::rlimit(50)]
    fn eq(&self, other: &Token) -> (r: bool) {
        match (self, other) {
            (Token::Illegal(a), Token::Illegal(b)) => *a == *b,
            (Token::EndOfFile, Token::EndOfFile) => true,
            (Token::Ident(a), Token::Ident(b)) => *a == *b,
            (Token::Integer(a), Token::Integer(b)) => *a == *b,
            (Token::Float(a), Token::Float(b)) => *a == *b,
            (Token::Boolean(a), Token::Boolean(b)) => *a == *b,
            (Token::Type(a), Token::Type(b)) => *a == *b,
            (Token::If, Token::If) => true,
            (Token::Else, Token::Else) => true,
            (Token::Function, Token::Function) => true,
            (Token::Let, Token::Let) => true,
            (Token::Return, Token::Return) => true,
            (Token::Assign, Token::Assign) => true,
            (Token::Plus, Token::Plus) => true,
            (Token::Minus, Token::Minus) => true,
            (Token::Bang, Token::Bang) => true,
            (Token::Asterisk, Token::Asterisk) => true,
            (Token::Slash, Token::Slash) => true,
            (Token::GreaterThan, Token::GreaterThan) => true,
            (Token::LessThan, Token::LessThan) => true,
            (Token::Equal, Token::Equal) => true,
            (Token::NotEqual, Token::NotEqual) => true,
            (Token::Comma, Token::Comma) => true,
            (Token::Semicolon, Token::Semicolon) => true,
            (Token::Colon, Token::Colon) => true,
            (Token::LeftParenthesis, Token::LeftParenthesis) => true,
            (Token::RightParenthesis, Token::RightParenthesis) => true,
            (Token::LeftBrace, Token::LeftBrace) => true,
            (Token::RightBrace, Token::RightBrace) => true,
            (Token::RightArrow, Token::RightArrow) => true,
            _ => false,
        }
    }
}

impl vstd::std_specs::cmp::PartialEqSpecImpl for Token {
    open spec fn obeys_eq_spec() -> bool {
        true
    }

    open spec fn eq_spec(&self, other: &Token) -> bool {
        self@ == other@
    }
}

} // verus!
