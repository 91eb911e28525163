use vstd::prelude::*;
use crate::num::Number;

verus! {

/// What a token is: a literal payload for numbers, strings and
/// identifiers, or a fixed kind for operators, punctuation and keywords.
#[derive(Debug, PartialEq)]
pub enum TokenKind {
    // literals
    Number(Number),
    Str(String),
    Identifier(String),
    // operators
    Plus,
    Minus,
    Star,
    Slash,
    Equal,
    PlusEqual,
    MinusEqual,
    StarEqual,
    SlashEqual,
    EqualEqual,
    BangEqual,
    Greater,
    Less,
    GreaterEqual,
    LessEqual,
    // punctuation
    LParen,
    RParen,
    LBrace,
    RBrace,
    LBracket,
    RBracket,
    Comma,
    Dot,
    Semicolon,
    // keywords
    Let,
    Const,
    Fn,
    If,
    Else,
    While,
    Return,
    Import,
    Export,
    True,
    False,
    Null,
    Eof,
}

/// The mathematical shape of a token kind: text payloads as character
/// sequences.
pub enum TokenKindModel {
    Number(Number),
    Str(Seq<char>),
    Identifier(Seq<char>),
    Plus,
    Minus,
    Star,
    Slash,
    Equal,
    PlusEqual,
    MinusEqual,
    StarEqual,
    SlashEqual,
    EqualEqual,
    BangEqual,
    Greater,
    Less,
    GreaterEqual,
    LessEqual,
    LParen,
    RParen,
    LBrace,
    RBrace,
    LBracket,
    RBracket,
    Comma,
    Dot,
    Semicolon,
    Let,
    Const,
    Fn,
    If,
    Else,
    While,
    Return,
    Import,
    Export,
    True,
    False,
    Null,
    Eof,
}

impl View for TokenKind {
    type V = TokenKindModel;

    open spec fn view(&self) -> TokenKindModel {
        match self {
            TokenKind::Number(n) => TokenKindModel::Number(*n),
            TokenKind::Str(s) => TokenKindModel::Str(s@),
            TokenKind::Identifier(s) => TokenKindModel::Identifier(s@),
            TokenKind::Plus => TokenKindModel::Plus,
            TokenKind::Minus => TokenKindModel::Minus,
            TokenKind::Star => TokenKindModel::Star,
            TokenKind::Slash => TokenKindModel::Slash,
            TokenKind::Equal => TokenKindModel::Equal,
            TokenKind::PlusEqual => TokenKindModel::PlusEqual,
            TokenKind::MinusEqual => TokenKindModel::MinusEqual,
            TokenKind::StarEqual => TokenKindModel::StarEqual,
            TokenKind::SlashEqual => TokenKindModel::SlashEqual,
            TokenKind::EqualEqual => TokenKindModel::EqualEqual,
            TokenKind::BangEqual => TokenKindModel::BangEqual,
            TokenKind::Greater => TokenKindModel::Greater,
            TokenKind::Less => TokenKindModel::Less,
            TokenKind::GreaterEqual => TokenKindModel::GreaterEqual,
            TokenKind::LessEqual => TokenKindModel::LessEqual,
            TokenKind::LParen => TokenKindModel::LParen,
            TokenKind::RParen => TokenKindModel::RParen,
            TokenKind::LBrace => TokenKindModel::LBrace,
            TokenKind::RBrace => TokenKindModel::RBrace,
            TokenKind::LBracket => TokenKindModel::LBracket,
            TokenKind::RBracket => TokenKindModel::RBracket,
            TokenKind::Comma => TokenKindModel::Comma,
            TokenKind::Dot => TokenKindModel::Dot,
            TokenKind::Semicolon => TokenKindModel::Semicolon,
            TokenKind::Let => TokenKindModel::Let,
            TokenKind::Const => TokenKindModel::Const,
            TokenKind::Fn => TokenKindModel::Fn,
            TokenKind::If => TokenKindModel::If,
            TokenKind::Else => TokenKindModel::Else,
            TokenKind::While => TokenKindModel::While,
            TokenKind::Return => TokenKindModel::Return,
            TokenKind::Import => TokenKindModel::Import,
            TokenKind::Export => TokenKindModel::Export,
            TokenKind::True => TokenKindModel::True,
            TokenKind::False => TokenKindModel::False,
            TokenKind::Null => TokenKindModel::Null,
            TokenKind::Eof => TokenKindModel::Eof,
        }
    }
}

/// A token and the source line it came from (for diagnostics).
#[derive(Debug, PartialEq)]
pub struct Token {
    pub kind: TokenKind,
    pub line: usize,
}

/// The mathematical shape of a token.
pub struct TokenModel {
    pub kind: TokenKindModel,
    pub line: nat,
}

impl View for Token {
    type V = TokenModel;

    open spec fn view(&self) -> TokenModel {
        TokenModel { kind: self.kind@, line: self.line as nat }
    }
}

/// The models of a sequence of tokens.
pub open spec fn tokens_model(ts: Seq<Token>) -> Seq<TokenModel> {
    ts.map_values(|t: Token| t@)
}

} // verus!
