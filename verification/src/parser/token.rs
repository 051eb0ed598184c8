use vstd::prelude::*;
use crate::ast::expression::Operator;

verus! {

/// A token: its kind, and the line on which it ends.
#[derive(Debug, Clone, PartialEq)]
pub struct Token {
    pub line: u128,
    pub typ: TokenType,
}

/// The kind of a token, with its text where it has one. A number holds the
/// text of its digits. `LeftParen` and `RightParen` are the curly brackets,
/// `LeftBrace` and `RightBrace` the round ones.
#[derive(Debug, Clone, PartialEq)]
pub enum TokenType {
    LeftParen,
    RightParen,
    LeftBrace,
    RightBrace,
    LeftSquareBracket,
    RightSquareBracket,
    Comma,
    Dot,
    Possesive,
    DoubleDot,
    Minus,
    Plus,
    Semicolon,
    Slash,
    Star,
    Pow,
    Equal,
    Grater,
    GraterEqual,
    Less,
    LessEqual,
    Identifier(String),
    String(String),
    Number(String),
    And,
    Or,
    If,
    Else,
    Is,
    Not,
    Mod,
    Fun,
    Loop,
    Reverse,
    As,
    Nil,
    Print,
    Return,
    True,
    False,
    Var,
    Const,
    While,
    For,
    Break,
    Eof,
    Colon,
}

/// The kind of a token, without its text.
#[derive(Debug, Clone, Copy, PartialEq, Eq, Structural)]
pub enum TokenKind {
    LeftParen,
    RightParen,
    LeftBrace,
    RightBrace,
    LeftSquareBracket,
    RightSquareBracket,
    Comma,
    Dot,
    Possesive,
    DoubleDot,
    Minus,
    Plus,
    Semicolon,
    Slash,
    Star,
    Pow,
    Equal,
    Grater,
    GraterEqual,
    Less,
    LessEqual,
    Identifier,
    String,
    Number,
    And,
    Or,
    If,
    Else,
    Is,
    Not,
    Mod,
    Fun,
    Loop,
    Reverse,
    As,
    Nil,
    Print,
    Return,
    True,
    False,
    Var,
    Const,
    While,
    For,
    Break,
    Eof,
    Colon,
}

/// What a token holds: its kind, its text (empty where the kind has none),
/// and its line.
pub struct Lexeme {
    pub kind: TokenKind,
    pub text: Seq<char>,
    pub line: u128,
}

impl TokenType {
    pub open spec fn spec_kind(&self) -> TokenKind {
        match *self {
            TokenType::LeftParen => TokenKind::LeftParen,
            TokenType::RightParen => TokenKind::RightParen,
            TokenType::LeftBrace => TokenKind::LeftBrace,
            TokenType::RightBrace => TokenKind::RightBrace,
            TokenType::LeftSquareBracket => TokenKind::LeftSquareBracket,
            TokenType::RightSquareBracket => TokenKind::RightSquareBracket,
            TokenType::Comma => TokenKind::Comma,
            TokenType::Dot => TokenKind::Dot,
            TokenType::Possesive => TokenKind::Possesive,
            TokenType::DoubleDot => TokenKind::DoubleDot,
            TokenType::Minus => TokenKind::Minus,
            TokenType::Plus => TokenKind::Plus,
            TokenType::Semicolon => TokenKind::Semicolon,
            TokenType::Slash => TokenKind::Slash,
            TokenType::Star => TokenKind::Star,
            TokenType::Pow => TokenKind::Pow,
            TokenType::Equal => TokenKind::Equal,
            TokenType::Grater => TokenKind::Grater,
            TokenType::GraterEqual => TokenKind::GraterEqual,
            TokenType::Less => TokenKind::Less,
            TokenType::LessEqual => TokenKind::LessEqual,
            TokenType::And => TokenKind::And,
            TokenType::Or => TokenKind::Or,
            TokenType::If => TokenKind::If,
            TokenType::Else => TokenKind::Else,
            TokenType::Is => TokenKind::Is,
            TokenType::Not => TokenKind::Not,
            TokenType::Mod => TokenKind::Mod,
            TokenType::Fun => TokenKind::Fun,
            TokenType::Loop => TokenKind::Loop,
            TokenType::Reverse => TokenKind::Reverse,
            TokenType::As => TokenKind::As,
            TokenType::Nil => TokenKind::Nil,
            TokenType::Print => TokenKind::Print,
            TokenType::Return => TokenKind::Return,
            TokenType::True => TokenKind::True,
            TokenType::False => TokenKind::False,
            TokenType::Var => TokenKind::Var,
            TokenType::Const => TokenKind::Const,
            TokenType::While => TokenKind::While,
            TokenType::For => TokenKind::For,
            TokenType::Break => TokenKind::Break,
            TokenType::Eof => TokenKind::Eof,
            TokenType::Colon => TokenKind::Colon,
            TokenType::Identifier(_) => TokenKind::Identifier,
            TokenType::String(_) => TokenKind::String,
            TokenType::Number(_) => TokenKind::Number,
        }
    }

    pub open spec fn spec_text(&self) -> Seq<char> {
        match *self {
            TokenType::Identifier(text) => text@,
            TokenType::String(text) => text@,
            TokenType::Number(text) => text@,
            _ => Seq::empty(),
        }
    }

    #[verifier::when_used_as_spec(spec_kind)]
    pub fn kind(&self) -> (kind: TokenKind)
        ensures
            kind == self.spec_kind(),
    {
        match self {
            TokenType::LeftParen => TokenKind::LeftParen,
            TokenType::RightParen => TokenKind::RightParen,
            TokenType::LeftBrace => TokenKind::LeftBrace,
            TokenType::RightBrace => TokenKind::RightBrace,
            TokenType::LeftSquareBracket => TokenKind::LeftSquareBracket,
            TokenType::RightSquareBracket => TokenKind::RightSquareBracket,
            TokenType::Comma => TokenKind::Comma,
            TokenType::Dot => TokenKind::Dot,
            TokenType::Possesive => TokenKind::Possesive,
            TokenType::DoubleDot => TokenKind::DoubleDot,
            TokenType::Minus => TokenKind::Minus,
            TokenType::Plus => TokenKind::Plus,
            TokenType::Semicolon => TokenKind::Semicolon,
            TokenType::Slash => TokenKind::Slash,
            TokenType::Star => TokenKind::Star,
            TokenType::Pow => TokenKind::Pow,
            TokenType::Equal => TokenKind::Equal,
            TokenType::Grater => TokenKind::Grater,
            TokenType::GraterEqual => TokenKind::GraterEqual,
            TokenType::Less => TokenKind::Less,
            TokenType::LessEqual => TokenKind::LessEqual,
            TokenType::And => TokenKind::And,
            TokenType::Or => TokenKind::Or,
            TokenType::If => TokenKind::If,
            TokenType::Else => TokenKind::Else,
            TokenType::Is => TokenKind::Is,
            TokenType::Not => TokenKind::Not,
            TokenType::Mod => TokenKind::Mod,
            TokenType::Fun => TokenKind::Fun,
            TokenType::Loop => TokenKind::Loop,
            TokenType::Reverse => TokenKind::Reverse,
            TokenType::As => TokenKind::As,
            TokenType::Nil => TokenKind::Nil,
            TokenType::Print => TokenKind::Print,
            TokenType::Return => TokenKind::Return,
            TokenType::True => TokenKind::True,
            TokenType::False => TokenKind::False,
            TokenType::Var => TokenKind::Var,
            TokenType::Const => TokenKind::Const,
            TokenType::While => TokenKind::While,
            TokenType::For => TokenKind::For,
            TokenType::Break => TokenKind::Break,
            TokenType::Eof => TokenKind::Eof,
            TokenType::Colon => TokenKind::Colon,
            TokenType::Identifier(_) => TokenKind::Identifier,
            TokenType::String(_) => TokenKind::String,
            TokenType::Number(_) => TokenKind::Number,
        }
    }

    /// The token type of a kind that has no text.
    pub fn of_kind(kind: TokenKind) -> (typ: TokenType)
        requires
            kind != TokenKind::Identifier,
            kind != TokenKind::String,
            kind != TokenKind::Number,
        ensures
            typ.spec_kind() == kind,
            typ.spec_text() == Seq::<char>::empty(),
    {
        match kind {
            TokenKind::LeftParen => TokenType::LeftParen,
            TokenKind::RightParen => TokenType::RightParen,
            TokenKind::LeftBrace => TokenType::LeftBrace,
            TokenKind::RightBrace => TokenType::RightBrace,
            TokenKind::LeftSquareBracket => TokenType::LeftSquareBracket,
            TokenKind::RightSquareBracket => TokenType::RightSquareBracket,
            TokenKind::Comma => TokenType::Comma,
            TokenKind::Dot => TokenType::Dot,
            TokenKind::Possesive => TokenType::Possesive,
            TokenKind::DoubleDot => TokenType::DoubleDot,
            TokenKind::Minus => TokenType::Minus,
            TokenKind::Plus => TokenType::Plus,
            TokenKind::Semicolon => TokenType::Semicolon,
            TokenKind::Slash => TokenType::Slash,
            TokenKind::Star => TokenType::Star,
            TokenKind::Pow => TokenType::Pow,
            TokenKind::Equal => TokenType::Equal,
            TokenKind::Grater => TokenType::Grater,
            TokenKind::GraterEqual => TokenType::GraterEqual,
            TokenKind::Less => TokenType::Less,
            TokenKind::LessEqual => TokenType::LessEqual,
            TokenKind::And => TokenType::And,
            TokenKind::Or => TokenType::Or,
            TokenKind::If => TokenType::If,
            TokenKind::Else => TokenType::Else,
            TokenKind::Is => TokenType::Is,
            TokenKind::Not => TokenType::Not,
            TokenKind::Mod => TokenType::Mod,
            TokenKind::Fun => TokenType::Fun,
            TokenKind::Loop => TokenType::Loop,
            TokenKind::Reverse => TokenType::Reverse,
            TokenKind::As => TokenType::As,
            TokenKind::Nil => TokenType::Nil,
            TokenKind::Print => TokenType::Print,
            TokenKind::Return => TokenType::Return,
            TokenKind::True => TokenType::True,
            TokenKind::False => TokenType::False,
            TokenKind::Var => TokenType::Var,
            TokenKind::Const => TokenType::Const,
            TokenKind::While => TokenType::While,
            TokenKind::For => TokenType::For,
            TokenKind::Break => TokenType::Break,
            TokenKind::Eof => TokenType::Eof,
            TokenKind::Colon => TokenType::Colon,
            _ => TokenType::Eof,
        }
    }
}

impl Token {
    pub open spec fn view(&self) -> Lexeme {
        Lexeme { kind: self.typ.spec_kind(), text: self.typ.spec_text(), line: self.line }
    }
}

/// What tokens hold.
pub open spec fn lexemes(tokens: Seq<Token>) -> Seq<Lexeme> {
    Seq::new(tokens.len(), |i: int| tokens[i]@)
}

/// The operator of a token that stands for a binary operator.
pub open spec fn spec_operator(kind: TokenKind) -> Option<Operator> {
    match kind {
        TokenKind::Mod => Some(Operator::Mod),
        TokenKind::And => Some(Operator::And),
        TokenKind::Or => Some(Operator::Or),
        TokenKind::Slash => Some(Operator::Div),
        TokenKind::Star => Some(Operator::Mul),
        TokenKind::Plus => Some(Operator::Plus),
        TokenKind::Minus => Some(Operator::Minus),
        TokenKind::Pow => Some(Operator::Pow),
        TokenKind::Grater => Some(Operator::Greater),
        TokenKind::GraterEqual => Some(Operator::Ge),
        TokenKind::Less => Some(Operator::Less),
        TokenKind::LessEqual => Some(Operator::Le),
        _ => None,
    }
}

pub fn operator_of(kind: TokenKind) -> (operator: Option<Operator>)
    ensures
        operator == spec_operator(kind),
{
    match kind {
        TokenKind::Mod => Some(Operator::Mod),
        TokenKind::And => Some(Operator::And),
        TokenKind::Or => Some(Operator::Or),
        TokenKind::Slash => Some(Operator::Div),
        TokenKind::Star => Some(Operator::Mul),
        TokenKind::Plus => Some(Operator::Plus),
        TokenKind::Minus => Some(Operator::Minus),
        TokenKind::Pow => Some(Operator::Pow),
        TokenKind::Grater => Some(Operator::Greater),
        TokenKind::GraterEqual => Some(Operator::Ge),
        TokenKind::Less => Some(Operator::Less),
        TokenKind::LessEqual => Some(Operator::Le),
        _ => None,
    }
}

} // verus!
