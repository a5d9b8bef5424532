//! The token vocabulary and the lexical errors.
//!
//! Every executable type has a ghost counterpart in which text is a
//! `Seq<char>`; the counterpart is the type's view, and the contracts of the
//! lexer and of the parser are stated over it.

use std::num::ParseIntError;
use vstd::prelude::*;
use vstd::std_specs::cmp::PartialEqSpecImpl;

verus! {

/// `std::num::ParseIntError`, the error of the standard integer conversion.
/// Nothing is known of what a value of it holds.
#[verifier::external_type_specification]
#[verifier::external_body]
pub struct ExParseIntError(ParseIntError);

/// `<ParseIntError as Clone>::clone`. Nothing is claimed of the copy.
pub assume_specification[ <ParseIntError as Clone>::clone ](e: &ParseIntError) -> (r: ParseIntError);

/// Why a stretch of source text is not a token.
#[derive(Debug, PartialEq)]
pub enum LexicalError {
    /// An integer literal that does not fit in 64 signed bits, with the
    /// error of the conversion that refused it.
    InvalidInteger(ParseIntError),
    /// No lexical rule matches at this place.
    InvalidToken,
}

/// A lexical error without its payload.
#[derive(Clone, Copy, Debug, PartialEq, Eq, Structural)]
pub enum LexicalErrorKind {
    InvalidInteger,
    InvalidToken,
}

impl View for LexicalError {
    type V = LexicalErrorKind;

    open spec fn view(&self) -> LexicalErrorKind {
        match self {
            LexicalError::InvalidInteger(_) => LexicalErrorKind::InvalidInteger,
            LexicalError::InvalidToken => LexicalErrorKind::InvalidToken,
        }
    }
}

impl LexicalError {
    /// The error without its payload.
    pub fn kind(&self) -> (k: LexicalErrorKind)
        ensures
            k == self@,
    {
        match self {
            LexicalError::InvalidInteger(_) => LexicalErrorKind::InvalidInteger,
            LexicalError::InvalidToken => LexicalErrorKind::InvalidToken,
        }
    }
}

impl Clone for LexicalError {
    fn clone(&self) -> (r: LexicalError)
        ensures
            r@ == self@,
    {
        match self {
            LexicalError::InvalidInteger(err) => LexicalError::InvalidInteger(err.clone()),
            LexicalError::InvalidToken => LexicalError::InvalidToken,
        }
    }
}

impl Default for LexicalError {
    /// The fallback error is `InvalidToken`.
    fn default() -> (r: LexicalError)
        ensures
            r == LexicalError::InvalidToken,
    {
        LexicalError::InvalidToken
    }
}

impl From<ParseIntError> for LexicalError {
    fn from(err: ParseIntError) -> (r: LexicalError) {
        LexicalError::InvalidInteger(err)
    }
}

impl vstd::std_specs::convert::FromSpecImpl<ParseIntError> for LexicalError {
    open spec fn obeys_from_spec() -> bool {
        true
    }

    open spec fn from_spec(err: ParseIntError) -> LexicalError {
        LexicalError::InvalidInteger(err)
    }
}

/// A token. A float literal is kept as it was written, digits and point;
/// a string literal is kept without its quotes.
#[derive(Debug)]
pub enum Token {
    KeywordProgram,
    KeywordMain,
    KeywordPrint,
    KeywordIf,
    KeywordElse,
    KeywordWhile,
    KeywordDo,
    KeywordEnd,
    KeywordInt,
    KeywordFloat,
    KeywordVar,
    KeywordVoid,
    Identifier(String),
    Integer(i64),
    Float(String),
    String(String),
    LParen,
    RParen,
    LBraket,
    RBraket,
    LBrace,
    RBrace,
    Semicolon,
    TwoPoints,
    Comma,
    AssignSimbol,
    NotEqual,
    BigerThan,
    SmallerThan,
    OperatorAdd,
    OperatorSub,
    OperatorMul,
    OperatorDiv,
}

/// The ghost counterpart of [`Token`].
pub enum SpecToken {
    KeywordProgram,
    KeywordMain,
    KeywordPrint,
    KeywordIf,
    KeywordElse,
    KeywordWhile,
    KeywordDo,
    KeywordEnd,
    KeywordInt,
    KeywordFloat,
    KeywordVar,
    KeywordVoid,
    Identifier(Seq<char>),
    Integer(i64),
    Float(Seq<char>),
    String(Seq<char>),
    LParen,
    RParen,
    LBraket,
    RBraket,
    LBrace,
    RBrace,
    Semicolon,
    TwoPoints,
    Comma,
    AssignSimbol,
    NotEqual,
    BigerThan,
    SmallerThan,
    OperatorAdd,
    OperatorSub,
    OperatorMul,
    OperatorDiv,
}

/// A token's category: the token without its text or value.
#[derive(Clone, Copy, Debug, PartialEq, Eq, Structural)]
pub enum TokenKind {
    KeywordProgram,
    KeywordMain,
    KeywordPrint,
    KeywordIf,
    KeywordElse,
    KeywordWhile,
    KeywordDo,
    KeywordEnd,
    KeywordInt,
    KeywordFloat,
    KeywordVar,
    KeywordVoid,
    Identifier,
    Integer,
    Float,
    String,
    LParen,
    RParen,
    LBraket,
    RBraket,
    LBrace,
    RBrace,
    Semicolon,
    TwoPoints,
    Comma,
    AssignSimbol,
    NotEqual,
    BigerThan,
    SmallerThan,
    OperatorAdd,
    OperatorSub,
    OperatorMul,
    OperatorDiv,
}

impl SpecToken {
    pub open spec fn kind(self) -> TokenKind {
        match self {
            SpecToken::KeywordProgram => TokenKind::KeywordProgram,
            SpecToken::KeywordMain => TokenKind::KeywordMain,
            SpecToken::KeywordPrint => TokenKind::KeywordPrint,
            SpecToken::KeywordIf => TokenKind::KeywordIf,
            SpecToken::KeywordElse => TokenKind::KeywordElse,
            SpecToken::KeywordWhile => TokenKind::KeywordWhile,
            SpecToken::KeywordDo => TokenKind::KeywordDo,
            SpecToken::KeywordEnd => TokenKind::KeywordEnd,
            SpecToken::KeywordInt => TokenKind::KeywordInt,
            SpecToken::KeywordFloat => TokenKind::KeywordFloat,
            SpecToken::KeywordVar => TokenKind::KeywordVar,
            SpecToken::KeywordVoid => TokenKind::KeywordVoid,
            SpecToken::Identifier(_) => TokenKind::Identifier,
            SpecToken::Integer(_) => TokenKind::Integer,
            SpecToken::Float(_) => TokenKind::Float,
            SpecToken::String(_) => TokenKind::String,
            SpecToken::LParen => TokenKind::LParen,
            SpecToken::RParen => TokenKind::RParen,
            SpecToken::LBraket => TokenKind::LBraket,
            SpecToken::RBraket => TokenKind::RBraket,
            SpecToken::LBrace => TokenKind::LBrace,
            SpecToken::RBrace => TokenKind::RBrace,
            SpecToken::Semicolon => TokenKind::Semicolon,
            SpecToken::TwoPoints => TokenKind::TwoPoints,
            SpecToken::Comma => TokenKind::Comma,
            SpecToken::AssignSimbol => TokenKind::AssignSimbol,
            SpecToken::NotEqual => TokenKind::NotEqual,
            SpecToken::BigerThan => TokenKind::BigerThan,
            SpecToken::SmallerThan => TokenKind::SmallerThan,
            SpecToken::OperatorAdd => TokenKind::OperatorAdd,
            SpecToken::OperatorSub => TokenKind::OperatorSub,
            SpecToken::OperatorMul => TokenKind::OperatorMul,
            SpecToken::OperatorDiv => TokenKind::OperatorDiv,
        }
    }
}

impl View for Token {
    type V = SpecToken;

    open spec fn view(&self) -> SpecToken {
        match self {
            Token::KeywordProgram => SpecToken::KeywordProgram,
            Token::KeywordMain => SpecToken::KeywordMain,
            Token::KeywordPrint => SpecToken::KeywordPrint,
            Token::KeywordIf => SpecToken::KeywordIf,
            Token::KeywordElse => SpecToken::KeywordElse,
            Token::KeywordWhile => SpecToken::KeywordWhile,
            Token::KeywordDo => SpecToken::KeywordDo,
            Token::KeywordEnd => SpecToken::KeywordEnd,
            Token::KeywordInt => SpecToken::KeywordInt,
            Token::KeywordFloat => SpecToken::KeywordFloat,
            Token::KeywordVar => SpecToken::KeywordVar,
            Token::KeywordVoid => SpecToken::KeywordVoid,
            Token::Identifier(text) => SpecToken::Identifier(text@),
            Token::Integer(value) => SpecToken::Integer(*value),
            Token::Float(text) => SpecToken::Float(text@),
            Token::String(text) => SpecToken::String(text@),
            Token::LParen => SpecToken::LParen,
            Token::RParen => SpecToken::RParen,
            Token::LBraket => SpecToken::LBraket,
            Token::RBraket => SpecToken::RBraket,
            Token::LBrace => SpecToken::LBrace,
            Token::RBrace => SpecToken::RBrace,
            Token::Semicolon => SpecToken::Semicolon,
            Token::TwoPoints => SpecToken::TwoPoints,
            Token::Comma => SpecToken::Comma,
            Token::AssignSimbol => SpecToken::AssignSimbol,
            Token::NotEqual => SpecToken::NotEqual,
            Token::BigerThan => SpecToken::BigerThan,
            Token::SmallerThan => SpecToken::SmallerThan,
            Token::OperatorAdd => SpecToken::OperatorAdd,
            Token::OperatorSub => SpecToken::OperatorSub,
            Token::OperatorMul => SpecToken::OperatorMul,
            Token::OperatorDiv => SpecToken::OperatorDiv,
        }
    }
}

impl Clone for Token {
    fn clone(&self) -> (r: Token)
        ensures
            r@ == self@,
    {
        match self {
            Token::KeywordProgram => Token::KeywordProgram,
            Token::KeywordMain => Token::KeywordMain,
            Token::KeywordPrint => Token::KeywordPrint,
            Token::KeywordIf => Token::KeywordIf,
            Token::KeywordElse => Token::KeywordElse,
            Token::KeywordWhile => Token::KeywordWhile,
            Token::KeywordDo => Token::KeywordDo,
            Token::KeywordEnd => Token::KeywordEnd,
            Token::KeywordInt => Token::KeywordInt,
            Token::KeywordFloat => Token::KeywordFloat,
            Token::KeywordVar => Token::KeywordVar,
            Token::KeywordVoid => Token::KeywordVoid,
            Token::Identifier(text) => Token::Identifier(text.clone()),
            Token::Integer(value) => Token::Integer(*value),
            Token::Float(text) => Token::Float(text.clone()),
            Token::String(text) => Token::String(text.clone()),
            Token::LParen => Token::LParen,
            Token::RParen => Token::RParen,
            Token::LBraket => Token::LBraket,
            Token::RBraket => Token::RBraket,
            Token::LBrace => Token::LBrace,
            Token::RBrace => Token::RBrace,
            Token::Semicolon => Token::Semicolon,
            Token::TwoPoints => Token::TwoPoints,
            Token::Comma => Token::Comma,
            Token::AssignSimbol => Token::AssignSimbol,
            Token::NotEqual => Token::NotEqual,
            Token::BigerThan => Token::BigerThan,
            Token::SmallerThan => Token::SmallerThan,
            Token::OperatorAdd => Token::OperatorAdd,
            Token::OperatorSub => Token::OperatorSub,
            Token::OperatorMul => Token::OperatorMul,
            Token::OperatorDiv => Token::OperatorDiv,
        }
    }
}

impl Token {
    /// The token's category.
    pub fn kind(&self) -> (k: TokenKind)
        ensures
            k == self@.kind(),
    {
        match self {
            Token::KeywordProgram => TokenKind::KeywordProgram,
            Token::KeywordMain => TokenKind::KeywordMain,
            Token::KeywordPrint => TokenKind::KeywordPrint,
            Token::KeywordIf => TokenKind::KeywordIf,
            Token::KeywordElse => TokenKind::KeywordElse,
            Token::KeywordWhile => TokenKind::KeywordWhile,
            Token::KeywordDo => TokenKind::KeywordDo,
            Token::KeywordEnd => TokenKind::KeywordEnd,
            Token::KeywordInt => TokenKind::KeywordInt,
            Token::KeywordFloat => TokenKind::KeywordFloat,
            Token::KeywordVar => TokenKind::KeywordVar,
            Token::KeywordVoid => TokenKind::KeywordVoid,
            Token::Identifier(_) => TokenKind::Identifier,
            Token::Integer(_) => TokenKind::Integer,
            Token::Float(_) => TokenKind::Float,
            Token::String(_) => TokenKind::String,
            Token::LParen => TokenKind::LParen,
            Token::RParen => TokenKind::RParen,
            Token::LBraket => TokenKind::LBraket,
            Token::RBraket => TokenKind::RBraket,
            Token::LBrace => TokenKind::LBrace,
            Token::RBrace => TokenKind::RBrace,
            Token::Semicolon => TokenKind::Semicolon,
            Token::TwoPoints => TokenKind::TwoPoints,
            Token::Comma => TokenKind::Comma,
            Token::AssignSimbol => TokenKind::AssignSimbol,
            Token::NotEqual => TokenKind::NotEqual,
            Token::BigerThan => TokenKind::BigerThan,
            Token::SmallerThan => TokenKind::SmallerThan,
            Token::OperatorAdd => TokenKind::OperatorAdd,
            Token::OperatorSub => TokenKind::OperatorSub,
            Token::OperatorMul => TokenKind::OperatorMul,
            Token::OperatorDiv => TokenKind::OperatorDiv,
        }
    }
}

// Two tokens are equal where they are of one kind and hold the same text
// or value: where their views are equal.
impl PartialEq for Token {
    fn eq(&self, other: &Token) -> (same: bool) {
        match (self, other) {
            (Token::Identifier(a), Token::Identifier(b)) => *a == *b,
            (Token::Integer(a), Token::Integer(b)) => *a == *b,
            (Token::Float(a), Token::Float(b)) => *a == *b,
            (Token::String(a), Token::String(b)) => *a == *b,
            _ => self.kind() == other.kind(),
        }
    }
}

impl PartialEqSpecImpl for Token {
    open spec fn obeys_eq_spec() -> bool {
        true
    }

    open spec fn eq_spec(&self, other: &Token) -> bool {
        self@ == other@
    }
}

/// The views of a sequence of tokens, in order.
pub open spec fn token_views(tokens: Seq<Token>) -> Seq<SpecToken> {
    Seq::new(tokens.len(), |i: int| tokens[i]@)
}

} // verus!
