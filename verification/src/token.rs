//! The token type and its mathematical image.

use vstd::prelude::*;

verus! {

/// A classified, indivisible lexical unit of the source language.
///
/// A `Number` carries the text of the numeric literal rather than a floating
/// value: the scanner guarantees (see [`crate::laws`]) that the span is a
/// decimal digit run with at most one embedded period, so a caller that wants
/// the numeric value can convert the span without the conversion ever
/// failing.
#[derive(Debug, Clone, PartialEq, Eq)]
pub enum Token {
    /// A user-defined name that matches no reserved keyword.
    Identifier(String),
    /// A numeric literal, carried as its textual span.
    Number(String),
    LeftParen,
    RightParen,
    Comma,
    Colon,
    Period,
    /// The `!` mark.
    Yell,
    /// The keyword `create`.
    Create,
    /// The keyword `is`.
    Is,
    /// The keyword `action`.
    Action,
    /// One of the operators `+ - / *`, carried as its character.
    BinaryOp(char),
    /// End of a logical line or statement.
    Separator,
    /// One level of block structure closing: the keyword `end`, or
    /// synthesized from a decrease in indentation, one per closed level.
    BlockEnd,
    /// A character that opens no lexeme; terminates the token stream.
    LexError,
}

/// The mathematical image of a [`Token`]: the same tags, with every text
/// carried as a `Seq<char>`.
pub ghost enum TokenModel {
    Identifier(Seq<char>),
    Number(Seq<char>),
    LeftParen,
    RightParen,
    Comma,
    Colon,
    Period,
    Yell,
    Create,
    Is,
    Action,
    BinaryOp(char),
    Separator,
    BlockEnd,
    LexError,
}

impl View for Token {
    type V = TokenModel;

    open spec fn view(&self) -> TokenModel {
        match self {
            Token::Identifier(s) => TokenModel::Identifier(s@),
            Token::Number(s) => TokenModel::Number(s@),
            Token::LeftParen => TokenModel::LeftParen,
            Token::RightParen => TokenModel::RightParen,
            Token::Comma => TokenModel::Comma,
            Token::Colon => TokenModel::Colon,
            Token::Period => TokenModel::Period,
            Token::Yell => TokenModel::Yell,
            Token::Create => TokenModel::Create,
            Token::Is => TokenModel::Is,
            Token::Action => TokenModel::Action,
            Token::BinaryOp(c) => TokenModel::BinaryOp(*c),
            Token::Separator => TokenModel::Separator,
            Token::BlockEnd => TokenModel::BlockEnd,
            Token::LexError => TokenModel::LexError,
        }
    }
}

impl DeepView for Token {
    type V = TokenModel;

    open spec fn deep_view(&self) -> TokenModel {
        self.view()
    }
}

} // verus!
