//! The lexical categories that the scanner recognizes.

use vstd::prelude::*;

verus! {

/// One atomic lexical unit of the input.
///
/// A `String` token carries the run of characters between two quotes; a
/// `Number` token carries the run of digits (with at most one decimal point)
/// exactly as it stood in the source, so that no precision is lost.
/// `BadToken` marks a position where scanning failed: it carries the 1-based
/// line number and the per-line character offset of the character that
/// triggered the failed construct.
#[derive(Debug, PartialEq)]
pub enum Token {
    String { value: String },
    Number { value: String },
    Colon,
    Comma,
    OpenCurlyBrace,
    ClosedCurlyBrace,
    OpenSquareBrace,
    ClosedSquareBrace,
    True,
    False,
    Null,
    BadToken { line_number: usize, char_number: usize },
}

/// The mathematical model of a [`Token`]: the same tags over sequences of
/// characters and unbounded integers.
pub enum TokenModel {
    Str { text: Seq<char> },
    Num { text: Seq<char> },
    Colon,
    Comma,
    OpenBrace,
    CloseBrace,
    OpenBracket,
    CloseBracket,
    True,
    False,
    Null,
    Bad { line: int, col: int },
}

impl View for Token {
    type V = TokenModel;

    open spec fn view(&self) -> TokenModel {
        match self {
            Token::String { value } => TokenModel::Str { text: value@ },
            Token::Number { value } => TokenModel::Num { text: value@ },
            Token::Colon => TokenModel::Colon,
            Token::Comma => TokenModel::Comma,
            Token::OpenCurlyBrace => TokenModel::OpenBrace,
            Token::ClosedCurlyBrace => TokenModel::CloseBrace,
            Token::OpenSquareBrace => TokenModel::OpenBracket,
            Token::ClosedSquareBrace => TokenModel::CloseBracket,
            Token::True => TokenModel::True,
            Token::False => TokenModel::False,
            Token::Null => TokenModel::Null,
            Token::BadToken { line_number, char_number } => TokenModel::Bad {
                line: *line_number as int,
                col: *char_number as int,
            },
        }
    }
}

/// The lexical category of a token, without its payload: what a grammar
/// error names as the unexpected token it found.
#[derive(Clone, Copy, Debug, PartialEq)]
pub enum TokenKind {
    Str,
    Num,
    Colon,
    Comma,
    OpenBrace,
    CloseBrace,
    OpenBracket,
    CloseBracket,
    True,
    False,
    Null,
    Bad,
}

/// The category of a token's model.
pub open spec fn kind_of(t: TokenModel) -> TokenKind {
    match t {
        TokenModel::Str { .. } => TokenKind::Str,
        TokenModel::Num { .. } => TokenKind::Num,
        TokenModel::Colon => TokenKind::Colon,
        TokenModel::Comma => TokenKind::Comma,
        TokenModel::OpenBrace => TokenKind::OpenBrace,
        TokenModel::CloseBrace => TokenKind::CloseBrace,
        TokenModel::OpenBracket => TokenKind::OpenBracket,
        TokenModel::CloseBracket => TokenKind::CloseBracket,
        TokenModel::True => TokenKind::True,
        TokenModel::False => TokenKind::False,
        TokenModel::Null => TokenKind::Null,
        TokenModel::Bad { .. } => TokenKind::Bad,
    }
}

impl Token {
    /// The token's lexical category.
    pub fn kind(&self) -> (k: TokenKind)
        ensures
            k == kind_of(self@),
    {
        match self {
            Token::String { .. } => TokenKind::Str,
            Token::Number { .. } => TokenKind::Num,
            Token::Colon => TokenKind::Colon,
            Token::Comma => TokenKind::Comma,
            Token::OpenCurlyBrace => TokenKind::OpenBrace,
            Token::ClosedCurlyBrace => TokenKind::CloseBrace,
            Token::OpenSquareBrace => TokenKind::OpenBracket,
            Token::ClosedSquareBrace => TokenKind::CloseBracket,
            Token::True => TokenKind::True,
            Token::False => TokenKind::False,
            Token::Null => TokenKind::Null,
            Token::BadToken { .. } => TokenKind::Bad,
        }
    }
}

impl Clone for Token {
    /// A clone carries the same payload, so it has the same model.
    fn clone(&self) -> (res: Token)
        ensures
            res@ == self@,
    {
        match self {
            Token::String { value } => Token::String { value: value.clone() },
            Token::Number { value } => Token::Number { value: value.clone() },
            Token::Colon => Token::Colon,
            Token::Comma => Token::Comma,
            Token::OpenCurlyBrace => Token::OpenCurlyBrace,
            Token::ClosedCurlyBrace => Token::ClosedCurlyBrace,
            Token::OpenSquareBrace => Token::OpenSquareBrace,
            Token::ClosedSquareBrace => Token::ClosedSquareBrace,
            Token::True => Token::True,
            Token::False => Token::False,
            Token::Null => Token::Null,
            Token::BadToken { line_number, char_number } => Token::BadToken {
                line_number: *line_number,
                char_number: *char_number,
            },
        }
    }
}

} // verus!
