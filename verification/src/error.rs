//! The failures of the parser.

use vstd::prelude::*;
use crate::token::{LexError, Token, TokenView};

verus! {

/// What the grammar asks for at the place where a token is refused.
#[derive(Debug, Clone, Copy, PartialEq, Eq, Structural)]
pub enum Expected {
    /// The keyword `def`.
    Def,
    /// The keyword `extern`.
    Extern,
    /// An identifier.
    Identifier,
    /// This symbol.
    Symbol(char),
    /// The start of a primary expression: an identifier, a number or `(`.
    Primary,
    /// What may follow an argument of a call: `,` or `)`.
    ArgumentEnd,
}

/// Why a source buffer could not be parsed.
#[derive(Debug, PartialEq, Eq)]
pub enum ParseError {
    /// The lexer met a malformed numeric literal where the grammar asked for a
    /// token.
    Lex(LexError),
    /// The grammar asked for `expected` and met the token `found`, or the end of
    /// the buffer where `found` is `None`.
    Unexpected { found: Option<Token>, expected: Expected },
}

/// The mathematical value of a [`ParseError`].
pub enum ParseErrorView {
    Lex(Seq<char>),
    Unexpected { found: Option<TokenView>, expected: Expected },
}

impl View for ParseError {
    type V = ParseErrorView;

    open spec fn view(&self) -> ParseErrorView {
        match self {
            ParseError::Lex(error) => ParseErrorView::Lex(error@),
            ParseError::Unexpected { found, expected } => ParseErrorView::Unexpected {
                found: match found {
                    Some(token) => Some(token@),
                    None => None,
                },
                expected: *expected,
            },
        }
    }
}

} // verus!
