//! Tokens, and the failure the lexer can report.

use vstd::prelude::*;

verus! {

/// A lexical unit of the language.
#[derive(Debug, PartialEq, Eq)]
pub enum Token {
    /// The keyword `def`.
    Def,
    /// The keyword `extern`.
    Extern,
    /// A name: an ASCII letter followed by ASCII letters and digits.
    Identifier(String),
    /// A numeric literal, kept as it is written: ASCII digits with at most one
    /// decimal point and at least one digit. Turning the text into a binary
    /// floating-point value is left to the consumer.
    Number(String),
    /// Any other single byte of the source, as the character with that code.
    Symbol(char),
}

/// The mathematical value of a [`Token`].
pub enum TokenView {
    Def,
    Extern,
    Identifier(Seq<char>),
    Number(Seq<char>),
    Symbol(char),
}

impl View for Token {
    type V = TokenView;

    open spec fn view(&self) -> TokenView {
        match self {
            Token::Def => TokenView::Def,
            Token::Extern => TokenView::Extern,
            Token::Identifier(name) => TokenView::Identifier(name@),
            Token::Number(text) => TokenView::Number(text@),
            Token::Symbol(c) => TokenView::Symbol(*c),
        }
    }
}

impl Clone for Token {
    fn clone(&self) -> (copy: Token)
        ensures
            copy@ == self@,
    {
        match self {
            Token::Def => Token::Def,
            Token::Extern => Token::Extern,
            Token::Identifier(name) => Token::Identifier(name.clone()),
            Token::Number(text) => Token::Number(text.clone()),
            Token::Symbol(c) => Token::Symbol(*c),
        }
    }
}

/// A run of digits and decimal points that is no numeric literal.
#[derive(Debug, PartialEq, Eq)]
pub struct LexError {
    /// The run as it stands in the source.
    pub literal: String,
}

impl View for LexError {
    type V = Seq<char>;

    open spec fn view(&self) -> Seq<char> {
        self.literal@
    }
}

impl Clone for LexError {
    fn clone(&self) -> (copy: LexError)
        ensures
            copy@ == self@,
    {
        LexError { literal: self.literal.clone() }
    }
}

/// What the lexer yields at one step, as a mathematical value: a token, or the
/// text of a malformed numeric literal.
pub type Lexeme = Result<TokenView, Seq<char>>;

/// The mathematical value of one item yielded by the lexer.
pub open spec fn lexeme_view(item: Result<Token, LexError>) -> Lexeme {
    match item {
        Ok(token) => Ok(token@),
        Err(error) => Err(error@),
    }
}

/// Copies an item yielded by the lexer.
pub fn clone_lexeme(item: &Result<Token, LexError>) -> (copy: Result<Token, LexError>)
    ensures
        lexeme_view(copy) == lexeme_view(*item),
{
    match item {
        Ok(token) => Ok(token.clone()),
        Err(error) => Err(error.clone()),
    }
}

} // verus!
