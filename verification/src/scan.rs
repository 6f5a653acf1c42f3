//! The lexical structure of a source buffer, stated over its bytes.
//!
//! `lexemes(buf, pos)` is the sequence of tokens that the buffer holds from the
//! byte offset `pos` on. It is the model against which the lexer is verified.

use vstd::prelude::*;
use crate::token::{Lexeme, TokenView};

verus! {

/// The byte that ends a comment.
pub const NEWLINE: u8 = 0x0a;

/// The byte that starts a comment.
pub const HASH: u8 = 0x23;

/// The decimal point.
pub const POINT: u8 = 0x2e;

/// ASCII whitespace: space, tab, line feed, form feed, carriage return.
#[verifier::allow_in_spec]
pub fn is_space(b: u8) -> bool
    returns
        b == 0x20 || b == 0x09 || b == 0x0a || b == 0x0c || b == 0x0d,
{
    b == 0x20 || b == 0x09 || b == 0x0a || b == 0x0c || b == 0x0d
}

/// An ASCII letter.
#[verifier::allow_in_spec]
pub fn is_alpha(b: u8) -> bool
    returns
        (0x41 <= b && b <= 0x5a) || (0x61 <= b && b <= 0x7a),
{
    (0x41 <= b && b <= 0x5a) || (0x61 <= b && b <= 0x7a)
}

/// An ASCII digit.
#[verifier::allow_in_spec]
pub fn is_digit(b: u8) -> bool
    returns
        0x30 <= b && b <= 0x39,
{
    0x30 <= b && b <= 0x39
}

/// An ASCII letter or digit: what an identifier is made of.
#[verifier::allow_in_spec]
pub fn is_alnum(b: u8) -> bool
    returns
        is_alpha(b) || is_digit(b),
{
    is_alpha(b) || is_digit(b)
}

/// An ASCII digit or the decimal point: what a numeric literal is made of.
#[verifier::allow_in_spec]
pub fn is_numeric(b: u8) -> bool
    returns
        is_digit(b) || b == POINT,
{
    is_digit(b) || b == POINT
}

/// The kinds of maximal runs of bytes that the lexer reads.
#[derive(Clone, Copy)]
pub enum Run {
    /// Whitespace between tokens.
    Space,
    /// The letters and digits of an identifier or keyword.
    Name,
    /// The digits and decimal points of a numeric literal.
    Number,
    /// The text of a comment, up to the end of its line.
    Line,
}

impl Run {
    /// Whether the byte `b` may stand in a run of this kind.
    pub open spec fn admits(self, b: u8) -> bool {
        match self {
            Run::Space => is_space(b),
            Run::Name => is_alnum(b),
            Run::Number => is_numeric(b),
            Run::Line => b != NEWLINE,
        }
    }

    /// Tests whether the byte `b` may stand in a run of this kind.
    pub fn accepts(self, b: u8) -> (yes: bool)
        ensures
            yes == self.admits(b),
    {
        match self {
            Run::Space => is_space(b),
            Run::Name => is_alnum(b),
            Run::Number => is_numeric(b),
            Run::Line => b != NEWLINE,
        }
    }
}

/// The offset at which the maximal run of kind `run` that starts at `pos` ends:
/// the first offset from `pos` on that holds a byte the run does not admit, or
/// the end of the buffer.
pub open spec fn run_end(buf: Seq<u8>, pos: int, run: Run) -> int
    decreases buf.len() - pos,
{
    if 0 <= pos < buf.len() && run.admits(buf[pos]) {
        run_end(buf, pos + 1, run)
    } else {
        pos
    }
}

/// A run that starts within the buffer ends within it, holds only bytes of its
/// kind, and is followed by a byte of another kind or by nothing.
pub proof fn lemma_run_end(buf: Seq<u8>, pos: int, run: Run)
    requires
        0 <= pos <= buf.len(),
    ensures
        pos <= run_end(buf, pos, run) <= buf.len(),
        forall|i: int| pos <= i < run_end(buf, pos, run) ==> run.admits(#[trigger] buf[i]),
        run_end(buf, pos, run) < buf.len() ==> !run.admits(buf[run_end(buf, pos, run)]),
    decreases buf.len() - pos,
{
    if pos < buf.len() && run.admits(buf[pos]) {
        lemma_run_end(buf, pos + 1, run);
    }
}

/// The end of a run is the only offset with the properties of `lemma_run_end`.
pub proof fn lemma_run_end_unique(buf: Seq<u8>, pos: int, run: Run, end: int)
    requires
        0 <= pos <= end <= buf.len(),
        forall|i: int| pos <= i < end ==> run.admits(#[trigger] buf[i]),
        end < buf.len() ==> !run.admits(buf[end]),
    ensures
        run_end(buf, pos, run) == end,
    decreases end - pos,
{
    if pos < end {
        lemma_run_end_unique(buf, pos + 1, run, end);
    }
}

/// The offset behind the comment that starts at `pos`: behind the line feed that
/// ends it, or the end of the buffer where no line feed follows.
pub open spec fn line_end(buf: Seq<u8>, pos: int) -> int {
    let end = run_end(buf, pos, Run::Line);
    if end < buf.len() {
        end + 1
    } else {
        end
    }
}

/// The characters that a run of ASCII bytes spells.
pub open spec fn text_of(run: Seq<u8>) -> Seq<char> {
    Seq::new(run.len(), |i: int| run[i] as char)
}

/// Whether a run of digits and decimal points is a numeric literal: it holds a
/// digit, and no two decimal points.
pub open spec fn is_number_literal(run: Seq<u8>) -> bool {
    &&& exists|i: int| 0 <= i < run.len() && is_digit(#[trigger] run[i])
    &&& forall|i: int, j: int|
        0 <= i < j < run.len() ==> !(#[trigger] run[i] == POINT && #[trigger] run[j] == POINT)
}

/// The token that a run of letters and digits spells: a keyword, or else an
/// identifier.
pub open spec fn word(name: Seq<char>) -> TokenView {
    if name == seq!['d', 'e', 'f'] {
        TokenView::Def
    } else if name == seq!['e', 'x', 't', 'e', 'r', 'n'] {
        TokenView::Extern
    } else {
        TokenView::Identifier(name)
    }
}

/// The offset behind the token that starts at `pos`, where `pos` holds a byte
/// that is neither whitespace nor the start of a comment.
pub open spec fn token_end(buf: Seq<u8>, pos: int) -> int {
    if is_alpha(buf[pos]) {
        run_end(buf, pos, Run::Name)
    } else if is_numeric(buf[pos]) {
        run_end(buf, pos, Run::Number)
    } else {
        pos + 1
    }
}

/// The token that starts at `pos`, where `pos` holds a byte that is neither
/// whitespace nor the start of a comment.
///
/// A letter starts the longest run of letters and digits, which is a keyword or
/// an identifier. A digit or a decimal point starts the longest run of digits
/// and decimal points, which is a numeric literal or, where it is malformed, a
/// failure that carries the run. Any other byte is a symbol by itself.
pub open spec fn token_at(buf: Seq<u8>, pos: int) -> Lexeme {
    let run = buf.subrange(pos, token_end(buf, pos));
    if is_alpha(buf[pos]) {
        Ok(word(text_of(run)))
    } else if is_numeric(buf[pos]) {
        if is_number_literal(run) {
            Ok(TokenView::Number(text_of(run)))
        } else {
            Err(text_of(run))
        }
    } else {
        Ok(TokenView::Symbol(buf[pos] as char))
    }
}

/// A token that starts within the buffer is not empty and ends within it.
pub proof fn lemma_token_end(buf: Seq<u8>, pos: int)
    requires
        0 <= pos < buf.len(),
    ensures
        pos < token_end(buf, pos) <= buf.len(),
{
    lemma_run_end(buf, pos + 1, Run::Name);
    lemma_run_end(buf, pos + 1, Run::Number);
}

/// An identifier, a keyword or a numeric literal is a maximal run: it holds
/// only bytes of its kind, and no byte of its kind follows it.
pub proof fn lemma_token_is_maximal(buf: Seq<u8>, pos: int)
    requires
        0 <= pos < buf.len(),
        is_alpha(buf[pos]) || is_numeric(buf[pos]),
    ensures
        ({
            let run = if is_alpha(buf[pos]) {
                Run::Name
            } else {
                Run::Number
            };
            let end = token_end(buf, pos);
            &&& forall|i: int| pos <= i < end ==> run.admits(#[trigger] buf[i])
            &&& end < buf.len() ==> !run.admits(buf[end])
        }),
{
    lemma_run_end(buf, pos, Run::Name);
    lemma_run_end(buf, pos, Run::Number);
}

/// A comment that starts within the buffer is not empty and ends within it.
pub proof fn lemma_line_end(buf: Seq<u8>, pos: int)
    requires
        0 <= pos < buf.len(),
        buf[pos] == HASH,
    ensures
        pos < line_end(buf, pos) <= buf.len(),
{
    lemma_run_end(buf, pos + 1, Run::Line);
}

/// The offset of the first token from `pos` on: the first offset that holds
/// neither whitespace nor a part of a comment, or the end of the buffer where
/// no token follows.
pub open spec fn token_start(buf: Seq<u8>, pos: int) -> int
    decreases buf.len() - pos,
{
    if pos < 0 || pos >= buf.len() {
        buf.len() as int
    } else if is_space(buf[pos]) {
        token_start(buf, pos + 1)
    } else if buf[pos] == HASH {
        proof {
            lemma_line_end(buf, pos);
        }
        token_start(buf, line_end(buf, pos))
    } else {
        pos
    }
}

/// The lexemes of the buffer from the offset `pos` on, in source order.
///
/// Whitespace is skipped, a `#` starts a comment that is skipped up to the end
/// of its line, and anything else starts a token.
pub open spec fn lexemes(buf: Seq<u8>, pos: int) -> Seq<Lexeme>
    decreases buf.len() - pos,
{
    if pos < 0 || pos >= buf.len() {
        Seq::empty()
    } else if is_space(buf[pos]) {
        lexemes(buf, pos + 1)
    } else if buf[pos] == HASH {
        proof {
            lemma_line_end(buf, pos);
        }
        lexemes(buf, line_end(buf, pos))
    } else {
        proof {
            lemma_token_end(buf, pos);
        }
        seq![token_at(buf, pos)] + lexemes(buf, token_end(buf, pos))
    }
}

/// Whitespace before a token does not change what follows.
pub proof fn lemma_lexemes_skip_space(buf: Seq<u8>, pos: int)
    requires
        0 <= pos <= buf.len(),
    ensures
        lexemes(buf, run_end(buf, pos, Run::Space)) == lexemes(buf, pos),
    decreases buf.len() - pos,
{
    if pos < buf.len() && is_space(buf[pos]) {
        lemma_lexemes_skip_space(buf, pos + 1);
    }
}

/// The first token from an offset on starts at or behind it, within the buffer
/// or at its end.
pub proof fn lemma_token_start(buf: Seq<u8>, pos: int)
    requires
        0 <= pos <= buf.len(),
    ensures
        pos <= token_start(buf, pos) <= buf.len(),
        token_start(buf, pos) < buf.len() ==> !is_space(buf[token_start(buf, pos)]) && buf[
            token_start(buf, pos)
        ] != HASH,
    decreases buf.len() - pos,
{
    if pos < buf.len() {
        if is_space(buf[pos]) {
            lemma_token_start(buf, pos + 1);
        } else if buf[pos] == HASH {
            lemma_line_end(buf, pos);
            lemma_token_start(buf, line_end(buf, pos));
        }
    }
}

/// The lexemes from an offset on are the first token from there on, followed by
/// the lexemes behind it.
pub proof fn lemma_lexemes_from_token_start(buf: Seq<u8>, pos: int)
    requires
        0 <= pos <= buf.len(),
    ensures
        lexemes(buf, pos) == (if token_start(buf, pos) < buf.len() {
            seq![token_at(buf, token_start(buf, pos))] + lexemes(
                buf,
                token_end(buf, token_start(buf, pos)),
            )
        } else {
            Seq::empty()
        }),
        token_start(buf, token_start(buf, pos)) == token_start(buf, pos),
    decreases buf.len() - pos,
{
    if pos < buf.len() {
        if is_space(buf[pos]) {
            lemma_lexemes_from_token_start(buf, pos + 1);
        } else if buf[pos] == HASH {
            lemma_line_end(buf, pos);
            lemma_lexemes_from_token_start(buf, line_end(buf, pos));
        }
    }
}

} // verus!
