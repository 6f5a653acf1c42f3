//! The lexer: reads a source buffer from left to right, one token at a time.

use vstd::prelude::*;
use vstd::string::StringSliceAdditionalSpecFns;
use vstd::utf8::{
    encode_utf8, encode_utf8_decode_utf8, encode_utf8_valid_utf8, is_ascii_chars,
    is_ascii_chars_encode_utf8, is_char_boundary, is_char_boundary_iff_not_is_continuation_byte,
    length_of_first_scalar, pop_first_scalar, valid_utf8, valid_utf8_split,
};
use crate::scan::{
    is_alpha, is_digit, is_number_literal, is_numeric, lemma_lexemes_from_token_start,
    lemma_lexemes_skip_space, lemma_line_end, lemma_run_end, lemma_token_end, lemma_token_start,
    lexemes, line_end, run_end, text_of, token_at, token_end, token_start, word, Run, HASH,
    POINT,
};
use crate::token::{lexeme_view, LexError, Lexeme, Token, TokenView};

verus! {

/// In well-formed UTF-8, the offset behind an ASCII byte starts a character or
/// is the end of the text.
proof fn lemma_boundary_behind_ascii(bytes: Seq<u8>, index: int)
    requires
        valid_utf8(bytes),
        0 <= index < bytes.len(),
        bytes[index] < 0x80,
    ensures
        is_char_boundary(bytes, index + 1),
    decreases bytes.len(),
{
    let width = length_of_first_scalar(bytes);
    let tail = pop_first_scalar(bytes);
    if index == 0 {
        assert(is_char_boundary(tail, 0));
    } else if index < width {
        assert(false);
    } else {
        assert(tail[index - width] == bytes[index]);
        lemma_boundary_behind_ascii(tail, index - width);
    }
}

/// Text whose UTF-8 encoding is a run of ASCII bytes is spelled by these bytes.
proof fn lemma_ascii_text(text: Seq<char>, run: Seq<u8>)
    requires
        encode_utf8(text) == run,
        forall|i: int| 0 <= i < run.len() ==> #[trigger] run[i] < 0x80,
    ensures
        text == text_of(run),
{
    let spelled = text_of(run);
    assert(is_ascii_chars(spelled));
    is_ascii_chars_encode_utf8(spelled);
    assert(encode_utf8(spelled) =~= run);
    encode_utf8_decode_utf8(spelled);
    encode_utf8_decode_utf8(text);
}

/// Whether the run of digits and decimal points `text` is a numeric literal.
fn number_is_literal(text: &str) -> (well_formed: bool)
    ensures
        well_formed == is_number_literal(text.spec_bytes()),
{
    let bytes = text.as_bytes();
    let mut digit_seen = false;
    let mut points: u8 = 0;
    let mut i: usize = 0;
    let ghost mut first_point: int = 0;
    let ghost mut second_point: int = 0;
    let ghost mut first_digit: int = 0;
    while i < bytes.len()
        invariant
            i <= bytes.len(),
            bytes@ == text.spec_bytes(),
            points <= 2,
            digit_seen ==> 0 <= first_digit < i && is_digit(bytes@[first_digit]),
            !digit_seen ==> forall|k: int| 0 <= k < i ==> !is_digit(#[trigger] bytes@[k]),
            points == 0 ==> forall|k: int| 0 <= k < i ==> #[trigger] bytes@[k] != POINT,
            points == 1 ==> 0 <= first_point < i && bytes@[first_point] == POINT && forall|k: int|
                0 <= k < i && k != first_point ==> #[trigger] bytes@[k] != POINT,
            points == 2 ==> 0 <= first_point < second_point < i && bytes@[first_point] == POINT
                && bytes@[second_point] == POINT,
        decreases bytes.len() - i,
    {
        let b: u8 = bytes[i];
        if is_digit(b) {
            if !digit_seen {
                proof {
                    first_digit = i as int;
                }
            }
            digit_seen = true;
        } else if b == POINT {
            if points == 0 {
                proof {
                    first_point = i as int;
                }
                points = 1;
            } else if points == 1 {
                proof {
                    second_point = i as int;
                }
                points = 2;
            }
        }
        i += 1;
    }
    digit_seen && points <= 1
}

/// The keyword that `name` spells, if it spells one.
fn keyword(name: &str) -> (found: Option<Token>)
    requires
        name@ == text_of(name.spec_bytes()),
    ensures
        match found {
            Some(token) => token@ == word(name@) && !(token is Identifier),
            None => word(name@) == TokenView::Identifier(name@),
        },
{
    let bytes = name.as_bytes();
    let ghost def = seq!['d', 'e', 'f'];
    let ghost ext = seq!['e', 'x', 't', 'e', 'r', 'n'];
    if bytes.len() == 3 && bytes[0] == 0x64 && bytes[1] == 0x65 && bytes[2] == 0x66 {
        assert(name@ =~= def);
        Some(Token::Def)
    } else if bytes.len() == 6 && bytes[0] == 0x65 && bytes[1] == 0x78 && bytes[2] == 0x74
        && bytes[3] == 0x65 && bytes[4] == 0x72 && bytes[5] == 0x6e {
        assert(name@ =~= ext);
        Some(Token::Extern)
    } else {
        proof {
            if name@ == def {
                assert(name@.len() == 3);
                assert(name@[0] == 'd' && name@[1] == 'e' && name@[2] == 'f');
            }
            if name@ == ext {
                assert(name@.len() == 6);
                assert(name@[0] == 'e' && name@[1] == 'x' && name@[2] == 't');
                assert(name@[3] == 'e' && name@[4] == 'r' && name@[5] == 'n');
            }
        }
        None
    }
}

/// A cursor over a source buffer that yields its tokens in order.
///
/// The buffer is read as bytes. The lexer only moves forward: what it has
/// yielded cannot be read again.
pub struct Lexer<'b> {
    buf: &'b str,
    pos: usize,
}

impl<'b> Lexer<'b> {
    #[verifier::type_invariant]
    spec fn in_bounds(self) -> bool {
        self.pos <= self.buf.spec_bytes().len()
    }

    /// The bytes of the source buffer.
    pub closed spec fn source(&self) -> Seq<u8> {
        self.buf.spec_bytes()
    }

    /// The byte offset of the cursor.
    pub closed spec fn offset(&self) -> int {
        self.pos as int
    }

    /// The lexemes that the lexer has yet to yield, in order.
    pub open spec fn remaining(&self) -> Seq<Lexeme> {
        lexemes(self.source(), self.offset())
    }

    /// A lexer at the start of `buf`.
    #[inline]
    pub fn new(buf: &'b str) -> (lexer: Lexer<'b>)
        ensures
            lexer.source() == buf.spec_bytes(),
            lexer.offset() == 0,
            lexer.remaining() == lexemes(buf.spec_bytes(), 0),
    {
        Lexer { buf: buf, pos: 0 }
    }

    /// The byte under the cursor, if the cursor is not at the end.
    fn peek(&self) -> (byte: Option<u8>)
        ensures
            byte == (if self.offset() < self.source().len() {
                Some(self.source()[self.offset()])
            } else {
                None
            }),
            self.source().len() <= usize::MAX,
    {
        let bytes = self.buf.as_bytes();
        if self.pos < bytes.len() {
            Some(bytes[self.pos])
        } else {
            None
        }
    }

    /// Moves the cursor to the end of the run of kind `run` that starts under it.
    fn skip_run(&mut self, run: Run)
        ensures
            final(self).source() == old(self).source(),
            final(self).offset() == run_end(old(self).source(), old(self).offset(), run),
    {
        proof {
            use_type_invariant(&*self);
        }
        let bytes = self.buf.as_bytes();
        let ghost start = self.pos as int;
        while self.pos < bytes.len() && run.accepts(bytes[self.pos])
            invariant
                bytes@ == self.source(),
                self.buf == old(self).buf,
                start <= self.pos <= bytes@.len(),
                run_end(bytes@, self.pos as int, run) == run_end(bytes@, start, run),
            decreases bytes@.len() - self.pos,
        {
            self.pos += 1;
        }
    }

    /// The part of the buffer from `start` up to `end`, which holds ASCII only.
    fn slice(&self, start: usize, end: usize) -> (text: &'b str)
        requires
            start < end <= self.source().len(),
            forall|i: int| start <= i < end ==> #[trigger] self.source()[i] < 0x80,
        ensures
            text.spec_bytes() == self.source().subrange(start as int, end as int),
            text@ == text_of(self.source().subrange(start as int, end as int)),
    {
        let ghost bytes = self.buf.spec_bytes();
        proof {
            encode_utf8_valid_utf8(self.buf@);
            is_char_boundary_iff_not_is_continuation_byte(bytes, start as int);
        }
        let (_, tail) = self.buf.split_at(start);
        proof {
            valid_utf8_split(bytes, start as int);
            assert(tail.spec_bytes()[end - start - 1] == bytes[end - 1]);
            lemma_boundary_behind_ascii(tail.spec_bytes(), end - start - 1);
        }
        let (text, _) = tail.split_at(end - start);
        proof {
            assert(text.spec_bytes() =~= bytes.subrange(start as int, end as int));
            lemma_ascii_text(text@, text.spec_bytes());
        }
        text
    }

    /// Moves the cursor behind the whitespace under it.
    fn skip_whitespace(&mut self)
        ensures
            final(self).source() == old(self).source(),
            final(self).offset() == run_end(old(self).source(), old(self).offset(), Run::Space),
    {
        self.skip_run(Run::Space);
    }

    /// Moves the cursor behind the comment that starts under it.
    fn skip_line(&mut self)
        ensures
            final(self).source() == old(self).source(),
            final(self).offset() == line_end(old(self).source(), old(self).offset()),
    {
        proof {
            use_type_invariant(&*self);
            lemma_run_end(self.source(), self.offset(), Run::Line);
        }
        self.skip_run(Run::Line);
        if self.pos < self.buf.as_bytes().len() {
            self.pos += 1;
        }
    }

    /// Reads the run of digits and decimal points that starts under the cursor.
    fn number(&mut self) -> (text: &'b str)
        requires
            old(self).offset() < old(self).source().len(),
            is_numeric(old(self).source()[old(self).offset()]),
        ensures
            final(self).source() == old(self).source(),
            final(self).offset() == run_end(old(self).source(), old(self).offset(), Run::Number),
            text.spec_bytes() == old(self).source().subrange(
                old(self).offset(),
                final(self).offset(),
            ),
            text@ == text_of(text.spec_bytes()),
    {
        let start = self.pos;
        self.skip_run(Run::Number);
        proof {
            lemma_run_end(self.source(), start as int, Run::Number);
        }
        self.slice(start, self.pos)
    }

    /// Reads the run of letters and digits that starts under the cursor.
    fn identifier(&mut self) -> (text: &'b str)
        requires
            old(self).offset() < old(self).source().len(),
            is_alpha(old(self).source()[old(self).offset()]),
        ensures
            final(self).source() == old(self).source(),
            final(self).offset() == run_end(old(self).source(), old(self).offset(), Run::Name),
            text.spec_bytes() == old(self).source().subrange(
                old(self).offset(),
                final(self).offset(),
            ),
            text@ == text_of(text.spec_bytes()),
    {
        let start = self.pos;
        self.skip_run(Run::Name);
        proof {
            lemma_run_end(self.source(), start as int, Run::Name);
        }
        self.slice(start, self.pos)
    }

    /// Yields the next lexeme, or `None` at the end of the buffer.
    ///
    /// Whitespace and comments before the lexeme are skipped, and the cursor
    /// is left behind the lexeme. A run of digits and decimal points that is no
    /// numeric literal is yielded as a failure; the cursor is then behind the
    /// run, and the lexer can be asked again. Where no lexeme follows, the
    /// cursor is left at the end of the buffer, and stays there.
    pub fn next(&mut self) -> (item: Option<Result<Token, LexError>>)
        ensures
            final(self).source() == old(self).source(),
            0 <= old(self).offset() <= final(self).offset() <= final(self).source().len(),
            match item {
                Some(lexeme) => {
                    let start = token_start(old(self).source(), old(self).offset());
                    &&& start < old(self).source().len()
                    &&& lexeme_view(lexeme) == token_at(old(self).source(), start)
                    &&& final(self).offset() == token_end(old(self).source(), start)
                    &&& old(self).offset() < final(self).offset()
                    &&& old(self).remaining().len() > 0
                    &&& lexeme_view(lexeme) == old(self).remaining()[0]
                    &&& final(self).remaining() == old(self).remaining().drop_first()
                },
                None => {
                    &&& token_start(old(self).source(), old(self).offset()) == old(
                        self,
                    ).source().len()
                    &&& final(self).offset() == final(self).source().len()
                    &&& old(self).remaining().len() == 0
                    &&& final(self).remaining().len() == 0
                },
            },
    {
        let ghost src = self.source();
        proof {
            use_type_invariant(&*self);
            lemma_token_start(src, self.offset());
            lemma_lexemes_from_token_start(src, self.offset());
        }
        loop
            invariant
                self.source() == src,
                src == old(self).source(),
                old(self).offset() <= self.offset() <= src.len(),
                token_start(src, self.offset()) == token_start(src, old(self).offset()),
                self.remaining() == old(self).remaining(),
            decreases src.len() - self.offset(),
        {
            let ghost before = self.offset();
            self.skip_whitespace();
            proof {
                lemma_lexemes_skip_space(src, before);
                lemma_run_end(src, before, Run::Space);
                lemma_token_start_skips_space(src, before);
            }
            let ghost start = self.offset();
            match self.peek() {
                None => {
                    return None;
                },
                Some(b) => {
                    if b == HASH {
                        proof {
                            lemma_line_end(src, start);
                        }
                        self.skip_line();
                    } else {
                        proof {
                            lemma_token_end(src, start);
                            assert(lexemes(src, start).drop_first() =~= lexemes(
                                src,
                                token_end(src, start),
                            ));
                        }
                        if is_alpha(b) {
                            let name = self.identifier();
                            return match keyword(name) {
                                Some(token) => Some(Ok(token)),
                                None => Some(Ok(Token::Identifier(name.to_owned()))),
                            };
                        } else if is_numeric(b) {
                            let text = self.number();
                            if number_is_literal(text) {
                                return Some(Ok(Token::Number(text.to_owned())));
                            } else {
                                return Some(Err(LexError { literal: text.to_owned() }));
                            }
                        } else {
                            self.pos += 1;
                            return Some(Ok(Token::Symbol(b as char)));
                        }
                    }
                },
            }
        }
    }
}

/// Whitespace before a token does not change where the token starts.
proof fn lemma_token_start_skips_space(buf: Seq<u8>, pos: int)
    requires
        0 <= pos <= buf.len(),
    ensures
        token_start(buf, run_end(buf, pos, Run::Space)) == token_start(buf, pos),
    decreases buf.len() - pos,
{
    if pos < buf.len() && Run::Space.admits(buf[pos]) {
        lemma_token_start_skips_space(buf, pos + 1);
    }
}

/// Scanning depends on the bytes of the buffer alone: two lexers at the start
/// of buffers that hold the same bytes have the same lexemes to yield.
pub proof fn lemma_rescan(first: Lexer, second: Lexer)
    requires
        first.source() == second.source(),
        first.offset() == 0,
        second.offset() == 0,
    ensures
        first.remaining() == second.remaining(),
{
}

} // verus!
