//! What the lexer does not see: whitespace and comments between tokens.
//!
//! The lexemes of a buffer depend on its bytes only through its tokens. This
//! module states when two buffers can be joined without merging or splitting a
//! token, and shows that whitespace and comments put between two tokens change
//! neither the lexemes nor what is parsed from them.

use vstd::prelude::*;
use crate::grammar::program;
use crate::scan::{
    is_alnum, is_alpha, is_numeric, is_space, lemma_line_end, lemma_run_end, lemma_run_end_unique,
    lemma_token_end, lexemes, line_end, run_end, token_at, token_end, Run, HASH, NEWLINE,
};
use crate::token::Lexeme;

verus! {

/// How a buffer ends, as the lexer sees it.
pub enum Tail {
    /// Behind whitespace, a finished comment or a symbol, or the buffer is empty.
    Closed,
    /// In a run of letters and digits, which further letters and digits would
    /// extend.
    Name,
    /// In a run of digits and decimal points, which further ones would extend.
    Number,
    /// In a comment that no line feed has ended.
    Comment,
}

/// How `buf` ends, read from the offset `pos`, which lies between two tokens.
pub open spec fn tail(buf: Seq<u8>, pos: int) -> Tail
    decreases buf.len() - pos,
{
    if pos < 0 || pos >= buf.len() {
        Tail::Closed
    } else if is_space(buf[pos]) {
        tail(buf, pos + 1)
    } else if buf[pos] == HASH {
        proof {
            lemma_line_end(buf, pos);
        }
        if run_end(buf, pos, Run::Line) < buf.len() {
            tail(buf, line_end(buf, pos))
        } else {
            Tail::Comment
        }
    } else {
        proof {
            lemma_token_end(buf, pos);
        }
        if token_end(buf, pos) < buf.len() {
            tail(buf, token_end(buf, pos))
        } else if is_alpha(buf[pos]) {
            Tail::Name
        } else if is_numeric(buf[pos]) {
            Tail::Number
        } else {
            Tail::Closed
        }
    }
}

/// Whether a buffer that ends as `end` says can be followed by `back` without
/// a change to its last token: `back` does not extend it, and it does not turn
/// the start of `back` into a comment.
pub open spec fn joins(end: Tail, back: Seq<u8>) -> bool {
    match end {
        Tail::Closed => true,
        Tail::Name => back.len() == 0 || !is_alnum(back[0]),
        Tail::Number => back.len() == 0 || !is_numeric(back[0]),
        Tail::Comment => back.len() == 0,
    }
}

/// Whether, in the buffer `front + back`, the place where `front` ends lies
/// between two tokens, or before the first or behind the last: not within an
/// identifier, a keyword or a numeric literal, and not within a comment that
/// goes on in `back`.
pub open spec fn between_tokens(front: Seq<u8>, back: Seq<u8>) -> bool {
    joins(tail(front, 0), back)
}

/// Whether `filler`, from the offset `pos` on, holds nothing but whitespace and
/// comments, each comment ended by its line feed.
pub open spec fn is_blank(filler: Seq<u8>, pos: int) -> bool
    decreases filler.len() - pos,
{
    if pos < 0 || pos >= filler.len() {
        true
    } else if is_space(filler[pos]) {
        is_blank(filler, pos + 1)
    } else if filler[pos] == HASH {
        proof {
            lemma_line_end(filler, pos);
        }
        run_end(filler, pos, Run::Line) < filler.len() && is_blank(filler, line_end(filler, pos))
    } else {
        false
    }
}

/// A run is found in a buffer where it is found in what is left of the buffer
/// behind its first `k` bytes.
proof fn lemma_run_end_shift(buf: Seq<u8>, k: int, pos: int, run: Run)
    requires
        0 <= k <= buf.len(),
        0 <= pos <= buf.len() - k,
    ensures
        run_end(buf, k + pos, run) == k + run_end(buf.skip(k), pos, run),
    decreases buf.len() - k - pos,
{
    if pos < buf.len() - k && run.admits(buf[k + pos]) {
        lemma_run_end_shift(buf, k, pos + 1, run);
    }
}

/// The lexemes from an offset on depend only on the bytes from that offset on.
pub proof fn lemma_lexemes_shift(buf: Seq<u8>, k: int, pos: int)
    requires
        0 <= k <= buf.len(),
        0 <= pos <= buf.len() - k,
    ensures
        lexemes(buf, k + pos) == lexemes(buf.skip(k), pos),
    decreases buf.len() - k - pos,
{
    let rest = buf.skip(k);
    if pos < rest.len() {
        if is_space(rest[pos]) {
            lemma_lexemes_shift(buf, k, pos + 1);
        } else if rest[pos] == HASH {
            lemma_run_end_shift(buf, k, pos, Run::Line);
            lemma_line_end(rest, pos);
            lemma_lexemes_shift(buf, k, line_end(rest, pos));
        } else {
            lemma_run_end_shift(buf, k, pos, Run::Name);
            lemma_run_end_shift(buf, k, pos, Run::Number);
            lemma_token_end(rest, pos);
            let end = token_end(rest, pos);
            assert(buf.subrange(k + pos, k + end) =~= rest.subrange(pos, end));
            lemma_lexemes_shift(buf, k, end);
        }
    }
}

/// A run that ends within `front` ends at the same offset in `front + back`,
/// and so does one that reaches the end of `front` if `back` does not go on
/// with it.
proof fn lemma_run_end_joined(front: Seq<u8>, back: Seq<u8>, pos: int, run: Run)
    requires
        0 <= pos <= front.len(),
        run_end(front, pos, run) < front.len() || back.len() == 0 || !run.admits(back[0]),
    ensures
        run_end(front + back, pos, run) == run_end(front, pos, run),
{
    lemma_run_end(front, pos, run);
    let end = run_end(front, pos, run);
    assert forall|i: int| pos <= i < end implies run.admits(#[trigger] (front + back)[i]) by {
        assert((front + back)[i] == front[i]);
    }
    lemma_run_end_unique(front + back, pos, run, end);
}

/// The lexemes of a joined buffer, read from an offset between two tokens of
/// its front part.
proof fn lemma_lexemes_joined(front: Seq<u8>, back: Seq<u8>, pos: int)
    requires
        0 <= pos <= front.len(),
        joins(tail(front, pos), back),
    ensures
        lexemes(front + back, pos) == lexemes(front, pos) + lexemes(back, 0),
    decreases front.len() - pos,
{
    let whole = front + back;
    if back.len() == 0 {
        assert(whole =~= front);
        assert(lexemes(front, pos) + lexemes(back, 0) =~= lexemes(front, pos));
    } else if pos == front.len() {
        lemma_lexemes_shift(whole, pos, 0);
        assert(whole.skip(pos) =~= back);
        assert(lexemes(front, pos) + lexemes(back, 0) =~= lexemes(back, 0));
    } else {
        assert(whole[pos] == front[pos]);
        if is_space(front[pos]) {
            lemma_lexemes_joined(front, back, pos + 1);
        } else if front[pos] == HASH {
            lemma_line_end(front, pos);
            lemma_run_end_joined(front, back, pos, Run::Line);
            assert(whole[run_end(front, pos, Run::Line)] == front[run_end(front, pos, Run::Line)]);
            lemma_lexemes_joined(front, back, line_end(front, pos));
        } else {
            lemma_token_end(front, pos);
            let end = token_end(front, pos);
            if is_alpha(front[pos]) {
                lemma_run_end_joined(front, back, pos, Run::Name);
            } else if is_numeric(front[pos]) {
                lemma_run_end_joined(front, back, pos, Run::Number);
            }
            assert(token_end(whole, pos) == end);
            assert(whole.subrange(pos, end) =~= front.subrange(pos, end));
            assert(token_at(whole, pos) == token_at(front, pos));
            lemma_lexemes_joined(front, back, end);
            assert(seq![token_at(front, pos)] + (lexemes(front, end) + lexemes(back, 0)) =~= (
            seq![token_at(front, pos)] + lexemes(front, end)) + lexemes(back, 0));
        }
    }
}

/// Where two buffers are joined between two tokens, the lexemes of the whole
/// are those of the first followed by those of the second.
pub proof fn lemma_join(front: Seq<u8>, back: Seq<u8>)
    requires
        between_tokens(front, back),
    ensures
        lexemes(front + back, 0) == lexemes(front, 0) + lexemes(back, 0),
{
    lemma_lexemes_joined(front, back, 0);
}

/// Whitespace and finished comments hold no lexeme and end closed.
pub proof fn lemma_blank(filler: Seq<u8>, pos: int)
    requires
        0 <= pos,
        is_blank(filler, pos),
    ensures
        lexemes(filler, pos) == Seq::<Lexeme>::empty(),
        tail(filler, pos) == Tail::Closed,
    decreases filler.len() - pos,
{
    if pos < filler.len() {
        if is_space(filler[pos]) {
            lemma_blank(filler, pos + 1);
        } else {
            lemma_line_end(filler, pos);
            lemma_blank(filler, line_end(filler, pos));
        }
    }
}

/// What is left of whitespace and finished comments behind their first line
/// feed is of the same kind.
proof fn lemma_blank_behind_line(filler: Seq<u8>, pos: int)
    requires
        0 <= pos <= filler.len(),
        is_blank(filler, pos),
    ensures
        is_blank(filler, line_end(filler, pos)),
    decreases filler.len() - pos,
{
    if pos < filler.len() && is_space(filler[pos]) && filler[pos] != NEWLINE {
        lemma_blank_behind_line(filler, pos + 1);
    }
}

/// Whitespace and finished comments behind a comment that is not ended add no
/// lexeme: the comment takes them in up to their first line feed.
proof fn lemma_blank_behind_comment(front: Seq<u8>, filler: Seq<u8>, pos: int)
    requires
        0 <= pos <= front.len(),
        tail(front, pos) == Tail::Comment,
        is_blank(filler, 0),
    ensures
        lexemes(front + filler, pos) == lexemes(front, pos),
    decreases front.len() - pos,
{
    let whole = front + filler;
    if pos < front.len() {
        assert(whole[pos] == front[pos]);
        if is_space(front[pos]) {
            lemma_blank_behind_comment(front, filler, pos + 1);
        } else if front[pos] == HASH {
            lemma_line_end(front, pos);
            lemma_run_end(front, pos, Run::Line);
            let end = run_end(front, pos, Run::Line);
            if end < front.len() {
                lemma_run_end_joined(front, filler, pos, Run::Line);
                assert(whole[end] == front[end]);
                lemma_blank_behind_comment(front, filler, line_end(front, pos));
            } else {
                // The comment runs on into the filler, up to its first line feed.
                let width = run_end(filler, 0, Run::Line);
                lemma_run_end(filler, 0, Run::Line);
                assert forall|i: int| pos <= i < end + width implies Run::Line.admits(
                    #[trigger] whole[i],
                ) by {
                    if i < end {
                        assert(whole[i] == front[i]);
                    } else {
                        assert(whole[i] == filler[i - end]);
                    }
                }
                if width < filler.len() {
                    assert(whole[end + width] == filler[width]);
                }
                lemma_run_end_unique(whole, pos, Run::Line, end + width);
                assert(line_end(whole, pos) == end + line_end(filler, 0));
                lemma_blank_behind_line(filler, 0);
                lemma_blank(filler, line_end(filler, 0));
                lemma_lexemes_shift(whole, end, line_end(filler, 0));
                assert(whole.skip(end) =~= filler);
                assert(lexemes(front, end) == Seq::<Lexeme>::empty());
                assert(lexemes(whole, line_end(whole, pos)) == Seq::<Lexeme>::empty());
            }
        } else {
            lemma_token_end(front, pos);
            let end = token_end(front, pos);
            if is_alpha(front[pos]) {
                lemma_run_end_joined(front, filler, pos, Run::Name);
            } else if is_numeric(front[pos]) {
                lemma_run_end_joined(front, filler, pos, Run::Number);
            }
            assert(token_end(whole, pos) == end);
            assert(whole.subrange(pos, end) =~= front.subrange(pos, end));
            assert(token_at(whole, pos) == token_at(front, pos));
            lemma_blank_behind_comment(front, filler, end);
        }
    }
}

/// Whitespace and comments put between two tokens change neither the lexemes
/// of a buffer nor what is parsed from it.
///
/// `front + back` is the buffer, split at a place between two tokens, before
/// the first or behind the last, and `filler` is what is put there: any mix
/// of whitespace and of comments that run from `#` to a line feed.
pub proof fn lemma_blank_between_tokens(front: Seq<u8>, filler: Seq<u8>, back: Seq<u8>)
    requires
        between_tokens(front, back),
        is_blank(filler, 0),
    ensures
        lexemes(front + filler + back, 0) == lexemes(front + back, 0),
        program(lexemes(front + filler + back, 0)) == program(lexemes(front + back, 0)),
{
    if tail(front, 0) == Tail::Comment {
        assert(front + filler + back =~= front + filler);
        assert(front + back =~= front);
        lemma_blank_behind_comment(front, filler, 0);
    } else {
        lemma_blank(filler, 0);
        lemma_join(filler, back);
        assert(lexemes(filler, 0) + lexemes(back, 0) =~= lexemes(back, 0));
        if filler.len() == 0 {
            assert(filler + back =~= back);
        } else {
            assert((filler + back)[0] == filler[0]);
        }
        lemma_join(front, filler + back);
        lemma_join(front, back);
        assert(front + filler + back =~= front + (filler + back));
    }
}

} // verus!
