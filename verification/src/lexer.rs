//! Cutting lines into tokens, and tokens of data into text.

use crate::text::{escape_text, escaped, push_mark, Mark};
use vstd::prelude::*;
use vstd::string::StringExecFns;

verus! {

pub const TAB: u8 = 9;

pub const NEWLINE: u8 = 10;

pub const SPACE: u8 = 32;

pub const QUOTE: u8 = 34;

pub const OPEN: u8 = 40;

pub const CLOSE: u8 = 41;

pub const SEMICOLON: u8 = 59;

pub const BACKSLASH: u8 = 92;

/// The ways in which a zone file can be malformed.
#[derive(Debug, Copy, Clone, PartialEq, Eq, Structural)]
pub enum ParseError {
    /// A time to live, a default time to live or the number of a generically
    /// written type is no decimal number, or is too large.
    MalformedNumber,
    /// A directive other than `$TTL` and `$ORIGIN`.
    UnknownDirective,
    /// A token ends in a backslash that escapes nothing.
    DanglingEscape,
    /// Text follows a closing quote within the same token.
    TextAfterQuote,
    /// A closing bracket without an opening one, or too many open brackets.
    BracketDepth,
    /// A quoted string is open where an entry ends, or the input.
    UnterminatedQuote,
}

/// What ends a stretch of bytes.
#[derive(Debug, Copy, Clone, PartialEq, Eq, Structural)]
pub enum Stop {
    /// A line ends behind a newline.
    Line,
    /// A token ends behind a space, a tab, a newline or a bracket.
    Token,
    /// A piece of data ends behind a backslash or a double quote.
    Piece,
}

pub open spec fn stops(kind: Stop, b: u8) -> bool {
    match kind {
        Stop::Line => b == NEWLINE,
        Stop::Token => b == SPACE || b == TAB || b == NEWLINE || b == OPEN || b == CLOSE,
        Stop::Piece => b == BACKSLASH || b == QUOTE,
    }
}

/// Where the stretch that begins at `from` ends: behind the first stopping
/// byte at or after `from`, or at the end of the bytes.
pub open spec fn stretch_end(kind: Stop, bytes: Seq<u8>, from: int) -> int
    decreases bytes.len() - from,
{
    if from < 0 || from >= bytes.len() {
        bytes.len() as int
    } else if stops(kind, bytes[from]) {
        from + 1
    } else {
        stretch_end(kind, bytes, from + 1)
    }
}

/// A stretch is not empty, ends within the bytes, and has no stopping byte
/// before its last one.
pub proof fn lemma_stretch_end(kind: Stop, bytes: Seq<u8>, from: int)
    requires
        0 <= from < bytes.len(),
    ensures
        from < stretch_end(kind, bytes, from) <= bytes.len(),
        forall|j: int| from <= j < stretch_end(kind, bytes, from) - 1 ==> !stops(kind, bytes[j]),
        stretch_end(kind, bytes, from) < bytes.len() ==> stops(
            kind,
            bytes[stretch_end(kind, bytes, from) - 1],
        ),
    decreases bytes.len() - from,
{
    if !stops(kind, bytes[from]) {
        if from + 1 < bytes.len() {
            lemma_stretch_end(kind, bytes, from + 1);
        } else {
            assert(stretch_end(kind, bytes, from + 1) == bytes.len());
        }
    }
}

pub(crate) fn is_stop(kind: Stop, b: u8) -> (yes: bool)
    ensures
        yes == stops(kind, b),
{
    match kind {
        Stop::Line => b == NEWLINE,
        Stop::Token => b == SPACE || b == TAB || b == NEWLINE || b == OPEN || b == CLOSE,
        Stop::Piece => b == BACKSLASH || b == QUOTE,
    }
}

/// Finds the end of the stretch that begins at `from`.
pub fn scan(kind: Stop, bytes: &[u8], from: usize) -> (end: usize)
    requires
        from < bytes.len(),
    ensures
        end == stretch_end(kind, bytes@, from as int),
        from < end <= bytes.len(),
{
    let mut i: usize = from;
    while i < bytes.len() && !is_stop(kind, bytes[i])
        invariant
            from <= i <= bytes.len(),
            stretch_end(kind, bytes@, from as int) == stretch_end(kind, bytes@, i as int),
        decreases bytes.len() - i,
    {
        i += 1;
    }
    if i < bytes.len() {
        i + 1
    } else {
        proof {
            lemma_stretch_end(kind, bytes@, from as int);
        }
        i
    }
}

/// The number of bytes of a token before the delimiter that ends it.
pub open spec fn word_len(part: Seq<u8>) -> int {
    if part.len() > 0 && stops(Stop::Token, part.last()) {
        part.len() - 1
    } else {
        part.len() as int
    }
}

/// How one piece of a token of data changes the text gathered so far.
/// `esc` says that the piece before ended in a backslash, `closed` that the
/// closing quote was seen. A backslash keeps a quote or a backslash that
/// follows it and is dropped before any other byte; what is neither is
/// escaped as a whole, but for a space at its end, which is kept as it is.
pub open spec fn unescape_from(
    part: Seq<u8>,
    pos: int,
    text: Seq<char>,
    esc: bool,
    closed: bool,
) -> Result<(Seq<char>, bool), ParseError>
    decreases part.len() - pos,
{
    if pos < 0 || pos >= part.len() {
        if esc {
            Err(ParseError::DanglingEscape)
        } else {
            Ok((text, closed))
        }
    } else {
        proof {
            lemma_stretch_end(Stop::Piece, part, pos);
        }
        let end = stretch_end(Stop::Piece, part, pos);
        let piece = part.subrange(pos, end);
        let body = piece.drop_last();
        if closed {
            if piece.len() == 1 && (piece[0] == SPACE || piece[0] == NEWLINE) {
                unescape_from(part, end, text, esc, closed)
            } else {
                Err(ParseError::TextAfterQuote)
            }
        } else if piece[0] == QUOTE {
            if esc {
                unescape_from(part, end, text.push('"'), false, false)
            } else {
                unescape_from(part, end, text, false, true)
            }
        } else if piece[0] == BACKSLASH {
            if esc {
                unescape_from(part, end, text.push('\\'), false, false)
            } else {
                unescape_from(part, end, text, true, false)
            }
        } else if piece.last() == SPACE {
            unescape_from(part, end, (text + escaped(body)).push(' '), false, false)
        } else if piece.last() == QUOTE {
            unescape_from(part, end, text + escaped(body), false, true)
        } else if piece.last() == BACKSLASH {
            unescape_from(part, end, text + escaped(body), true, false)
        } else {
            unescape_from(part, end, text + escaped(piece), false, false)
        }
    }
}

/// The text that a token of data adds to `text`, and whether the token holds
/// the closing quote.
pub open spec fn unescape(part: Seq<u8>, text: Seq<char>) -> Result<(Seq<char>, bool), ParseError> {
    unescape_from(part, 0, text, false, false)
}

/// Appends to `text` what a token of data stands for, and says whether the
/// token holds the closing quote.
pub fn unescape_quoted_data(text: &mut String, part: &[u8]) -> (r: Result<bool, ParseError>)
    ensures
        match unescape(part@, old(text)@) {
            Ok((gathered, closed)) => r == Ok::<bool, ParseError>(closed) && final(text)@
                == gathered,
            Err(e) => r == Err::<bool, ParseError>(e),
        },
{
    let ghost start = text@;
    let mut pos: usize = 0;
    let mut esc = false;
    let mut closed = false;
    while pos < part.len()
        invariant
            pos <= part.len(),
            start == old(text)@,
            unescape_from(part@, pos as int, text@, esc, closed) == unescape(part@, start),
        decreases part.len() - pos,
    {
        let end = scan(Stop::Piece, part, pos);
        let first = part[pos];
        let last = part[end - 1];
        let ghost piece = part@.subrange(pos as int, end as int);
        assert(piece[0] == first && piece.last() == last && piece.len() == end - pos);
        if closed {
            if !(end - pos == 1 && (first == SPACE || first == NEWLINE)) {
                return Err(ParseError::TextAfterQuote);
            }
        } else if first == QUOTE {
            if esc {
                push_mark(text, Mark::Quote);
                esc = false;
            } else {
                closed = true;
            }
        } else if first == BACKSLASH {
            if esc {
                push_mark(text, Mark::Backslash);
                esc = false;
            } else {
                esc = true;
            }
        } else if last == SPACE {
            let body = escape_text(&part[pos..end - 1]);
            assert(part@.subrange(pos as int, end - 1) =~= piece.drop_last());
            text.append(body.as_str());
            push_mark(text, Mark::Space);
            esc = false;
        } else if last == QUOTE {
            let body = escape_text(&part[pos..end - 1]);
            assert(part@.subrange(pos as int, end - 1) =~= piece.drop_last());
            text.append(body.as_str());
            closed = true;
            esc = false;
        } else if last == BACKSLASH {
            let body = escape_text(&part[pos..end - 1]);
            assert(part@.subrange(pos as int, end - 1) =~= piece.drop_last());
            text.append(body.as_str());
            esc = true;
        } else {
            let whole = escape_text(&part[pos..end]);
            text.append(whole.as_str());
            esc = false;
        }
        pos = end;
    }
    if esc {
        Err(ParseError::DanglingEscape)
    } else {
        Ok(closed)
    }
}

} // verus!
