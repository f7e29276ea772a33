//! What holds of the parser on every input.

use crate::differ::Differ;
use crate::lexer::{
    lemma_stretch_end, stops, stretch_end, unescape_from, word_len, ParseError, Stop, BACKSLASH,
    NEWLINE, QUOTE, SEMICOLON, SPACE,
};
use crate::parser::{
    absolute, lemma_run_wf, with_token, Machine, ParserState, ParserView, Step,
};
use crate::summary::{count_of, Change};
use crate::text::{bounded_decimal, escaped, word_of};
use crate::vocabulary::{RRClass, RRType};
use vstd::prelude::*;

verus! {

/// A name that ends in a dot stands for itself, `@` stands for the origin,
/// and any other name is completed by a dot and the origin.
pub proof fn law_absolute_name(name: Seq<char>, origin: Seq<char>)
    requires
        name.len() > 0,
    ensures
        name.last() == '.' ==> absolute(name, origin) == name,
        name == seq!['@'] ==> absolute(name, origin) == origin,
        name.last() != '.' && name != seq!['@'] ==> absolute(name, origin) == name + seq!['.']
            + origin,
{
}

/// Before the data of an entry the letter case of a token does not count:
/// two tokens that are the same word in lower case, and end and begin alike
/// as far as brackets, comments and blank tokens go, do the same to the
/// machine.
pub proof fn law_case_insensitive(m: Machine, fresh: bool, a: Seq<u8>, b: Seq<u8>)
    requires
        a.len() > 0,
        b.len() > 0,
        m.state == ParserState::Init || m.state == ParserState::Common || m.state
            == ParserState::Directive,
        word_of(a.take(word_len(a))) == word_of(b.take(word_len(b))),
        (a[0] == SEMICOLON) == (b[0] == SEMICOLON),
        m.depth_behind(a) == m.depth_behind(b),
        (word_len(a) == 0) == (word_len(b) == 0),
        (a[0] == NEWLINE) == (b[0] == NEWLINE),
    ensures
        m.step(fresh, a) == m.step(fresh, b),
{
}

/// The data of a record is kept as it is written: a token of data without
/// quotes and backslashes becomes a token of the record that is the escaped
/// text of its bytes, in the letter case in which they stand.
pub proof fn law_data_verbatim(m: Machine, fresh: bool, token: Seq<u8>)
    requires
        m.state == ParserState::Data,
        token.len() > 0,
        token[0] != SEMICOLON,
        forall|i: int|
            0 <= i < token.len() ==> !stops(Stop::Token, #[trigger] token[i]) && !stops(
                Stop::Piece,
                token[i],
            ),
    ensures
        m.step(fresh, token.push(SPACE)) == Step::Go(
            Machine {
                quoted: escaped(token),
                record: with_token(m.record, escaped(token)),
                ..m
            },
            false,
        ),
{
    let part = token.push(SPACE);
    assert(part.take(word_len(part)) =~= token);
    assert(part[0] == token[0]);
    lemma_stretch_no_stop(Stop::Piece, token, 0);
    assert(token.subrange(0, token.len() as int) =~= token);
    assert(unescape_from(token, token.len() as int, escaped(token), false, false) == Ok::<
        (Seq<char>, bool),
        ParseError,
    >((escaped(token), false)));
    assert(Seq::<char>::empty() + escaped(token) =~= escaped(token));
}

/// The time to live of a record is the one in force when its type is read,
/// and it stays. The one in force is, from the owner name of an entry on,
/// the default, once one is set, and changes only by a token behind the
/// owner name that is a number. The default changes only by the value of a
/// directive.
pub proof fn law_ttl_in_force(m: Machine, fresh: bool, part: Seq<u8>)
    requires
        m.wf(),
        part.len() > 0,
    ensures
        m.step(fresh, part) matches Step::Go(after, _) ==> {
            &&& m.state != ParserState::Directive ==> after.default_ttl == m.default_ttl
            &&& m.state == ParserState::Init && after.state == ParserState::Common ==> after.ttl
                == m.entry_ttl()
            &&& m.state != ParserState::Init && after.ttl != m.ttl ==> m.state
                == ParserState::Common && bounded_decimal(
                word_of(part.take(word_len(part))),
                u32::MAX as nat,
            ) == Some(after.ttl as nat)
            &&& m.record is None && after.record is Some ==> after.record->0.ttl == m.ttl
            &&& m.record matches Some(r) ==> after.record matches Some(s) && s.ttl == r.ttl
        },
{
}

/// What the next token of a line does behind a step that goes on.
pub open spec fn then(step: Step, part: Seq<u8>) -> Step {
    match step {
        Step::Go(m, _) => m.step(false, part),
        Step::Comment => Step::Comment,
        Step::Fail(e) => Step::Fail(e),
    }
}

/// The time to live of the record that a step leaves in hand.
pub open spec fn record_ttl(step: Step) -> Option<u32> {
    match step {
        Step::Go(m, _) => match m.record {
            Some(r) => Some(r.ttl),
            None => None,
        },
        _ => None,
    }
}

/// A record that is written without a time to live has the default one, once
/// one is set: where the owner name of an entry is followed by its type, with
/// or without its class between them, the record has the default time to
/// live.
pub proof fn law_default_ttl(m: Machine, name: Seq<u8>, class: Seq<u8>, rrtype: Seq<u8>)
    requires
        m.state == ParserState::Init,
        m.record is None,
        m.depth == 0,
        m.default_ttl != 0,
        name.len() > 0,
        class.len() > 0,
        rrtype.len() > 0,
        m.step(true, name) matches Step::Go(named, _) && named.state == ParserState::Common,
        RRClass::named(word_of(class.take(word_len(class)))) is Some,
    ensures
        record_ttl(then(m.step(true, name), rrtype)) is Some ==> record_ttl(
            then(m.step(true, name), rrtype),
        ) == Some(m.default_ttl),
        record_ttl(then(then(m.step(true, name), class), rrtype)) is Some ==> record_ttl(
            then(then(m.step(true, name), class), rrtype),
        ) == Some(m.default_ttl),
{
}

/// A time to live that is written with a record holds for that record, and
/// for that record only: where the owner name of an entry is followed by a
/// number and then by the type, the record has that number as its time to
/// live, and the default is as it was for the entries that follow.
pub proof fn law_explicit_ttl(m: Machine, name: Seq<u8>, ttl: Seq<u8>, rrtype: Seq<u8>)
    requires
        m.state == ParserState::Init,
        m.record is None,
        m.depth == 0,
        name.len() > 0,
        ttl.len() > 0,
        rrtype.len() > 0,
        word_len(ttl) > 0,
        RRClass::named(word_of(ttl.take(word_len(ttl)))) is None,
        RRType::of_word(word_of(ttl.take(word_len(ttl)))) is None,
        m.step(true, name) matches Step::Go(named, _) && named.state == ParserState::Common,
    ensures
        record_ttl(then(then(m.step(true, name), ttl), rrtype)) matches Some(t) ==> Some(t as nat)
            == bounded_decimal(word_of(ttl.take(word_len(ttl))), u32::MAX as nat),
        then(then(m.step(true, name), ttl), rrtype) matches Step::Go(begun, _)
            ==> begun.default_ttl == m.default_ttl,
{
}

/// Two byte strings that agree on their first `n` bytes are cut alike up to
/// there.
proof fn lemma_stretch_prefix(kind: Stop, a: Seq<u8>, b: Seq<u8>, n: int, pos: int)
    requires
        0 <= pos < n,
        n < a.len(),
        n < b.len(),
        forall|i: int| 0 <= i < n ==> a[i] == b[i],
    ensures
        stretch_end(kind, a, pos) <= n ==> stretch_end(kind, b, pos) == stretch_end(kind, a, pos)
            && a.subrange(pos, stretch_end(kind, a, pos)) == b.subrange(
            pos,
            stretch_end(kind, a, pos),
        ),
        stretch_end(kind, a, pos) > n ==> stretch_end(kind, b, pos) > n && forall|j: int|
            pos <= j < n ==> !stops(kind, #[trigger] a[j]),
    decreases n - pos,
{
    lemma_stretch_end(kind, a, pos);
    lemma_stretch_end(kind, b, pos);
    if stops(kind, a[pos]) {
        assert(a.subrange(pos, pos + 1) =~= b.subrange(pos, pos + 1));
    } else if pos + 1 < n {
        lemma_stretch_prefix(kind, a, b, n, pos + 1);
        let end = stretch_end(kind, a, pos);
        if end <= n {
            assert(a.subrange(pos, end) =~= b.subrange(pos, end));
        }
    } else {
        lemma_stretch_end(kind, a, n);
        lemma_stretch_end(kind, b, n);
    }
}

/// A stretch ends behind the first stopping byte.
proof fn lemma_stretch_first_stop(kind: Stop, s: Seq<u8>, pos: int, n: int)
    requires
        0 <= pos <= n < s.len(),
        forall|j: int| pos <= j < n ==> !stops(kind, #[trigger] s[j]),
        stops(kind, s[n]),
    ensures
        stretch_end(kind, s, pos) == n + 1,
    decreases n - pos,
{
    if pos < n {
        lemma_stretch_first_stop(kind, s, pos + 1, n);
    }
}

/// A stretch without a stopping byte ends with the bytes.
proof fn lemma_stretch_no_stop(kind: Stop, s: Seq<u8>, pos: int)
    requires
        0 <= pos <= s.len(),
        forall|j: int| pos <= j < s.len() ==> !stops(kind, #[trigger] s[j]),
    ensures
        stretch_end(kind, s, pos) == s.len(),
    decreases s.len() - pos,
{
    if pos < s.len() {
        lemma_stretch_no_stop(kind, s, pos + 1);
    }
}

/// Bytes are cut alike whatever stands before them.
proof fn lemma_stretch_shift(kind: Stop, left: Seq<u8>, tail: Seq<u8>, pos: int)
    requires
        0 <= pos <= tail.len(),
    ensures
        stretch_end(kind, left + tail, left.len() + pos) == left.len() + stretch_end(
            kind,
            tail,
            pos,
        ),
    decreases tail.len() - pos,
{
    if pos < tail.len() {
        assert((left + tail)[left.len() + pos] == tail[pos]);
        if !stops(kind, tail[pos]) {
            lemma_stretch_shift(kind, left, tail, pos + 1);
        }
    }
}

/// Tokens are read alike whatever stands before them in the line.
proof fn lemma_run_shift(m: Machine, fresh: bool, left: Seq<u8>, tail: Seq<u8>, pos: int)
    requires
        0 <= pos <= tail.len(),
    ensures
        m.run(fresh, left + tail, left.len() + pos) == m.run(fresh, tail, pos),
    decreases tail.len() - pos,
{
    if pos < tail.len() {
        lemma_stretch_shift(Stop::Token, left, tail, pos);
        lemma_stretch_end(Stop::Token, tail, pos);
        let end = stretch_end(Stop::Token, tail, pos);
        assert((left + tail).subrange(left.len() + pos, left.len() + end) =~= tail.subrange(
            pos,
            end,
        ));
        match m.step(fresh, tail.subrange(pos, end)) {
            Step::Go(after, still_fresh) => {
                lemma_run_shift(after, still_fresh, left, tail, end);
            },
            _ => {},
        }
    }
}

/// The step goes on with the machine `m`.
pub open spec fn goes_to(step: Step, m: Machine) -> bool {
    step matches Step::Go(other, _) && other == m
}

/// Behind the owner name it does not count whether a token is the first of
/// its line, and the machine stays behind the owner name.
proof fn lemma_step_in_entry(m: Machine, f1: bool, f2: bool, part: Seq<u8>)
    requires
        m.in_entry(),
    ensures
        match m.step(f1, part) {
            Step::Go(after, _) => after.in_entry() && goes_to(m.step(f2, part), after),
            Step::Comment => m.step(f2, part) is Comment,
            Step::Fail(e) => m.step(f2, part) == Step::Fail(e),
        },
{
}

/// [`lemma_step_in_entry`], of the tokens of a line.
proof fn lemma_run_in_entry(m: Machine, f1: bool, f2: bool, line: Seq<u8>, pos: int)
    requires
        m.in_entry(),
    ensures
        m.run(f1, line, pos) == m.run(f2, line, pos),
    decreases line.len() - pos,
{
    if 0 <= pos < line.len() {
        lemma_stretch_end(Stop::Token, line, pos);
        let end = stretch_end(Stop::Token, line, pos);
        let part = line.subrange(pos, end);
        lemma_step_in_entry(m, f1, f2, part);
        match m.step(f1, part) {
            Step::Go(after, g1) => {
                let g2 = m.step(f2, part)->Go_1;
                lemma_run_in_entry(after, g1, g2, line, end);
            },
            _ => {},
        }
    }
}

/// A token of data that holds its closing quote is read alike before a
/// newline and before a space.
proof fn lemma_unescape_break(x: Seq<u8>, pos: int, text: Seq<char>, esc: bool, closed: bool)
    requires
        0 <= pos <= x.len(),
    ensures
        unescape_from(x.push(NEWLINE), pos, text, esc, closed) matches Ok((_, true))
            ==> unescape_from(x.push(SPACE), pos, text, esc, closed) == unescape_from(
            x.push(NEWLINE),
            pos,
            text,
            esc,
            closed,
        ),
    decreases x.len() - pos,
{
    let a = x.push(NEWLINE);
    let b = x.push(SPACE);
    let n = x.len() as int;
    lemma_stretch_end(Stop::Piece, a, pos);
    lemma_stretch_end(Stop::Piece, b, pos);
    let end = stretch_end(Stop::Piece, a, pos);
    if pos < n {
        lemma_stretch_prefix(Stop::Piece, a, b, n, pos);
    } else {
        lemma_stretch_no_stop(Stop::Piece, a, pos);
        lemma_stretch_no_stop(Stop::Piece, b, pos);
    }
    if end <= n {
        let piece = a.subrange(pos, end);
        assert(piece == b.subrange(pos, end));
        if closed {
            lemma_unescape_break(x, end, text, esc, closed);
        } else if piece[0] == QUOTE {
            if esc {
                lemma_unescape_break(x, end, text.push('"'), false, false);
            } else {
                lemma_unescape_break(x, end, text, false, true);
            }
        } else if piece[0] == BACKSLASH {
            if esc {
                lemma_unescape_break(x, end, text.push('\\'), false, false);
            } else {
                lemma_unescape_break(x, end, text, true, false);
            }
        } else if piece.last() == SPACE {
            lemma_unescape_break(
                x,
                end,
                (text + escaped(piece.drop_last())).push(' '),
                false,
                false,
            );
        } else if piece.last() == QUOTE {
            lemma_unescape_break(x, end, text + escaped(piece.drop_last()), false, true);
        } else if piece.last() == BACKSLASH {
            lemma_unescape_break(x, end, text + escaped(piece.drop_last()), true, false);
        } else {
            lemma_unescape_break(x, end, text + escaped(piece), false, false);
        }
    } else {
        lemma_stretch_no_stop(Stop::Piece, a, pos);
        lemma_stretch_no_stop(Stop::Piece, b, pos);
        let pa = a.subrange(pos, n + 1);
        let pb = b.subrange(pos, n + 1);
        assert(pa.last() == NEWLINE && pb.last() == SPACE);
        assert(pa.len() == pb.len());
        if pos < n {
            assert(pa[0] == x[pos] && pb[0] == x[pos]);
            assert(!stops(Stop::Piece, a[pos]));
        }
        if closed {
            assert(unescape_from(a, n + 1, text, esc, closed) == unescape_from(
                b,
                n + 1,
                text,
                esc,
                closed,
            ));
        } else {
            let after = text + escaped(pa);
            assert(unescape_from(a, pos, text, esc, closed) == unescape_from(
                a,
                n + 1,
                after,
                false,
                false,
            ));
            assert(unescape_from(a, n + 1, after, false, false) == Ok::<
                (Seq<char>, bool),
                ParseError,
            >((after, false)));
        }
    }
}

/// The last token of a line is read alike before a newline and before a
/// space, unless it leaves a quoted string open.
proof fn lemma_last_token(m: Machine, fresh: bool, x: Seq<u8>)
    requires
        m.in_entry(),
        forall|i: int| 0 <= i < x.len() ==> !stops(Stop::Token, #[trigger] x[i]),
    ensures
        m.step(fresh, x.push(NEWLINE)) matches Step::Go(after, _) ==> (after.state
            != ParserState::QString || x.len() == 0) ==> goes_to(
            m.step(fresh, x.push(SPACE)),
            after,
        ),
{
    let a = x.push(NEWLINE);
    let b = x.push(SPACE);
    assert(word_len(a) == x.len() && word_len(b) == x.len());
    assert(a.take(x.len() as int) =~= x);
    assert(b.take(x.len() as int) =~= x);
    if x.len() > 0 {
        assert(a[0] == x[0] && b[0] == x[0]);
        match m.state {
            ParserState::Data => {
                if a[0] == QUOTE {
                    assert(a.skip(1) =~= x.skip(1).push(NEWLINE));
                    assert(b.skip(1) =~= x.skip(1).push(SPACE));
                    lemma_unescape_break(x.skip(1), 0, Seq::empty(), false, false);
                }
            },
            ParserState::QString => {
                lemma_unescape_break(x, 0, m.quoted, false, false);
            },
            _ => {},
        }
    }
}

/// [`law_line_break`], from any place of the first line on.
proof fn lemma_line_break(m: Machine, fresh: bool, head: Seq<u8>, tail: Seq<u8>, pos: int)
    requires
        m.in_entry(),
        0 <= pos <= head.len(),
        m.comment_free(fresh, head.push(NEWLINE), pos),
        m.run(fresh, head.push(NEWLINE), pos) matches Ok(first) ==> first.state
            != ParserState::QString || head.len() == 0 || stops(Stop::Token, head.last()),
    ensures
        m.run(fresh, head.push(NEWLINE), pos) matches Ok(first) ==> m.run(
            fresh,
            head.push(SPACE) + tail,
            pos,
        ) == first.run_line(tail),
    decreases head.len() - pos,
{
    let one = head.push(NEWLINE);
    let both = head.push(SPACE) + tail;
    let n = head.len() as int;
    lemma_stretch_end(Stop::Token, one, pos);
    lemma_stretch_end(Stop::Token, both, pos);
    let end = stretch_end(Stop::Token, one, pos);
    assert forall|i: int| 0 <= i < n implies one[i] == both[i] by {}
    if pos < n {
        lemma_stretch_prefix(Stop::Token, one, both, n, pos);
    }
    if end <= n {
        let part = one.subrange(pos, end);
        lemma_step_in_entry(m, fresh, fresh, part);
        match m.step(fresh, part) {
            Step::Go(after, still_fresh) => {
                lemma_line_break(after, still_fresh, head, tail, end);
            },
            _ => {},
        }
    } else {
        let x = head.subrange(pos, n);
        assert forall|i: int| 0 <= i < x.len() implies !stops(Stop::Token, #[trigger] x[i]) by {
            assert(x[i] == one[pos + i]);
        }
        assert(both[n] == SPACE);
        assert forall|j: int| pos <= j < n implies !stops(Stop::Token, #[trigger] both[j]) by {
            assert(both[j] == one[j]);
        }
        lemma_stretch_first_stop(Stop::Token, both, pos, n);
        assert(one.subrange(pos, n + 1) =~= x.push(NEWLINE));
        assert(both.subrange(pos, n + 1) =~= x.push(SPACE));
        lemma_last_token(m, fresh, x);
        lemma_step_in_entry(m, fresh, fresh, x.push(NEWLINE));
        match m.step(fresh, x.push(NEWLINE)) {
            Step::Go(after, f1) => {
                assert(m.run(fresh, one, pos) == after.run(f1, one, n + 1));
                assert(after.run(f1, one, n + 1) == Ok::<Machine, ParseError>(after));
                if x.len() > 0 {
                    assert(x.last() == head.last());
                }
                let f2 = m.step(fresh, x.push(SPACE))->Go_1;
                assert(m.run(fresh, both, pos) == after.run(f2, both, n + 1));
                lemma_run_shift(after, f2, head.push(SPACE), tail, 0);
                lemma_run_in_entry(after, f2, true, tail, 0);
            },
            _ => {},
        }
    }
}

/// A line break within an entry counts as a space. Behind the owner name of
/// an entry, two lines do to the machine what they do as one line with a
/// space in place of the newline between them, where the first line is read
/// to its end, without a comment, and the break does not fall behind a token
/// of a quoted string that the first line leaves open.
pub proof fn law_line_break(m: Machine, head: Seq<u8>, tail: Seq<u8>)
    requires
        m.in_entry(),
        m.comment_free(true, head.push(NEWLINE), 0),
    ensures
        m.run_line(head.push(NEWLINE)) matches Ok(first) ==> (first.state != ParserState::QString
            || head.len() == 0 || stops(Stop::Token, head.last())) ==> first.run_line(tail)
            == m.run_line(head.push(SPACE) + tail),
{
    match m.run_line(head.push(NEWLINE)) {
        Ok(first) => {
            if first.state != ParserState::QString || head.len() == 0 || stops(
                Stop::Token,
                head.last(),
            ) {
                lemma_line_break(m, true, head, tail, 0);
            }
        },
        Err(_) => {},
    }
}

/// An entry is not complete while a bracket is open: behind a line that
/// leaves a bracket open, or no record begun, the parser reads on.
pub proof fn law_open_bracket(p: ParserView)
    requires
        p.wf(),
        !p.done,
        p.pos < p.input.len(),
    ensures
        ({
            let end = stretch_end(Stop::Line, p.input, p.pos as int);
            p.machine.run_line(p.input.subrange(p.pos as int, end)) matches Ok(m) ==> (m.depth > 0
                || m.record is None) ==> !m.complete() && p.advance() == (ParserView {
                machine: m,
                pos: end as nat,
                line_no: p.line_no + 1,
                ..p
            }).advance()
        }),
{
    let end = stretch_end(Stop::Line, p.input, p.pos as int);
    lemma_run_wf(p.machine, true, p.input.subrange(p.pos as int, end), 0);
}

/// A zone is in step with itself. The comparison of a zone with itself,
/// through windows of at least one set, begins in the state of which
/// [`Differ::compare`] promises that nothing is reported and nothing
/// overflows; and in the report that it begins with, and so ends with, every
/// count is zero.
pub proof fn law_same_zone(
    zone: Seq<u8>,
    origin: Seq<char>,
    buf_size: usize,
    ignore_serial: bool,
    skip_dnssec: bool,
    verbose: bool,
    rrtype: RRType,
    change: Change,
)
    requires
        buf_size >= 1,
    ensures
        Differ::new_view(
            zone,
            zone,
            origin,
            buf_size,
            ignore_serial,
            skip_dnssec,
            verbose,
        ).in_step(),
        count_of(
            Differ::new_view(
                zone,
                zone,
                origin,
                buf_size,
                ignore_serial,
                skip_dnssec,
                verbose,
            ).report.counts,
            rrtype,
            change,
        ) == 0,
{
}

} // verus!
