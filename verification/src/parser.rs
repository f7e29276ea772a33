//! The parser of zone master files: a state machine that is driven token by
//! token and line by line, and yields one record per logical entry.

use crate::lexer::{
    is_stop, lemma_stretch_end, scan, stretch_end, unescape, unescape_quoted_data, word_len,
    ParseError, Stop, CLOSE, NEWLINE, OPEN, QUOTE, SEMICOLON,
};
use crate::record::{Record, RecordData, RecordView};
use crate::text::{
    bounded_decimal, lowercased, parse_decimal, push_mark, text_eq, word, word_of, Mark,
};
use crate::text::lowercase_text;
use crate::vocabulary::{has_generic_prefix, starts_generic, RRClass, RRType, Tables};
use vstd::prelude::*;
use vstd::slice::slice_to_vec;
use vstd::string::StringExecFns;

verus! {

/// Where the parser stands within an entry.
#[derive(Debug, Copy, Clone, PartialEq, Eq, Structural)]
pub enum ParserState {
    /// Before the owner name or a directive.
    Init,
    /// Behind the owner name: time to live, class and type follow.
    Common,
    /// Behind the name of a directive: its value follows.
    Directive,
    /// Behind the type: the tokens of the data follow.
    Data,
    /// Inside a quoted string that began in an earlier token.
    QString,
}

impl Default for ParserState {
    fn default() -> (state: ParserState)
        ensures
            state == ParserState::Init,
    {
        ParserState::Init
    }
}

/// What the parser remembers from token to token.
pub struct Machine {
    pub state: ParserState,
    /// The owner name of the entry in hand, or of the last one.
    pub name: Seq<char>,
    /// The name that relative names are completed with.
    pub origin: Seq<char>,
    /// The time to live that `$TTL` set; zero when none was set.
    pub default_ttl: u32,
    pub ttl: u32,
    pub class: RRClass,
    pub rrtype: RRType,
    /// The number of brackets that are open.
    pub depth: u16,
    /// The text of the quoted string in hand.
    pub quoted: Seq<char>,
    /// The name of the directive in hand.
    pub directive: Seq<char>,
    /// The record of the entry in hand, from its type on.
    pub record: Option<RecordView>,
}

/// What one token does to the machine.
pub enum Step {
    /// The machine goes on in the given state; the flag says whether the line
    /// is still at its start.
    Go(Machine, bool),
    /// The token begins a comment: the rest of the line is left out.
    Comment,
    Fail(ParseError),
}

/// The owner name that a word stands for: the origin for `@`, the word itself
/// where it ends in a dot, and else the word, a dot and the origin.
pub open spec fn absolute(name: Seq<char>, origin: Seq<char>) -> Seq<char> {
    if name == seq!['@'] {
        origin
    } else if name.len() > 0 && name.last() == '.' {
        name
    } else {
        name + seq!['.'] + origin
    }
}

/// An origin with the dot at its end that it may have been given without.
pub open spec fn with_final_dot(origin: Seq<char>) -> Seq<char> {
    if origin.len() > 0 && origin.last() == '.' {
        origin
    } else {
        origin.push('.')
    }
}

pub open spec fn ttl_directive() -> Seq<char> {
    seq!['$', 't', 't', 'l']
}

pub open spec fn origin_directive() -> Seq<char> {
    seq!['$', 'o', 'r', 'i', 'g', 'i', 'n']
}

/// The record with one more token of data.
pub open spec fn with_token(record: Option<RecordView>, token: Seq<char>) -> Option<RecordView> {
    match record {
        Some(r) => Some(RecordView { data: r.data.push(token), ..r }),
        None => None,
    }
}

impl Machine {
    /// There is a record in hand exactly in the data of an entry.
    pub open spec fn wf(self) -> bool {
        (self.state == ParserState::Data || self.state == ParserState::QString)
            <==> self.record is Some
    }

    /// The machine as a new entry finds it: in its first state and without a
    /// record.
    pub open spec fn prepared(self) -> Machine {
        Machine { state: ParserState::Init, record: None, ..self }
    }

    /// The time to live that an entry begins with: the default, once one is
    /// set, and else the one of the entry before.
    pub open spec fn entry_ttl(self) -> u32 {
        if self.default_ttl != 0 {
            self.default_ttl
        } else {
            self.ttl
        }
    }

    /// The entry in hand is complete: its record is begun, and neither a
    /// bracket nor a quoted string is open.
    pub open spec fn complete(self) -> bool {
        self.record is Some && self.depth == 0 && self.state != ParserState::QString
    }

    /// A quoted string is open outside brackets, where a line ends the entry.
    pub open spec fn unterminated(self) -> bool {
        self.state == ParserState::QString && self.depth == 0
    }

    /// The machine behind an entry whose record was handed out.
    pub open spec fn emptied(self) -> Machine {
        Machine { record: None, state: ParserState::Init, ..self }
    }

    /// The machine with the record of the given type begun.
    pub open spec fn begun(self, rrtype: RRType) -> Machine {
        Machine {
            rrtype,
            state: ParserState::Data,
            record: Some(
                RecordView {
                    name: self.name,
                    ttl: self.ttl,
                    class: self.class,
                    rrtype,
                    data: Seq::empty(),
                },
            ),
            ..self
        }
    }

    /// A token without its delimiter, met before the owner name. Only the
    /// first token of a line counts, and only outside brackets: it names a
    /// directive where it begins with `$`, and else the owner, an empty word
    /// leaving the owner as it was. With its owner an entry gets the time to
    /// live that it begins with.
    pub open spec fn at_init(self, fresh: bool, token: Seq<u8>) -> Step {
        let w = word_of(token);
        if !(fresh && self.depth == 0) {
            Step::Go(self, false)
        } else if w.len() > 0 && w[0] == '$' {
            Step::Go(Machine { directive: w, state: ParserState::Directive, ..self }, false)
        } else {
            Step::Go(
                Machine {
                    name: if w.len() > 0 {
                        absolute(w, self.origin)
                    } else {
                        self.name
                    },
                    ttl: self.entry_ttl(),
                    state: ParserState::Common,
                    ..self
                },
                false,
            )
        }
    }

    /// A token behind the owner name: a class, the type, which begins the
    /// record, or else the time to live.
    pub open spec fn at_common(self, token: Seq<u8>) -> Step {
        let w = word_of(token);
        match RRClass::named(w) {
            Some(class) => Step::Go(Machine { class, ..self }, false),
            None => match RRType::of_word(w) {
                Some(rrtype) => Step::Go(self.begun(rrtype), false),
                None => if has_generic_prefix(w) {
                    Step::Fail(ParseError::MalformedNumber)
                } else {
                    match bounded_decimal(w, u32::MAX as nat) {
                        Some(ttl) => Step::Go(Machine { ttl: ttl as u32, ..self }, false),
                        None => Step::Fail(ParseError::MalformedNumber),
                    }
                },
            },
        }
    }

    /// The value of a directive.
    pub open spec fn at_directive(self, token: Seq<u8>) -> Step {
        let w = word_of(token);
        if self.directive == ttl_directive() {
            match bounded_decimal(w, u32::MAX as nat) {
                Some(ttl) => Step::Go(
                    Machine { default_ttl: ttl as u32, state: ParserState::Init, ..self },
                    false,
                ),
                None => Step::Fail(ParseError::MalformedNumber),
            }
        } else if self.directive == origin_directive() {
            Step::Go(Machine { origin: w, state: ParserState::Init, ..self }, false)
        } else {
            Step::Fail(ParseError::UnknownDirective)
        }
    }

    /// A token of data. One that begins with a quote is read up to its
    /// closing quote, which may come in a later token; any other is one token
    /// of data, a quote at its end being kept.
    pub open spec fn at_data(self, part: Seq<u8>) -> Step {
        if part[0] == QUOTE {
            match unescape(part.skip(1), Seq::empty()) {
                Ok((text, closed)) => if closed {
                    Step::Go(
                        Machine { quoted: text, record: with_token(self.record, text), ..self },
                        false,
                    )
                } else {
                    Step::Go(Machine { quoted: text, state: ParserState::QString, ..self }, false)
                },
                Err(e) => Step::Fail(e),
            }
        } else {
            match unescape(part.take(word_len(part)), Seq::empty()) {
                Ok((text, closed)) => {
                    let token = if closed {
                        text.push('"')
                    } else {
                        text
                    };
                    Step::Go(
                        Machine { quoted: token, record: with_token(self.record, token), ..self },
                        false,
                    )
                },
                Err(e) => Step::Fail(e),
            }
        }
    }

    /// A token inside a quoted string.
    pub open spec fn at_quoted(self, part: Seq<u8>) -> Step {
        match unescape(part, self.quoted) {
            Ok((text, closed)) => if closed {
                Step::Go(
                    Machine {
                        quoted: text,
                        record: with_token(self.record, text),
                        state: ParserState::Data,
                        ..self
                    },
                    false,
                )
            } else {
                Step::Go(Machine { quoted: text, ..self }, false)
            },
            Err(e) => Step::Fail(e),
        }
    }

    /// The depth of brackets behind a token.
    pub open spec fn depth_behind(self, part: Seq<u8>) -> int {
        if part.last() == OPEN {
            self.depth + 1
        } else if part.last() == CLOSE {
            self.depth - 1
        } else {
            self.depth as int
        }
    }

    /// What one token does, the delimiter that ends it included. A token that
    /// begins with `;` outside a quoted string begins a comment. A bracket at
    /// the end of the token is counted. A token that is only a delimiter does
    /// nothing more, but for a blank at the start of an entry.
    pub open spec fn step(self, fresh: bool, part: Seq<u8>) -> Step
        recommends
            part.len() > 0,
    {
        if part[0] == SEMICOLON && self.state != ParserState::QString {
            Step::Comment
        } else if !(0 <= self.depth_behind(part) <= u16::MAX) {
            Step::Fail(ParseError::BracketDepth)
        } else {
            let m = Machine { depth: self.depth_behind(part) as u16, ..self };
            if word_len(part) == 0 && (part[0] == NEWLINE || self.state != ParserState::Init) {
                Step::Go(m, fresh)
            } else {
                match self.state {
                    ParserState::Init => m.at_init(fresh, part.take(word_len(part))),
                    ParserState::Common => m.at_common(part.take(word_len(part))),
                    ParserState::Directive => m.at_directive(part.take(word_len(part))),
                    ParserState::Data => m.at_data(part),
                    ParserState::QString => m.at_quoted(part),
                }
            }
        }
    }

    /// What the tokens of a line from `pos` on do.
    pub open spec fn run(self, fresh: bool, line: Seq<u8>, pos: int) -> Result<Machine, ParseError>
        decreases line.len() - pos,
    {
        if pos < 0 || pos >= line.len() {
            Ok(self)
        } else {
            proof {
                lemma_stretch_end(Stop::Token, line, pos);
            }
            let end = stretch_end(Stop::Token, line, pos);
            match self.step(fresh, line.subrange(pos, end)) {
                Step::Go(m, still_fresh) => m.run(still_fresh, line, end),
                Step::Comment => Ok(self),
                Step::Fail(e) => Err(e),
            }
        }
    }

    /// What a line does.
    pub open spec fn run_line(self, line: Seq<u8>) -> Result<Machine, ParseError> {
        self.run(true, line, 0)
    }

    /// None of the tokens of a line from `pos` on that the machine reads
    /// begins a comment.
    pub open spec fn comment_free(self, fresh: bool, line: Seq<u8>, pos: int) -> bool
        decreases line.len() - pos,
    {
        if pos < 0 || pos >= line.len() {
            true
        } else {
            proof {
                lemma_stretch_end(Stop::Token, line, pos);
            }
            let end = stretch_end(Stop::Token, line, pos);
            match self.step(fresh, line.subrange(pos, end)) {
                Step::Go(m, still_fresh) => m.comment_free(still_fresh, line, end),
                Step::Comment => false,
                Step::Fail(_) => true,
            }
        }
    }

    /// The owner name of the entry in hand is read.
    pub open spec fn in_entry(self) -> bool {
        self.state == ParserState::Common || self.state == ParserState::Data || self.state
            == ParserState::QString
    }
}

/// A parser as a mathematical value.
pub struct ParserView {
    pub machine: Machine,
    pub input: Seq<u8>,
    /// The number of bytes that were read.
    pub pos: nat,
    /// The number of lines that were read.
    pub line_no: nat,
    /// No record will come any more.
    pub done: bool,
}

/// What a call for the next record gives.
pub enum Outcome {
    /// A record, and the parser behind it.
    Record(ParserView, RecordView),
    /// The end of the records, and the parser behind it.
    End(ParserView),
    /// The input is malformed. The parser is done.
    Failed(ParseError),
}

impl ParserView {
    pub open spec fn wf(self) -> bool {
        &&& self.machine.wf()
        &&& self.line_no <= self.pos <= self.input.len() <= usize::MAX
    }

    /// Reads lines until an entry is complete. A quoted string that is open
    /// where a line ends outside brackets, or where the input ends, is an
    /// error. At the end of the input there is no record any more.
    pub open spec fn advance(self) -> Outcome
        decreases self.input.len() - self.pos,
    {
        if self.done {
            Outcome::End(self)
        } else if self.pos >= self.input.len() {
            if self.machine.state == ParserState::QString {
                Outcome::Failed(ParseError::UnterminatedQuote)
            } else {
                Outcome::End(ParserView { done: true, ..self })
            }
        } else {
            proof {
                lemma_stretch_end(Stop::Line, self.input, self.pos as int);
            }
            let end = stretch_end(Stop::Line, self.input, self.pos as int);
            match self.machine.run_line(self.input.subrange(self.pos as int, end)) {
                Err(e) => Outcome::Failed(e),
                Ok(m) => {
                    let read = ParserView {
                        machine: m,
                        pos: end as nat,
                        line_no: self.line_no + 1,
                        ..self
                    };
                    if m.unterminated() {
                        Outcome::Failed(ParseError::UnterminatedQuote)
                    } else if m.complete() {
                        Outcome::Record(ParserView { machine: m.emptied(), ..read }, m.record->0)
                    } else {
                        read.advance()
                    }
                },
            }
        }
    }

    /// What a call for the next record gives: the machine is made ready for a
    /// new entry, then lines are read.
    pub open spec fn next(self) -> Outcome {
        (ParserView { machine: self.machine.prepared(), ..self }).advance()
    }
}

/// A token leaves a well-formed machine well-formed.
pub proof fn lemma_step_wf(m: Machine, fresh: bool, part: Seq<u8>)
    requires
        m.wf(),
    ensures
        m.step(fresh, part) matches Step::Go(after, _) ==> after.wf(),
{
}

/// A line leaves a well-formed machine well-formed.
pub proof fn lemma_run_wf(m: Machine, fresh: bool, line: Seq<u8>, pos: int)
    requires
        m.wf(),
    ensures
        m.run(fresh, line, pos) matches Ok(after) ==> after.wf(),
    decreases line.len() - pos,
{
    if 0 <= pos < line.len() {
        lemma_stretch_end(Stop::Token, line, pos);
        let end = stretch_end(Stop::Token, line, pos);
        lemma_step_wf(m, fresh, line.subrange(pos, end));
        match m.step(fresh, line.subrange(pos, end)) {
            Step::Go(after, still_fresh) => {
                lemma_run_wf(after, still_fresh, line, end);
            },
            _ => {},
        }
    }
}

/// Reading leaves a parser well-formed and over the same input, and never
/// goes back. A record costs at least one line; at the end the parser is done.
pub proof fn lemma_advance(p: ParserView)
    requires
        p.wf(),
    ensures
        match p.advance() {
            Outcome::Record(q, _) => q.wf() && q.input == p.input && q.done == p.done && p.pos
                < q.pos && p.line_no < q.line_no,
            Outcome::End(q) => q.wf() && q.input == p.input && q.done && p.pos <= q.pos
                && p.line_no <= q.line_no,
            Outcome::Failed(_) => true,
        },
    decreases p.input.len() - p.pos,
{
    if !p.done && p.pos < p.input.len() {
        lemma_stretch_end(Stop::Line, p.input, p.pos as int);
        let end = stretch_end(Stop::Line, p.input, p.pos as int);
        let line = p.input.subrange(p.pos as int, end);
        lemma_run_wf(p.machine, true, line, 0);
        match p.machine.run_line(line) {
            Ok(m) => {
                let read = ParserView { machine: m, pos: end as nat, line_no: p.line_no + 1, ..p };
                if !m.complete() && !m.unterminated() {
                    lemma_advance(read);
                }
            },
            Err(_) => {},
        }
    }
}

/// [`lemma_advance`], of a call for the next record.
pub proof fn lemma_next(p: ParserView)
    requires
        p.wf(),
    ensures
        match p.next() {
            Outcome::Record(q, _) => q.wf() && q.input == p.input && q.done == p.done && p.pos
                < q.pos && p.line_no < q.line_no,
            Outcome::End(q) => q.wf() && q.input == p.input && q.done && p.pos <= q.pos
                && p.line_no <= q.line_no,
            Outcome::Failed(_) => true,
        },
{
    lemma_advance(ParserView { machine: p.machine.prepared(), ..p });
}

/// What a token does to the flow of a line.
pub enum Flow {
    /// The line goes on; the flag says whether it is still at its start.
    Next(bool),
    /// The rest of the line is a comment.
    Stop,
}

/// A parser of one zone file, held in memory.
pub struct ZoneParser {
    input: Vec<u8>,
    pos: usize,
    line_no: usize,
    quoted_buf: String,
    directive_buf: String,
    name: String,
    origin: String,
    default_ttl: u32,
    ttl: u32,
    class: RRClass,
    rrtype: RRType,
    b_count: u16,
    end_of_stream: bool,
    state: ParserState,
    record: Option<Record>,
    tables: Tables,
}

pub open spec fn record_view(record: Option<Record>) -> Option<RecordView> {
    match record {
        Some(r) => Some(r@),
        None => None,
    }
}

impl View for ZoneParser {
    type V = ParserView;

    closed spec fn view(&self) -> ParserView {
        ParserView {
            machine: Machine {
                state: self.state,
                name: self.name@,
                origin: self.origin@,
                default_ttl: self.default_ttl,
                ttl: self.ttl,
                class: self.class,
                rrtype: self.rrtype,
                depth: self.b_count,
                quoted: self.quoted_buf@,
                directive: self.directive_buf@,
                record: record_view(self.record),
            },
            input: self.input@,
            pos: self.pos as nat,
            line_no: self.line_no as nat,
            done: self.end_of_stream,
        }
    }
}

/// The parser behind a token agrees with what the token does to the machine.
pub open spec fn agrees(
    before: ParserView,
    after: ParserView,
    step: Step,
    r: Result<Flow, ParseError>,
) -> bool {
    &&& after.input == before.input
    &&& after.pos == before.pos
    &&& after.line_no == before.line_no
    &&& after.done == before.done
    &&& after.wf()
    &&& match step {
        Step::Go(m, still_fresh) => r matches Ok(Flow::Next(f)) && f == still_fresh
            && after.machine == m,
        Step::Comment => r matches Ok(Flow::Stop) && after == before,
        Step::Fail(e) => r matches Err(x) && x == e,
    }
}

fn ends_with_dot(text: &str) -> (yes: bool)
    ensures
        yes == (text@.len() > 0 && text@.last() == '.'),
{
    let len = text.unicode_len();
    len > 0 && text.get_char(len - 1) == '.'
}

fn starts_with_dollar(text: &str) -> (yes: bool)
    ensures
        yes == (text@.len() > 0 && text@[0] == '$'),
{
    text.unicode_len() > 0 && text.get_char(0) == '$'
}

fn is_ttl_directive(text: &str) -> (yes: bool)
    ensures
        yes == (text@ == ttl_directive()),
{
    proof {
        reveal_strlit("$ttl");
    }
    assert("$ttl"@ =~= ttl_directive());
    text_eq(text, "$ttl")
}

fn is_origin_directive(text: &str) -> (yes: bool)
    ensures
        yes == (text@ == origin_directive()),
{
    proof {
        reveal_strlit("$origin");
    }
    assert("$origin"@ =~= origin_directive());
    text_eq(text, "$origin")
}

fn parse_ttl(text: &str) -> (ttl: Option<u32>)
    ensures
        ttl is Some <==> bounded_decimal(text@, u32::MAX as nat) is Some,
        ttl matches Some(v) ==> bounded_decimal(text@, u32::MAX as nat) == Some(v as nat),
{
    match parse_decimal(text, 0xffff_ffff) {
        Some(v) => Some(v as u32),
        None => None,
    }
}

/// Completes an owner name with an origin.
fn complete_name(name: &str, origin: &str) -> (full: String)
    requires
        name@.len() > 0,
    ensures
        full@ == absolute(name@, origin@),
{
    proof {
        reveal_strlit("@");
    }
    assert("@"@ =~= seq!['@']);
    if text_eq(name, "@") {
        String::from_str(origin)
    } else if ends_with_dot(name) {
        String::from_str(name)
    } else {
        let mut full = String::from_str(name);
        push_mark(&mut full, Mark::Dot);
        full.append(origin);
        assert(full@ =~= name@ + seq!['.'] + origin@);
        full
    }
}

impl ZoneParser {
    /// What the parser's fields must agree on.
    pub closed spec fn wf(&self) -> bool {
        &&& self@.wf()
        &&& self.tables.wf()
    }

    /// A well-formed parser has a well-formed view.
    pub proof fn lemma_wf(&self)
        requires
            self.wf(),
        ensures
            self@.wf(),
    {
    }

    /// The parser at the start of an input.
    pub open spec fn new_view(input: Seq<u8>, origin: Seq<char>) -> ParserView {
        ParserView {
            machine: Machine {
                state: ParserState::Init,
                name: Seq::empty(),
                origin: with_final_dot(origin),
                default_ttl: 0,
                ttl: 0,
                class: RRClass::IN,
                rrtype: RRType::NoType,
                depth: 0,
                quoted: Seq::empty(),
                directive: Seq::empty(),
                record: None,
            },
            input,
            pos: 0,
            line_no: 0,
            done: false,
        }
    }

    /// A parser at the start of `input`. The origin may be given with or
    /// without the dot at its end.
    pub fn new(input: Vec<u8>, origin: &str) -> (parser: ZoneParser)
        ensures
            parser.wf(),
            parser@ == ZoneParser::new_view(input@, origin@),
    {
        assert(input@.len() == input.len());
        let mut origin_muted = String::from_str(origin);
        if !ends_with_dot(origin) {
            push_mark(&mut origin_muted, Mark::Dot);
        }
        ZoneParser {
            input,
            pos: 0,
            line_no: 0,
            quoted_buf: String::new(),
            directive_buf: String::new(),
            name: String::new(),
            origin: origin_muted,
            default_ttl: 0,
            ttl: 0,
            class: RRClass::IN,
            rrtype: RRType::NoType,
            b_count: 0,
            end_of_stream: false,
            state: ParserState::Init,
            record: None,
            tables: Tables::new(),
        }
    }

    /// The class that a word names, in any letter case.
    pub fn rrclass_from_str(&self, rrclass_str: &str) -> (class: Option<RRClass>)
        requires
            self.wf(),
        ensures
            class == RRClass::named(lowercased(rrclass_str@)),
    {
        let lower = lowercase_text(rrclass_str);
        self.tables.class(lower.as_str())
    }

    /// The type that a word stands for, in any letter case.
    pub fn rrtype_from_str(&self, rrtype_str: &str) -> (rrtype: Option<RRType>)
        requires
            self.wf(),
        ensures
            rrtype == RRType::of_word(lowercased(rrtype_str@)),
    {
        let lower = lowercase_text(rrtype_str);
        self.tables.rrtype_of_word(lower.as_str())
    }

    /// The place in the type bitmap of an NSEC or NSEC3 record that a word
    /// stands for, in any letter case.
    pub fn rrtype_bm_from_str(&self, rrtype_str: &str) -> (place: Option<(u8, u128, u128)>)
        requires
            self.wf(),
        ensures
            place == RRType::bitmap_of_word(lowercased(rrtype_str@)),
    {
        let lower = lowercase_text(rrtype_str);
        self.tables.bitmap_of_word(lower.as_str())
    }

    /// The owner name that `name` stands for under the origin in force.
    pub fn absolute_name(&self, name: &str) -> (full: String)
        requires
            name@.len() > 0,
        ensures
            full@ == absolute(name@, self@.machine.origin),
    {
        complete_name(name, self.origin.as_str())
    }

    /// The origin in force.
    pub fn origin(&self) -> (origin: &str)
        ensures
            origin@ == self@.machine.origin,
    {
        self.origin.as_str()
    }

    /// The default time to live in force; zero when none was set.
    pub fn default_ttl(&self) -> (ttl: u32)
        ensures
            ttl == self@.machine.default_ttl,
    {
        self.default_ttl
    }

    /// The number of lines read so far.
    pub fn line_no(&self) -> (n: usize)
        ensures
            n == self@.line_no,
    {
        self.line_no
    }

    /// Appends the quoted text in hand to the record as one token.
    fn push_token(&mut self)
        requires
            old(self).record is Some,
        ensures
            final(self).tables == old(self).tables,
            final(self)@ == (ParserView {
                machine: Machine {
                    record: with_token(old(self)@.machine.record, old(self)@.machine.quoted),
                    ..old(self)@.machine
                },
                ..old(self)@
            }),
    {
        let mut record = self.record.take().unwrap();
        record.push_data(RecordData::new(self.quoted_buf.as_str()));
        self.record = Some(record);
    }

    /// Begins the record of the entry in hand.
    fn begin_record(&mut self, rrtype: RRType)
        ensures
            final(self).tables == old(self).tables,
            final(self)@ == (ParserView {
                machine: old(self)@.machine.begun(rrtype),
                ..old(self)@
            }),
    {
        self.rrtype = rrtype;
        self.state = ParserState::Data;
        self.record = Some(Record::new(self.name.as_str(), self.ttl, self.class, rrtype));
    }

    /// A token before the owner name.
    fn in_init(&mut self, fresh: bool, token: &[u8]) -> (r: Result<Flow, ParseError>)
        requires
            old(self).wf(),
            old(self)@.machine.state == ParserState::Init,
        ensures
            agrees(old(self)@, final(self)@, old(self)@.machine.at_init(fresh, token@), r),
            final(self).tables == old(self).tables,
    {
        if fresh && self.b_count == 0 {
            let w = word(token);
            if starts_with_dollar(w.as_str()) {
                self.directive_buf = w;
                self.state = ParserState::Directive;
            } else {
                if !w.as_str().is_empty() {
                    self.name = complete_name(w.as_str(), self.origin.as_str());
                }
                if self.default_ttl != 0 {
                    self.ttl = self.default_ttl;
                }
                self.state = ParserState::Common;
            }
        }
        Ok(Flow::Next(false))
    }

    /// A token behind the owner name.
    fn in_common(&mut self, token: &[u8]) -> (r: Result<Flow, ParseError>)
        requires
            old(self).wf(),
            old(self)@.machine.state == ParserState::Common,
        ensures
            agrees(old(self)@, final(self)@, old(self)@.machine.at_common(token@), r),
            final(self).tables == old(self).tables,
    {
        let w = word(token);
        match self.tables.class(w.as_str()) {
            Some(class) => {
                self.class = class;
            },
            None => match self.tables.rrtype_of_word(w.as_str()) {
                Some(rrtype) => {
                    self.begin_record(rrtype);
                },
                None => {
                    if starts_generic(w.as_str()) {
                        return Err(ParseError::MalformedNumber);
                    }
                    match parse_ttl(w.as_str()) {
                        Some(ttl) => {
                            self.ttl = ttl;
                        },
                        None => {
                            return Err(ParseError::MalformedNumber);
                        },
                    }
                },
            },
        }
        Ok(Flow::Next(false))
    }

    /// The value of a directive.
    fn in_directive(&mut self, token: &[u8]) -> (r: Result<Flow, ParseError>)
        requires
            old(self).wf(),
            old(self)@.machine.state == ParserState::Directive,
        ensures
            agrees(old(self)@, final(self)@, old(self)@.machine.at_directive(token@), r),
            final(self).tables == old(self).tables,
    {
        let value = word(token);
        if is_ttl_directive(self.directive_buf.as_str()) {
            match parse_ttl(value.as_str()) {
                Some(ttl) => {
                    self.default_ttl = ttl;
                },
                None => {
                    return Err(ParseError::MalformedNumber);
                },
            }
        } else if is_origin_directive(self.directive_buf.as_str()) {
            self.origin = value;
        } else {
            return Err(ParseError::UnknownDirective);
        }
        self.state = ParserState::Init;
        Ok(Flow::Next(false))
    }

    /// A token of data.
    fn in_data(&mut self, part: &[u8]) -> (r: Result<Flow, ParseError>)
        requires
            old(self).wf(),
            old(self)@.machine.state == ParserState::Data,
            part.len() > 0,
        ensures
            agrees(old(self)@, final(self)@, old(self)@.machine.at_data(part@), r),
            final(self).tables == old(self).tables,
    {
        let plen = part.len();
        let mut text = String::new();
        if part[0] == QUOTE {
            assert(part@.subrange(1, plen as int) =~= part@.skip(1));
            match unescape_quoted_data(&mut text, &part[1..plen]) {
                Ok(closed) => {
                    self.quoted_buf = text;
                    if closed {
                        self.push_token();
                    } else {
                        self.state = ParserState::QString;
                    }
                },
                Err(e) => {
                    return Err(e);
                },
            }
        } else {
            let wlen = if is_stop(Stop::Token, part[plen - 1]) {
                plen - 1
            } else {
                plen
            };
            assert(part@.subrange(0, wlen as int) =~= part@.take(word_len(part@)));
            match unescape_quoted_data(&mut text, &part[0..wlen]) {
                Ok(closed) => {
                    if closed {
                        push_mark(&mut text, Mark::Quote);
                    }
                    self.quoted_buf = text;
                    self.push_token();
                },
                Err(e) => {
                    return Err(e);
                },
            }
        }
        Ok(Flow::Next(false))
    }

    /// A token inside a quoted string.
    fn in_quoted(&mut self, part: &[u8]) -> (r: Result<Flow, ParseError>)
        requires
            old(self).wf(),
            old(self)@.machine.state == ParserState::QString,
        ensures
            agrees(old(self)@, final(self)@, old(self)@.machine.at_quoted(part@), r),
            final(self).tables == old(self).tables,
    {
        let mut text = self.quoted_buf.clone();
        match unescape_quoted_data(&mut text, part) {
            Ok(closed) => {
                self.quoted_buf = text;
                if closed {
                    self.push_token();
                    self.state = ParserState::Data;
                }
            },
            Err(e) => {
                return Err(e);
            },
        }
        Ok(Flow::Next(false))
    }

    /// Counts the bracket that may end a token.
    fn count_bracket(&mut self, last: u8) -> (r: Result<(), ParseError>)
        requires
            old(self).wf(),
        ensures
            final(self).wf(),
            final(self).tables == old(self).tables,
            ({
                let depth = if last == OPEN {
                    old(self)@.machine.depth + 1
                } else if last == CLOSE {
                    old(self)@.machine.depth - 1
                } else {
                    old(self)@.machine.depth as int
                };
                if 0 <= depth <= u16::MAX {
                    r is Ok && final(self)@ == (ParserView {
                        machine: Machine { depth: depth as u16, ..old(self)@.machine },
                        ..old(self)@
                    })
                } else {
                    r matches Err(e) && e == ParseError::BracketDepth && final(self)@ == old(self)@
                }
            }),
    {
        if last == OPEN {
            if self.b_count == 0xffff {
                return Err(ParseError::BracketDepth);
            }
            self.b_count = self.b_count + 1;
        } else if last == CLOSE {
            if self.b_count == 0 {
                return Err(ParseError::BracketDepth);
            }
            self.b_count = self.b_count - 1;
        }
        Ok(())
    }

    /// Takes one token, the delimiter that ends it included.
    fn token(&mut self, part: &[u8], fresh: bool) -> (r: Result<Flow, ParseError>)
        requires
            old(self).wf(),
            part.len() > 0,
        ensures
            agrees(old(self)@, final(self)@, old(self)@.machine.step(fresh, part@), r),
            final(self).tables == old(self).tables,
    {
        let plen = part.len();
        let first = part[0];
        let last = part[plen - 1];
        if first == SEMICOLON && self.state != ParserState::QString {
            return Ok(Flow::Stop);
        }
        match self.count_bracket(last) {
            Ok(()) => {},
            Err(e) => {
                return Err(e);
            },
        }
        let wlen = if is_stop(Stop::Token, last) {
            plen - 1
        } else {
            plen
        };
        if wlen == 0 && (first == NEWLINE || self.state != ParserState::Init) {
            return Ok(Flow::Next(fresh));
        }
        assert(part@.subrange(0, wlen as int) =~= part@.take(word_len(part@)));
        match self.state {
            ParserState::Init => self.in_init(fresh, &part[0..wlen]),
            ParserState::Common => self.in_common(&part[0..wlen]),
            ParserState::Directive => self.in_directive(&part[0..wlen]),
            ParserState::Data => self.in_data(part),
            ParserState::QString => self.in_quoted(part),
        }
    }

    /// Feeds one line to the state machine. A line is a stretch of the input
    /// up to and with a newline, or up to the end of the input. After an
    /// error the state of the machine is left open.
    pub fn parse_line(&mut self, line: &[u8]) -> (r: Result<(), ParseError>)
        requires
            old(self).wf(),
        ensures
            final(self).wf(),
            final(self)@.input == old(self)@.input,
            final(self)@.pos == old(self)@.pos,
            final(self)@.line_no == old(self)@.line_no,
            final(self)@.done == old(self)@.done,
            match old(self)@.machine.run_line(line@) {
                Ok(m) => r is Ok && final(self)@.machine == m,
                Err(e) => r matches Err(x) && x == e,
            },
    {
        let mut pos: usize = 0;
        let mut fresh = true;
        while pos < line.len()
            invariant
                pos <= line.len(),
                self.wf(),
                self@.input == old(self)@.input,
                self@.pos == old(self)@.pos,
                self@.line_no == old(self)@.line_no,
                self@.done == old(self)@.done,
                self@.machine.run(fresh, line@, pos as int) == old(self)@.machine.run_line(line@),
            decreases line.len() - pos,
        {
            let end = scan(Stop::Token, line, pos);
            proof {
                lemma_stretch_end(Stop::Token, line@, pos as int);
            }
            match self.token(&line[pos..end], fresh) {
                Ok(Flow::Next(still_fresh)) => {
                    fresh = still_fresh;
                },
                Ok(Flow::Stop) => {
                    return Ok(());
                },
                Err(e) => {
                    return Err(e);
                },
            }
            pos = end;
        }
        Ok(())
    }

    /// Makes the machine ready for a new entry: a record that is not
    /// complete is given up.
    pub fn begin_entry(&mut self)
        requires
            old(self).wf(),
        ensures
            final(self).wf(),
            final(self)@ == (ParserView { machine: old(self)@.machine.prepared(), ..old(self)@ }),
    {
        self.state = ParserState::Init;
        self.record = None;
    }

    /// Hands the record of the entry in hand out, once the entry is complete.
    pub fn take_record(&mut self) -> (r: Option<Record>)
        requires
            old(self).wf(),
        ensures
            final(self).wf(),
            if old(self)@.machine.complete() {
                r matches Some(x) && Some(x@) == old(self)@.machine.record && final(self)@ == (
                ParserView { machine: old(self)@.machine.emptied(), ..old(self)@ })
            } else {
                r is None && final(self)@ == old(self)@
            },
    {
        if self.record.is_some() && self.b_count == 0 && self.state != ParserState::QString {
            let record = self.record.take();
            self.state = ParserState::Init;
            record
        } else {
            None
        }
    }

    /// What the end of a line means for the entry in hand: its record, once
    /// the entry is complete. A quoted string that the line leaves open
    /// outside brackets is an error.
    pub fn line_end(&mut self) -> (r: Result<Option<Record>, ParseError>)
        requires
            old(self).wf(),
        ensures
            final(self).wf(),
            if old(self)@.machine.unterminated() {
                r matches Err(e) && e == ParseError::UnterminatedQuote && final(self)@ == old(self)@
            } else if old(self)@.machine.complete() {
                r matches Ok(Some(x)) && Some(x@) == old(self)@.machine.record && final(self)@ == (
                ParserView { machine: old(self)@.machine.emptied(), ..old(self)@ })
            } else {
                r matches Ok(None) && final(self)@ == old(self)@
            },
    {
        if self.state == ParserState::QString && self.b_count == 0 {
            Err(ParseError::UnterminatedQuote)
        } else {
            Ok(self.take_record())
        }
    }

    /// What the end of the input means for the entry in hand: a quoted
    /// string that is open is an error, and an entry that is not complete is
    /// no record.
    pub fn input_end(&self) -> (r: Result<(), ParseError>)
        ensures
            if self@.machine.state == ParserState::QString {
                r matches Err(e) && e == ParseError::UnterminatedQuote
            } else {
                r is Ok
            },
    {
        if self.state == ParserState::QString {
            Err(ParseError::UnterminatedQuote)
        } else {
            Ok(())
        }
    }

    /// The next record of the zone; `None` at the end of the records. A
    /// malformed input gives its error once, and nothing after that.
    pub fn next(&mut self) -> (r: Option<Result<Record, ParseError>>)
        requires
            old(self).wf(),
        ensures
            final(self).wf(),
            final(self)@.input == old(self)@.input,
            old(self)@.line_no <= final(self)@.line_no,
            match old(self)@.next() {
                Outcome::Record(p, record) => r matches Some(Ok(x)) && x@ == record && final(self)@
                    == p,
                Outcome::End(p) => r is None && final(self)@ == p,
                Outcome::Failed(e) => r matches Some(Err(x)) && x == e && final(self)@.done,
            },
    {
        self.begin_entry();
        while !self.end_of_stream
            invariant
                self.wf(),
                self@.input == old(self)@.input,
                old(self)@.pos <= self@.pos,
                old(self)@.line_no <= self@.line_no,
                self@.advance() == old(self)@.next(),
            decreases self.input.len() - self.pos,
        {
            if self.pos >= self.input.len() {
                self.end_of_stream = true;
                match self.input_end() {
                    Ok(()) => {
                        return None;
                    },
                    Err(e) => {
                        return Some(Err(e));
                    },
                }
            }
            let end = scan(Stop::Line, self.input.as_slice(), self.pos);
            let line = slice_to_vec(&self.input.as_slice()[self.pos..end]);
            self.pos = end;
            self.line_no = self.line_no + 1;
            match self.parse_line(line.as_slice()) {
                Ok(()) => {},
                Err(e) => {
                    self.end_of_stream = true;
                    return Some(Err(e));
                },
            }
            match self.line_end() {
                Ok(Some(record)) => {
                    return Some(Ok(record));
                },
                Ok(None) => {},
                Err(e) => {
                    self.end_of_stream = true;
                    return Some(Err(e));
                },
            }
        }
        None
    }
}

} // verus!
