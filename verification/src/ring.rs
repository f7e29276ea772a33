//! The window on a zone: a ring of record sets that is filled from a parser
//! at its head and given up at its tail.

use crate::lexer::ParseError;
use crate::parser::{lemma_next, Outcome, ParserView, ZoneParser};
use crate::record::{is_record_set, Record, RecordSet, RecordView};
use crate::vocabulary::RRType;
use vstd::arithmetic::div_mod::{lemma_fundamental_div_mod, lemma_mod_bound, lemma_small_mod};
use vstd::prelude::*;

verus! {

/// Why a comparison of two zones fails.
#[derive(Debug, Copy, Clone, PartialEq, Eq, Structural)]
pub enum DiffError {
    /// A zone is malformed.
    Parse(ParseError),
    /// The window is too small for the differences between the zones: a ring
    /// is full and cannot give anything up.
    BufferOverflow,
}

/// The types that only a signed zone has.
pub open spec fn is_dnssec(rrtype: RRType) -> bool {
    rrtype == RRType::NSEC || rrtype == RRType::NSEC3 || rrtype == RRType::RRSIG
}

/// A ring as a mathematical value.
pub struct RingView {
    pub parser: ParserView,
    /// The sets in the window, the oldest first.
    pub window: Seq<Seq<RecordView>>,
    /// The number of sets that were given up.
    pub tail: nat,
    /// The number of sets that the window can hold.
    pub buf_size: nat,
    pub skip_dnssec: bool,
    /// The parser has no more records, and the last set is in the window.
    pub at_end: bool,
    /// The set that is still being gathered.
    pub last: Option<Seq<RecordView>>,
}

impl RingView {
    /// The number of sets that were taken into the window.
    pub open spec fn head(self) -> nat {
        self.tail + self.window.len()
    }

    pub open spec fn pending(self) -> nat {
        if self.last is Some {
            1
        } else {
            0
        }
    }

    pub open spec fn wf(self) -> bool {
        &&& self.parser.wf()
        &&& self.window.len() <= self.buf_size
        &&& forall|i: int| 0 <= i < self.window.len() ==> is_record_set(#[trigger] self.window[i])
        &&& self.last matches Some(set) ==> is_record_set(set)
    }

    /// Every set of the ring came from its own parser: the ring holds no
    /// more sets than the parser has read lines.
    pub open spec fn fed(self) -> bool {
        self.head() + self.pending() <= self.parser.line_no
    }

    /// What is left to compare: the bytes not yet read and the sets not yet
    /// given up.
    pub open spec fn backlog(self) -> nat {
        (self.parser.input.len() - self.parser.pos) as nat + self.window.len() + self.pending()
    }

    /// Takes one record from the parser. The record joins the set that is
    /// being gathered, or begins a new one, and then the set gathered before
    /// goes into the window, which must have room for it. The flag says that
    /// the window became full.
    pub open spec fn take(self, p: ParserView, r: RecordView) -> Result<
        (RingView, bool),
        DiffError,
    > {
        let ring = RingView { parser: p, ..self };
        if self.skip_dnssec && is_dnssec(r.rrtype) {
            Ok((ring, false))
        } else {
            match self.last {
                None => Ok((RingView { last: Some(seq![r]), ..ring }, false)),
                Some(set) => if set[0].key() == r.key() {
                    Ok((RingView { last: Some(set.push(r)), ..ring }, false))
                } else if self.window.len() >= self.buf_size {
                    Err(DiffError::BufferOverflow)
                } else {
                    Ok(
                        (
                            RingView {
                                window: self.window.push(set),
                                last: Some(seq![r]),
                                ..ring
                            },
                            self.window.len() + 1 == self.buf_size,
                        ),
                    )
                },
            }
        }
    }

    /// Ends a filling: the set that is being gathered goes into the window if
    /// there is room, and the ring is at its end when no set is left over.
    pub open spec fn flushed(self) -> RingView {
        match self.last {
            Some(set) => if self.window.len() < self.buf_size {
                RingView { window: self.window.push(set), last: None, at_end: true, ..self }
            } else {
                self
            },
            None => RingView { at_end: true, ..self },
        }
    }

    /// Fills the window: takes records from the parser until the window is
    /// full or the parser has no more.
    pub open spec fn fill(self) -> Result<RingView, DiffError>
        decreases self.parser.input.len() - self.parser.pos,
        when self.parser.wf()
    {
        match self.parser.next() {
            Outcome::Failed(e) => Err(DiffError::Parse(e)),
            Outcome::End(p) => Ok((RingView { parser: p, ..self }).flushed()),
            Outcome::Record(p, r) => {
                proof {
                    lemma_next(self.parser);
                }
                match self.take(p, r) {
                    Err(e) => Err(e),
                    Ok((ring, full)) => if full {
                        Ok(ring.flushed())
                    } else {
                        ring.fill()
                    },
                }
            },
        }
    }
}

/// Taking a record keeps a ring well-formed and fed by its parser, and does
/// not add to its backlog.
pub proof fn lemma_take(ring: RingView, q: ParserView, r: RecordView)
    requires
        ring.wf(),
        ring.parser.next() == Outcome::Record(q, r),
    ensures
        match ring.take(q, r) {
            Ok((after, full)) => after.wf() && (ring.fed() ==> after.fed()) && after.backlog()
                <= ring.backlog() && after.tail
                == ring.tail && after.buf_size == ring.buf_size && after.skip_dnssec
                == ring.skip_dnssec && after.at_end == ring.at_end && after.parser == q && (full
                <==> after.window.len() == after.buf_size && after.window.len()
                != ring.window.len()) && (ring.window.len() < ring.buf_size && !full
                ==> after.window.len() < after.buf_size),
            Err(e) => e == DiffError::BufferOverflow && ring.window.len() >= ring.buf_size,
        },
{
    lemma_next(ring.parser);
    match ring.take(q, r) {
        Ok((after, full)) => {
            if !(ring.skip_dnssec && is_dnssec(r.rrtype)) {
                match ring.last {
                    Some(set) => {
                        if set[0].key() == r.key() {
                            assert(is_record_set(set.push(r)));
                        } else {
                            assert(is_record_set(seq![r]));
                            assert forall|i: int| 0 <= i < after.window.len() implies is_record_set(
                                #[trigger] after.window[i],
                            ) by {
                                if i < ring.window.len() {
                                    assert(after.window[i] == ring.window[i]);
                                }
                            }
                        }
                    },
                    None => {
                        assert(is_record_set(seq![r]));
                    },
                }
            }
        },
        Err(_) => {},
    }
}

/// Ending a filling keeps a ring well-formed and fed by its parser, and its
/// backlog as it is. A ring that is then not at its end is full.
pub proof fn lemma_flushed(ring: RingView)
    requires
        ring.wf(),
    ensures
        ring.flushed().wf(),
        ring.fed() ==> ring.flushed().fed(),
        ring.flushed().backlog() == ring.backlog(),
        ring.flushed().tail == ring.tail,
        ring.flushed().buf_size == ring.buf_size,
        ring.flushed().skip_dnssec == ring.skip_dnssec,
        ring.flushed().parser == ring.parser,
        ring.at_end ==> ring.flushed().at_end,
        !ring.flushed().at_end ==> ring.flushed().window.len() == ring.buf_size,
{
    let after = ring.flushed();
    assert forall|i: int| 0 <= i < after.window.len() implies is_record_set(
        #[trigger] after.window[i],
    ) by {
        if i < ring.window.len() {
            assert(after.window[i] == ring.window[i]);
        }
    }
}

/// Filling keeps a ring well-formed and fed by its parser, and does not add
/// to its backlog. A ring that is then not at its end is full. A ring with
/// room in its window does not overflow.
pub proof fn lemma_fill(ring: RingView)
    requires
        ring.wf(),
    ensures
        match ring.fill() {
            Ok(after) => after.wf() && (ring.fed() ==> after.fed()) && after.backlog()
                <= ring.backlog() && after.tail
                == ring.tail && after.buf_size == ring.buf_size && after.skip_dnssec
                == ring.skip_dnssec && after.parser.input == ring.parser.input && (ring.at_end
                ==> after.at_end) && (!after.at_end ==> after.window.len() == after.buf_size),
            Err(e) => ring.window.len() < ring.buf_size ==> e is Parse,
        },
    decreases ring.parser.input.len() - ring.parser.pos,
{
    lemma_next(ring.parser);
    match ring.parser.next() {
        Outcome::Failed(_) => {},
        Outcome::End(p) => {
            lemma_flushed(RingView { parser: p, ..ring });
        },
        Outcome::Record(q, r) => {
            lemma_take(ring, q, r);
            match ring.take(q, r) {
                Ok((after, full)) => {
                    if full {
                        lemma_flushed(after);
                    } else {
                        lemma_fill(after);
                    }
                },
                Err(_) => {},
            }
        },
    }
}

/// The window that a ring's store holds between `tail` and `head`.
pub open spec fn window_of(data: Seq<RecordSet>, tail: int, head: int, buf_size: int) -> Seq<
    Seq<RecordView>,
> {
    Seq::new((head - tail) as nat, |i: int| data[(tail + i) % buf_size]@)
}

pub open spec fn set_view(set: Option<RecordSet>) -> Option<Seq<RecordView>> {
    match set {
        Some(s) => Some(s@),
        None => None,
    }
}

/// Two places of a ring that are less than its size apart are different
/// places of its store.
pub proof fn lemma_distinct_slots(j: int, h: int, n: int)
    requires
        0 <= j < h < j + n,
    ensures
        j % n != h % n,
{
    lemma_fundamental_div_mod(j, n);
    lemma_fundamental_div_mod(h, n);
    if j % n == h % n {
        let a = j / n;
        let b = h / n;
        assert(h - j == n * (b - a)) by (nonlinear_arith)
            requires
                j == n * a + j % n,
                h == n * b + h % n,
                j % n == h % n,
        ;
        assert(false) by (nonlinear_arith)
            requires
                h - j == n * (b - a),
                0 < h - j < n,
        ;
    }
}

/// A fixed number of record sets of a zone, in the order of the zone.
pub struct Ring {
    parser: ZoneParser,
    data: Vec<RecordSet>,
    tail: usize,
    head: usize,
    buf_size: usize,
    skip_dnssec: bool,
    at_end: bool,
    last: Option<RecordSet>,
}

impl View for Ring {
    type V = RingView;

    closed spec fn view(&self) -> RingView {
        RingView {
            parser: self.parser@,
            window: window_of(
                self.data@,
                self.tail as int,
                self.head as int,
                self.buf_size as int,
            ),
            tail: self.tail as nat,
            buf_size: self.buf_size as nat,
            skip_dnssec: self.skip_dnssec,
            at_end: self.at_end,
            last: set_view(self.last),
        }
    }
}

impl Ring {
    pub closed spec fn wf(&self) -> bool {
        &&& self@.wf()
        &&& self.parser.wf()
        &&& self.tail <= self.head
        &&& self.data.len() == if self.head < self.buf_size {
            self.head
        } else {
            self.buf_size
        }
    }

    /// A well-formed ring has a well-formed view.
    pub proof fn lemma_wf(&self)
        requires
            self.wf(),
        ensures
            self@.wf(),
            self@.head() <= usize::MAX,
    {
    }

    /// Every set of the ring came from its own parser, which is so as long
    /// as the ring is filled by [`Ring::read_zone_records`] alone.
    pub open spec fn fed(&self) -> bool {
        self@.fed()
    }

    /// The empty ring over a zone.
    pub open spec fn new_view(
        input: Seq<u8>,
        origin: Seq<char>,
        buf_size: usize,
        skip_dnssec: bool,
    ) -> RingView {
        RingView {
            parser: ZoneParser::new_view(input, origin),
            window: Seq::empty(),
            tail: 0,
            buf_size: buf_size as nat,
            skip_dnssec,
            at_end: false,
            last: None,
        }
    }

    /// An empty ring over a zone.
    pub fn new(input: Vec<u8>, origin: &str, buf_size: usize, skip_dnssec: bool) -> (ring: Ring)
        ensures
            ring.wf(),
            ring.fed(),
            ring@ == Ring::new_view(input@, origin@, buf_size, skip_dnssec),
    {
        let ring = Ring {
            parser: ZoneParser::new(input, origin),
            data: Vec::new(),
            tail: 0,
            head: 0,
            buf_size,
            skip_dnssec,
            at_end: false,
            last: None,
        };
        proof {
            ring.parser.lemma_wf();
        }
        assert(ring@.window =~= Seq::empty());
        ring
    }

    /// The number of sets that were given up.
    pub fn tail(&self) -> (tail: usize)
        ensures
            tail == self@.tail,
    {
        self.tail
    }

    /// The number of sets that were taken into the window.
    pub fn head(&self) -> (head: usize)
        requires
            self.wf(),
        ensures
            head == self@.head(),
    {
        self.head
    }

    /// The number of lines of the zone that were read.
    pub fn line_no(&self) -> (n: usize)
        ensures
            n == self@.parser.line_no,
    {
        self.parser.line_no()
    }

    /// Whether the zone is read to its end.
    pub fn at_end(&self) -> (at_end: bool)
        ensures
            at_end == self@.at_end,
    {
        self.at_end
    }

    /// The set at place `i`, counted from the start of the zone.
    pub fn get(&self, i: usize) -> (set: &RecordSet)
        requires
            self.wf(),
            self@.tail <= i < self@.head(),
        ensures
            set@ == self@.window[i - self@.tail],
    {
        proof {
            self.lemma_slot(i as int);
        }
        &self.data[i % self.buf_size]
    }

    /// A place in the window is a place in the store.
    proof fn lemma_slot(&self, i: int)
        requires
            self.wf(),
            self.tail <= i < self.head,
        ensures
            self.buf_size > 0,
            0 <= i % (self.buf_size as int) < self.data.len(),
            self@.window[i - self.tail] == self.data[i % (self.buf_size as int)]@,
    {
        let n = self.buf_size as int;
        lemma_mod_bound(i, n);
        if self.head < self.buf_size {
            lemma_small_mod(i as nat, n as nat);
        }
    }

    /// Puts a set at the head of the window.
    fn push(&mut self, e: RecordSet)
        requires
            old(self).wf(),
            old(self)@.window.len() < old(self)@.buf_size,
            old(self).head < usize::MAX,
        ensures
            final(self)@ == (RingView { window: old(self)@.window.push(e@), ..old(self)@ }),
            final(self).parser == old(self).parser,
            final(self).tail == old(self).tail,
            final(self).head == old(self).head + 1,
            final(self).data.len() == if final(self).head < final(self).buf_size {
                final(self).head
            } else {
                final(self).buf_size
            },
            final(self).last == old(self).last,
    {
        let ghost n = self.buf_size as int;
        let ghost before = *self;
        if self.head < self.buf_size {
            self.data.push(e);
            self.head = self.head + 1;
            assert forall|i: int| 0 <= i < self.head - self.tail implies #[trigger] self@.window[i]
                == before@.window.push(e@)[i] by {
                lemma_small_mod((self.tail + i) as nat, n as nat);
            }
            assert(self@.window =~= before@.window.push(e@));
        } else {
            let slot = self.head % self.buf_size;
            proof {
                lemma_mod_bound(self.head as int, n);
            }
            self.data[slot] = e;
            self.head = self.head + 1;
            assert forall|i: int| 0 <= i < self.head - self.tail implies #[trigger] self@.window[i]
                == before@.window.push(e@)[i] by {
                if i < before.head - before.tail {
                    lemma_distinct_slots(before.tail + i, before.head as int, n);
                }
            }
            assert(self@.window =~= before@.window.push(e@));
        }
    }

    /// Gives up the sets before place `t`.
    pub fn set_tail(&mut self, t: usize)
        requires
            old(self).wf(),
            old(self)@.tail <= t <= old(self)@.head(),
        ensures
            final(self).wf(),
            final(self)@ == (RingView {
                tail: t as nat,
                window: old(self)@.window.skip(t - old(self)@.tail),
                ..old(self)@
            }),
    {
        let ghost before = *self;
        self.tail = t;
        assert(self@.window =~= before@.window.skip(t - before@.tail));
    }

    /// Ends a filling: the set that is being gathered goes into the window if
    /// there is room, and the ring is at its end when no set is left over.
    /// The ring counts the sets that it takes, and cannot count beyond the
    /// largest number.
    pub fn finish(&mut self)
        requires
            old(self).wf(),
            old(self)@.last is Some ==> old(self)@.head() < usize::MAX,
        ensures
            final(self).wf(),
            final(self)@ == old(self)@.flushed(),
    {
        if self.last.is_some() {
            if self.head - self.tail < self.buf_size {
                let last = self.last.take().unwrap();
                self.push(last);
                self.at_end = true;
            }
        } else {
            self.at_end = true;
        }
    }

    /// Takes one record in the order of the zone. The answer says whether the
    /// window became full, which ends a filling. The ring counts the sets
    /// that it takes, and cannot count beyond the largest number.
    pub fn offer(&mut self, r: Record) -> (full: Result<bool, DiffError>)
        requires
            old(self).wf(),
            old(self)@.last is Some ==> old(self)@.head() < usize::MAX,
        ensures
            final(self).wf(),
            match old(self)@.take(old(self)@.parser, r@) {
                Ok((ring, stop)) => full == Ok::<bool, DiffError>(stop) && final(self)@ == ring,
                Err(e) => full == Err::<bool, DiffError>(e) && final(self)@ == old(self)@,
            },
    {
        if self.skip_dnssec && (r.rrtype == RRType::NSEC || r.rrtype == RRType::NSEC3 || r.rrtype
            == RRType::RRSIG) {
            return Ok(false);
        }
        match self.last.take() {
            None => {
                let mut set = RecordSet::new();
                set.push(r);
                assert(set@ =~= seq![r@]);
                self.last = Some(set);
                Ok(false)
            },
            Some(mut last) => {
                if last.takes(&r) {
                    last.push(r);
                    self.last = Some(last);
                    Ok(false)
                } else {
                    if self.head - self.tail >= self.buf_size {
                        self.last = Some(last);
                        return Err(DiffError::BufferOverflow);
                    }
                    let mut set = RecordSet::new();
                    set.push(r);
                    assert(set@ =~= seq![r@]);
                    self.push(last);
                    self.last = Some(set);
                    Ok(self.head - self.tail == self.buf_size)
                }
            },
        }
    }

    /// Fills the window from the parser. After an error the ring is of no
    /// more use.
    pub fn read_zone_records(&mut self) -> (r: Result<(), DiffError>)
        requires
            old(self).wf(),
            old(self).fed(),
        ensures
            final(self).wf(),
            match old(self)@.fill() {
                Ok(ring) => r is Ok && final(self)@ == ring && final(self).fed(),
                Err(e) => r == Err::<(), DiffError>(e),
            },
    {
        loop
            invariant
                self.wf(),
                self.fed(),
                self@.fill() == old(self)@.fill(),
            decreases self@.parser.input.len() - self@.parser.pos,
        {
            let ghost before = self@;
            proof {
                self.parser.lemma_wf();
                lemma_next(before.parser);
            }
            match self.parser.next() {
                None => {
                    proof {
                        self.parser.lemma_wf();
                        lemma_flushed(self@);
                    }
                    self.finish();
                    return Ok(());
                },
                Some(Err(e)) => {
                    proof {
                        self.parser.lemma_wf();
                    }
                    return Err(DiffError::Parse(e));
                },
                Some(Ok(record)) => {
                    proof {
                        self.parser.lemma_wf();
                        lemma_take(before, self@.parser, record@);
                    }
                    match self.offer(record) {
                        Err(e) => {
                            return Err(e);
                        },
                        Ok(full) => {
                            if full {
                                proof {
                                    lemma_flushed(self@);
                                }
                                self.finish();
                                return Ok(());
                            }
                        },
                    }
                },
            }
        }
    }
}

} // verus!
