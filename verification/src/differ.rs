//! The comparison of two versions of a zone: record sets are matched by owner
//! name and type within two windows, and matched sets record by record.

use crate::record::{
    append_lines, is_record_set, lines_of, prefixed_lines, records_view, texts_view, Record,
    RecordData, RecordSet, RecordView,
};
use crate::ring::{lemma_fill, DiffError, Ring, RingView};
use crate::script::{
    all_equal, all_within, lemma_tiles_end, lemma_tiles_level, lemma_tiles_within,
    lemma_truncated, myers_diff, myers_script, tiles, truncated, DiffSection, SetDiffer,
};
use crate::summary::{bumped, report_lines, Change, Summary, Tally};
use crate::vocabulary::{RRClass, RRType};
use vstd::prelude::*;

verus! {

/// The lines that report records `from` up to `from + len` behind a prefix.
pub open spec fn range_lines(pf: Seq<char>, records: Seq<RecordView>, from: int, len: int) -> Seq<
    Seq<char>,
> {
    prefixed_lines(pf, records.subrange(from, from + len), 0)
}

/// The lines that report one section of a comparison of records: what was
/// deleted behind `~-`, what was inserted behind `~+`.
pub open spec fn record_section_lines(
    section: DiffSection,
    old: Seq<RecordView>,
    new: Seq<RecordView>,
) -> Seq<Seq<char>> {
    match section {
        DiffSection::Equal(_, _, _) => Seq::empty(),
        DiffSection::Delete(o, len, _) => range_lines("~-"@, old, o as int, len as int),
        DiffSection::Insert(_, n, len) => range_lines("~+"@, new, n as int, len as int),
        DiffSection::Replace(o, old_len, n, new_len) => range_lines(
            "~-"@,
            old,
            o as int,
            old_len as int,
        ) + range_lines("~+"@, new, n as int, new_len as int),
    }
}

/// The lines that report the sections of a comparison of records from the
/// `k`-th on.
pub open spec fn record_lines(
    script: Seq<DiffSection>,
    k: int,
    old: Seq<RecordView>,
    new: Seq<RecordView>,
) -> Seq<Seq<char>>
    decreases script.len() - k,
{
    if k < 0 || k >= script.len() {
        Seq::empty()
    } else {
        record_section_lines(script[k], old, new) + record_lines(script, k + 1, old, new)
    }
}

/// A script of `Equal` sections reports nothing.
pub proof fn lemma_equal_lines(
    script: Seq<DiffSection>,
    k: int,
    old: Seq<RecordView>,
    new: Seq<RecordView>,
)
    requires
        all_equal(script),
        0 <= k,
    ensures
        record_lines(script, k, old, new) == Seq::<Seq<char>>::empty(),
    decreases script.len() - k,
{
    if k < script.len() {
        lemma_equal_lines(script, k + 1, old, new);
        assert(script[k] is Equal);
        assert(record_section_lines(script[k], old, new) =~= Seq::<Seq<char>>::empty());
    }
}

/// Takes the sections of a comparison of two lists of records: notes whether
/// anything but `Equal` came, and, where asked to, writes down what was
/// deleted and inserted.
pub struct RecordDiffer<'a> {
    old: &'a Vec<Record>,
    new: &'a Vec<Record>,
    verbose: bool,
    has_changes: bool,
    output: Vec<String>,
}

impl<'a> RecordDiffer<'a> {
    pub closed spec fn old_records(&self) -> Seq<RecordView> {
        records_view(self.old@)
    }

    pub closed spec fn new_records(&self) -> Seq<RecordView> {
        records_view(self.new@)
    }

    pub closed spec fn verbose(&self) -> bool {
        self.verbose
    }

    pub closed spec fn changed(&self) -> bool {
        self.has_changes
    }

    pub closed spec fn lines(&self) -> Seq<Seq<char>> {
        texts_view(self.output@)
    }

    /// The differ with one more section taken.
    pub open spec fn after(&self, before: &RecordDiffer<'a>, section: DiffSection) -> bool {
        &&& self.old_records() == before.old_records()
        &&& self.new_records() == before.new_records()
        &&& self.verbose() == before.verbose()
        &&& self.changed() == (before.changed() || !(section is Equal))
        &&& self.lines() == before.lines() + if self.verbose() {
            record_section_lines(section, self.old_records(), self.new_records())
        } else {
            Seq::empty()
        }
    }

    pub fn new(old: &'a Vec<Record>, new: &'a Vec<Record>, verbose: bool) -> (differ: Self)
        ensures
            differ.old_records() == records_view(old@),
            differ.new_records() == records_view(new@),
            differ.verbose() == verbose,
            !differ.changed(),
            differ.lines() == Seq::<Seq<char>>::empty(),
    {
        let differ = RecordDiffer { old, new, verbose, has_changes: false, output: Vec::new() };
        assert(differ.lines() =~= Seq::<Seq<char>>::empty());
        differ
    }

    pub fn equal(&mut self, at: usize, to: usize, len: usize)
        ensures
            final(self).after(old(self), DiffSection::Equal(at, to, len)),
    {
        assert(self.lines() =~= self.lines() + Seq::<Seq<char>>::empty());
    }

    pub fn delete(&mut self, at: usize, len: usize, to: usize)
        requires
            at + len <= old(self).old_records().len(),
        ensures
            final(self).after(old(self), DiffSection::Delete(at, len, to)),
    {
        assert(self.old_records().len() == self.old.len());
        assert(self.new_records().len() == self.new.len());
        self.has_changes = true;
        if self.verbose {
            append_lines(&mut self.output, lines_of("~-", self.old, at, at + len));
        } else {
            assert(self.lines() =~= self.lines() + Seq::<Seq<char>>::empty());
        }
    }

    pub fn insert(&mut self, at: usize, to: usize, new_len: usize)
        requires
            to + new_len <= old(self).new_records().len(),
        ensures
            final(self).after(old(self), DiffSection::Insert(at, to, new_len)),
    {
        assert(self.old_records().len() == self.old.len());
        assert(self.new_records().len() == self.new.len());
        self.has_changes = true;
        if self.verbose {
            append_lines(&mut self.output, lines_of("~+", self.new, to, to + new_len));
        } else {
            assert(self.lines() =~= self.lines() + Seq::<Seq<char>>::empty());
        }
    }

    pub fn replace(&mut self, at: usize, old_len: usize, to: usize, new_len: usize)
        requires
            at + old_len <= old(self).old_records().len(),
            to + new_len <= old(self).new_records().len(),
        ensures
            final(self).after(old(self), DiffSection::Replace(at, old_len, to, new_len)),
    {
        assert(self.old_records().len() == self.old.len());
        assert(self.new_records().len() == self.new.len());
        self.has_changes = true;
        if self.verbose {
            let ghost before = self.lines();
            append_lines(&mut self.output, lines_of("~-", self.old, at, at + old_len));
            append_lines(&mut self.output, lines_of("~+", self.new, to, to + new_len));
            assert(self.lines() =~= before + record_section_lines(
                DiffSection::Replace(at, old_len, to, new_len),
                self.old_records(),
                self.new_records(),
            ));
        } else {
            assert(self.lines() =~= self.lines() + Seq::<Seq<char>>::empty());
        }
    }

    /// Ends a comparison. There is nothing left to do.
    pub fn finish(&mut self)
        ensures
            *final(self) == *old(self),
    {
    }

    /// Takes one section.
    pub fn section(&mut self, section: DiffSection)
        requires
            section.within(
                old(self).old_records().len() as int,
                old(self).new_records().len() as int,
            ),
        ensures
            final(self).after(old(self), section),
    {
        match section {
            DiffSection::Equal(old, new, len) => self.equal(old, new, len),
            DiffSection::Delete(old, len, new) => self.delete(old, len, new),
            DiffSection::Insert(old, new, new_len) => self.insert(old, new, new_len),
            DiffSection::Replace(old, old_len, new, new_len) => self.replace(
                old,
                old_len,
                new,
                new_len,
            ),
        }
    }

    /// Takes the sections of a script in their order.
    pub fn run(&mut self, script: &Vec<DiffSection>)
        requires
            all_within(
                script@,
                old(self).old_records().len() as int,
                old(self).new_records().len() as int,
            ),
        ensures
            final(self).old_records() == old(self).old_records(),
            final(self).new_records() == old(self).new_records(),
            final(self).verbose() == old(self).verbose(),
            final(self).changed() == (old(self).changed() || !all_equal(script@)),
            final(self).lines() == old(self).lines() + if final(self).verbose() {
                record_lines(script@, 0, final(self).old_records(), final(self).new_records())
            } else {
                Seq::empty()
            },
    {
        let ghost start = self.lines();
        let mut k: usize = 0;
        assert(self.lines() + record_lines(script@, 0, self.old_records(), self.new_records())
            =~= start + record_lines(script@, 0, self.old_records(), self.new_records()));
        while k < script.len()
            invariant
                k <= script.len(),
                start == old(self).lines(),
                self.old_records() == old(self).old_records(),
                self.new_records() == old(self).new_records(),
                self.verbose() == old(self).verbose(),
                all_within(
                    script@,
                    self.old_records().len() as int,
                    self.new_records().len() as int,
                ),
                self.changed() == (old(self).changed() || !all_equal(script@.take(k as int))),
                self.verbose() ==> self.lines() + record_lines(
                    script@,
                    k as int,
                    self.old_records(),
                    self.new_records(),
                ) == start + record_lines(script@, 0, self.old_records(), self.new_records()),
                !self.verbose() ==> self.lines() == start,
            decreases script.len() - k,
        {
            let ghost before = self.lines();
            assert(script@[k as int].within(
                self.old_records().len() as int,
                self.new_records().len() as int,
            ));
            self.section(script[k]);
            proof {
                let shorter = script@.take(k as int);
                let longer = script@.take(k + 1);
                if all_equal(longer) {
                    assert forall|j: int| 0 <= j < shorter.len() implies #[trigger] shorter[j]
                        is Equal by {
                        assert(longer[j] is Equal);
                    }
                    assert(longer[k as int] is Equal);
                } else if all_equal(shorter) {
                    if script@[k as int] is Equal {
                        assert forall|j: int| 0 <= j < longer.len() implies #[trigger] longer[j]
                            is Equal by {
                            if j < k {
                                assert(shorter[j] is Equal);
                            }
                        }
                    }
                }
                if self.verbose() {
                    assert(self.lines() + record_lines(
                        script@,
                        k + 1,
                        self.old_records(),
                        self.new_records(),
                    ) =~= before + record_lines(
                        script@,
                        k as int,
                        self.old_records(),
                        self.new_records(),
                    ));
                } else {
                    assert(self.lines() =~= before);
                }
            }
            k += 1;
        }
        assert(script@.take(k as int) =~= script@);
        proof {
            if self.verbose() {
                assert(self.lines() + record_lines(
                    script@,
                    k as int,
                    self.old_records(),
                    self.new_records(),
                ) =~= self.lines());
            } else {
                assert(self.lines() =~= start + Seq::<Seq<char>>::empty());
            }
        }
    }

    /// Whether anything but `Equal` sections came.
    pub fn has_changes(&self) -> (yes: bool)
        ensures
            yes == self.changed(),
    {
        self.has_changes
    }

    /// Hands the lines out that were written down.
    pub fn into_output(self) -> (lines: Vec<String>)
        ensures
            texts_view(lines@) == self.lines(),
    {
        self.output
    }
}

/// The record that stands for a set where sets are matched: it has the
/// owner name and the type of the set, and nothing else of it.
pub open spec fn key_record(set: Seq<RecordView>) -> RecordView {
    RecordView {
        name: set[0].name,
        ttl: 0,
        class: RRClass::IN,
        rrtype: set[0].rrtype,
        data: Seq::empty(),
    }
}

/// The records that stand for the sets of a window.
pub open spec fn keys(window: Seq<Seq<RecordView>>) -> Seq<RecordView> {
    Seq::new(window.len(), |i: int| key_record(window[i]))
}

/// A record as it is compared. Where serial numbers are ignored, the third
/// token of the data of an SOA record, which is its serial number, is empty.
pub open spec fn compared(r: RecordView, ignore_serial: bool) -> RecordView {
    if ignore_serial && r.rrtype == RRType::SOA && r.data.len() > 2 {
        RecordView { data: r.data.update(2, Seq::empty()), ..r }
    } else {
        r
    }
}

/// The records of a set as they are compared.
pub open spec fn compared_set(set: Seq<RecordView>, ignore_serial: bool) -> Seq<RecordView> {
    Seq::new(set.len(), |i: int| compared(set[i], ignore_serial))
}

/// The tallies with one more change counted for a type and for the total.
pub open spec fn counted(counts: Seq<Tally>, rrtype: RRType, change: Change) -> Seq<Tally> {
    bumped(bumped(counts, RRType::NoType, change), rrtype, change)
}

/// What a comparison has found so far.
pub struct Report {
    pub counts: Seq<Tally>,
    /// The lines that a verbose comparison writes.
    pub output: Seq<Seq<char>>,
}

impl Report {
    /// A set that is in one version only: it is counted, and a verbose
    /// comparison writes its records behind the prefix.
    pub open spec fn moved(
        self,
        set: Seq<RecordView>,
        verbose: bool,
        pf: Seq<char>,
        change: Change,
    ) -> Report {
        Report {
            counts: counted(self.counts, set[0].rrtype, change),
            output: self.output + if verbose {
                prefixed_lines(pf, set, 0)
            } else {
                Seq::empty()
            },
        }
    }

    /// A set that is in both versions: its records are compared, and it is
    /// counted as changed, once, where they differ.
    pub open spec fn matched(
        self,
        old_set: Seq<RecordView>,
        new_set: Seq<RecordView>,
        verbose: bool,
        ignore_serial: bool,
    ) -> Report {
        let script = myers_script(
            compared_set(old_set, ignore_serial),
            compared_set(new_set, ignore_serial),
        );
        Report {
            counts: if all_equal(script) {
                self.counts
            } else {
                counted(self.counts, old_set[0].rrtype, Change::Changed)
            },
            output: self.output + if verbose {
                record_lines(script, 0, old_set, new_set)
            } else {
                Seq::empty()
            },
        }
    }

    /// The sets of a window from `from` up to `to`, each in one version only.
    pub open spec fn moved_range(
        self,
        window: Seq<Seq<RecordView>>,
        from: int,
        to: int,
        verbose: bool,
        pf: Seq<char>,
        change: Change,
    ) -> Report
        decreases to - from,
    {
        if from >= to {
            self
        } else {
            self.moved(window[from], verbose, pf, change).moved_range(
                window,
                from + 1,
                to,
                verbose,
                pf,
                change,
            )
        }
    }

    /// The sets of a section that are in both versions, from the `i`-th on.
    pub open spec fn matched_range(
        self,
        old_window: Seq<Seq<RecordView>>,
        new_window: Seq<Seq<RecordView>>,
        old_at: int,
        new_at: int,
        i: int,
        len: int,
        verbose: bool,
        ignore_serial: bool,
    ) -> Report
        decreases len - i,
    {
        if i >= len {
            self
        } else {
            self.matched(
                old_window[old_at + i],
                new_window[new_at + i],
                verbose,
                ignore_serial,
            ).matched_range(
                old_window,
                new_window,
                old_at,
                new_at,
                i + 1,
                len,
                verbose,
                ignore_serial,
            )
        }
    }

    /// One section of a comparison of two windows. Sets that were deleted
    /// are written behind `--`, sets that were added behind `++`; a
    /// replacement is a deletion and then an addition.
    pub open spec fn section(
        self,
        section: DiffSection,
        old_window: Seq<Seq<RecordView>>,
        new_window: Seq<Seq<RecordView>>,
        verbose: bool,
        ignore_serial: bool,
    ) -> Report {
        match section {
            DiffSection::Equal(o, n, len) => self.matched_range(
                old_window,
                new_window,
                o as int,
                n as int,
                0,
                len as int,
                verbose,
                ignore_serial,
            ),
            DiffSection::Delete(o, len, _) => self.moved_range(
                old_window,
                o as int,
                o + len,
                verbose,
                "--"@,
                Change::Deleted,
            ),
            DiffSection::Insert(_, n, len) => self.moved_range(
                new_window,
                n as int,
                n + len,
                verbose,
                "++"@,
                Change::Added,
            ),
            DiffSection::Replace(o, old_len, n, new_len) => self.moved_range(
                old_window,
                o as int,
                o + old_len,
                verbose,
                "--"@,
                Change::Deleted,
            ).moved_range(new_window, n as int, n + new_len, verbose, "++"@, Change::Added),
        }
    }

    /// The sections of a script from the `k`-th on.
    pub open spec fn script(
        self,
        script: Seq<DiffSection>,
        k: int,
        old_window: Seq<Seq<RecordView>>,
        new_window: Seq<Seq<RecordView>>,
        verbose: bool,
        ignore_serial: bool,
    ) -> Report
        decreases script.len() - k,
    {
        if k < 0 || k >= script.len() {
            self
        } else {
            self.section(script[k], old_window, new_window, verbose, ignore_serial).script(
                script,
                k + 1,
                old_window,
                new_window,
                verbose,
                ignore_serial,
            )
        }
    }
}

/// A comparison as a mathematical value.
pub struct DifferView {
    pub old: RingView,
    pub new: RingView,
    pub report: Report,
    pub verbose: bool,
    pub ignore_serial: bool,
}

/// The ring behind a pass: without the first `given` sets of its window.
pub open spec fn given_up(ring: RingView, given: int) -> RingView {
    RingView { tail: (ring.tail + given) as nat, window: ring.window.skip(given), ..ring }
}

impl DifferView {
    /// Both zones are read to their ends.
    pub open spec fn done(self) -> bool {
        self.old.at_end && self.new.at_end
    }

    /// Fills both windows, the old one first.
    pub open spec fn filled(self) -> Result<DifferView, DiffError> {
        match self.old.fill() {
            Err(e) => Err(e),
            Ok(o) => match self.new.fill() {
                Err(e) => Err(e),
                Ok(n) => Ok(DifferView { old: o, new: n, ..self }),
            },
        }
    }

    /// Compares the two windows by owner name and type. While a zone is not
    /// read to its end, the sections behind the last `Equal` section are left
    /// for the next pass, and a script without an `Equal` section is an
    /// overflow. The sections that are kept are reported, and the sets that
    /// they cover are given up.
    pub open spec fn reconciled(self) -> Result<DifferView, DiffError> {
        let script = myers_script(keys(self.old.window), keys(self.new.window));
        if self.done() {
            Ok(
                DifferView {
                    old: given_up(self.old, self.old.window.len() as int),
                    new: given_up(self.new, self.new.window.len() as int),
                    report: self.report.script(
                        script,
                        0,
                        self.old.window,
                        self.new.window,
                        self.verbose,
                        self.ignore_serial,
                    ),
                    ..self
                },
            )
        } else {
            match truncated(script) {
                None => Err(DiffError::BufferOverflow),
                Some(kept) => Ok(
                    DifferView {
                        old: given_up(self.old, kept.last().old_start() + kept.last().old_len()),
                        new: given_up(self.new, kept.last().new_start() + kept.last().new_len()),
                        report: self.report.script(
                            kept,
                            0,
                            self.old.window,
                            self.new.window,
                            self.verbose,
                            self.ignore_serial,
                        ),
                        ..self
                    },
                ),
            }
        }
    }

    /// One pass of a comparison: both windows are filled, then compared.
    #[verifier::opaque]
    pub open spec fn pass(self) -> Result<DifferView, DiffError> {
        match self.filled() {
            Err(e) => Err(e),
            Ok(filled) => filled.reconciled(),
        }
    }

    /// Both zones are the same as far as they are read, and their windows
    /// hold a set unless both zones are read to their ends.
    pub open spec fn level(self) -> bool {
        &&& self.old == self.new
        &&& self.old.buf_size >= 1
        &&& !self.done() ==> self.old.window.len() > 0
    }

    /// Both zones are the same as far as they are read, and nothing of them
    /// waits in a window.
    pub open spec fn in_step(self) -> bool {
        &&& self.old == self.new
        &&& self.old.window.len() == 0
        &&& self.old.buf_size >= 1
    }
}

/// How far a comparison got.
pub enum Run {
    /// More passes are needed.
    Running(DifferView),
    Finished(DifferView),
    Failed(DiffError),
}

/// A comparison after at most `passes` passes: it goes on until both zones
/// are read to their ends, or fails.
pub open spec fn compare_for(d: DifferView, passes: nat) -> Run
    decreases passes,
{
    if passes == 0 {
        Run::Running(d)
    } else {
        match d.pass() {
            Err(e) => Run::Failed(e),
            Ok(after) => if after.done() {
                Run::Finished(after)
            } else {
                compare_for(after, (passes - 1) as nat)
            },
        }
    }
}

/// A comparison that ends, ends in one way.
pub proof fn lemma_compare_unique(d: DifferView, a: nat, b: nat)
    requires
        !(compare_for(d, a) is Running),
        !(compare_for(d, b) is Running),
    ensures
        compare_for(d, a) == compare_for(d, b),
    decreases a,
{
    match d.pass() {
        Err(_) => {},
        Ok(after) => {
            if !after.done() {
                lemma_compare_unique(after, (a - 1) as nat, (b - 1) as nat);
            }
        },
    }
}

/// The comparison behind `passes` passes none of which failed or ended it;
/// `None` where one did.
pub open spec fn after_passes(d: DifferView, passes: nat) -> Option<DifferView>
    decreases passes,
{
    if passes == 0 {
        Some(d)
    } else {
        match d.pass() {
            Ok(after) => if after.done() {
                None
            } else {
                after_passes(after, (passes - 1) as nat)
            },
            Err(_) => None,
        }
    }
}

/// One more pass behind passes that went on.
pub proof fn lemma_one_more_pass(d: DifferView, passes: nat, reached: DifferView)
    requires
        after_passes(d, passes) == Some(reached),
        reached.pass() matches Ok(after) && !after.done(),
    ensures
        after_passes(d, passes + 1) == Some(reached.pass()->Ok_0),
    decreases passes,
{
    if passes > 0 {
        lemma_one_more_pass(d.pass()->Ok_0, (passes - 1) as nat, reached);
    } else {
        assert(after_passes(reached.pass()->Ok_0, 0) == Some(reached.pass()->Ok_0));
    }
}

/// A comparison goes on from where its first passes left it.
pub proof fn lemma_compare_from(d: DifferView, passes: nat, reached: DifferView, more: nat)
    requires
        after_passes(d, passes) == Some(reached),
    ensures
        compare_for(d, passes + more) == compare_for(reached, more),
    decreases passes,
{
    if passes > 0 {
        lemma_compare_from(d.pass()->Ok_0, (passes - 1) as nat, reached, more);
    }
}

/// What a comparison comes to: what it is after as many passes as it takes
/// to end. Of a comparison that does not end this says nothing.
pub open spec fn compared_to_end(d: DifferView) -> Run {
    compare_for(d, choose|passes: nat| !(compare_for(d, passes) is Running))
}

/// The report that two lists, a tally and the lines written, stand for.
pub open spec fn report_of(count: &Summary, output: &Vec<String>) -> Report {
    Report { counts: count@, output: texts_view(output@) }
}

/// Counts a change for a type and for the total.
fn count_change(count: &mut Summary, rrtype: RRType, change: Change)
    requires
        old(count).wf(),
    ensures
        final(count).wf(),
        final(count)@ == counted(old(count)@, rrtype, change),
{
    count.increment(RRType::NoType, change);
    count.increment(rrtype, change);
}

/// The records that stand for the sets in the window of a ring.
fn window_keys(ring: &Ring) -> (records: Vec<Record>)
    requires
        ring.wf(),
    ensures
        records_view(records@) == keys(ring@.window),
{
    proof {
        ring.lemma_wf();
    }
    let tail = ring.tail();
    let head = ring.head();
    let mut records: Vec<Record> = Vec::new();
    let mut i: usize = tail;
    while i < head
        invariant
            ring.wf(),
            ring@.wf(),
            tail == ring@.tail,
            head == ring@.head(),
            tail <= i <= head,
            records.len() == i - tail,
            forall|j: int|
                0 <= j < i - tail ==> (#[trigger] records[j])@ == key_record(ring@.window[j]),
        decreases head - i,
    {
        let set = ring.get(i);
        assert(is_record_set(ring@.window[i - tail]));
        let name = set.name();
        records.push(Record::new(name.as_str(), 0, RRClass::IN, set.rrtype()));
        i += 1;
    }
    assert(records_view(records@) =~= keys(ring@.window));
    records
}

/// The records of a list as they are compared where serial numbers are
/// ignored.
fn comparable(set: &Vec<Record>) -> (records: Vec<Record>)
    ensures
        records_view(records@) == compared_set(records_view(set@), true),
{
    let mut records: Vec<Record> = Vec::new();
    let mut i: usize = 0;
    while i < set.len()
        invariant
            i <= set.len(),
            records.len() == i,
            forall|j: int| 0 <= j < i ==> (#[trigger] records[j])@ == compared(set[j]@, true),
        decreases set.len() - i,
    {
        let mut record = set[i].clone();
        if record.rrtype == RRType::SOA && record.data.len() > 2 {
            let ghost before = record@;
            record.data[2] = RecordData::new("");
            proof {
                reveal_strlit("");
                assert(""@ =~= Seq::<char>::empty());
                assert(record@.data =~= before.data.update(2, Seq::empty()));
            }
        }
        records.push(record);
        i += 1;
    }
    assert(records_view(records@) =~= compared_set(records_view(set@), true));
    records
}

/// Reports a set that is in one version only.
fn report_moved(
    set: &RecordSet,
    count: &mut Summary,
    output: &mut Vec<String>,
    verbose: bool,
    pf: &str,
    change: Change,
)
    requires
        old(count).wf(),
        set@.len() > 0,
    ensures
        final(count).wf(),
        report_of(final(count), final(output)) == report_of(old(count), old(output)).moved(
            set@,
            verbose,
            pf@,
            change,
        ),
{
    if verbose {
        append_lines(output, set.print_pf(pf));
    } else {
        assert(texts_view(output@) =~= texts_view(output@) + Seq::<Seq<char>>::empty());
    }
    count_change(count, set.rrtype(), change);
}

/// Reports a set that is in both versions.
fn report_matched(
    old_set: &RecordSet,
    new_set: &RecordSet,
    count: &mut Summary,
    output: &mut Vec<String>,
    verbose: bool,
    ignore_serial: bool,
)
    requires
        old(count).wf(),
        old_set@.len() > 0,
    ensures
        final(count).wf(),
        report_of(final(count), final(output)) == report_of(old(count), old(output)).matched(
            old_set@,
            new_set@,
            verbose,
            ignore_serial,
        ),
        old_set@ == new_set@ ==> report_of(final(count), final(output)) == report_of(
            old(count),
            old(output),
        ),
{
    let ghost a = compared_set(old_set@, ignore_serial);
    let ghost b = compared_set(new_set@, ignore_serial);
    let script = if ignore_serial {
        let old_records = comparable(&old_set.set);
        let new_records = comparable(&new_set.set);
        myers_diff(&old_records, &new_records)
    } else {
        assert(compared_set(old_set@, false) =~= old_set@);
        assert(compared_set(new_set@, false) =~= new_set@);
        myers_diff(&old_set.set, &new_set.set)
    };
    assert(script@ == myers_script(a, b));
    proof {
        lemma_tiles_within(script@, 0, 0, 0, a.len() as int, b.len() as int);
        if old_set@ == new_set@ {
            lemma_equal_lines(script@, 0, old_set@, new_set@);
        }
    }
    let mut differ = RecordDiffer::new(&old_set.set, &new_set.set, verbose);
    differ.run(&script);
    let changed = differ.has_changes();
    let ghost before = texts_view(output@);
    append_lines(output, differ.into_output());
    if changed {
        count_change(count, old_set.rrtype(), Change::Changed);
    }
    assert(texts_view(output@) =~= before + if verbose {
        record_lines(script@, 0, old_set@, new_set@)
    } else {
        Seq::empty()
    });
    proof {
        if old_set@ == new_set@ {
            assert(texts_view(output@) =~= before);
        }
    }
}

/// Compares two versions of a zone, window by window.
pub struct Differ {
    old: Ring,
    new: Ring,
    count: Summary,
    verbose: bool,
    ignore_serial: bool,
    output: Vec<String>,
}

impl View for Differ {
    type V = DifferView;

    closed spec fn view(&self) -> DifferView {
        DifferView {
            old: self.old@,
            new: self.new@,
            report: report_of(&self.count, &self.output),
            verbose: self.verbose,
            ignore_serial: self.ignore_serial,
        }
    }
}

impl Differ {
    pub closed spec fn wf(&self) -> bool {
        &&& self.old.wf()
        &&& self.new.wf()
        &&& self.count.wf()
    }

    /// A well-formed comparison has well-formed rings.
    pub proof fn lemma_wf(&self)
        requires
            self.wf(),
        ensures
            self@.old.wf(),
            self@.new.wf(),
            self@.old.head() <= usize::MAX,
            self@.new.head() <= usize::MAX,
    {
        self.old.lemma_wf();
        self.new.lemma_wf();
    }

    /// Every set of the two rings came from their own parsers, which is so
    /// as long as the rings are filled by [`Differ::compare`] and
    /// [`Differ::compare_pass`] alone.
    pub open spec fn fed(&self) -> bool {
        self@.old.fed() && self@.new.fed()
    }

    /// The comparison of two zones before anything is read.
    pub open spec fn new_view(
        oldfile: Seq<u8>,
        newfile: Seq<u8>,
        origin: Seq<char>,
        buf_size: usize,
        ignore_serial: bool,
        skip_dnssec: bool,
        verbose: bool,
    ) -> DifferView {
        DifferView {
            old: Ring::new_view(oldfile, origin, buf_size, skip_dnssec),
            new: Ring::new_view(newfile, origin, buf_size, skip_dnssec),
            report: Report { counts: Seq::empty(), output: Seq::empty() },
            verbose,
            ignore_serial,
        }
    }

    /// A comparison of the zone in `oldfile` with the zone in `newfile`,
    /// through windows of `buf_size` record sets.
    pub fn new(
        oldfile: Vec<u8>,
        newfile: Vec<u8>,
        origin: &str,
        buf_size: usize,
        ignore_serial: bool,
        skip_dnssec: bool,
        verbose: bool,
    ) -> (differ: Differ)
        ensures
            differ.wf(),
            differ.fed(),
            differ@ == Differ::new_view(
                oldfile@,
                newfile@,
                origin@,
                buf_size,
                ignore_serial,
                skip_dnssec,
                verbose,
            ),
    {
        let differ = Differ {
            old: Ring::new(oldfile, origin, buf_size, skip_dnssec),
            new: Ring::new(newfile, origin, buf_size, skip_dnssec),
            count: Summary::new(),
            verbose,
            ignore_serial,
            output: Vec::new(),
        };
        assert(texts_view(differ.output@) =~= Seq::<Seq<char>>::empty());
        differ
    }

    /// A comparison of two zones that are read elsewhere and handed over
    /// record by record; see [`Differ::offer`].
    pub fn open(buf_size: usize, ignore_serial: bool, skip_dnssec: bool, verbose: bool) -> (differ:
        Differ)
        ensures
            differ.wf(),
            differ@ == Differ::new_view(
                Seq::empty(),
                Seq::empty(),
                Seq::empty(),
                buf_size,
                ignore_serial,
                skip_dnssec,
                verbose,
            ),
    {
        proof {
            reveal_strlit("");
        }
        assert(""@ =~= Seq::<char>::empty());
        Differ::new(Vec::new(), Vec::new(), "", buf_size, ignore_serial, skip_dnssec, verbose)
    }

    /// Counts one more change for a type.
    pub fn increment(&mut self, k1: RRType, k2: Change)
        requires
            old(self).wf(),
        ensures
            final(self).wf(),
            final(self)@ == (DifferView {
                report: Report {
                    counts: bumped(old(self)@.report.counts, k1, k2),
                    ..old(self)@.report
                },
                ..old(self)@
            }),
    {
        self.count.increment(k1, k2);
    }

    /// The numbers of lines that were read of the old zone and of the new
    /// one.
    pub fn lines_read(&self) -> (lines: (usize, usize))
        ensures
            lines.0 == self@.old.parser.line_no,
            lines.1 == self@.new.parser.line_no,
    {
        (self.old.line_no(), self.new.line_no())
    }

    /// The counts so far.
    pub fn summary(&self) -> (count: &Summary)
        ensures
            count@ == self@.report.counts,
    {
        &self.count
    }

    /// The lines that a verbose comparison wrote so far.
    pub fn output(&self) -> (lines: &Vec<String>)
        ensures
            texts_view(lines@) == self@.report.output,
    {
        &self.output
    }

    /// Hands out the lines that a verbose comparison wrote so far, and begins
    /// with none again.
    pub fn take_output(&mut self) -> (lines: Vec<String>)
        requires
            old(self).wf(),
        ensures
            final(self).wf(),
            texts_view(lines@) == old(self)@.report.output,
            final(self)@ == (DifferView {
                report: Report { output: Seq::empty(), ..old(self)@.report },
                ..old(self)@
            }),
    {
        let mut lines: Vec<String> = Vec::new();
        lines.append(&mut self.output);
        assert(texts_view(self.output@) =~= Seq::<Seq<char>>::empty());
        assert(lines@ =~= old(self).output@);
        lines
    }

    /// The report of the counts as lines of text: the types in the order of
    /// their numbers, then the totals.
    pub fn results(&self) -> (lines: Vec<String>)
        ensures
            texts_view(lines@) == report_lines(self@.report.counts),
    {
        self.count.lines()
    }

    /// The ring of the old zone.
    pub fn old_ring(&self) -> (ring: &Ring)
        ensures
            ring@ == self@.old,
            self.wf() ==> ring.wf(),
    {
        &self.old
    }

    /// The ring of the new zone.
    pub fn new_ring(&self) -> (ring: &Ring)
        ensures
            ring@ == self@.new,
            self.wf() ==> ring.wf(),
    {
        &self.new
    }

    /// Takes one record of the old zone, or of the new one, into its ring;
    /// see [`Ring::offer`]. This is for zones that are read elsewhere,
    /// record by record.
    pub fn offer(&mut self, new_side: bool, r: Record) -> (full: Result<bool, DiffError>)
        requires
            old(self).wf(),
            !new_side && old(self)@.old.last is Some ==> old(self)@.old.head() < usize::MAX,
            new_side && old(self)@.new.last is Some ==> old(self)@.new.head() < usize::MAX,
        ensures
            final(self).wf(),
            match (if new_side {
                old(self)@.new
            } else {
                old(self)@.old
            }).take(
                if new_side {
                    old(self)@.new.parser
                } else {
                    old(self)@.old.parser
                },
                r@,
            ) {
                Ok((ring, stop)) => full == Ok::<bool, DiffError>(stop) && final(self)@
                    == if new_side {
                    DifferView { new: ring, ..old(self)@ }
                } else {
                    DifferView { old: ring, ..old(self)@ }
                },
                Err(e) => full == Err::<bool, DiffError>(e) && final(self)@ == old(self)@,
            },
    {
        if new_side {
            self.new.offer(r)
        } else {
            self.old.offer(r)
        }
    }

    /// Ends the filling of the ring of the old zone, or of the new one; see
    /// [`Ring::finish`].
    pub fn finish(&mut self, new_side: bool)
        requires
            old(self).wf(),
            !new_side && old(self)@.old.last is Some ==> old(self)@.old.head() < usize::MAX,
            new_side && old(self)@.new.last is Some ==> old(self)@.new.head() < usize::MAX,
        ensures
            final(self).wf(),
            final(self)@ == if new_side {
                DifferView { new: old(self)@.new.flushed(), ..old(self)@ }
            } else {
                DifferView { old: old(self)@.old.flushed(), ..old(self)@ }
            },
    {
        if new_side {
            self.new.finish();
        } else {
            self.old.finish();
        }
    }

    /// Reports the sets of a window from `from` up to `to`, each in one
    /// version only.
    fn report_range(&mut self, new_side: bool, from: usize, to: usize)
        requires
            old(self).wf(),
            from <= to,
            to <= (if new_side {
                old(self)@.new.window.len()
            } else {
                old(self)@.old.window.len()
            }),
        ensures
            final(self).wf(),
            final(self)@ == (DifferView {
                report: old(self)@.report.moved_range(
                    if new_side {
                        old(self)@.new.window
                    } else {
                        old(self)@.old.window
                    },
                    from as int,
                    to as int,
                    old(self)@.verbose,
                    if new_side {
                        "++"@
                    } else {
                        "--"@
                    },
                    if new_side {
                        Change::Added
                    } else {
                        Change::Deleted
                    },
                ),
                ..old(self)@
            }),
    {
        proof {
            self.lemma_wf();
        }
        let ghost window = if new_side {
            self@.new.window
        } else {
            self@.old.window
        };
        let ghost pf = if new_side {
            "++"@
        } else {
            "--"@
        };
        let ghost change = if new_side {
            Change::Added
        } else {
            Change::Deleted
        };
        let mut i: usize = from;
        while i < to
            invariant
                self.wf(),
                from <= i <= to <= window.len(),
                self@.old == old(self)@.old,
                self@.new == old(self)@.new,
                self@.old.wf(),
                self@.new.wf(),
                self@.old.head() <= usize::MAX,
                self@.new.head() <= usize::MAX,
                self@.verbose == old(self)@.verbose,
                self@.ignore_serial == old(self)@.ignore_serial,
                window == if new_side {
                    self@.new.window
                } else {
                    self@.old.window
                },
                pf == if new_side {
                    "++"@
                } else {
                    "--"@
                },
                change == if new_side {
                    Change::Added
                } else {
                    Change::Deleted
                },
                self@.report.moved_range(window, i as int, to as int, self@.verbose, pf, change)
                    == old(self)@.report.moved_range(
                    window,
                    from as int,
                    to as int,
                    self@.verbose,
                    pf,
                    change,
                ),
            decreases to - i,
        {
            assert(is_record_set(window[i as int]));
            if new_side {
                let tail = self.new.tail();
                let set = self.new.get(tail + i);
                report_moved(
                    set,
                    &mut self.count,
                    &mut self.output,
                    self.verbose,
                    "++",
                    Change::Added,
                );
            } else {
                let tail = self.old.tail();
                let set = self.old.get(tail + i);
                report_moved(
                    set,
                    &mut self.count,
                    &mut self.output,
                    self.verbose,
                    "--",
                    Change::Deleted,
                );
            }
            i += 1;
        }
    }

    /// Reports the sets of a section that are in both versions.
    fn report_equal(&mut self, old_at: usize, new_at: usize, len: usize)
        requires
            old(self).wf(),
            old_at + len <= old(self)@.old.window.len(),
            new_at + len <= old(self)@.new.window.len(),
        ensures
            final(self).wf(),
            final(self)@ == (DifferView {
                report: old(self)@.report.matched_range(
                    old(self)@.old.window,
                    old(self)@.new.window,
                    old_at as int,
                    new_at as int,
                    0,
                    len as int,
                    old(self)@.verbose,
                    old(self)@.ignore_serial,
                ),
                ..old(self)@
            }),
            old(self)@.old.window == old(self)@.new.window && old_at == new_at ==> final(self)@
                == old(self)@,
    {
        proof {
            self.lemma_wf();
        }
        let mut i: usize = 0;
        while i < len
            invariant
                self.wf(),
                i <= len,
                old_at + len <= self@.old.window.len(),
                new_at + len <= self@.new.window.len(),
                self@.old == old(self)@.old,
                self@.new == old(self)@.new,
                self@.old.wf(),
                self@.new.wf(),
                self@.old.head() <= usize::MAX,
                self@.new.head() <= usize::MAX,
                self@.verbose == old(self)@.verbose,
                self@.ignore_serial == old(self)@.ignore_serial,
                self@.report.matched_range(
                    self@.old.window,
                    self@.new.window,
                    old_at as int,
                    new_at as int,
                    i as int,
                    len as int,
                    self@.verbose,
                    self@.ignore_serial,
                ) == old(self)@.report.matched_range(
                    self@.old.window,
                    self@.new.window,
                    old_at as int,
                    new_at as int,
                    0,
                    len as int,
                    self@.verbose,
                    self@.ignore_serial,
                ),
                self@.old.window == self@.new.window && old_at == new_at ==> self@.report
                    == old(self)@.report,
            decreases len - i,
        {
            assert(is_record_set(self@.old.window[old_at + i]));
            let old_tail = self.old.tail();
            let new_tail = self.new.tail();
            let old_set = self.old.get(old_tail + old_at + i);
            let new_set = self.new.get(new_tail + new_at + i);
            report_matched(
                old_set,
                new_set,
                &mut self.count,
                &mut self.output,
                self.verbose,
                self.ignore_serial,
            );
            i += 1;
        }
    }

    /// Reports one section of a comparison of the two windows. The places of
    /// the section count from the tails of the windows.
    pub fn check_difference(&mut self, d: &DiffSection)
        requires
            old(self).wf(),
            d.within(old(self)@.old.window.len() as int, old(self)@.new.window.len() as int),
        ensures
            final(self).wf(),
            final(self)@ == (DifferView {
                report: old(self)@.report.section(
                    *d,
                    old(self)@.old.window,
                    old(self)@.new.window,
                    old(self)@.verbose,
                    old(self)@.ignore_serial,
                ),
                ..old(self)@
            }),
            old(self)@.old.window == old(self)@.new.window && d is Equal && d.old_start()
                == d.new_start() ==> final(self)@ == old(self)@,
    {
        proof {
            self.lemma_wf();
        }
        match *d {
            DiffSection::Equal(o, n, len) => {
                self.report_equal(o, n, len);
            },
            DiffSection::Delete(o, len, _) => {
                self.report_range(false, o, o + len);
            },
            DiffSection::Insert(_, n, len) => {
                self.report_range(true, n, n + len);
            },
            DiffSection::Replace(o, old_len, n, new_len) => {
                self.report_range(false, o, o + old_len);
                self.report_range(true, n, n + new_len);
            },
        }
    }

    /// Reports the sections of a script in their order.
    fn check_differences(&mut self, script: &Vec<DiffSection>)
        requires
            old(self).wf(),
            all_within(
                script@,
                old(self)@.old.window.len() as int,
                old(self)@.new.window.len() as int,
            ),
        ensures
            final(self).wf(),
            final(self)@ == (DifferView {
                report: old(self)@.report.script(
                    script@,
                    0,
                    old(self)@.old.window,
                    old(self)@.new.window,
                    old(self)@.verbose,
                    old(self)@.ignore_serial,
                ),
                ..old(self)@
            }),
            old(self)@.old.window == old(self)@.new.window && all_equal(script@) && (forall|
                k: int,
            |
                0 <= k < script.len() ==> (#[trigger] script[k]).old_start()
                    == script[k].new_start()) ==> final(self)@ == old(self)@,
    {
        let mut k: usize = 0;
        while k < script.len()
            invariant
                self.wf(),
                k <= script.len(),
                self@.old == old(self)@.old,
                self@.new == old(self)@.new,
                self@.verbose == old(self)@.verbose,
                self@.ignore_serial == old(self)@.ignore_serial,
                all_within(
                    script@,
                    self@.old.window.len() as int,
                    self@.new.window.len() as int,
                ),
                self@.report.script(
                    script@,
                    k as int,
                    self@.old.window,
                    self@.new.window,
                    self@.verbose,
                    self@.ignore_serial,
                ) == old(self)@.report.script(
                    script@,
                    0,
                    self@.old.window,
                    self@.new.window,
                    self@.verbose,
                    self@.ignore_serial,
                ),
                self@.old.window == self@.new.window && all_equal(script@) && (forall|j: int|
                    0 <= j < script.len() ==> (#[trigger] script[j]).old_start()
                        == script[j].new_start()) ==> self@.report == old(self)@.report,
            decreases script.len() - k,
        {
            assert(script@[k as int].within(
                self@.old.window.len() as int,
                self@.new.window.len() as int,
            ));
            let d = script[k];
            self.check_difference(&d);
            k += 1;
        }
    }

    /// Fills both windows, the old one first.
    fn fill_windows(&mut self) -> (r: Result<(), DiffError>)
        requires
            old(self).wf(),
            old(self).fed(),
        ensures
            match old(self)@.filled() {
                Ok(after) => r is Ok && final(self)@ == after && final(self).wf() && final(self).fed()
                    && after.old.backlog() + after.new.backlog() <= old(self)@.old.backlog()
                    + old(self)@.new.backlog(),
                Err(e) => r == Err::<(), DiffError>(e),
            },
            old(self)@.in_step() ==> r != Err::<(), DiffError>(DiffError::BufferOverflow) && (r
                is Ok ==> final(self)@.level() && final(self)@.report == old(self)@.report),
    {
        proof {
            self.lemma_wf();
            lemma_fill(self@.old);
            lemma_fill(self@.new);
        }
        match self.old.read_zone_records() {
            Ok(()) => {},
            Err(e) => {
                return Err(e);
            },
        }
        match self.new.read_zone_records() {
            Ok(()) => {},
            Err(e) => {
                return Err(e);
            },
        }
        Ok(())
    }

    /// Compares the two windows and reports what is certain. The answer says
    /// whether both zones are read to their ends. Two windows that are the
    /// same are given up whole and add nothing to the report. After an error
    /// the comparison is of no more use.
    pub fn reconcile(&mut self) -> (r: Result<bool, DiffError>)
        requires
            old(self).wf(),
        ensures
            match old(self)@.reconciled() {
                Ok(after) => r == Ok::<bool, DiffError>(after.done()) && final(self)@ == after
                    && final(self).wf() && (old(self).fed() ==> final(self).fed()) && after.old.backlog() <= old(self)@.old.backlog()
                    && after.new.backlog() <= old(self)@.new.backlog() && (!after.done()
                    ==> after.old.backlog() < old(self)@.old.backlog()),
                Err(e) => r == Err::<bool, DiffError>(e),
            },
            old(self)@.level() ==> r is Ok && final(self)@.in_step() && final(self)@.report
                == old(self)@.report,
    {
        proof {
            self.lemma_wf();
        }
        let ghost start = self@;
        let ghost old_len = start.old.window.len() as int;
        let ghost new_len = start.new.window.len() as int;
        let old_keys = window_keys(&self.old);
        let new_keys = window_keys(&self.new);
        let mut differ = SetDiffer::new();
        differ.differences = myers_diff(&old_keys, &new_keys);
        let ghost script = differ.differences@;
        assert(script == myers_script(keys(start.old.window), keys(start.new.window)));
        assert(tiles(script, 0, 0, 0, old_len, new_len)) by {
            assert(keys(start.old.window).len() == old_len);
            assert(keys(start.new.window).len() == new_len);
        }
        proof {
            lemma_tiles_within(script, 0, 0, 0, old_len, new_len);
            lemma_tiles_end(script, 0, 0, 0, old_len, new_len);
            lemma_truncated(script);
        }
        let ghost level = start.level();
        assert(level ==> all_equal(script) && forall|k: int|
            0 <= k < script.len() ==> (#[trigger] script[k]).old_start()
                == script[k].new_start()) by {
            if level {
                assert(keys(start.old.window) == keys(start.new.window));
                lemma_tiles_level(script, 0, 0, old_len, new_len);
            }
        }
        let done = self.old.at_end() && self.new.at_end();
        let old_tail = self.old.tail();
        let new_tail = self.new.tail();
        let old_head = self.old.head();
        let new_head = self.new.head();
        if done {
            differ.old_tail = old_head - old_tail;
            differ.new_tail = new_head - new_tail;
        } else {
            assert(level ==> truncated(script) == Some(script)) by {
                if level {
                    assert(script.len() > 0);
                    assert(script.last() is Equal);
                }
            }
            match differ.trunc_differences() {
                Ok(()) => {},
                Err(e) => {
                    return Err(e);
                },
            }
        }
        let ghost kept = differ.differences@;
        let ghost old_given = differ.old_tail as int;
        let ghost new_given = differ.new_tail as int;
        assert(all_within(kept, old_len, new_len)) by {
            assert forall|k: int| 0 <= k < kept.len() implies (#[trigger] kept[k]).within(
                old_len,
                new_len,
            ) by {
                assert(kept[k] == script[k]);
            }
        }
        assert(0 <= old_given <= old_len && 0 <= new_given <= new_len) by {
            if !done {
                assert(kept.last().within(old_len, new_len));
            }
        }
        assert(!done ==> old_given > 0) by {
            if !done {
                assert(kept.last().within(old_len, new_len));
                assert(kept.last() is Equal);
            }
        }
        assert(level ==> kept == script && old_given == old_len && new_given == new_len);
        self.check_differences(&differ.differences);
        self.old.set_tail(old_tail + differ.old_tail);
        self.new.set_tail(new_tail + differ.new_tail);
        assert(self@.old == given_up(start.old, old_given));
        assert(self@.new == given_up(start.new, new_given));
        Ok(done)
    }

    /// One pass of the comparison. The answer says whether both zones are
    /// read to their ends, which ends the comparison. Two zones that are the
    /// same as far as they were read stay so, add nothing to the report, and
    /// do not overflow. After an error the comparison is of no more use.
    pub fn compare_pass(&mut self) -> (r: Result<bool, DiffError>)
        requires
            old(self).wf(),
            old(self).fed(),
        ensures
            match old(self)@.pass() {
                Ok(after) => r == Ok::<bool, DiffError>(after.done()) && final(self)@ == after
                    && final(self).wf() && final(self).fed() && (!after.done() ==> after.old.backlog()
                    + after.new.backlog() < old(self)@.old.backlog() + old(self)@.new.backlog()),
                Err(e) => r == Err::<bool, DiffError>(e),
            },
            old(self)@.in_step() ==> r != Err::<bool, DiffError>(DiffError::BufferOverflow) && (r
                is Ok ==> final(self)@.in_step() && final(self)@.report == old(self)@.report),
    {
        reveal(DifferView::pass);
        match self.fill_windows() {
            Ok(()) => {},
            Err(e) => {
                return Err(e);
            },
        }
        self.reconcile()
    }

    /// Compares the two zones to their ends. Where both zones are the same
    /// and the window holds at least one set, nothing is reported and the
    /// window does not overflow. After an error the comparison is of no more
    /// use.
    pub fn compare(&mut self) -> (r: Result<(), DiffError>)
        requires
            old(self).wf(),
            old(self).fed(),
        ensures
            match compared_to_end(old(self)@) {
                Run::Finished(after) => r is Ok && final(self)@ == after && final(self).wf(),
                Run::Failed(e) => r == Err::<(), DiffError>(e),
                Run::Running(_) => false,
            },
            old(self)@.in_step() ==> r != Err::<(), DiffError>(DiffError::BufferOverflow) && (r
                is Ok ==> final(self)@.report == old(self)@.report),
    {
        let ghost start = self@;
        let ghost passes: nat = 0;
        loop
            invariant
                self.wf(),
                self.fed(),
                after_passes(start, passes) == Some(self@),
                start == old(self)@,
                start.in_step() ==> self@.in_step() && self@.report == start.report,
            decreases self@.old.backlog() + self@.new.backlog(),
        {
            let ghost before = self@;
            proof {
                lemma_compare_from(start, passes, before, 1);
            }
            match self.compare_pass() {
                Ok(done) => {
                    if done {
                        proof {
                            lemma_compare_unique(
                                start,
                                passes + 1,
                                choose|p: nat| !(compare_for(start, p) is Running),
                            );
                        }
                        return Ok(());
                    }
                    proof {
                        lemma_one_more_pass(start, passes, before);
                        passes = passes + 1;
                    }
                },
                Err(e) => {
                    proof {
                        lemma_compare_unique(
                            start,
                            passes + 1,
                            choose|p: nat| !(compare_for(start, p) is Running),
                        );
                    }
                    return Err(e);
                },
            }
        }
    }
}

} // verus!
