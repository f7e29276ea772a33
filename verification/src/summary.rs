//! The tally of a comparison: how many record sets were added, changed and
//! deleted, by type.

use crate::record::texts_view;
use crate::text::{decimal_text, format_decimal, push_mark, Mark};
use crate::vocabulary::RRType;
use vstd::prelude::*;
use vstd::string::StringExecFns;

verus! {

/// What happened to a record set between two versions of a zone.
#[derive(Debug, Copy, Clone, PartialEq, Eq, Structural)]
pub enum Change {
    Added,
    Changed,
    Deleted,
}

/// The counts for one type. A count that reaches the largest number stays
/// there.
#[derive(Debug, Copy, Clone, PartialEq, Eq, Structural)]
pub struct Tally {
    pub rrtype: RRType,
    pub added: usize,
    pub changed: usize,
    pub deleted: usize,
}

pub open spec fn one_more(n: usize) -> usize {
    if n < usize::MAX {
        (n + 1) as usize
    } else {
        n
    }
}

impl Tally {
    pub open spec fn of(rrtype: RRType) -> Tally {
        Tally { rrtype, added: 0, changed: 0, deleted: 0 }
    }

    pub open spec fn get(self, change: Change) -> usize {
        match change {
            Change::Added => self.added,
            Change::Changed => self.changed,
            Change::Deleted => self.deleted,
        }
    }

    pub open spec fn bumped(self, change: Change) -> Tally {
        match change {
            Change::Added => Tally { added: one_more(self.added), ..self },
            Change::Changed => Tally { changed: one_more(self.changed), ..self },
            Change::Deleted => Tally { deleted: one_more(self.deleted), ..self },
        }
    }

    fn bump(&mut self, change: Change)
        ensures
            *final(self) == old(self).bumped(change),
    {
        match change {
            Change::Added => {
                if self.added < usize::MAX {
                    self.added = self.added + 1;
                }
            },
            Change::Changed => {
                if self.changed < usize::MAX {
                    self.changed = self.changed + 1;
                }
            },
            Change::Deleted => {
                if self.deleted < usize::MAX {
                    self.deleted = self.deleted + 1;
                }
            },
        }
    }
}

/// The order of types in a report: by number, and a type without a mnemonic
/// behind the one with a mnemonic that has the same number.
pub open spec fn precedes(a: RRType, b: RRType) -> bool {
    a.code() < b.code() || (a.code() == b.code() && !(a is Unknown) && b is Unknown)
}

fn comes_before(a: RRType, b: RRType) -> (yes: bool)
    ensures
        yes == precedes(a, b),
{
    let x = a.discriminant();
    let y = b.discriminant();
    let a_unknown = match a {
        RRType::Unknown(_) => true,
        _ => false,
    };
    let b_unknown = match b {
        RRType::Unknown(_) => true,
        _ => false,
    };
    x < y || (x == y && !a_unknown && b_unknown)
}

/// Types with the same number are the same type, unless exactly one of them
/// has no mnemonic.
pub proof fn lemma_order_total(a: RRType, b: RRType)
    ensures
        a == b || precedes(a, b) || precedes(b, a),
        !(precedes(a, b) && precedes(b, a)),
        !precedes(a, a),
{
}

/// The order of types is transitive.
pub proof fn lemma_order_transitive(a: RRType, b: RRType, c: RRType)
    requires
        precedes(a, b),
        precedes(b, c),
    ensures
        precedes(a, c),
{
}

/// The tallies are in the order of their types, each type once.
pub open spec fn sorted(entries: Seq<Tally>) -> bool {
    forall|i: int, j: int|
        0 <= i < j < entries.len() ==> precedes(
            (#[trigger] entries[i]).rrtype,
            (#[trigger] entries[j]).rrtype,
        )
}

/// The first place from `from` on whose type does not precede `rrtype`.
pub open spec fn place(entries: Seq<Tally>, rrtype: RRType, from: int) -> int
    decreases entries.len() - from,
{
    if from < 0 || from >= entries.len() || !precedes(entries[from].rrtype, rrtype) {
        from
    } else {
        place(entries, rrtype, from + 1)
    }
}

/// Where [`place`] lies, and what lies before it.
pub proof fn lemma_place(entries: Seq<Tally>, rrtype: RRType, from: int)
    requires
        0 <= from <= entries.len(),
    ensures
        from <= place(entries, rrtype, from) <= entries.len(),
        forall|i: int|
            from <= i < place(entries, rrtype, from) ==> precedes(
                (#[trigger] entries[i]).rrtype,
                rrtype,
            ),
        place(entries, rrtype, from) < entries.len() ==> !precedes(
            entries[place(entries, rrtype, from)].rrtype,
            rrtype,
        ),
    decreases entries.len() - from,
{
    if from < entries.len() && precedes(entries[from].rrtype, rrtype) {
        lemma_place(entries, rrtype, from + 1);
    }
}

/// The tallies with one more change counted for a type.
pub open spec fn bumped(entries: Seq<Tally>, rrtype: RRType, change: Change) -> Seq<Tally> {
    let i = place(entries, rrtype, 0);
    if i < entries.len() && entries[i].rrtype == rrtype {
        entries.update(i, entries[i].bumped(change))
    } else {
        entries.insert(i, Tally::of(rrtype).bumped(change))
    }
}

/// The count of a change for a type; zero where the type has no tally.
pub open spec fn count_of(entries: Seq<Tally>, rrtype: RRType, change: Change) -> nat {
    let i = place(entries, rrtype, 0);
    if i < entries.len() && entries[i].rrtype == rrtype {
        entries[i].get(change) as nat
    } else {
        0
    }
}

/// Counting keeps the tallies in order.
pub proof fn lemma_bumped_sorted(entries: Seq<Tally>, rrtype: RRType, change: Change)
    requires
        sorted(entries),
    ensures
        sorted(bumped(entries, rrtype, change)),
{
    lemma_place(entries, rrtype, 0);
    let i = place(entries, rrtype, 0);
    let after = bumped(entries, rrtype, change);
    if i < entries.len() && entries[i].rrtype == rrtype {
        assert forall|a: int, b: int| 0 <= a < b < after.len() implies precedes(
            (#[trigger] after[a]).rrtype,
            (#[trigger] after[b]).rrtype,
        ) by {
            assert(after[a].rrtype == entries[a].rrtype);
            assert(after[b].rrtype == entries[b].rrtype);
        }
    } else {
        assert forall|a: int, b: int| 0 <= a < b < after.len() implies precedes(
            (#[trigger] after[a]).rrtype,
            (#[trigger] after[b]).rrtype,
        ) by {
            if b < i {
                assert(after[a] == entries[a] && after[b] == entries[b]);
            } else if b == i {
                assert(after[a] == entries[a]);
            } else if a == i {
                assert(after[b] == entries[b - 1]);
                lemma_order_total(entries[i].rrtype, rrtype);
                if b - 1 > i {
                    lemma_order_transitive(rrtype, entries[i].rrtype, entries[b - 1].rrtype);
                }
            } else if a < i {
                assert(after[a] == entries[a] && after[b] == entries[b - 1]);
            } else {
                assert(after[a] == entries[a - 1] && after[b] == entries[b - 1]);
            }
        }
    }
}

/// A change that is counted is one more than before, and counts of other
/// changes of the type stay.
pub proof fn lemma_bumped_count(entries: Seq<Tally>, rrtype: RRType, change: Change, other: Change)
    ensures
        count_of(bumped(entries, rrtype, change), rrtype, other) == if other == change {
            if count_of(entries, rrtype, change) < usize::MAX {
                count_of(entries, rrtype, change) + 1
            } else {
                count_of(entries, rrtype, change)
            }
        } else {
            count_of(entries, rrtype, other)
        },
{
    lemma_place(entries, rrtype, 0);
    let i = place(entries, rrtype, 0);
    let after = bumped(entries, rrtype, change);
    lemma_place(after, rrtype, 0);
    let j = place(after, rrtype, 0);
    assert(!precedes(after[i].rrtype, rrtype));
    if j < i {
        assert(after[j] == entries[j]);
    }
    if j > i {
        assert(precedes(after[i].rrtype, rrtype));
    }
    assert(j == i);
}

/// The line that reports one count: two spaces, the name of the change, a
/// colon, a space and the number.
pub open spec fn count_line(label: Seq<char>, n: usize) -> Seq<char> {
    seq![' ', ' '] + label + seq![':', ' '] + decimal_text(n as nat)
}

pub open spec fn label_of(change: Change) -> Seq<char> {
    match change {
        Change::Added => "added"@,
        Change::Changed => "changed"@,
        Change::Deleted => "deleted"@,
    }
}

pub open spec fn line_for(tally: Tally, change: Change) -> Seq<Seq<char>> {
    if tally.get(change) > 0 {
        seq![count_line(label_of(change), tally.get(change))]
    } else {
        Seq::empty()
    }
}

/// The lines that report the counts of one tally that are not zero, in the
/// order of the names of the changes.
pub open spec fn tally_lines(tally: Tally) -> Seq<Seq<char>> {
    line_for(tally, Change::Added) + line_for(tally, Change::Changed) + line_for(
        tally,
        Change::Deleted,
    )
}

/// The lines that report the tallies from `from` on but the one of `NoType`:
/// for each the name of the type and a colon, then its counts.
pub open spec fn typed_lines(entries: Seq<Tally>, from: int) -> Seq<Seq<char>>
    decreases entries.len() - from,
{
    if from < 0 || from >= entries.len() {
        Seq::empty()
    } else if entries[from].rrtype == RRType::NoType {
        typed_lines(entries, from + 1)
    } else {
        seq![entries[from].rrtype.name_of() + seq![':']] + tally_lines(entries[from])
            + typed_lines(entries, from + 1)
    }
}

/// The lines that report the totals: those of the first tally of `NoType`
/// from `from` on, under the heading `total:`.
pub open spec fn total_lines(entries: Seq<Tally>, from: int) -> Seq<Seq<char>>
    decreases entries.len() - from,
{
    if from < 0 || from >= entries.len() {
        Seq::empty()
    } else if entries[from].rrtype == RRType::NoType {
        seq!["total:"@] + tally_lines(entries[from])
    } else {
        total_lines(entries, from + 1)
    }
}

/// The report of a tally: the types in their order, then the totals.
pub open spec fn report_lines(entries: Seq<Tally>) -> Seq<Seq<char>> {
    typed_lines(entries, 0) + total_lines(entries, 0)
}

/// The counts of a comparison, by type, in the order of the types.
pub struct Summary {
    entries: Vec<Tally>,
}

impl View for Summary {
    type V = Seq<Tally>;

    closed spec fn view(&self) -> Seq<Tally> {
        self.entries@
    }
}

fn push_count(lines: &mut Vec<String>, label: &str, n: usize)
    ensures
        texts_view(final(lines)@) == texts_view(old(lines)@) + (if n > 0 {
            seq![count_line(label@, n)]
        } else {
            Seq::empty()
        }),
{
    if n > 0 {
        let mut line = String::from_str("  ");
        line.append(label);
        line.append(": ");
        line.append(format_decimal(n as u64).as_str());
        proof {
            reveal_strlit("  ");
            reveal_strlit(": ");
            assert("  "@ =~= seq![' ', ' ']);
            assert(": "@ =~= seq![':', ' ']);
        }
        lines.push(line);
        assert(texts_view(lines@) =~= texts_view(old(lines)@) + seq![count_line(label@, n)]);
    } else {
        assert(texts_view(lines@) =~= texts_view(old(lines)@) + Seq::<Seq<char>>::empty());
    }
}

fn push_tally(lines: &mut Vec<String>, tally: &Tally)
    ensures
        texts_view(final(lines)@) == texts_view(old(lines)@) + tally_lines(*tally),
{
    push_count(lines, "added", tally.added);
    push_count(lines, "changed", tally.changed);
    push_count(lines, "deleted", tally.deleted);
    assert(texts_view(lines@) =~= texts_view(old(lines)@) + tally_lines(*tally));
}

impl Summary {
    /// The tallies are in the order of their types.
    pub open spec fn wf(&self) -> bool {
        sorted(self@)
    }

    /// A tally without counts.
    pub fn new() -> (summary: Summary)
        ensures
            summary.wf(),
            summary@ == Seq::<Tally>::empty(),
    {
        Summary { entries: Vec::new() }
    }

    /// Counts one more change for a type.
    pub fn increment(&mut self, rrtype: RRType, change: Change)
        requires
            old(self).wf(),
        ensures
            final(self).wf(),
            final(self)@ == bumped(old(self)@, rrtype, change),
    {
        proof {
            lemma_bumped_sorted(self@, rrtype, change);
        }
        let mut i: usize = 0;
        while i < self.entries.len() && comes_before(self.entries[i].rrtype, rrtype)
            invariant
                i <= self.entries.len(),
                self.entries == old(self).entries,
                place(self@, rrtype, i as int) == place(self@, rrtype, 0),
            decreases self.entries.len() - i,
        {
            i += 1;
        }
        if i < self.entries.len() && self.entries[i].rrtype == rrtype {
            let mut tally = self.entries[i];
            tally.bump(change);
            self.entries[i] = tally;
        } else {
            let mut tally = Tally { rrtype, added: 0, changed: 0, deleted: 0 };
            tally.bump(change);
            self.entries.insert(i, tally);
        }
    }

    /// The count of a change for a type.
    pub fn count(&self, rrtype: RRType, change: Change) -> (n: usize)
        ensures
            n == count_of(self@, rrtype, change),
    {
        let mut i: usize = 0;
        while i < self.entries.len() && comes_before(self.entries[i].rrtype, rrtype)
            invariant
                i <= self.entries.len(),
                place(self@, rrtype, i as int) == place(self@, rrtype, 0),
            decreases self.entries.len() - i,
        {
            i += 1;
        }
        if i < self.entries.len() && self.entries[i].rrtype == rrtype {
            match change {
                Change::Added => self.entries[i].added,
                Change::Changed => self.entries[i].changed,
                Change::Deleted => self.entries[i].deleted,
            }
        } else {
            0
        }
    }

    /// The tallies, in the order of their types.
    pub fn tallies(&self) -> (entries: &Vec<Tally>)
        ensures
            entries@ == self@,
    {
        &self.entries
    }

    /// The report of the tally as lines of text.
    pub fn lines(&self) -> (lines: Vec<String>)
        ensures
            texts_view(lines@) == report_lines(self@),
    {
        let mut lines: Vec<String> = Vec::new();
        assert(texts_view(lines@) =~= Seq::<Seq<char>>::empty());
        let mut i: usize = 0;
        while i < self.entries.len()
            invariant
                i <= self.entries.len(),
                texts_view(lines@) + typed_lines(self@, i as int) == typed_lines(self@, 0),
            decreases self.entries.len() - i,
        {
            let ghost before = texts_view(lines@);
            if self.entries[i].rrtype != RRType::NoType {
                let mut heading = self.entries[i].rrtype.to_text();
                push_mark(&mut heading, Mark::Colon);
                assert(heading@ =~= self@[i as int].rrtype.name_of() + seq![':']);
                lines.push(heading);
                assert(texts_view(lines@) =~= before + seq![
                    self@[i as int].rrtype.name_of() + seq![':'],
                ]);
                push_tally(&mut lines, &self.entries[i]);
            }
            assert(texts_view(lines@) + typed_lines(self@, i + 1) =~= before + typed_lines(
                self@,
                i as int,
            ));
            i += 1;
        }
        assert(texts_view(lines@) =~= typed_lines(self@, 0));
        let mut j: usize = 0;
        while j < self.entries.len()
            invariant
                j <= self.entries.len(),
                texts_view(lines@) == typed_lines(self@, 0),
                total_lines(self@, j as int) == total_lines(self@, 0),
            decreases self.entries.len() - j,
        {
            if self.entries[j].rrtype == RRType::NoType {
                let ghost before = texts_view(lines@);
                lines.push(String::from_str("total:"));
                assert(texts_view(lines@) =~= before + seq!["total:"@]);
                push_tally(&mut lines, &self.entries[j]);
                assert(texts_view(lines@) =~= report_lines(self@));
                return lines;
            }
            j += 1;
        }
        assert(texts_view(lines@) =~= report_lines(self@));
        lines
    }
}

} // verus!
