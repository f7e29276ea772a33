//! Edit scripts: what turns one sequence into another, section by section.

use crate::record::{records_view, Record, RecordView};
use crate::ring::DiffError;
use vstd::prelude::*;

verus! {

/// One section of an edit script. The places count from the start of the two
/// sequences that were compared.
#[derive(Debug, Copy, Clone, PartialEq, Eq, Structural)]
pub enum DiffSection {
    /// `Equal(old, new, len)`: `len` items from `old` on in the old sequence
    /// are the items from `new` on in the new one.
    Equal(usize, usize, usize),
    /// `Delete(old, len, new)`: `len` items from `old` on in the old sequence
    /// are missing at `new` in the new one.
    Delete(usize, usize, usize),
    /// `Insert(old, new, new_len)`: `new_len` items from `new` on in the new
    /// sequence are missing at `old` in the old one.
    Insert(usize, usize, usize),
    /// `Replace(old, old_len, new, new_len)`: `old_len` items from `old` on in
    /// the old sequence gave way to `new_len` items from `new` on in the new
    /// one.
    Replace(usize, usize, usize, usize),
}

impl DiffSection {
    pub open spec fn old_start(self) -> int {
        match self {
            DiffSection::Equal(old, _, _) => old as int,
            DiffSection::Delete(old, _, _) => old as int,
            DiffSection::Insert(old, _, _) => old as int,
            DiffSection::Replace(old, _, _, _) => old as int,
        }
    }

    pub open spec fn new_start(self) -> int {
        match self {
            DiffSection::Equal(_, new, _) => new as int,
            DiffSection::Delete(_, _, new) => new as int,
            DiffSection::Insert(_, new, _) => new as int,
            DiffSection::Replace(_, _, new, _) => new as int,
        }
    }

    /// The number of items of the old sequence that the section covers.
    pub open spec fn old_len(self) -> int {
        match self {
            DiffSection::Equal(_, _, len) => len as int,
            DiffSection::Delete(_, len, _) => len as int,
            DiffSection::Insert(_, _, _) => 0,
            DiffSection::Replace(_, old_len, _, _) => old_len as int,
        }
    }

    /// The number of items of the new sequence that the section covers.
    pub open spec fn new_len(self) -> int {
        match self {
            DiffSection::Equal(_, _, len) => len as int,
            DiffSection::Delete(_, _, _) => 0,
            DiffSection::Insert(_, _, new_len) => new_len as int,
            DiffSection::Replace(_, _, _, new_len) => new_len as int,
        }
    }

    /// The section covers something, and lies within sequences of the given
    /// lengths.
    pub open spec fn within(self, old_len: int, new_len: int) -> bool {
        &&& self.old_len() + self.new_len() > 0
        &&& self.old_start() + self.old_len() <= old_len
        &&& self.new_start() + self.new_len() <= new_len
    }
}

/// The sections from `k` on cover the old sequence from `old_at` to
/// `old_end` and the new one from `new_at` to `new_end`, in order and without
/// a gap, and none of them is empty.
pub open spec fn tiles(
    script: Seq<DiffSection>,
    k: int,
    old_at: int,
    new_at: int,
    old_end: int,
    new_end: int,
) -> bool
    decreases script.len() - k,
{
    if k < 0 || k >= script.len() {
        old_at == old_end && new_at == new_end
    } else {
        &&& script[k].old_start() == old_at
        &&& script[k].new_start() == new_at
        &&& script[k].old_len() + script[k].new_len() > 0
        &&& tiles(
            script,
            k + 1,
            old_at + script[k].old_len(),
            new_at + script[k].new_len(),
            old_end,
            new_end,
        )
    }
}

/// Every `Equal` section joins items that are equal.
pub open spec fn joins_equals(
    script: Seq<DiffSection>,
    old: Seq<RecordView>,
    new: Seq<RecordView>,
) -> bool {
    forall|k: int, i: int|
        #![trigger script[k], old[i]]
        0 <= k < script.len() && script[k] is Equal && script[k].old_start() <= i
            < script[k].old_start() + script[k].old_len() ==> old[i] == new[i
            - script[k].old_start() + script[k].new_start()]
}

/// An edit script from `old` to `new`: its sections cover both sequences in
/// order, and what it calls equal is equal.
pub open spec fn is_edit_script(
    script: Seq<DiffSection>,
    old: Seq<RecordView>,
    new: Seq<RecordView>,
) -> bool {
    &&& tiles(script, 0, 0, 0, old.len() as int, new.len() as int)
    &&& joins_equals(script, old, new)
}

pub open spec fn all_equal(script: Seq<DiffSection>) -> bool {
    forall|k: int| 0 <= k < script.len() ==> #[trigger] script[k] is Equal
}

pub open spec fn all_within(script: Seq<DiffSection>, old_len: int, new_len: int) -> bool {
    forall|k: int| 0 <= k < script.len() ==> (#[trigger] script[k]).within(old_len, new_len)
}

/// The sections of a tiling lie within what they tile.
pub proof fn lemma_tiles_within(
    script: Seq<DiffSection>,
    k: int,
    old_at: int,
    new_at: int,
    old_end: int,
    new_end: int,
)
    requires
        0 <= k,
        0 <= old_at,
        0 <= new_at,
        tiles(script, k, old_at, new_at, old_end, new_end),
    ensures
        old_at <= old_end,
        new_at <= new_end,
        forall|j: int| k <= j < script.len() ==> (#[trigger] script[j]).within(old_end, new_end),
        forall|j: int|
            k <= j < script.len() ==> old_at <= (#[trigger] script[j]).old_start() && new_at
                <= script[j].new_start(),
    decreases script.len() - k,
{
    if k < script.len() {
        lemma_tiles_within(
            script,
            k + 1,
            old_at + script[k].old_len(),
            new_at + script[k].new_len(),
            old_end,
            new_end,
        );
    }
}

/// A tiling ends where its last section ends.
pub proof fn lemma_tiles_end(
    script: Seq<DiffSection>,
    k: int,
    old_at: int,
    new_at: int,
    old_end: int,
    new_end: int,
)
    requires
        0 <= k,
        tiles(script, k, old_at, new_at, old_end, new_end),
    ensures
        k < script.len() ==> script.last().old_start() + script.last().old_len() == old_end
            && script.last().new_start() + script.last().new_len() == new_end,
        k >= script.len() ==> old_at == old_end && new_at == new_end,
    decreases script.len() - k,
{
    if k < script.len() {
        lemma_tiles_end(
            script,
            k + 1,
            old_at + script[k].old_len(),
            new_at + script[k].new_len(),
            old_end,
            new_end,
        );
    }
}

/// In a tiling of `Equal` sections that begins at the same place of both
/// sequences, every section begins at the same place of both.
pub proof fn lemma_tiles_level(
    script: Seq<DiffSection>,
    k: int,
    at: int,
    old_end: int,
    new_end: int,
)
    requires
        0 <= k,
        all_equal(script),
        tiles(script, k, at, at, old_end, new_end),
    ensures
        forall|j: int|
            k <= j < script.len() ==> (#[trigger] script[j]).old_start() == script[j].new_start(),
    decreases script.len() - k,
{
    if k < script.len() {
        assert(script[k] is Equal);
        lemma_tiles_level(script, k + 1, at + script[k].old_len(), old_end, new_end);
    }
}

/// The edit script that Myers' algorithm, as the crate `diffs` implements it,
/// gives for two sequences.
pub uninterp spec fn myers_script(old: Seq<RecordView>, new: Seq<RecordView>) -> Seq<DiffSection>;

/// Gathers the sections that a diff algorithm reports, and cuts them back to
/// what is certain while the zones are not read to their ends.
pub struct SetDiffer {
    pub differences: Vec<DiffSection>,
    pub old_tail: usize,
    pub new_tail: usize,
}

impl diffs::Diff for SetDiffer {
    type Error = ();

    fn equal(&mut self, old_at: usize, new_at: usize, len: usize) -> (r: Result<(), ()>)
        ensures
            r is Ok,
            final(self).differences@ == old(self).differences@.push(
                DiffSection::Equal(old_at, new_at, len),
            ),
    {
        self.differences.push(DiffSection::Equal(old_at, new_at, len));
        Ok(())
    }

    fn delete(&mut self, old_at: usize, len: usize, new_at: usize) -> (r: Result<(), ()>)
        ensures
            r is Ok,
            final(self).differences@ == old(self).differences@.push(
                DiffSection::Delete(old_at, len, new_at),
            ),
    {
        self.differences.push(DiffSection::Delete(old_at, len, new_at));
        Ok(())
    }

    fn insert(&mut self, old_at: usize, new_at: usize, new_len: usize) -> (r: Result<(), ()>)
        ensures
            r is Ok,
            final(self).differences@ == old(self).differences@.push(
                DiffSection::Insert(old_at, new_at, new_len),
            ),
    {
        self.differences.push(DiffSection::Insert(old_at, new_at, new_len));
        Ok(())
    }

    fn replace(&mut self, old_at: usize, old_len: usize, new_at: usize, new_len: usize) -> (r:
        Result<(), ()>)
        ensures
            r is Ok,
            final(self).differences@ == old(self).differences@.push(
                DiffSection::Replace(old_at, old_len, new_at, new_len),
            ),
    {
        self.differences.push(DiffSection::Replace(old_at, old_len, new_at, new_len));
        Ok(())
    }

    fn finish(&mut self) -> (r: Result<(), ()>)
        ensures
            r is Ok,
            final(self).differences == old(self).differences,
    {
        Ok(())
    }
}

/// Calls `diffs::myers::diff` on two lists of records, which it compares with
/// `==`, and hands back the sections that the call reports, in the order of
/// the reports. The contract names the result and claims of it what the
/// crate's documentation says of an edit script: the sections cover both
/// lists in order, none is empty, and an `Equal` section joins equal records.
/// It also claims that no other section is reported where the two lists are
/// equal, which is what the search for a shortest script finds at once.
#[verifier::external_body]
pub(crate) fn myers_diff(old: &Vec<Record>, new: &Vec<Record>) -> (script: Vec<DiffSection>)
    ensures
        script@ == myers_script(records_view(old@), records_view(new@)),
        is_edit_script(script@, records_view(old@), records_view(new@)),
        records_view(old@) == records_view(new@) ==> all_equal(script@),
{
    let mut differ = SetDiffer { differences: Vec::new(), old_tail: 0, new_tail: 0 };
    let _ = diffs::myers::diff(&mut differ, old, 0, old.len(), new, 0, new.len());
    differ.differences
}

/// The script without the sections behind its last `Equal` section; `None`
/// where it has no `Equal` section.
pub open spec fn truncated(script: Seq<DiffSection>) -> Option<Seq<DiffSection>>
    decreases script.len(),
{
    if script.len() == 0 {
        None
    } else if script.last() is Equal {
        Some(script)
    } else {
        truncated(script.drop_last())
    }
}

/// What [`truncated`] gives is a prefix of the script that ends in an `Equal`
/// section.
pub proof fn lemma_truncated(script: Seq<DiffSection>)
    ensures
        truncated(script) matches Some(kept) ==> kept.len() > 0 && kept.last() is Equal
            && kept.len() <= script.len() && kept == script.take(kept.len() as int),
        truncated(script) is None ==> forall|k: int|
            0 <= k < script.len() ==> !(#[trigger] script[k] is Equal),
    decreases script.len(),
{
    if script.len() > 0 {
        if script.last() is Equal {
            assert(script.take(script.len() as int) =~= script);
        } else {
            lemma_truncated(script.drop_last());
            match truncated(script.drop_last()) {
                Some(kept) => {
                    assert(script.drop_last().take(kept.len() as int) =~= script.take(
                        kept.len() as int,
                    ));
                },
                None => {
                    assert forall|k: int| 0 <= k < script.len() implies !(#[trigger] script[k]
                        is Equal) by {
                        if k < script.len() - 1 {
                            assert(script.drop_last()[k] == script[k]);
                        }
                    }
                },
            }
        }
    }
}

impl SetDiffer {
    pub fn new() -> (differ: SetDiffer)
        ensures
            differ.differences@ == Seq::<DiffSection>::empty(),
            differ.old_tail == 0,
            differ.new_tail == 0,
    {
        SetDiffer { differences: Vec::new(), old_tail: 0, new_tail: 0 }
    }

    /// Drops the sections behind the last `Equal` section, which may be
    /// artefacts of where the windows end, and sets the tails behind that
    /// section. Without an `Equal` section the window is too small.
    pub fn trunc_differences(&mut self) -> (r: Result<(), DiffError>)
        requires
            all_within(old(self).differences@, usize::MAX as int, usize::MAX as int),
        ensures
            match truncated(old(self).differences@) {
                Some(kept) => r is Ok && final(self).differences@ == kept && final(self).old_tail
                    == kept.last().old_start() + kept.last().old_len() && final(self).new_tail
                    == kept.last().new_start() + kept.last().new_len(),
                None => {
                    &&& r == Err::<(), DiffError>(DiffError::BufferOverflow)
                    &&& final(self).differences@.len() == 0
                    &&& final(self).old_tail == old(self).old_tail
                    &&& final(self).new_tail == old(self).new_tail
                },
            },
    {
        loop
            invariant
                truncated(self.differences@) == truncated(old(self).differences@),
                all_within(self.differences@, usize::MAX as int, usize::MAX as int),
                self.old_tail == old(self).old_tail,
                self.new_tail == old(self).new_tail,
            decreases self.differences.len(),
        {
            let n = self.differences.len();
            if n == 0 {
                return Err(DiffError::BufferOverflow);
            }
            match self.differences[n - 1] {
                DiffSection::Equal(old, new, len) => {
                    assert(self.differences[n - 1].within(usize::MAX as int, usize::MAX as int));
                    self.old_tail = old + len;
                    self.new_tail = new + len;
                    return Ok(());
                },
                _ => {
                    let ghost before = self.differences@;
                    self.differences.pop();
                    assert(self.differences@ =~= before.drop_last());
                },
            }
        }
    }
}

} // verus!
