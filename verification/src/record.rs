//! Resource records and the sets they form.

use crate::text::{decimal_text, escape_text, escaped, format_decimal};
use crate::vocabulary::{RRClass, RRType};
use vstd::prelude::*;
use vstd::std_specs::cmp::PartialEqSpecImpl;
use vstd::string::StringExecFns;

verus! {

/// One token of the data of a record, after unescaping.
#[derive(Debug)]
pub struct RecordData {
    pub data: String,
}

impl View for RecordData {
    type V = Seq<char>;

    open spec fn view(&self) -> Seq<char> {
        self.data@
    }
}

impl Clone for RecordData {
    fn clone(&self) -> (copy: RecordData)
        ensures
            copy@ == self@,
    {
        RecordData { data: self.data.clone() }
    }
}

impl PartialEq for RecordData {
    fn eq(&self, other: &RecordData) -> (same: bool) {
        self.data == other.data
    }
}

impl PartialEqSpecImpl for RecordData {
    open spec fn obeys_eq_spec() -> bool {
        true
    }

    open spec fn eq_spec(&self, other: &RecordData) -> bool {
        self@ == other@
    }
}

impl RecordData {
    pub fn new(data: &str) -> (token: RecordData)
        ensures
            token@ == data@,
    {
        RecordData { data: String::from_str(data) }
    }

    /// The token that raw bytes stand for: their escaped text.
    pub fn from_bytes(data: &[u8]) -> (token: RecordData)
        ensures
            token@ == escaped(data@),
    {
        RecordData { data: escape_text(data) }
    }

    /// The text that stands for the token in a printed record.
    pub fn to_text(&self) -> (text: String)
        ensures
            text@ == self@,
    {
        self.data.clone()
    }
}

/// What a record holds, as mathematical values.
pub struct RecordView {
    pub name: Seq<char>,
    pub ttl: u32,
    pub class: RRClass,
    pub rrtype: RRType,
    pub data: Seq<Seq<char>>,
}

/// The views of a list of tokens.
pub open spec fn data_view(data: Seq<RecordData>) -> Seq<Seq<char>> {
    Seq::new(data.len(), |i: int| data[i]@)
}

/// A resource record: owner name, time to live, class, type, and the tokens
/// of its data in the order in which they were written.
#[derive(Debug)]
pub struct Record {
    pub name: String,
    pub ttl: u32,
    pub class: RRClass,
    pub rrtype: RRType,
    pub data: Vec<RecordData>,
}

impl View for Record {
    type V = RecordView;

    open spec fn view(&self) -> RecordView {
        RecordView {
            name: self.name@,
            ttl: self.ttl,
            class: self.class,
            rrtype: self.rrtype,
            data: data_view(self.data@),
        }
    }
}

fn clone_data(data: &Vec<RecordData>) -> (copy: Vec<RecordData>)
    ensures
        data_view(copy@) == data_view(data@),
{
    let mut copy: Vec<RecordData> = Vec::new();
    let mut i: usize = 0;
    while i < data.len()
        invariant
            i <= data.len(),
            copy.len() == i,
            forall|j: int| 0 <= j < i ==> copy[j]@ == data[j]@,
        decreases data.len() - i,
    {
        copy.push(data[i].clone());
        i += 1;
    }
    assert(data_view(copy@) =~= data_view(data@));
    copy
}

impl Clone for Record {
    fn clone(&self) -> (copy: Record)
        ensures
            copy@ == self@,
    {
        Record {
            name: self.name.clone(),
            ttl: self.ttl,
            class: self.class,
            rrtype: self.rrtype,
            data: clone_data(&self.data),
        }
    }
}

impl PartialEq for Record {
    fn eq(&self, other: &Record) -> (same: bool) {
        if !(self.name == other.name) || self.ttl != other.ttl || self.class != other.class
            || self.rrtype != other.rrtype || self.data.len() != other.data.len() {
            proof {
                if self.data.len() != other.data.len() {
                    assert(data_view(self.data@).len() != data_view(other.data@).len());
                }
            }
            return false;
        }
        let n = self.data.len();
        let mut i: usize = 0;
        while i < n
            invariant
                i <= n,
                n == self.data.len(),
                n == other.data.len(),
                forall|j: int| 0 <= j < i ==> self.data[j]@ == other.data[j]@,
            decreases n - i,
        {
            if !(self.data[i].data == other.data[i].data) {
                assert(data_view(self.data@)[i as int] != data_view(other.data@)[i as int]);
                return false;
            }
            i += 1;
        }
        assert(data_view(self.data@) =~= data_view(other.data@));
        true
    }
}

impl PartialEqSpecImpl for Record {
    open spec fn obeys_eq_spec() -> bool {
        true
    }

    open spec fn eq_spec(&self, other: &Record) -> bool {
        self@ == other@
    }
}

/// The text of the tokens from position `from` on, each behind a space.
pub open spec fn data_text(data: Seq<Seq<char>>, from: int) -> Seq<char>
    decreases data.len() - from,
{
    if from < 0 || from >= data.len() {
        Seq::empty()
    } else {
        seq![' '] + data[from] + data_text(data, from + 1)
    }
}

impl RecordView {
    /// The record as one line: name, time to live, class and type, then the
    /// tokens of the data, with single spaces between them.
    pub open spec fn text(self) -> Seq<char> {
        self.name + seq![' '] + decimal_text(self.ttl as nat) + seq![' '] + self.class.name_of()
            + seq![' '] + self.rrtype.name_of() + data_text(self.data, 0)
    }

    /// The pair by which records are grouped into sets.
    pub open spec fn key(self) -> (Seq<char>, RRType) {
        (self.name, self.rrtype)
    }
}

impl Record {
    /// A record without data.
    pub fn new(name: &str, ttl: u32, class: RRClass, rrtype: RRType) -> (record: Record)
        ensures
            record@ == (RecordView { name: name@, ttl, class, rrtype, data: Seq::empty() }),
    {
        let record = Record { name: String::from_str(name), ttl, class, rrtype, data: Vec::new() };
        assert(data_view(record.data@) =~= Seq::empty());
        record
    }

    /// Appends one token to the data.
    pub fn push_data(&mut self, data: RecordData)
        ensures
            final(self)@ == (RecordView { data: old(self)@.data.push(data@), ..old(self)@ }),
    {
        self.data.push(data);
        assert(data_view(self.data@) =~= data_view(old(self).data@).push(data@));
    }

    /// The record as one line of text.
    pub fn to_text(&self) -> (text: String)
        ensures
            text@ == self@.text(),
    {
        let mut text = self.name.clone();
        text.append(" ");
        text.append(format_decimal(self.ttl as u64).as_str());
        text.append(" ");
        text.append(self.class.name());
        text.append(" ");
        text.append(self.rrtype.to_text().as_str());
        proof {
            reveal_strlit(" ");
            assert(" "@ =~= seq![' ']);
        }
        let ghost head = text@;
        let ghost data = self@.data;
        let mut i: usize = 0;
        while i < self.data.len()
            invariant
                i <= self.data.len(),
                data == data_view(self.data@),
                " "@ == seq![' '],
                text@ + data_text(data, i as int) == head + data_text(data, 0),
            decreases self.data.len() - i,
        {
            let ghost before = text@;
            text.append(" ");
            text.append(self.data[i].data.as_str());
            assert(data[i as int] == self.data[i as int]@);
            assert(text@ + data_text(data, i + 1) =~= before + data_text(data, i as int));
            i += 1;
        }
        assert(text@ + data_text(data, i as int) =~= text@);
        text
    }
}

/// The views of a list of records.
pub open spec fn records_view(records: Seq<Record>) -> Seq<RecordView> {
    Seq::new(records.len(), |i: int| records[i]@)
}

/// A list of records is a record set when it is not empty and its records
/// share owner name and type.
pub open spec fn is_record_set(set: Seq<RecordView>) -> bool {
    &&& set.len() > 0
    &&& forall|i: int| 0 <= i < set.len() ==> (#[trigger] set[i]).key() == set[0].key()
}

/// A run of records that follow one another in a zone and share owner name
/// and type.
#[derive(Debug)]
pub struct RecordSet {
    pub set: Vec<Record>,
}

impl View for RecordSet {
    type V = Seq<RecordView>;

    open spec fn view(&self) -> Seq<RecordView> {
        records_view(self.set@)
    }
}

/// The lines that print a list of records from position `from` on, each
/// behind the prefix `pf` and a space.
pub open spec fn prefixed_lines(pf: Seq<char>, set: Seq<RecordView>, from: int) -> Seq<Seq<char>>
    decreases set.len() - from,
{
    if from < 0 || from >= set.len() {
        Seq::empty()
    } else {
        seq![pf + seq![' '] + set[from].text()] + prefixed_lines(pf, set, from + 1)
    }
}

/// The views of a list of texts.
pub open spec fn texts_view(texts: Seq<String>) -> Seq<Seq<char>> {
    Seq::new(texts.len(), |i: int| texts[i]@)
}

impl RecordSet {
    /// A list without records, to be filled by [`RecordSet::push`].
    pub fn new() -> (set: RecordSet)
        ensures
            set@ == Seq::<RecordView>::empty(),
    {
        let set = RecordSet { set: Vec::new() };
        assert(set@ =~= Seq::<RecordView>::empty());
        set
    }

    pub fn push(&mut self, r: Record)
        ensures
            final(self)@ == old(self)@.push(r@),
    {
        self.set.push(r);
        assert(self@ =~= old(self)@.push(r@));
    }

    /// The owner name that the records share.
    pub fn name(&self) -> (name: String)
        requires
            self@.len() > 0,
        ensures
            name@ == self@[0].name,
    {
        self.set[0].name.clone()
    }

    /// The type that the records share.
    pub fn rrtype(&self) -> (rrtype: RRType)
        requires
            self@.len() > 0,
        ensures
            rrtype == self@[0].rrtype,
    {
        self.set[0].rrtype
    }

    /// Whether a record has the owner name and the type of this set.
    pub fn takes(&self, r: &Record) -> (yes: bool)
        requires
            self@.len() > 0,
        ensures
            yes == (self@[0].key() == r@.key()),
    {
        self.set[0].name == r.name && self.set[0].rrtype == r.rrtype
    }

    /// Whether two sets have the same owner name and type, which is what
    /// makes them the same set in two versions of a zone.
    pub fn same_key(&self, other: &RecordSet) -> (yes: bool)
        requires
            self@.len() > 0,
            other@.len() > 0,
        ensures
            yes == (self@[0].key() == other@[0].key()),
    {
        self.set[0].name == other.set[0].name && self.set[0].rrtype == other.set[0].rrtype
    }

    /// The records as lines of text, each behind the prefix `pf`.
    pub fn print_pf(&self, pf: &str) -> (lines: Vec<String>)
        ensures
            texts_view(lines@) == prefixed_lines(pf@, self@, 0),
    {
        assert(self@.subrange(0, self.set.len() as int) =~= self@);
        lines_of(pf, &self.set, 0, self.set.len())
    }
}

/// The records from `from` up to `to` as lines of text, each behind the
/// prefix `pf`.
pub fn lines_of(pf: &str, records: &Vec<Record>, from: usize, to: usize) -> (lines: Vec<String>)
    requires
        from <= to <= records.len(),
    ensures
        texts_view(lines@) == prefixed_lines(
            pf@,
            records_view(records@).subrange(from as int, to as int),
            0,
        ),
{
    let mut lines: Vec<String> = Vec::new();
    let mut i: usize = from;
    let ghost range = records_view(records@).subrange(from as int, to as int);
    proof {
        reveal_strlit(" ");
        assert(" "@ =~= seq![' ']);
        assert(texts_view(lines@) =~= Seq::<Seq<char>>::empty());
    }
    while i < to
        invariant
            from <= i <= to <= records.len(),
            " "@ == seq![' '],
            range == records_view(records@).subrange(from as int, to as int),
            texts_view(lines@) + prefixed_lines(pf@, range, i - from) == prefixed_lines(
                pf@,
                range,
                0,
            ),
        decreases to - i,
    {
        let mut line = String::from_str(pf);
        line.append(" ");
        line.append(records[i].to_text().as_str());
        let ghost before = texts_view(lines@);
        lines.push(line);
        assert(texts_view(lines@) =~= before.push(line@));
        assert(range[i - from] == records[i as int]@);
        assert(texts_view(lines@) + prefixed_lines(pf@, range, i - from + 1) =~= before
            + prefixed_lines(pf@, range, i - from));
        i += 1;
    }
    assert(texts_view(lines@) + prefixed_lines(pf@, range, i - from) =~= texts_view(lines@));
    lines
}

/// Moves the lines of `more` behind those of `lines`.
pub fn append_lines(lines: &mut Vec<String>, more: Vec<String>)
    ensures
        texts_view(final(lines)@) == texts_view(old(lines)@) + texts_view(more@),
{
    let mut more = more;
    let ghost added = more@;
    lines.append(&mut more);
    assert(texts_view(lines@) =~= texts_view(old(lines)@) + texts_view(added));
}

} // verus!
