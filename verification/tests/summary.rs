use zoneparser::differ::RecordDiffer;
use zoneparser::record::{Record, RecordData};
use zoneparser::ring::{DiffError, Ring};
use zoneparser::script::{DiffSection, SetDiffer};
use zoneparser::summary::{Change, Summary, Tally};
use zoneparser::vocabulary::{RRClass, RRType};

#[test]
fn counts_are_kept_by_type() {
    let mut summary = Summary::new();
    assert_eq!(summary.count(RRType::A, Change::Added), 0);
    assert!(summary.lines().is_empty());
    summary.increment(RRType::MX, Change::Deleted);
    summary.increment(RRType::A, Change::Added);
    summary.increment(RRType::NoType, Change::Added);
    summary.increment(RRType::A, Change::Added);
    summary.increment(RRType::Unknown(1), Change::Changed);
    summary.increment(RRType::A, Change::Changed);
    summary.increment(RRType::Unknown(300), Change::Added);
    summary.increment(RRType::DLV, Change::Added);
    assert_eq!(summary.count(RRType::A, Change::Added), 2);
    assert_eq!(summary.count(RRType::A, Change::Changed), 1);
    assert_eq!(summary.count(RRType::A, Change::Deleted), 0);
    assert_eq!(summary.count(RRType::MX, Change::Deleted), 1);
    assert_eq!(summary.count(RRType::Unknown(1), Change::Changed), 1);
    assert_eq!(summary.count(RRType::Unknown(1), Change::Added), 0);
    assert_eq!(summary.count(RRType::NS, Change::Added), 0);
    assert_eq!(
        summary.tallies(),
        &vec![
            Tally { rrtype: RRType::NoType, added: 1, changed: 0, deleted: 0 },
            Tally { rrtype: RRType::A, added: 2, changed: 1, deleted: 0 },
            Tally { rrtype: RRType::Unknown(1), added: 0, changed: 1, deleted: 0 },
            Tally { rrtype: RRType::MX, added: 0, changed: 0, deleted: 1 },
            Tally { rrtype: RRType::Unknown(300), added: 1, changed: 0, deleted: 0 },
            Tally { rrtype: RRType::DLV, added: 1, changed: 0, deleted: 0 },
        ]
    );
    assert_eq!(
        summary.lines(),
        vec![
            "A:",
            "  added: 2",
            "  changed: 1",
            "Unknown(1):",
            "  changed: 1",
            "MX:",
            "  deleted: 1",
            "Unknown(300):",
            "  added: 1",
            "DLV:",
            "  added: 1",
            "total:",
            "  added: 1",
        ]
    );
}

#[test]
fn truncation_keeps_up_to_the_last_equal_section() {
    let mut differ = SetDiffer::new();
    assert_eq!(differ.trunc_differences(), Err(DiffError::BufferOverflow));

    differ.differences = vec![
        DiffSection::Equal(0, 0, 2),
        DiffSection::Delete(2, 1, 2),
        DiffSection::Equal(3, 2, 4),
        DiffSection::Insert(7, 6, 1),
        DiffSection::Replace(7, 2, 7, 3),
    ];
    assert_eq!(differ.trunc_differences(), Ok(()));
    assert_eq!(
        differ.differences,
        vec![
            DiffSection::Equal(0, 0, 2),
            DiffSection::Delete(2, 1, 2),
            DiffSection::Equal(3, 2, 4),
        ]
    );
    assert_eq!((differ.old_tail, differ.new_tail), (7, 6));
    assert_eq!(differ.trunc_differences(), Ok(()));
    assert_eq!(differ.differences.len(), 3);

    differ.differences = vec![DiffSection::Delete(0, 1, 0), DiffSection::Insert(1, 0, 1)];
    assert_eq!(differ.trunc_differences(), Err(DiffError::BufferOverflow));
    assert!(differ.differences.is_empty());
}

fn record(name: &str, data: &str) -> Record {
    let mut record = Record::new(name, 300, RRClass::IN, RRType::A);
    record.push_data(RecordData::new(data));
    record
}

#[test]
fn record_differ_writes_sections() {
    let old = vec![record("a.", "1"), record("a.", "2"), record("a.", "3")];
    let new = vec![record("a.", "1"), record("a.", "4")];

    let mut quiet = RecordDiffer::new(&old, &new, false);
    quiet.equal(0, 0, 1);
    assert!(!quiet.has_changes());
    quiet.delete(1, 2, 1);
    quiet.finish();
    assert!(quiet.has_changes());
    assert!(quiet.into_output().is_empty());

    let mut verbose = RecordDiffer::new(&old, &new, true);
    verbose.run(&vec![DiffSection::Equal(0, 0, 1), DiffSection::Replace(1, 2, 1, 1)]);
    assert!(verbose.has_changes());
    assert_eq!(
        verbose.into_output(),
        vec!["~- a. 300 IN A 2", "~- a. 300 IN A 3", "~+ a. 300 IN A 4"]
    );

    let mut same = RecordDiffer::new(&old, &old, true);
    same.section(DiffSection::Equal(0, 0, 3));
    assert!(!same.has_changes());
    same.insert(3, 0, 1);
    assert!(same.has_changes());
    assert_eq!(same.into_output(), vec!["~+ a. 300 IN A 1"]);
}

#[test]
fn ring_is_filled_and_given_up() {
    let zone = "\
a.zn. 300 IN A 1.1.1.1
a.zn. 300 IN A 1.1.1.2
a.zn. 300 IN AAAA ::1
b.zn. 300 IN A 2.2.2.2
c.zn. 300 IN A 3.3.3.3
d.zn. 300 IN A 4.4.4.4
";
    let mut ring = Ring::new(zone.as_bytes().to_vec(), "zn.", 2, false);
    assert_eq!((ring.tail(), ring.head(), ring.at_end()), (0, 0, false));

    assert_eq!(ring.read_zone_records(), Ok(()));
    assert_eq!((ring.tail(), ring.head(), ring.at_end()), (0, 2, false));
    assert_eq!(ring.get(0).set.len(), 2);
    assert_eq!(ring.get(0).rrtype(), RRType::A);
    assert_eq!(ring.get(1).rrtype(), RRType::AAAA);
    assert_eq!(ring.line_no(), 4);

    // A full ring that gives nothing up cannot take the next set.
    assert_eq!(ring.read_zone_records(), Err(DiffError::BufferOverflow));

    let mut ring = Ring::new(zone.as_bytes().to_vec(), "zn.", 2, false);
    assert_eq!(ring.read_zone_records(), Ok(()));
    ring.set_tail(1);
    assert_eq!(ring.read_zone_records(), Ok(()));
    assert_eq!((ring.tail(), ring.head(), ring.at_end()), (1, 3, false));
    assert_eq!(ring.get(1).rrtype(), RRType::AAAA);
    assert_eq!(ring.get(2).name(), "b.zn.");
    ring.set_tail(3);
    assert_eq!(ring.read_zone_records(), Ok(()));
    assert_eq!((ring.tail(), ring.head(), ring.at_end()), (3, 5, true));
    assert_eq!(ring.get(3).name(), "c.zn.");
    assert_eq!(ring.get(4).name(), "d.zn.");
    assert_eq!(ring.read_zone_records(), Ok(()));
    assert_eq!((ring.tail(), ring.head(), ring.at_end()), (3, 5, true));
}
