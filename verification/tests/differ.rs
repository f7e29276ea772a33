use zoneparser::differ::Differ;
use zoneparser::lexer::ParseError;
use zoneparser::ring::DiffError;
use zoneparser::summary::Change;
use zoneparser::vocabulary::RRType;

fn compare(old: &str, new: &str, buf_size: usize) -> Result<Differ, DiffError> {
    let mut differ = Differ::new(
        old.as_bytes().to_vec(),
        new.as_bytes().to_vec(),
        "zn.",
        buf_size,
        false,
        false,
        false,
    );
    differ.compare()?;
    Ok(differ)
}

fn counts(differ: &Differ, rrtype: RRType) -> (usize, usize, usize) {
    let summary = differ.summary();
    (
        summary.count(rrtype, Change::Added),
        summary.count(rrtype, Change::Changed),
        summary.count(rrtype, Change::Deleted),
    )
}

fn texts(lines: &[String]) -> Vec<&str> {
    lines.iter().map(|l| l.as_str()).collect()
}

const FOUR_OLD: &str = "\
a.zn. 3600 IN A 1.1.1.1
b.zn. 3600 IN A 2.2.2.2
c.zn. 3600 IN A 3.3.3.3
d.zn. 3600 IN A 4.4.4.4
";

const FOUR_NEW: &str = "\
a.zn. 3600 IN A 1.1.1.1
b.zn. 3600 IN A 2.2.2.9
c.zn. 3600 IN A 3.3.3.3
d.zn. 3600 IN A 4.4.4.4
";

#[test]
fn changed_set_at_window_boundary() {
    for buf_size in [2, 4] {
        let differ = compare(FOUR_OLD, FOUR_NEW, buf_size).unwrap();
        assert_eq!(counts(&differ, RRType::A), (0, 1, 0));
        assert_eq!(counts(&differ, RRType::NoType), (0, 1, 0));
        assert_eq!(differ.summary().tallies().len(), 2);
    }
}

#[test]
fn total_rewrite_overflows_small_window() {
    let mut old = String::new();
    let mut new = String::new();
    for c in 'a'..='z' {
        old.push_str(&format!("{}.zn. 3600 IN A 1.1.1.1\n", c));
        new.push_str(&format!("{}{}.zn. 3600 IN A 1.1.1.1\n", c, c));
    }
    assert!(matches!(compare(&old, &new, 1), Err(DiffError::BufferOverflow)));
}

#[test]
fn total_rewrite_in_large_window() {
    let mut old = String::new();
    let mut new = String::new();
    for c in 'a'..='z' {
        old.push_str(&format!("{}.zn. 3600 IN A 1.1.1.1\n", c));
        new.push_str(&format!("{}{}.zn. 3600 IN A 1.1.1.1\n", c, c));
    }
    let differ = compare(&old, &new, 64).unwrap();
    assert_eq!(counts(&differ, RRType::A), (26, 0, 26));
    assert_eq!(counts(&differ, RRType::NoType), (26, 0, 26));
}

#[test]
fn zone_against_itself_has_no_differences() {
    let zone = "\
$ORIGIN zn.
$TTL 300
@ IN SOA ns1 hostmaster ( 1 2 3 4 5 )
  IN NS ns1
  IN NS ns2
ns1 IN A 1.1.1.1
ns1 IN AAAA 1::1
ns2 IN A 2.2.2.2
txt IN TXT \"a b\" c
";
    for buf_size in [1, 2, 3, 7, 65536] {
        let differ = compare(zone, zone, buf_size).unwrap();
        assert!(differ.summary().tallies().is_empty());
        assert!(differ.results().is_empty());
        assert!(differ.output().is_empty());
    }
}

#[test]
fn window_size_does_not_change_the_summary() {
    let old = "\
a.zn. 3600 IN A 1.1.1.1
b.zn. 3600 IN A 2.2.2.2
c.zn. 3600 IN A 3.3.3.3
d.zn. 3600 IN MX mail.zn.
e.zn. 3600 IN A 5.5.5.5
f.zn. 3600 IN A 6.6.6.6
g.zn. 3600 IN A 7.7.7.7
";
    let new = "\
a.zn. 3600 IN A 1.1.1.1
b.zn. 3600 IN A 2.2.2.2
b.zn. 3600 IN A 2.2.2.3
c.zn. 3600 IN A 3.3.3.3
e.zn. 3600 IN A 5.5.5.5
ee.zn. 3600 IN TXT hello
f.zn. 3600 IN A 6.6.6.6
g.zn. 3600 IN A 7.7.7.7
";
    let small = compare(old, new, 2).unwrap();
    let large = compare(old, new, 65536).unwrap();
    assert_eq!(small.results(), large.results());
    assert_eq!(
        texts(&large.results()),
        vec![
            "A:",
            "  changed: 1",
            "MX:",
            "  deleted: 1",
            "TXT:",
            "  added: 1",
            "total:",
            "  added: 1",
            "  changed: 1",
            "  deleted: 1",
        ]
    );
}

#[test]
fn verbose_comparison_writes_what_differs() {
    let old = "\
a.zn. 3600 IN A 1.1.1.1
b.zn. 3600 IN A 2.2.2.2
c.zn. 3600 IN A 3.3.3.3
";
    let new = "\
a.zn. 3600 IN A 1.1.1.1
a.zn. 3600 IN A 1.1.1.2
c.zn. 3600 IN A 3.3.3.3
d.zn. 3600 IN TYPE999 \\# 0
";
    let mut differ = Differ::new(
        old.as_bytes().to_vec(),
        new.as_bytes().to_vec(),
        "zn",
        16,
        false,
        false,
        true,
    );
    assert_eq!(differ.compare(), Ok(()));
    assert_eq!(
        texts(differ.output()),
        vec![
            "~+ a.zn. 3600 IN A 1.1.1.2",
            "-- b.zn. 3600 IN A 2.2.2.2",
            "++ d.zn. 3600 IN Unknown(999) # 0",
        ]
    );
    assert_eq!(
        texts(&differ.results()),
        vec![
            "A:",
            "  changed: 1",
            "  deleted: 1",
            "Unknown(999):",
            "  added: 1",
            "total:",
            "  added: 1",
            "  changed: 1",
            "  deleted: 1",
        ]
    );
}

#[test]
fn serial_is_ignored_on_request() {
    let old = "zn. 3600 IN SOA ns1.zn. hostmaster.zn. 2024090906 7200 1800 86400 7200\n";
    let new = "zn. 3600 IN SOA ns1.zn. hostmaster.zn. 2024090907 7200 1800 86400 7200\n";
    let run = |ignore_serial: bool| {
        let mut differ = Differ::new(
            old.as_bytes().to_vec(),
            new.as_bytes().to_vec(),
            "zn.",
            4,
            ignore_serial,
            false,
            true,
        );
        differ.compare().unwrap();
        differ
    };
    let strict = run(false);
    assert_eq!(counts(&strict, RRType::SOA), (0, 1, 0));
    assert_eq!(
        texts(strict.output()),
        vec![
            "~- zn. 3600 IN SOA ns1.zn. hostmaster.zn. 2024090906 7200 1800 86400 7200",
            "~+ zn. 3600 IN SOA ns1.zn. hostmaster.zn. 2024090907 7200 1800 86400 7200",
        ]
    );
    let lenient = run(true);
    assert_eq!(counts(&lenient, RRType::SOA), (0, 0, 0));
    assert!(lenient.output().is_empty());
}

#[test]
fn dnssec_records_are_skipped_on_request() {
    let old = "\
a.zn. 3600 IN A 1.1.1.1
a.zn. 3600 IN RRSIG A 8 2 3600 20240101000000 20230101000000 1234 zn. abcd
a.zn. 3600 IN NSEC b.zn. A RRSIG NSEC
b.zn. 3600 IN A 2.2.2.2
";
    let new = "\
a.zn. 3600 IN A 1.1.1.1
b.zn. 3600 IN A 2.2.2.2
b.zn. 3600 IN NSEC3 1 0 10 abcd efgh A
";
    let run = |skip_dnssec: bool| {
        let mut differ = Differ::new(
            old.as_bytes().to_vec(),
            new.as_bytes().to_vec(),
            "zn.",
            8,
            false,
            skip_dnssec,
            false,
        );
        differ.compare().unwrap();
        differ
    };
    let all = run(false);
    assert_eq!(counts(&all, RRType::RRSIG), (0, 0, 1));
    assert_eq!(counts(&all, RRType::NSEC), (0, 0, 1));
    assert_eq!(counts(&all, RRType::NSEC3), (1, 0, 0));
    assert_eq!(counts(&all, RRType::NoType), (1, 0, 2));
    let unsigned = run(true);
    assert!(unsigned.summary().tallies().is_empty());
}

#[test]
fn longer_new_zone_is_read_to_its_end() {
    let old = "a.zn. 3600 IN A 1.1.1.1\n";
    let new = "\
a.zn. 3600 IN A 1.1.1.1
b.zn. 3600 IN A 2.2.2.2
";
    let differ = compare(old, new, 4).unwrap();
    assert_eq!(counts(&differ, RRType::A), (1, 0, 0));
}

#[test]
fn malformed_zone_fails_the_comparison() {
    let old = "a.zn. 3600 IN A 1.1.1.1\n";
    let new = "a.zn. 36x0 IN A 1.1.1.1\n";
    assert!(matches!(
        compare(old, new, 4),
        Err(DiffError::Parse(ParseError::MalformedNumber))
    ));
}

#[test]
fn window_without_room_overflows() {
    assert!(matches!(compare(FOUR_OLD, FOUR_NEW, 0), Err(DiffError::BufferOverflow)));
}

#[test]
fn passes_give_up_what_is_settled() {
    let mut differ = Differ::new(
        FOUR_OLD.as_bytes().to_vec(),
        FOUR_NEW.as_bytes().to_vec(),
        "zn.",
        2,
        false,
        false,
        false,
    );
    assert_eq!(differ.compare_pass(), Ok(false));
    assert_eq!(counts(&differ, RRType::A), (0, 1, 0));
    assert_eq!(differ.compare_pass(), Ok(true));
    assert_eq!(counts(&differ, RRType::A), (0, 1, 0));
}

fn records(zone: &str) -> Vec<zoneparser::Record> {
    let mut parser = zoneparser::ZoneParser::new(zone.as_bytes().to_vec(), "zn.");
    let mut all = Vec::new();
    while let Some(record) = parser.next() {
        all.push(record.unwrap());
    }
    all
}

/// Compares two zones whose records are handed over one by one.
fn compare_offered(old: &str, new: &str, buf_size: usize) -> Result<Differ, DiffError> {
    let mut zones = [records(old).into_iter(), records(new).into_iter()];
    let mut differ = Differ::open(buf_size, false, false, true);
    loop {
        for (side, zone) in zones.iter_mut().enumerate() {
            loop {
                match zone.next() {
                    None => break,
                    Some(record) => {
                        if differ.offer(side == 1, record)? {
                            break;
                        }
                    }
                }
            }
            differ.finish(side == 1);
        }
        if differ.reconcile()? {
            return Ok(differ);
        }
    }
}

#[test]
fn records_can_be_offered_one_by_one() {
    let old = "\
a.zn. 3600 IN A 1.1.1.1
b.zn. 3600 IN A 2.2.2.2
c.zn. 3600 IN A 3.3.3.3
d.zn. 3600 IN MX mail.zn.
e.zn. 3600 IN A 5.5.5.5
f.zn. 3600 IN A 6.6.6.6
";
    let new = "\
a.zn. 3600 IN A 1.1.1.1
b.zn. 3600 IN A 2.2.2.3
c.zn. 3600 IN A 3.3.3.3
e.zn. 3600 IN A 5.5.5.5
ee.zn. 3600 IN TXT hello
f.zn. 3600 IN A 6.6.6.6
";
    for buf_size in [2, 3, 100] {
        let mut whole = Differ::new(
            old.as_bytes().to_vec(),
            new.as_bytes().to_vec(),
            "zn.",
            buf_size,
            false,
            false,
            true,
        );
        assert_eq!(whole.compare(), Ok(()));
        let offered = compare_offered(old, new, buf_size).unwrap();
        assert_eq!(offered.results(), whole.results());
        assert_eq!(offered.output(), whole.output());
        assert_eq!(offered.summary().tallies(), whole.summary().tallies());
        assert_eq!(counts(&offered, RRType::NoType), (1, 1, 1));
    }
    assert!(matches!(compare_offered(old, new, 1), Err(DiffError::BufferOverflow)));
}

#[test]
fn open_comparison_is_empty() {
    let mut differ = Differ::open(4, false, false, false);
    assert_eq!((differ.old_ring().head(), differ.new_ring().head()), (0, 0));
    differ.finish(false);
    differ.finish(true);
    assert_eq!(differ.reconcile(), Ok(true));
    assert!(differ.results().is_empty());
}
