use zoneparser::lexer::{
    scan, unescape_quoted_data, ParseError, Stop,
};
use zoneparser::record::{lines_of, Record, RecordData, RecordSet};
use zoneparser::text::{format_decimal, parse_decimal, word};
use zoneparser::vocabulary::{RRClass, RRType};

#[test]
fn decimal_numbers() {
    assert_eq!(parse_decimal("0", 10), Some(0));
    assert_eq!(parse_decimal("3600", u32::MAX as u64), Some(3600));
    assert_eq!(parse_decimal("+3600", u32::MAX as u64), Some(3600));
    assert_eq!(parse_decimal("007", 10), Some(7));
    assert_eq!(parse_decimal("4294967295", u32::MAX as u64), Some(4294967295));
    assert_eq!(parse_decimal("4294967296", u32::MAX as u64), None);
    assert_eq!(parse_decimal("99999999999999999999999", u32::MAX as u64), None);
    assert_eq!(parse_decimal("65535", 65535), Some(65535));
    assert_eq!(parse_decimal("65536", 65535), None);
    assert_eq!(parse_decimal("", 10), None);
    assert_eq!(parse_decimal("+", 10), None);
    assert_eq!(parse_decimal("-1", 10), None);
    assert_eq!(parse_decimal("1+", 10), None);
    assert_eq!(parse_decimal("++1", 10), None);
    assert_eq!(parse_decimal("1_0", 10), None);
    assert_eq!(parse_decimal(" 1", 10), None);
    assert_eq!(parse_decimal("١", 10), None);
    assert_eq!(parse_decimal("1h", 10), None);
}

#[test]
fn decimal_text() {
    assert_eq!(format_decimal(0), "0");
    assert_eq!(format_decimal(7), "7");
    assert_eq!(format_decimal(10), "10");
    assert_eq!(format_decimal(3600), "3600");
    assert_eq!(format_decimal(1234567890), "1234567890");
    assert_eq!(format_decimal(u64::MAX), "18446744073709551615");
}

#[test]
fn words_are_escaped_and_lower_case() {
    assert_eq!(word(b"Simple.ZN."), "simple.zn.");
    assert_eq!(word(b"$TTL"), "$ttl");
    assert_eq!(word(b""), "");
    assert_eq!(word(b"a\\b"), "a\\\\b");
    assert_eq!(word(b"A\xFFB"), "a\\xffb");
    assert_eq!(word("ÄÖ".as_bytes()), "äö");
}

#[test]
fn tokens_from_bytes_are_escaped() {
    assert_eq!(RecordData::from_bytes(b"foo").data, "foo");
    assert_eq!(RecordData::from_bytes(b"Foo Bar").data, "Foo\\x20Bar");
    assert_eq!(RecordData::from_bytes(b"foo\xFFbar").data, "foo\\xFFbar");
    assert_eq!(RecordData::from_bytes(b"foo\nbar\t\r\0").data, "foo\\nbar\\t\\r\\0");
    assert_eq!(RecordData::from_bytes(b"foo\\bar").data, "foo\\\\bar");
    assert_eq!(RecordData::from_bytes("foo☃bar".as_bytes()).data, "foo☃bar");
    assert_eq!(RecordData::new("Foo Bar").data, "Foo Bar");
    assert_eq!(RecordData::new("x").to_text(), "x");
}

#[test]
fn stretches() {
    let line = b"a b\tc(d)e\nf";
    assert_eq!(scan(Stop::Token, line, 0), 2);
    assert_eq!(scan(Stop::Token, line, 2), 4);
    assert_eq!(scan(Stop::Token, line, 4), 6);
    assert_eq!(scan(Stop::Token, line, 6), 8);
    assert_eq!(scan(Stop::Token, line, 8), 10);
    assert_eq!(scan(Stop::Token, line, 10), 11);
    assert_eq!(scan(Stop::Line, line, 0), 10);
    assert_eq!(scan(Stop::Line, line, 10), 11);
    assert_eq!(scan(Stop::Piece, b"ab\\cd\"e", 0), 3);
    assert_eq!(scan(Stop::Piece, b"ab\\cd\"e", 3), 6);
    assert_eq!(scan(Stop::Piece, b"ab\\cd\"e", 6), 7);
    assert_eq!(scan(Stop::Token, b" ", 0), 1);
}

fn unescaped(start: &str, part: &[u8]) -> (Result<bool, ParseError>, String) {
    let mut text = String::from(start);
    let r = unescape_quoted_data(&mut text, part);
    (r, text)
}

#[test]
fn unescaping() {
    assert_eq!(unescaped("", b"foo"), (Ok(false), "foo".to_string()));
    assert_eq!(unescaped("x", b"foo"), (Ok(false), "xfoo".to_string()));
    assert_eq!(unescaped("", b"foo\" "), (Ok(true), "foo".to_string()));
    assert_eq!(unescaped("", b"foo\"\n"), (Ok(true), "foo".to_string()));
    assert_eq!(unescaped("", b"foo\""), (Ok(true), "foo".to_string()));
    assert_eq!(unescaped("", b"foo "), (Ok(false), "foo ".to_string()));
    assert_eq!(unescaped("", b"foo\n"), (Ok(false), "foo\\n".to_string()));
    assert_eq!(unescaped("", b"foo\\\"bar"), (Ok(false), "foo\"bar".to_string()));
    assert_eq!(unescaped("", b"foo\\\\bar"), (Ok(false), "foo\\bar".to_string()));
    assert_eq!(unescaped("", b"\\#"), (Ok(false), "#".to_string()));
    assert_eq!(unescaped("", b"a\\ "), (Ok(false), "a ".to_string()));
    assert_eq!(unescaped("", b"a\\b\\c\" "), (Ok(true), "abc".to_string()));
    assert_eq!(unescaped("", b""), (Ok(false), "".to_string()));
    assert_eq!(unescaped("", b"\" "), (Ok(true), "".to_string()));
    assert_eq!(unescaped("", b"foo\\").0, Err(ParseError::DanglingEscape));
    assert_eq!(unescaped("", b"\\").0, Err(ParseError::DanglingEscape));
    assert_eq!(unescaped("", b"foo\"bar").0, Err(ParseError::TextAfterQuote));
    assert_eq!(unescaped("", b"foo\")").0, Err(ParseError::TextAfterQuote));
    assert_eq!(unescaped("", b"foo\"\t").0, Err(ParseError::TextAfterQuote));
    assert_eq!(unescaped("", b"foo\"  ").0, Err(ParseError::TextAfterQuote));
    assert_eq!(unescaped("", b"\"\"").0, Err(ParseError::TextAfterQuote));
}

fn record(name: &str, ttl: u32, rrtype: RRType, data: &[&str]) -> Record {
    let mut record = Record::new(name, ttl, RRClass::IN, rrtype);
    for d in data {
        record.push_data(RecordData::new(d));
    }
    record
}

#[test]
fn records_are_equal_field_by_field() {
    let a = record("a.zn.", 300, RRType::TXT, &["x", "y"]);
    assert_eq!(a, a.clone());
    assert_eq!(a, record("a.zn.", 300, RRType::TXT, &["x", "y"]));
    assert_ne!(a, record("b.zn.", 300, RRType::TXT, &["x", "y"]));
    assert_ne!(a, record("a.zn.", 301, RRType::TXT, &["x", "y"]));
    assert_ne!(a, record("a.zn.", 300, RRType::A, &["x", "y"]));
    assert_ne!(a, record("a.zn.", 300, RRType::TXT, &["x"]));
    assert_ne!(a, record("a.zn.", 300, RRType::TXT, &["y", "x"]));
    assert_ne!(a, record("a.zn.", 300, RRType::TXT, &["x", "Y"]));
    let mut other_class = a.clone();
    other_class.class = RRClass::CH;
    assert_ne!(a, other_class);
    assert_eq!(RecordData::new("x"), RecordData::new("x").clone());
    assert_ne!(RecordData::new("x"), RecordData::new("X"));
}

#[test]
fn records_as_text() {
    assert_eq!(record("a.zn.", 300, RRType::A, &[]).to_text(), "a.zn. 300 IN A");
    assert_eq!(
        record("a.zn.", 0, RRType::TXT, &["x y", "", "z"]).to_text(),
        "a.zn. 0 IN TXT x y  z"
    );
    assert_eq!(
        record("", 4294967295, RRType::Unknown(7), &["#"]).to_text(),
        " 4294967295 IN Unknown(7) #"
    );
}

#[test]
fn record_sets() {
    let mut set = RecordSet::new();
    assert!(set.set.is_empty());
    set.push(record("a.zn.", 300, RRType::A, &["1.1.1.1"]));
    set.push(record("a.zn.", 600, RRType::A, &["1.1.1.2"]));
    assert_eq!(set.name(), "a.zn.");
    assert_eq!(set.rrtype(), RRType::A);
    assert!(set.takes(&record("a.zn.", 1, RRType::A, &[])));
    assert!(!set.takes(&record("a.zn.", 300, RRType::AAAA, &["1.1.1.1"])));
    assert!(!set.takes(&record("b.zn.", 300, RRType::A, &["1.1.1.1"])));
    let mut other = RecordSet::new();
    other.push(record("a.zn.", 1, RRType::A, &[]));
    assert!(set.same_key(&other));
    other.set[0].rrtype = RRType::MX;
    assert!(!set.same_key(&other));
    assert_eq!(
        set.print_pf("--"),
        vec!["-- a.zn. 300 IN A 1.1.1.1", "-- a.zn. 600 IN A 1.1.1.2"]
    );
    assert_eq!(lines_of("++", &set.set, 1, 2), vec!["++ a.zn. 600 IN A 1.1.1.2"]);
    assert!(lines_of("++", &set.set, 1, 1).is_empty());
    assert!(RecordSet::new().print_pf("--").is_empty());
}
