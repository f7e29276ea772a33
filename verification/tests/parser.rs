use zoneparser::{ParseError, RRClass, RRType, Record, RecordData, ZoneParser};

fn new_with_data(name: &str, ttl: u32, class: RRClass, rrtype: RRType, data: Vec<&str>) -> Record {
    let mut record = Record::new(name, ttl, class, rrtype);
    for d in data {
        record.push_data(RecordData::new(d));
    }
    record
}

fn parser(zone: &str) -> ZoneParser {
    ZoneParser::new(zone.as_bytes().to_vec(), "")
}

const SIMPLE: &str = "\
simple.zn.\t3600\tIN\tSOA\tns1.simple.zn. hostmaster.simple.zn. 2024090906 7200 1800 86400 7200
simple.zn.\t3600\tIN\tNS\tns1.simple.zn.
simple.zn.\t3600\tIN\tNS\tns2.simple.zn.
info.simple.zn.\t3600\tIN\tMX\tmail.simple.zn.
mail.simple.zn.\t3600\tIN\tA\t1.2.3.4
mail.simple.zn.\t3600\tIN\tAAAA\t1:2:3:4
";

const DIRECTIVES: &str = "\
$ORIGIN simple.zn.
$TTL 3600
@ IN SOA ns1.simple.zn. hostmaster.simple.zn. 2024090906 7200 1800 86400 7200
$ORIGIN @
@ 300 IN NS ns1.simple.zn.
@ IN NS ns2.simple.zn.
";

const LC_AND_UC: &str = "\
SIMPLE.zn. 3600 in Soa NS1.simple.zn. Hostmaster.Simple.Zn. 2024090906 7200 1800 86400 7200
";

const RELATIVE: &str = "\
$ORIGIN simple.zn.
$TTL 3600
@ IN SOA ns1 hostmaster 2024090906 7200 1800 86400 7200
  IN NS ns1
info IN MX mail
mail IN A 1.2.3.4
";

const BRACKETS_AND_COMMENTS: &str = "\
; A zone with one record
simple.zn. 3600 IN SOA ns1.simple.zn. hostmaster.simple.zn. ( ; names
        2024090906 ; serial
        7200       ; refresh
        1800       ; retry
        86400      ; expire
        7200 )     ; minimum

";

const QUOTES: &str = "\
simple.zn. 3600 IN TXT \"first quote\" \"Second QUOTE\" \"3. qt\"
";

const ANONYMOUS_TYPE: &str = "\
simple.zn. 3600 IN TYPE65535 \\# 5 0102FFFEFC
simple.zn. 3600 IN type65534 \\# 6 01020304ABCD
";

const ESCAPED_DATA: &str = "\
simple.zn. 3600 IN TXT \"foo bar\\\"baz\" \"foo bar\"
simple.zn. 3600 IN TXT foo\\\" \"foo\" \"\"
simple.zn. 3600 IN TXT \\\" \\\\foo foo\\bar \"foo\\ bar\"
";

const ESCAPE_ERROR: &str = "\
simple.zn. 3600 IN TXT foo\\
";

#[test]
fn simple_zone() {
    let mut p = parser(SIMPLE);

    assert_eq!(
        p.next(),
        Some(Ok(new_with_data(
            "simple.zn.",
            3600,
            RRClass::IN,
            RRType::SOA,
            vec![
                "ns1.simple.zn.",
                "hostmaster.simple.zn.",
                "2024090906",
                "7200",
                "1800",
                "86400",
                "7200"
            ]
        )))
    );
    assert_eq!(
        p.next(),
        Some(Ok(new_with_data("simple.zn.", 3600, RRClass::IN, RRType::NS, vec!["ns1.simple.zn."])))
    );
    assert_eq!(
        p.next(),
        Some(Ok(new_with_data("simple.zn.", 3600, RRClass::IN, RRType::NS, vec!["ns2.simple.zn."])))
    );
    assert_eq!(
        p.next(),
        Some(Ok(new_with_data(
            "info.simple.zn.",
            3600,
            RRClass::IN,
            RRType::MX,
            vec!["mail.simple.zn."]
        )))
    );
    assert_eq!(
        p.next(),
        Some(Ok(new_with_data("mail.simple.zn.", 3600, RRClass::IN, RRType::A, vec!["1.2.3.4"])))
    );
    assert_eq!(
        p.next(),
        Some(Ok(new_with_data("mail.simple.zn.", 3600, RRClass::IN, RRType::AAAA, vec!["1:2:3:4"])))
    );
    assert!(p.next().is_none());
}

#[test]
fn directives() {
    let mut p = parser(DIRECTIVES);

    assert!(p.next().is_some());
    assert_eq!(p.origin(), "simple.zn.");
    assert_eq!(p.default_ttl(), 3600);
}

#[test]
fn case_insensitivity() {
    let mut p = parser(LC_AND_UC);

    assert_eq!(
        p.next(),
        Some(Ok(new_with_data(
            "simple.zn.",
            3600,
            RRClass::IN,
            RRType::SOA,
            vec![
                "NS1.simple.zn.",
                "Hostmaster.Simple.Zn.",
                "2024090906",
                "7200",
                "1800",
                "86400",
                "7200"
            ]
        )))
    );
    assert!(p.next().is_none());
}

#[test]
fn relative_names() {
    let mut p = parser(RELATIVE);

    let rr = p.next().unwrap().unwrap();
    assert_eq!(p.absolute_name(&rr.name), "simple.zn.");
    let rr = p.next().unwrap().unwrap();
    assert_eq!(p.absolute_name(&rr.name), "simple.zn.");
    let rr = p.next().unwrap().unwrap();
    assert_eq!(p.absolute_name(&rr.name), "info.simple.zn.");
    let rr = p.next().unwrap().unwrap();
    assert_eq!(p.absolute_name(&rr.name), "mail.simple.zn.");
    assert!(p.next().is_none());
}

#[test]
fn default_values() {
    let mut p = parser(DIRECTIVES);

    assert!(p.next().is_some());
    assert_eq!(
        p.next(),
        Some(Ok(new_with_data("@", 300, RRClass::IN, RRType::NS, vec!["ns1.simple.zn."])))
    );
    assert_eq!(
        p.next(),
        Some(Ok(new_with_data("@", 3600, RRClass::IN, RRType::NS, vec!["ns2.simple.zn."])))
    );
    assert!(p.next().is_none());
}

#[test]
fn brackets_and_comments() {
    let mut p = parser(BRACKETS_AND_COMMENTS);

    assert_eq!(
        p.next(),
        Some(Ok(new_with_data(
            "simple.zn.",
            3600,
            RRClass::IN,
            RRType::SOA,
            vec![
                "ns1.simple.zn.",
                "hostmaster.simple.zn.",
                "2024090906",
                "7200",
                "1800",
                "86400",
                "7200"
            ]
        )))
    );
    assert!(p.next().is_none());
}

#[test]
fn quotes() {
    let mut p = parser(QUOTES);

    assert_eq!(
        p.next(),
        Some(Ok(new_with_data(
            "simple.zn.",
            3600,
            RRClass::IN,
            RRType::TXT,
            vec!["first quote", "Second QUOTE", "3. qt"]
        )))
    );
    assert!(p.next().is_none());
}

#[test]
fn anonymous_type() {
    let mut p = parser(ANONYMOUS_TYPE);

    assert_eq!(
        p.next(),
        Some(Ok(new_with_data(
            "simple.zn.",
            3600,
            RRClass::IN,
            RRType::Unknown(65535),
            vec!["#", "5", "0102FFFEFC"]
        )))
    );
    assert_eq!(
        p.next(),
        Some(Ok(new_with_data(
            "simple.zn.",
            3600,
            RRClass::IN,
            RRType::Unknown(65534),
            vec!["#", "6", "01020304ABCD"]
        )))
    );
    assert!(p.next().is_none());
}

#[test]
fn escaped_data() {
    let mut p = parser(ESCAPED_DATA);

    assert_eq!(
        p.next(),
        Some(Ok(new_with_data(
            "simple.zn.",
            3600,
            RRClass::IN,
            RRType::TXT,
            vec!["foo bar\"baz", "foo bar"]
        )))
    );
    assert_eq!(
        p.next(),
        Some(Ok(new_with_data(
            "simple.zn.",
            3600,
            RRClass::IN,
            RRType::TXT,
            vec!["foo\"", "foo", ""]
        )))
    );
    assert_eq!(
        p.next(),
        Some(Ok(new_with_data(
            "simple.zn.",
            3600,
            RRClass::IN,
            RRType::TXT,
            vec!["\"", "\\foo", "foobar", "foo bar"]
        )))
    );
    assert!(p.next().is_none());
}

#[test]
#[should_panic]
fn escape_error() {
    let mut p = parser(ESCAPE_ERROR);

    p.next().unwrap().unwrap();
}

#[test]
fn escape_error_is_reported_once() {
    let mut p = parser(ESCAPE_ERROR);

    assert_eq!(p.next(), Some(Err(ParseError::DanglingEscape)));
    assert_eq!(p.next(), None);
}

fn first(zone: &str) -> Option<Result<Record, ParseError>> {
    parser(zone).next()
}

#[test]
fn explicit_ttl_holds_for_one_record() {
    let mut p = parser("$TTL 3600\na.zn. 60 IN A 1.1.1.1\nb.zn. IN A 2.2.2.2\n");
    assert_eq!(p.next().unwrap().unwrap().ttl, 60);
    assert_eq!(p.next().unwrap().unwrap().ttl, 3600);
    assert_eq!(p.next(), None);
}

#[test]
fn ttl_without_default_stays() {
    let mut p = parser("a.zn. 60 IN A 1.1.1.1\nb.zn. IN A 2.2.2.2\nc.zn. CH A 3.3.3.3\nd.zn. A 4\n");
    assert_eq!(p.next().unwrap().unwrap().ttl, 60);
    assert_eq!(p.next().unwrap().unwrap().ttl, 60);
    let c = p.next().unwrap().unwrap();
    assert_eq!((c.ttl, c.class), (60, RRClass::CH));
    assert_eq!(p.next().unwrap().unwrap().class, RRClass::CH);
    assert_eq!(p.default_ttl(), 0);
}

#[test]
fn record_without_ttl_and_class() {
    assert_eq!(
        first("a.zn. A 1.1.1.1"),
        Some(Ok(new_with_data("a.zn.", 0, RRClass::IN, RRType::A, vec!["1.1.1.1"])))
    );
}

#[test]
fn names_are_completed() {
    let mut p = ZoneParser::new(b"a A 1\n@ A 2\nb.c. A 3\n\tA 4\n$ORIGIN X.\nd A 5\n".to_vec(), "zn");
    assert_eq!(p.origin(), "zn.");
    assert_eq!(p.absolute_name("a"), "a.zn.");
    assert_eq!(p.absolute_name("@"), "zn.");
    assert_eq!(p.absolute_name("a.b."), "a.b.");
    assert_eq!(p.absolute_name("."), ".");
    assert_eq!(p.absolute_name("@@"), "@@.zn.");
    assert_eq!(p.next().unwrap().unwrap().name, "a.zn.");
    assert_eq!(p.next().unwrap().unwrap().name, "zn.");
    assert_eq!(p.next().unwrap().unwrap().name, "b.c.");
    assert_eq!(p.next().unwrap().unwrap().name, "b.c.");
    assert_eq!(p.next().unwrap().unwrap().name, "d.x.");
    assert_eq!(p.origin(), "x.");
    assert_eq!(p.line_no(), 6);
}

#[test]
fn record_over_several_lines_is_the_record_on_one_line() {
    let one = first("a.zn. 60 IN SOA ns.zn. h.zn. ( 1 2 \"a b\" 3 4 )\n");
    let several = first("a.zn. 60 IN SOA ns.zn. h.zn. (\n1 2\n\"a b\"\n\n3\n4 )\n");
    assert_eq!(
        one,
        Some(Ok(new_with_data(
            "a.zn.",
            60,
            RRClass::IN,
            RRType::SOA,
            vec!["ns.zn.", "h.zn.", "1", "2", "a b", "3", "4"]
        )))
    );
    assert_eq!(one, several);
    assert_eq!(first("a.zn. ( 60\nIN\nA\n1.1.1.1 )"), first("a.zn. ( 60 IN A 1.1.1.1 )"));
}

#[test]
fn open_bracket_at_the_end_of_the_input_gives_no_record() {
    assert_eq!(first("a.zn. 60 IN A ( 1.1.1.1\n"), None);
}

#[test]
fn quoted_string_over_a_line_break() {
    assert_eq!(
        first("a.zn. TXT ( \"foo\nbar\" )\n"),
        Some(Ok(new_with_data("a.zn.", 0, RRClass::IN, RRType::TXT, vec!["foo\\nbar"])))
    );
}

#[test]
fn each_error_has_its_input() {
    assert_eq!(first("a.zn. 60x IN A 1.1.1.1\n"), Some(Err(ParseError::MalformedNumber)));
    assert_eq!(first("a.zn. 4294967296 IN A 1\n"), Some(Err(ParseError::MalformedNumber)));
    assert_eq!(first("a.zn. TYPE65536 1\n"), Some(Err(ParseError::MalformedNumber)));
    assert_eq!(first("a.zn. TYPEX 1\n"), Some(Err(ParseError::MalformedNumber)));
    assert_eq!(first("$TTL 1h\n"), Some(Err(ParseError::MalformedNumber)));
    assert_eq!(first("$INCLUDE other.zn\n"), Some(Err(ParseError::UnknownDirective)));
    assert_eq!(first("a.zn. TXT foo\\\n"), Some(Err(ParseError::DanglingEscape)));
    assert_eq!(first("a.zn. TXT \"foo\"bar\n"), Some(Err(ParseError::TextAfterQuote)));
    assert_eq!(first("a.zn. TXT ( \"foo\")\n"), Some(Err(ParseError::TextAfterQuote)));
    assert_eq!(first("a.zn. A 1.1.1.1 )\n"), Some(Err(ParseError::BracketDepth)));
    assert_eq!(first("a.zn. TXT \"foo\n"), Some(Err(ParseError::UnterminatedQuote)));
    assert_eq!(first("a.zn. TXT \"foo"), Some(Err(ParseError::UnterminatedQuote)));
}

#[test]
fn too_many_open_brackets() {
    let mut zone = String::from("a.zn. A ");
    for _ in 0..65535 {
        zone.push('(');
    }
    assert_eq!(first(&zone), None);
    zone.push('(');
    assert_eq!(first(&zone), Some(Err(ParseError::BracketDepth)));
}

#[test]
fn comments_and_blank_lines() {
    let zone = "; comment\n\n;; comment\na.zn. A 1 ; comment\n;\nb.zn. A 2;no-comment ;comment\n";
    let mut p = parser(zone);
    assert_eq!(
        p.next(),
        Some(Ok(new_with_data("a.zn.", 0, RRClass::IN, RRType::A, vec!["1"])))
    );
    assert_eq!(
        p.next(),
        Some(Ok(new_with_data("b.zn.", 0, RRClass::IN, RRType::A, vec!["2;no-comment"])))
    );
    assert_eq!(p.next(), None);
    assert_eq!(p.next(), None);
}

#[test]
fn empty_input() {
    let mut p = parser("");
    assert_eq!(p.next(), None);
    assert_eq!(p.next(), None);
    assert_eq!(p.line_no(), 0);
}

#[test]
fn lines_can_be_fed_one_by_one() {
    let mut p = ZoneParser::new(Vec::new(), "zn.");
    p.begin_entry();
    assert_eq!(p.parse_line(b"$TTL 30\n"), Ok(()));
    assert_eq!(p.take_record(), None);
    assert_eq!(p.parse_line(b"a IN MX ( 10\n"), Ok(()));
    assert_eq!(p.take_record(), None);
    assert_eq!(p.parse_line(b"  mail )\n"), Ok(()));
    assert_eq!(
        p.take_record(),
        Some(new_with_data("a.zn.", 30, RRClass::IN, RRType::MX, vec!["10", "mail"]))
    );
    assert_eq!(p.take_record(), None);
    p.begin_entry();
    assert_eq!(p.parse_line(b" 40 A 1.1.1.1"), Ok(()));
    assert_eq!(
        p.take_record(),
        Some(new_with_data("a.zn.", 40, RRClass::IN, RRType::A, vec!["1.1.1.1"]))
    );
    p.begin_entry();
    assert_eq!(p.parse_line(b"b A \"x\"y\n"), Err(ParseError::TextAfterQuote));
    assert_eq!(p.default_ttl(), 30);
}

#[test]
fn class_and_type_names_in_any_letter_case() {
    assert_eq!(first("A.ZN. 60 in a 1.1.1.1\n"), first("a.zn. 60 IN A 1.1.1.1\n"));
    assert_eq!(first("a.zn. 60 Hs TxT Text\n"), first("A.zn. 60 hS Txt Text\n"));
    assert_eq!(first("$ttl 5\n$Origin A.\nb ns C\n"), first("$TTL 5\n$ORIGIN a.\nB NS C\n"));
    assert_eq!(
        first("a.zn. 60 Hs TxT Text\n"),
        Some(Ok(new_with_data("a.zn.", 60, RRClass::HS, RRType::TXT, vec!["Text"])))
    );
}

#[test]
fn blank_before_a_comment_stands_for_the_owner() {
    // A line that begins with a blank begins an entry of the owner before,
    // also where only a comment follows: the next line goes on with it.
    let mut p = parser("a.zn. A 1\n  ; comment\n  A 2\n  ; comment\nb.zn. A 3\n");
    assert_eq!(
        p.next(),
        Some(Ok(new_with_data("a.zn.", 0, RRClass::IN, RRType::A, vec!["1"])))
    );
    assert_eq!(
        p.next(),
        Some(Ok(new_with_data("a.zn.", 0, RRClass::IN, RRType::A, vec!["2"])))
    );
    assert_eq!(p.next(), Some(Err(ParseError::MalformedNumber)));
    assert_eq!(p.next(), None);
}

#[test]
fn default_ttl_holds_from_the_next_record_on() {
    let mut p = parser("a.zn. 7 A 1\n$TTL 3600\nb.zn. A 2\nc.zn. 60 A 3\nd.zn. A 4\n$TTL 0\ne.zn. A 5\n");
    assert_eq!(p.next().unwrap().unwrap().ttl, 7);
    assert_eq!(p.next().unwrap().unwrap().ttl, 3600);
    assert_eq!(p.next().unwrap().unwrap().ttl, 60);
    assert_eq!(p.next().unwrap().unwrap().ttl, 3600);
    assert_eq!(p.next().unwrap().unwrap().ttl, 3600);
    assert_eq!(p.next(), None);
}

#[test]
fn end_of_line_and_of_input() {
    let mut p = ZoneParser::new(Vec::new(), "zn.");
    p.begin_entry();
    assert_eq!(p.input_end(), Ok(()));
    assert_eq!(p.parse_line(b"a TXT ( \"x\n"), Ok(()));
    assert_eq!(p.line_end(), Ok(None));
    assert_eq!(p.input_end(), Err(ParseError::UnterminatedQuote));
    assert_eq!(p.parse_line(b"y\" )\n"), Ok(()));
    assert_eq!(p.input_end(), Ok(()));
    assert_eq!(
        p.line_end(),
        Ok(Some(new_with_data("a.zn.", 0, RRClass::IN, RRType::TXT, vec!["x\\ny"])))
    );
    p.begin_entry();
    assert_eq!(p.parse_line(b"b TXT \"x\n"), Ok(()));
    assert_eq!(p.line_end(), Err(ParseError::UnterminatedQuote));
}
