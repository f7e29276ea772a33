use zoneparser::parser::ZoneParser;
use zoneparser::vocabulary::{
    bitmap, bitmap_from_str, class_from_str, type_from_str, RRClass, RRType,
};

#[test]
fn class_numbers() {
    assert_eq!(RRClass::IN.discriminant(), 1);
    assert_eq!(RRClass::CH.discriminant(), 3);
    assert_eq!(RRClass::HS.discriminant(), 4);
    assert_eq!(RRClass::from_discriminant(3), Some(RRClass::CH));
    assert_eq!(RRClass::from_discriminant(2), None);
    assert_eq!(RRClass::default(), RRClass::IN);
    assert_eq!(RRClass::values(), vec![RRClass::IN, RRClass::CH, RRClass::HS]);
}

#[test]
fn type_numbers() {
    assert_eq!(RRType::A.discriminant(), 1);
    assert_eq!(RRType::SOA.discriminant(), 6);
    assert_eq!(RRType::DLV.discriminant(), 32769);
    assert_eq!(RRType::Unknown(4711).discriminant(), 4711);
    assert_eq!(RRType::from_discriminant(28), RRType::AAAA);
    assert_eq!(RRType::from_discriminant(0), RRType::NoType);
    assert_eq!(RRType::from_discriminant(3), RRType::Unknown(3));
    assert_eq!(RRType::default(), RRType::NoType);
}

#[test]
fn every_type_has_its_number_and_its_names() {
    let all = RRType::values();
    assert_eq!(all.len(), 49);
    for (i, rrtype) in all.iter().enumerate() {
        assert_eq!(RRType::from_discriminant(rrtype.discriminant()), *rrtype);
        assert_eq!(RRType::lookup(rrtype.mnemonic()), Some(*rrtype));
        assert_eq!(rrtype.mnemonic(), rrtype.name().to_lowercase());
        assert_eq!(rrtype.to_text(), rrtype.name());
        if i > 0 {
            assert!(all[i - 1].discriminant() < rrtype.discriminant());
            assert!(all[i - 1] < *rrtype);
        }
    }
    for class in RRClass::values() {
        assert_eq!(RRClass::from_discriminant(class.discriminant()), Some(class));
        assert_eq!(RRClass::lookup(class.mnemonic()), Some(class));
        assert_eq!(class.mnemonic(), class.name().to_lowercase());
        assert_eq!(class.to_text(), class.name());
    }
}

#[test]
fn names_in_any_letter_case() {
    assert_eq!(class_from_str("in"), Some(RRClass::IN));
    assert_eq!(class_from_str("Ch"), Some(RRClass::CH));
    assert_eq!(class_from_str("HS"), Some(RRClass::HS));
    assert_eq!(class_from_str("xx"), None);
    assert_eq!(type_from_str("aaaa"), Some(RRType::AAAA));
    assert_eq!(type_from_str("Nsec3Param"), Some(RRType::NSEC3PARAM));
    assert_eq!(type_from_str("TYPE1"), Some(RRType::A));
    assert_eq!(type_from_str("type65535"), Some(RRType::Unknown(65535)));
    assert_eq!(type_from_str("type+7"), Some(RRType::Unknown(7)));
    assert_eq!(type_from_str("type65536"), None);
    assert_eq!(type_from_str("type"), None);
    assert_eq!(type_from_str("typeA"), None);
    assert_eq!(type_from_str("bogus"), None);
    assert_eq!(type_from_str(""), None);
}

#[test]
fn parser_lookups() {
    let p = ZoneParser::new(Vec::new(), "zn");
    assert_eq!(p.rrclass_from_str("IN"), Some(RRClass::IN));
    assert_eq!(p.rrclass_from_str("none"), None);
    assert_eq!(p.rrtype_from_str("MX"), Some(RRType::MX));
    assert_eq!(p.rrtype_from_str("none"), Some(RRType::NoType));
    assert_eq!(p.rrtype_from_str("TYPE300"), Some(RRType::Unknown(300)));
    assert_eq!(p.rrtype_from_str("mx "), None);
    assert_eq!(p.rrtype_bm_from_str("A"), Some((0, 1 << 126, 0)));
    assert_eq!(p.rrtype_bm_from_str("none"), None);
    assert_eq!(p.origin(), "zn.");
}

#[test]
fn type_bitmaps() {
    assert_eq!(bitmap(1), (0, 1u128 << 126, 0));
    assert_eq!(bitmap(0), (0, 1u128 << 127, 0));
    assert_eq!(bitmap(127), (0, 1, 0));
    assert_eq!(bitmap(128), (0, 0, 1u128 << 127));
    assert_eq!(bitmap(255), (0, 0, 1));
    assert_eq!(bitmap(256), (1, 1u128 << 127, 0));
    assert_eq!(bitmap(257), (1, 1u128 << 126, 0));
    assert_eq!(bitmap(32769), (128, 1u128 << 126, 0));
    assert_eq!(bitmap(65535), (255, 0, 1));
    assert_eq!(bitmap_from_str("caa"), Some((1, 1u128 << 126, 0)));
    assert_eq!(bitmap_from_str("TYPE255"), Some((0, 0, 1)));
    assert_eq!(bitmap_from_str("TYPE0"), Some((0, 1u128 << 127, 0)));
    assert_eq!(bitmap_from_str("typex"), None);
    assert_eq!(bitmap_from_str("other"), None);
}

#[test]
fn type_text() {
    assert_eq!(RRType::NoType.to_text(), "None");
    assert_eq!(RRType::Unknown(0).to_text(), "Unknown(0)");
    assert_eq!(RRType::Unknown(65535).to_text(), "Unknown(65535)");
    assert_eq!(RRType::Unknown(1).name(), "Unknown");
    assert_eq!(RRType::Unknown(1).mnemonic(), "");
    assert_eq!(RRType::lookup(""), None);
}
