//! The vocabulary of resource records: classes and types, their numbers and
//! their mnemonics.

use crate::text::{
    bounded_decimal, decimal_text, format_decimal, lowercase_text, lowercased, parse_decimal,
    text_eq,
};
use vstd::prelude::*;
use vstd::string::StringExecFns;

verus! {

/// The class of a resource record.
#[derive(Debug, Copy, Clone, PartialEq, Eq, PartialOrd, Ord, Hash, Structural)]
pub enum RRClass {
    IN,
    CH,
    HS,
}

impl Default for RRClass {
    fn default() -> (class: RRClass)
        ensures
            class == RRClass::IN,
    {
        RRClass::IN
    }
}

impl RRClass {
    /// The number that the class has on the wire.
    pub open spec fn code(self) -> u16 {
        match self {
            RRClass::IN => 1,
            RRClass::CH => 3,
            RRClass::HS => 4,
        }
    }

    /// The class that has the number `code`, if there is one.
    pub open spec fn of_code(code: u16) -> Option<RRClass> {
        if code == 1 {
            Some(RRClass::IN)
        } else if code == 3 {
            Some(RRClass::CH)
        } else if code == 4 {
            Some(RRClass::HS)
        } else {
            None
        }
    }

    /// The name of the class as it is written in upper case.
    pub open spec fn name_of(self) -> Seq<char> {
        match self {
            RRClass::IN => "IN"@,
            RRClass::CH => "CH"@,
            RRClass::HS => "HS"@,
        }
    }

    /// The name of the class as the parser looks it up.
    pub open spec fn mnemonic_of(self) -> Seq<char> {
        match self {
            RRClass::IN => "in"@,
            RRClass::CH => "ch"@,
            RRClass::HS => "hs"@,
        }
    }

    /// Every class, in the order of their numbers.
    pub open spec fn all() -> Seq<RRClass> {
        seq![RRClass::IN, RRClass::CH, RRClass::HS]
    }

    /// The first class in [`RRClass::all`] from position `from` on whose
    /// mnemonic is `word`.
    pub open spec fn search(word: Seq<char>, from: int) -> Option<RRClass>
        decreases RRClass::all().len() - from,
    {
        if from < 0 || from >= RRClass::all().len() {
            None
        } else if RRClass::all()[from].mnemonic_of() == word {
            Some(RRClass::all()[from])
        } else {
            RRClass::search(word, from + 1)
        }
    }

    /// The class that a lower-case word names.
    pub open spec fn named(word: Seq<char>) -> Option<RRClass> {
        RRClass::search(word, 0)
    }

    pub fn discriminant(&self) -> (code: u16)
        ensures
            code == self.code(),
    {
        match self {
            RRClass::IN => 1,
            RRClass::CH => 3,
            RRClass::HS => 4,
        }
    }

    pub fn from_discriminant(code: u16) -> (class: Option<RRClass>)
        ensures
            class == RRClass::of_code(code),
    {
        if code == 1 {
            Some(RRClass::IN)
        } else if code == 3 {
            Some(RRClass::CH)
        } else if code == 4 {
            Some(RRClass::HS)
        } else {
            None
        }
    }

    pub fn name(&self) -> (name: &'static str)
        ensures
            name@ == self.name_of(),
    {
        match self {
            RRClass::IN => "IN",
            RRClass::CH => "CH",
            RRClass::HS => "HS",
        }
    }

    pub fn mnemonic(&self) -> (name: &'static str)
        ensures
            name@ == self.mnemonic_of(),
    {
        match self {
            RRClass::IN => "in",
            RRClass::CH => "ch",
            RRClass::HS => "hs",
        }
    }

    pub fn values() -> (all: Vec<RRClass>)
        ensures
            all@ == RRClass::all(),
    {
        let all = vec![RRClass::IN, RRClass::CH, RRClass::HS];
        assert(all@ =~= RRClass::all());
        all
    }

    /// Looks a lower-case word up among the class mnemonics.
    pub fn lookup(word: &str) -> (class: Option<RRClass>)
        ensures
            class == RRClass::named(word@),
    {
        Tables::new().class(word)
    }

    /// The text that stands for the class in a printed record.
    pub fn to_text(&self) -> (text: String)
        ensures
            text@ == self.name_of(),
    {
        String::from_str(self.name())
    }
}

/// The type of a resource record. `NoType` is no type of a record: it is the
/// key under which totals over all types are kept, and is written `None`.
/// `Unknown` holds the number of a type that has no mnemonic here.
#[derive(Debug, Copy, Clone, PartialEq, Eq, PartialOrd, Ord, Hash, Structural)]
pub enum RRType {
    NoType,
    A,
    NS,
    CNAME,
    SOA,
    PTR,
    HINFO,
    MX,
    TXT,
    RP,
    AFSDB,
    SIG,
    KEY,
    AAAA,
    LOC,
    SRV,
    NAPTR,
    KX,
    CERT,
    DNAME,
    APL,
    DS,
    SSHFP,
    IPSECKEY,
    RRSIG,
    NSEC,
    DNSKEY,
    DHCID,
    NSEC3,
    NSEC3PARAM,
    TLSA,
    SMIMEA,
    HIP,
    CDS,
    CDNSKEY,
    OPENPGPKEY,
    CSYNC,
    ZONEMD,
    SVCB,
    HTTPS,
    EUI48,
    EUI164,
    TKEY,
    TSIG,
    URI,
    CAA,
    WALLET,
    TA,
    DLV,
    Unknown(u16),
}

impl Default for RRType {
    fn default() -> (rrtype: RRType)
        ensures
            rrtype == RRType::NoType,
    {
        RRType::NoType
    }
}

/// The place of a type in the bitmap of an NSEC or NSEC3 record: the window
/// block, and the 256 bits of that block as two halves, the first bit of the
/// block being the highest bit of the first half.
pub open spec fn bitmap_of(code: u16) -> (u8, u128, u128) {
    let window = (code >> 8) as u8;
    let bit = code & 0xff;
    if bit < 128 {
        (window, 1u128 << ((127 - bit) as u16), 0u128)
    } else {
        (window, 0u128, 1u128 << ((255 - bit) as u16))
    }
}

/// The window block of a type is its number divided by 256, and its bit is
/// the remainder, counted from the highest bit of the first half.
pub proof fn lemma_bitmap_of(code: u16)
    ensures
        bitmap_of(code).0 == code / 256,
        code % 256 < 128 ==> bitmap_of(code).1 == 1u128 << ((127 - code % 256) as u16)
            && bitmap_of(code).2 == 0,
        code % 256 >= 128 ==> bitmap_of(code).1 == 0 && bitmap_of(code).2 == 1u128 << ((255 - code
            % 256) as u16),
{
    assert(code >> 8 == code / 256) by (bit_vector);
    assert(code & 0xff == code % 256) by (bit_vector);
}

/// Computes [`bitmap_of`].
pub fn bitmap(code: u16) -> (place: (u8, u128, u128))
    ensures
        place == bitmap_of(code),
{
    let window = (code >> 8) as u8;
    let bit = code & 0xff;
    assert(code & 0xff < 256) by (bit_vector);
    if bit < 128 {
        (window, 1u128 << (127 - bit), 0u128)
    } else {
        (window, 0u128, 1u128 << (255 - bit))
    }
}

/// The four characters that begin the generic way of writing a type.
pub open spec fn generic_prefix() -> Seq<char> {
    seq!['t', 'y', 'p', 'e']
}

pub open spec fn has_generic_prefix(word: Seq<char>) -> bool {
    word.len() >= 4 && word.take(4) == generic_prefix()
}

pub(crate) fn starts_generic(word: &str) -> (yes: bool)
    ensures
        yes == has_generic_prefix(word@),
{
    if word.unicode_len() < 4 {
        return false;
    }
    let yes = word.get_char(0) == 't' && word.get_char(1) == 'y' && word.get_char(2) == 'p'
        && word.get_char(3) == 'e';
    assert(yes == (word@.take(4) =~= generic_prefix()));
    yes
}

/// The number behind the prefix of a generically written type.
pub open spec fn generic_code(word: Seq<char>) -> Option<u16> {
    match bounded_decimal(word.skip(4), u16::MAX as nat) {
        Some(v) => Some(v as u16),
        None => None,
    }
}

fn parse_generic(word: &str) -> (code: Option<u16>)
    requires
        has_generic_prefix(word@),
    ensures
        code == generic_code(word@),
{
    let digits = word.substring_char(4, word.unicode_len());
    assert(digits@ =~= word@.skip(4));
    match parse_decimal(digits, 65535) {
        Some(v) => Some(v as u16),
        None => None,
    }
}

impl RRType {
    /// The number that the type has on the wire.
    pub open spec fn code(self) -> u16 {
        match self {
            RRType::NoType => 0,
            RRType::A => 1,
            RRType::NS => 2,
            RRType::CNAME => 5,
            RRType::SOA => 6,
            RRType::PTR => 12,
            RRType::HINFO => 13,
            RRType::MX => 15,
            RRType::TXT => 16,
            RRType::RP => 17,
            RRType::AFSDB => 18,
            RRType::SIG => 24,
            RRType::KEY => 25,
            RRType::AAAA => 28,
            RRType::LOC => 29,
            RRType::SRV => 33,
            RRType::NAPTR => 35,
            RRType::KX => 36,
            RRType::CERT => 37,
            RRType::DNAME => 39,
            RRType::APL => 42,
            RRType::DS => 43,
            RRType::SSHFP => 44,
            RRType::IPSECKEY => 45,
            RRType::RRSIG => 46,
            RRType::NSEC => 47,
            RRType::DNSKEY => 48,
            RRType::DHCID => 49,
            RRType::NSEC3 => 50,
            RRType::NSEC3PARAM => 51,
            RRType::TLSA => 52,
            RRType::SMIMEA => 53,
            RRType::HIP => 55,
            RRType::CDS => 59,
            RRType::CDNSKEY => 60,
            RRType::OPENPGPKEY => 61,
            RRType::CSYNC => 62,
            RRType::ZONEMD => 63,
            RRType::SVCB => 64,
            RRType::HTTPS => 65,
            RRType::EUI48 => 108,
            RRType::EUI164 => 109,
            RRType::TKEY => 249,
            RRType::TSIG => 250,
            RRType::URI => 256,
            RRType::CAA => 257,
            RRType::WALLET => 262,
            RRType::TA => 32768,
            RRType::DLV => 32769,
            RRType::Unknown(code) => code,
        }
    }

    /// The type that stands for the number `code`: the one with a mnemonic
    /// where there is one.
    pub open spec fn of_code(code: u16) -> RRType {
        if code == 0 {
            RRType::NoType
        } else if code == 1 {
            RRType::A
        } else if code == 2 {
            RRType::NS
        } else if code == 5 {
            RRType::CNAME
        } else if code == 6 {
            RRType::SOA
        } else if code == 12 {
            RRType::PTR
        } else if code == 13 {
            RRType::HINFO
        } else if code == 15 {
            RRType::MX
        } else if code == 16 {
            RRType::TXT
        } else if code == 17 {
            RRType::RP
        } else if code == 18 {
            RRType::AFSDB
        } else if code == 24 {
            RRType::SIG
        } else if code == 25 {
            RRType::KEY
        } else if code == 28 {
            RRType::AAAA
        } else if code == 29 {
            RRType::LOC
        } else if code == 33 {
            RRType::SRV
        } else if code == 35 {
            RRType::NAPTR
        } else if code == 36 {
            RRType::KX
        } else if code == 37 {
            RRType::CERT
        } else if code == 39 {
            RRType::DNAME
        } else if code == 42 {
            RRType::APL
        } else if code == 43 {
            RRType::DS
        } else if code == 44 {
            RRType::SSHFP
        } else if code == 45 {
            RRType::IPSECKEY
        } else if code == 46 {
            RRType::RRSIG
        } else if code == 47 {
            RRType::NSEC
        } else if code == 48 {
            RRType::DNSKEY
        } else if code == 49 {
            RRType::DHCID
        } else if code == 50 {
            RRType::NSEC3
        } else if code == 51 {
            RRType::NSEC3PARAM
        } else if code == 52 {
            RRType::TLSA
        } else if code == 53 {
            RRType::SMIMEA
        } else if code == 55 {
            RRType::HIP
        } else if code == 59 {
            RRType::CDS
        } else if code == 60 {
            RRType::CDNSKEY
        } else if code == 61 {
            RRType::OPENPGPKEY
        } else if code == 62 {
            RRType::CSYNC
        } else if code == 63 {
            RRType::ZONEMD
        } else if code == 64 {
            RRType::SVCB
        } else if code == 65 {
            RRType::HTTPS
        } else if code == 108 {
            RRType::EUI48
        } else if code == 109 {
            RRType::EUI164
        } else if code == 249 {
            RRType::TKEY
        } else if code == 250 {
            RRType::TSIG
        } else if code == 256 {
            RRType::URI
        } else if code == 257 {
            RRType::CAA
        } else if code == 262 {
            RRType::WALLET
        } else if code == 32768 {
            RRType::TA
        } else if code == 32769 {
            RRType::DLV
        } else {
            RRType::Unknown(code)
        }
    }

    /// The name of the type as it is written in upper case.
    pub open spec fn name_of(self) -> Seq<char> {
        match self {
            RRType::NoType => "None"@,
            RRType::A => "A"@,
            RRType::NS => "NS"@,
            RRType::CNAME => "CNAME"@,
            RRType::SOA => "SOA"@,
            RRType::PTR => "PTR"@,
            RRType::HINFO => "HINFO"@,
            RRType::MX => "MX"@,
            RRType::TXT => "TXT"@,
            RRType::RP => "RP"@,
            RRType::AFSDB => "AFSDB"@,
            RRType::SIG => "SIG"@,
            RRType::KEY => "KEY"@,
            RRType::AAAA => "AAAA"@,
            RRType::LOC => "LOC"@,
            RRType::SRV => "SRV"@,
            RRType::NAPTR => "NAPTR"@,
            RRType::KX => "KX"@,
            RRType::CERT => "CERT"@,
            RRType::DNAME => "DNAME"@,
            RRType::APL => "APL"@,
            RRType::DS => "DS"@,
            RRType::SSHFP => "SSHFP"@,
            RRType::IPSECKEY => "IPSECKEY"@,
            RRType::RRSIG => "RRSIG"@,
            RRType::NSEC => "NSEC"@,
            RRType::DNSKEY => "DNSKEY"@,
            RRType::DHCID => "DHCID"@,
            RRType::NSEC3 => "NSEC3"@,
            RRType::NSEC3PARAM => "NSEC3PARAM"@,
            RRType::TLSA => "TLSA"@,
            RRType::SMIMEA => "SMIMEA"@,
            RRType::HIP => "HIP"@,
            RRType::CDS => "CDS"@,
            RRType::CDNSKEY => "CDNSKEY"@,
            RRType::OPENPGPKEY => "OPENPGPKEY"@,
            RRType::CSYNC => "CSYNC"@,
            RRType::ZONEMD => "ZONEMD"@,
            RRType::SVCB => "SVCB"@,
            RRType::HTTPS => "HTTPS"@,
            RRType::EUI48 => "EUI48"@,
            RRType::EUI164 => "EUI164"@,
            RRType::TKEY => "TKEY"@,
            RRType::TSIG => "TSIG"@,
            RRType::URI => "URI"@,
            RRType::CAA => "CAA"@,
            RRType::WALLET => "WALLET"@,
            RRType::TA => "TA"@,
            RRType::DLV => "DLV"@,
            RRType::Unknown(code) => "Unknown("@ + decimal_text(code as nat) + ")"@,
        }
    }

    /// The name of the type as the parser looks it up. A type without a
    /// mnemonic has the empty name.
    pub open spec fn mnemonic_of(self) -> Seq<char> {
        match self {
            RRType::NoType => "none"@,
            RRType::A => "a"@,
            RRType::NS => "ns"@,
            RRType::CNAME => "cname"@,
            RRType::SOA => "soa"@,
            RRType::PTR => "ptr"@,
            RRType::HINFO => "hinfo"@,
            RRType::MX => "mx"@,
            RRType::TXT => "txt"@,
            RRType::RP => "rp"@,
            RRType::AFSDB => "afsdb"@,
            RRType::SIG => "sig"@,
            RRType::KEY => "key"@,
            RRType::AAAA => "aaaa"@,
            RRType::LOC => "loc"@,
            RRType::SRV => "srv"@,
            RRType::NAPTR => "naptr"@,
            RRType::KX => "kx"@,
            RRType::CERT => "cert"@,
            RRType::DNAME => "dname"@,
            RRType::APL => "apl"@,
            RRType::DS => "ds"@,
            RRType::SSHFP => "sshfp"@,
            RRType::IPSECKEY => "ipseckey"@,
            RRType::RRSIG => "rrsig"@,
            RRType::NSEC => "nsec"@,
            RRType::DNSKEY => "dnskey"@,
            RRType::DHCID => "dhcid"@,
            RRType::NSEC3 => "nsec3"@,
            RRType::NSEC3PARAM => "nsec3param"@,
            RRType::TLSA => "tlsa"@,
            RRType::SMIMEA => "smimea"@,
            RRType::HIP => "hip"@,
            RRType::CDS => "cds"@,
            RRType::CDNSKEY => "cdnskey"@,
            RRType::OPENPGPKEY => "openpgpkey"@,
            RRType::CSYNC => "csync"@,
            RRType::ZONEMD => "zonemd"@,
            RRType::SVCB => "svcb"@,
            RRType::HTTPS => "https"@,
            RRType::EUI48 => "eui48"@,
            RRType::EUI164 => "eui164"@,
            RRType::TKEY => "tkey"@,
            RRType::TSIG => "tsig"@,
            RRType::URI => "uri"@,
            RRType::CAA => "caa"@,
            RRType::WALLET => "wallet"@,
            RRType::TA => "ta"@,
            RRType::DLV => "dlv"@,
            RRType::Unknown(_) => Seq::empty(),
        }
    }

    /// Every type that has a mnemonic, in the order of their numbers.
    pub open spec fn all() -> Seq<RRType> {
        seq![
            RRType::NoType,
            RRType::A,
            RRType::NS,
            RRType::CNAME,
            RRType::SOA,
            RRType::PTR,
            RRType::HINFO,
            RRType::MX,
            RRType::TXT,
            RRType::RP,
            RRType::AFSDB,
            RRType::SIG,
            RRType::KEY,
            RRType::AAAA,
            RRType::LOC,
            RRType::SRV,
            RRType::NAPTR,
            RRType::KX,
            RRType::CERT,
            RRType::DNAME,
            RRType::APL,
            RRType::DS,
            RRType::SSHFP,
            RRType::IPSECKEY,
            RRType::RRSIG,
            RRType::NSEC,
            RRType::DNSKEY,
            RRType::DHCID,
            RRType::NSEC3,
            RRType::NSEC3PARAM,
            RRType::TLSA,
            RRType::SMIMEA,
            RRType::HIP,
            RRType::CDS,
            RRType::CDNSKEY,
            RRType::OPENPGPKEY,
            RRType::CSYNC,
            RRType::ZONEMD,
            RRType::SVCB,
            RRType::HTTPS,
            RRType::EUI48,
            RRType::EUI164,
            RRType::TKEY,
            RRType::TSIG,
            RRType::URI,
            RRType::CAA,
            RRType::WALLET,
            RRType::TA,
            RRType::DLV,
        ]
    }

    /// The first type in [`RRType::all`] from position `from` on whose
    /// mnemonic is `word`.
    pub open spec fn search(word: Seq<char>, from: int) -> Option<RRType>
        decreases RRType::all().len() - from,
    {
        if from < 0 || from >= RRType::all().len() {
            None
        } else if RRType::all()[from].mnemonic_of() == word {
            Some(RRType::all()[from])
        } else {
            RRType::search(word, from + 1)
        }
    }

    /// The type that a lower-case word names by its mnemonic.
    pub open spec fn named(word: Seq<char>) -> Option<RRType> {
        RRType::search(word, 0)
    }

    /// The type that a lower-case word stands for: by its mnemonic, or
    /// written generically as `type` and a number of at most 65535.
    pub open spec fn of_word(word: Seq<char>) -> Option<RRType> {
        match RRType::named(word) {
            Some(rrtype) => Some(rrtype),
            None => if has_generic_prefix(word) {
                match generic_code(word) {
                    Some(code) => Some(RRType::of_code(code)),
                    None => None,
                }
            } else {
                None
            },
        }
    }

    /// The place in a type bitmap that a lower-case word stands for. The
    /// mnemonic of `NoType` has no place.
    pub open spec fn bitmap_of_word(word: Seq<char>) -> Option<(u8, u128, u128)> {
        match RRType::named(word) {
            Some(rrtype) if rrtype != RRType::NoType => Some(bitmap_of(rrtype.code())),
            _ => if has_generic_prefix(word) {
                match generic_code(word) {
                    Some(code) => Some(bitmap_of(code)),
                    None => None,
                }
            } else {
                None
            },
        }
    }

    pub fn discriminant(&self) -> (code: u16)
        ensures
            code == self.code(),
    {
        match self {
            RRType::NoType => 0,
            RRType::A => 1,
            RRType::NS => 2,
            RRType::CNAME => 5,
            RRType::SOA => 6,
            RRType::PTR => 12,
            RRType::HINFO => 13,
            RRType::MX => 15,
            RRType::TXT => 16,
            RRType::RP => 17,
            RRType::AFSDB => 18,
            RRType::SIG => 24,
            RRType::KEY => 25,
            RRType::AAAA => 28,
            RRType::LOC => 29,
            RRType::SRV => 33,
            RRType::NAPTR => 35,
            RRType::KX => 36,
            RRType::CERT => 37,
            RRType::DNAME => 39,
            RRType::APL => 42,
            RRType::DS => 43,
            RRType::SSHFP => 44,
            RRType::IPSECKEY => 45,
            RRType::RRSIG => 46,
            RRType::NSEC => 47,
            RRType::DNSKEY => 48,
            RRType::DHCID => 49,
            RRType::NSEC3 => 50,
            RRType::NSEC3PARAM => 51,
            RRType::TLSA => 52,
            RRType::SMIMEA => 53,
            RRType::HIP => 55,
            RRType::CDS => 59,
            RRType::CDNSKEY => 60,
            RRType::OPENPGPKEY => 61,
            RRType::CSYNC => 62,
            RRType::ZONEMD => 63,
            RRType::SVCB => 64,
            RRType::HTTPS => 65,
            RRType::EUI48 => 108,
            RRType::EUI164 => 109,
            RRType::TKEY => 249,
            RRType::TSIG => 250,
            RRType::URI => 256,
            RRType::CAA => 257,
            RRType::WALLET => 262,
            RRType::TA => 32768,
            RRType::DLV => 32769,
            RRType::Unknown(code) => *code,
        }
    }

    pub fn from_discriminant(code: u16) -> (rrtype: RRType)
        ensures
            rrtype == RRType::of_code(code),
    {
        if code == 0 {
            RRType::NoType
        } else if code == 1 {
            RRType::A
        } else if code == 2 {
            RRType::NS
        } else if code == 5 {
            RRType::CNAME
        } else if code == 6 {
            RRType::SOA
        } else if code == 12 {
            RRType::PTR
        } else if code == 13 {
            RRType::HINFO
        } else if code == 15 {
            RRType::MX
        } else if code == 16 {
            RRType::TXT
        } else if code == 17 {
            RRType::RP
        } else if code == 18 {
            RRType::AFSDB
        } else if code == 24 {
            RRType::SIG
        } else if code == 25 {
            RRType::KEY
        } else if code == 28 {
            RRType::AAAA
        } else if code == 29 {
            RRType::LOC
        } else if code == 33 {
            RRType::SRV
        } else if code == 35 {
            RRType::NAPTR
        } else if code == 36 {
            RRType::KX
        } else if code == 37 {
            RRType::CERT
        } else if code == 39 {
            RRType::DNAME
        } else if code == 42 {
            RRType::APL
        } else if code == 43 {
            RRType::DS
        } else if code == 44 {
            RRType::SSHFP
        } else if code == 45 {
            RRType::IPSECKEY
        } else if code == 46 {
            RRType::RRSIG
        } else if code == 47 {
            RRType::NSEC
        } else if code == 48 {
            RRType::DNSKEY
        } else if code == 49 {
            RRType::DHCID
        } else if code == 50 {
            RRType::NSEC3
        } else if code == 51 {
            RRType::NSEC3PARAM
        } else if code == 52 {
            RRType::TLSA
        } else if code == 53 {
            RRType::SMIMEA
        } else if code == 55 {
            RRType::HIP
        } else if code == 59 {
            RRType::CDS
        } else if code == 60 {
            RRType::CDNSKEY
        } else if code == 61 {
            RRType::OPENPGPKEY
        } else if code == 62 {
            RRType::CSYNC
        } else if code == 63 {
            RRType::ZONEMD
        } else if code == 64 {
            RRType::SVCB
        } else if code == 65 {
            RRType::HTTPS
        } else if code == 108 {
            RRType::EUI48
        } else if code == 109 {
            RRType::EUI164
        } else if code == 249 {
            RRType::TKEY
        } else if code == 250 {
            RRType::TSIG
        } else if code == 256 {
            RRType::URI
        } else if code == 257 {
            RRType::CAA
        } else if code == 262 {
            RRType::WALLET
        } else if code == 32768 {
            RRType::TA
        } else if code == 32769 {
            RRType::DLV
        } else {
            RRType::Unknown(code)
        }
    }

    /// The upper-case name of a type that has one; `Unknown` for the others.
    pub fn name(&self) -> (name: &'static str)
        ensures
            !(self is Unknown) ==> name@ == self.name_of(),
            self is Unknown ==> name@ == "Unknown"@,
    {
        match self {
            RRType::NoType => "None",
            RRType::A => "A",
            RRType::NS => "NS",
            RRType::CNAME => "CNAME",
            RRType::SOA => "SOA",
            RRType::PTR => "PTR",
            RRType::HINFO => "HINFO",
            RRType::MX => "MX",
            RRType::TXT => "TXT",
            RRType::RP => "RP",
            RRType::AFSDB => "AFSDB",
            RRType::SIG => "SIG",
            RRType::KEY => "KEY",
            RRType::AAAA => "AAAA",
            RRType::LOC => "LOC",
            RRType::SRV => "SRV",
            RRType::NAPTR => "NAPTR",
            RRType::KX => "KX",
            RRType::CERT => "CERT",
            RRType::DNAME => "DNAME",
            RRType::APL => "APL",
            RRType::DS => "DS",
            RRType::SSHFP => "SSHFP",
            RRType::IPSECKEY => "IPSECKEY",
            RRType::RRSIG => "RRSIG",
            RRType::NSEC => "NSEC",
            RRType::DNSKEY => "DNSKEY",
            RRType::DHCID => "DHCID",
            RRType::NSEC3 => "NSEC3",
            RRType::NSEC3PARAM => "NSEC3PARAM",
            RRType::TLSA => "TLSA",
            RRType::SMIMEA => "SMIMEA",
            RRType::HIP => "HIP",
            RRType::CDS => "CDS",
            RRType::CDNSKEY => "CDNSKEY",
            RRType::OPENPGPKEY => "OPENPGPKEY",
            RRType::CSYNC => "CSYNC",
            RRType::ZONEMD => "ZONEMD",
            RRType::SVCB => "SVCB",
            RRType::HTTPS => "HTTPS",
            RRType::EUI48 => "EUI48",
            RRType::EUI164 => "EUI164",
            RRType::TKEY => "TKEY",
            RRType::TSIG => "TSIG",
            RRType::URI => "URI",
            RRType::CAA => "CAA",
            RRType::WALLET => "WALLET",
            RRType::TA => "TA",
            RRType::DLV => "DLV",
            RRType::Unknown(_) => "Unknown",
        }
    }

    pub fn mnemonic(&self) -> (name: &'static str)
        ensures
            name@ == self.mnemonic_of(),
    {
        match self {
            RRType::NoType => "none",
            RRType::A => "a",
            RRType::NS => "ns",
            RRType::CNAME => "cname",
            RRType::SOA => "soa",
            RRType::PTR => "ptr",
            RRType::HINFO => "hinfo",
            RRType::MX => "mx",
            RRType::TXT => "txt",
            RRType::RP => "rp",
            RRType::AFSDB => "afsdb",
            RRType::SIG => "sig",
            RRType::KEY => "key",
            RRType::AAAA => "aaaa",
            RRType::LOC => "loc",
            RRType::SRV => "srv",
            RRType::NAPTR => "naptr",
            RRType::KX => "kx",
            RRType::CERT => "cert",
            RRType::DNAME => "dname",
            RRType::APL => "apl",
            RRType::DS => "ds",
            RRType::SSHFP => "sshfp",
            RRType::IPSECKEY => "ipseckey",
            RRType::RRSIG => "rrsig",
            RRType::NSEC => "nsec",
            RRType::DNSKEY => "dnskey",
            RRType::DHCID => "dhcid",
            RRType::NSEC3 => "nsec3",
            RRType::NSEC3PARAM => "nsec3param",
            RRType::TLSA => "tlsa",
            RRType::SMIMEA => "smimea",
            RRType::HIP => "hip",
            RRType::CDS => "cds",
            RRType::CDNSKEY => "cdnskey",
            RRType::OPENPGPKEY => "openpgpkey",
            RRType::CSYNC => "csync",
            RRType::ZONEMD => "zonemd",
            RRType::SVCB => "svcb",
            RRType::HTTPS => "https",
            RRType::EUI48 => "eui48",
            RRType::EUI164 => "eui164",
            RRType::TKEY => "tkey",
            RRType::TSIG => "tsig",
            RRType::URI => "uri",
            RRType::CAA => "caa",
            RRType::WALLET => "wallet",
            RRType::TA => "ta",
            RRType::DLV => "dlv",
            RRType::Unknown(_) => {
                proof {
                    reveal_strlit("");
                }
                assert(""@ =~= Seq::<char>::empty());
                ""
            },
        }
    }

    pub fn values() -> (all: Vec<RRType>)
        ensures
            all@ == RRType::all(),
    {
        let all = vec![
            RRType::NoType,
            RRType::A,
            RRType::NS,
            RRType::CNAME,
            RRType::SOA,
            RRType::PTR,
            RRType::HINFO,
            RRType::MX,
            RRType::TXT,
            RRType::RP,
            RRType::AFSDB,
            RRType::SIG,
            RRType::KEY,
            RRType::AAAA,
            RRType::LOC,
            RRType::SRV,
            RRType::NAPTR,
            RRType::KX,
            RRType::CERT,
            RRType::DNAME,
            RRType::APL,
            RRType::DS,
            RRType::SSHFP,
            RRType::IPSECKEY,
            RRType::RRSIG,
            RRType::NSEC,
            RRType::DNSKEY,
            RRType::DHCID,
            RRType::NSEC3,
            RRType::NSEC3PARAM,
            RRType::TLSA,
            RRType::SMIMEA,
            RRType::HIP,
            RRType::CDS,
            RRType::CDNSKEY,
            RRType::OPENPGPKEY,
            RRType::CSYNC,
            RRType::ZONEMD,
            RRType::SVCB,
            RRType::HTTPS,
            RRType::EUI48,
            RRType::EUI164,
            RRType::TKEY,
            RRType::TSIG,
            RRType::URI,
            RRType::CAA,
            RRType::WALLET,
            RRType::TA,
            RRType::DLV,
        ];
        assert(all@ =~= RRType::all());
        all
    }

    /// Looks a lower-case word up among the type mnemonics.
    pub fn lookup(word: &str) -> (rrtype: Option<RRType>)
        ensures
            rrtype == RRType::named(word@),
    {
        Tables::new().rrtype(word)
    }

    /// Reads a lower-case word as a type.
    pub fn from_word(word: &str) -> (rrtype: Option<RRType>)
        ensures
            rrtype == RRType::of_word(word@),
    {
        Tables::new().rrtype_of_word(word)
    }

    /// Reads a lower-case word as a place in a type bitmap.
    pub fn bitmap_from_word(word: &str) -> (place: Option<(u8, u128, u128)>)
        ensures
            place == RRType::bitmap_of_word(word@),
    {
        Tables::new().bitmap_of_word(word)
    }

    /// The text that stands for the type in a printed record.
    pub fn to_text(&self) -> (text: String)
        ensures
            text@ == self.name_of(),
    {
        match self {
            RRType::Unknown(code) => {
                let mut text = String::from_str("Unknown(");
                let digits = format_decimal(*code as u64);
                text.append(digits.as_str());
                text.append(")");
                text
            },
            _ => String::from_str(self.name()),
        }
    }
}

/// The tables in which a parser looks words up: the classes and the types
/// that have a mnemonic, in the order of their numbers.
pub struct Tables {
    classes: Vec<RRClass>,
    types: Vec<RRType>,
}

impl Tables {
    /// The tables hold every class and every type that has a mnemonic.
    pub closed spec fn wf(&self) -> bool {
        &&& self.classes@ == RRClass::all()
        &&& self.types@ == RRType::all()
    }

    pub fn new() -> (tables: Tables)
        ensures
            tables.wf(),
    {
        Tables { classes: RRClass::values(), types: RRType::values() }
    }

    /// Looks a lower-case word up among the class mnemonics.
    pub fn class(&self, word: &str) -> (class: Option<RRClass>)
        requires
            self.wf(),
        ensures
            class == RRClass::named(word@),
    {
        let mut i: usize = 0;
        while i < self.classes.len()
            invariant
                i <= self.classes.len(),
                self.wf(),
                RRClass::named(word@) == RRClass::search(word@, i as int),
            decreases self.classes.len() - i,
        {
            if text_eq(self.classes[i].mnemonic(), word) {
                return Some(self.classes[i]);
            }
            i += 1;
        }
        None
    }

    /// Looks a lower-case word up among the type mnemonics.
    pub fn rrtype(&self, word: &str) -> (rrtype: Option<RRType>)
        requires
            self.wf(),
        ensures
            rrtype == RRType::named(word@),
    {
        let mut i: usize = 0;
        while i < self.types.len()
            invariant
                i <= self.types.len(),
                self.wf(),
                RRType::named(word@) == RRType::search(word@, i as int),
            decreases self.types.len() - i,
        {
            if text_eq(self.types[i].mnemonic(), word) {
                return Some(self.types[i]);
            }
            i += 1;
        }
        None
    }

    /// Reads a lower-case word as a type, by its mnemonic or written
    /// generically.
    pub fn rrtype_of_word(&self, word: &str) -> (rrtype: Option<RRType>)
        requires
            self.wf(),
        ensures
            rrtype == RRType::of_word(word@),
    {
        match self.rrtype(word) {
            Some(rrtype) => Some(rrtype),
            None => {
                if starts_generic(word) {
                    match parse_generic(word) {
                        Some(code) => Some(RRType::from_discriminant(code)),
                        None => None,
                    }
                } else {
                    None
                }
            },
        }
    }

    /// Reads a lower-case word as a place in a type bitmap.
    pub fn bitmap_of_word(&self, word: &str) -> (place: Option<(u8, u128, u128)>)
        requires
            self.wf(),
        ensures
            place == RRType::bitmap_of_word(word@),
    {
        match self.rrtype(word) {
            Some(rrtype) if rrtype != RRType::NoType => Some(bitmap(rrtype.discriminant())),
            _ => {
                if starts_generic(word) {
                    match parse_generic(word) {
                        Some(code) => Some(bitmap(code)),
                        None => None,
                    }
                } else {
                    None
                }
            },
        }
    }
}

/// Reads a word, in any letter case, as a class.
pub fn class_from_str(word: &str) -> (class: Option<RRClass>)
    ensures
        class == RRClass::named(lowercased(word@)),
{
    let lower = lowercase_text(word);
    RRClass::lookup(lower.as_str())
}

/// Reads a word, in any letter case, as a type.
pub fn type_from_str(word: &str) -> (rrtype: Option<RRType>)
    ensures
        rrtype == RRType::of_word(lowercased(word@)),
{
    let lower = lowercase_text(word);
    RRType::from_word(lower.as_str())
}

/// Reads a word, in any letter case, as a place in a type bitmap.
pub fn bitmap_from_str(word: &str) -> (place: Option<(u8, u128, u128)>)
    ensures
        place == RRType::bitmap_of_word(lowercased(word@)),
{
    let lower = lowercase_text(word);
    RRType::bitmap_from_word(lower.as_str())
}

} // verus!
