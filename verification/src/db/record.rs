//! Record types, classes, record data, resource records and zones.

use crate::text::{chars_of, spells, spells_word};
use vstd::string::StringExecFns;
use vstd::prelude::*;

verus! {

/// The type of a DNS record.
#[derive(Debug, PartialEq, Eq, Hash, Clone, Copy, Structural)]
pub enum RecordType {
    A,
    AAAA,
    CNAME,
    MX,
    NS,
    PTR,
    SOA,
    SRV,
    TXT,
}

/// The two kinds of record types. Meta types describe the zone itself and
/// may carry several values for one owner; a resource type carries at most
/// one value for an owner.
#[derive(Debug, PartialEq, Eq, Hash, Clone, Copy, Structural)]
pub enum Category {
    Meta,
    Resource,
}

impl RecordType {
    /// The name of the type as written in master files.
    pub open spec fn mnemonic(self) -> Seq<char> {
        match self {
            RecordType::A => "A"@,
            RecordType::AAAA => "AAAA"@,
            RecordType::CNAME => "CNAME"@,
            RecordType::MX => "MX"@,
            RecordType::NS => "NS"@,
            RecordType::PTR => "PTR"@,
            RecordType::SOA => "SOA"@,
            RecordType::SRV => "SRV"@,
            RecordType::TXT => "TXT"@,
        }
    }

    /// The type that `s` names: the one whose mnemonic `s` is once it is
    /// put in upper case.
    pub open spec fn named(s: Seq<char>) -> Option<RecordType> {
        if spells(s, RecordType::A.mnemonic()) {
            Some(RecordType::A)
        } else if spells(s, RecordType::AAAA.mnemonic()) {
            Some(RecordType::AAAA)
        } else if spells(s, RecordType::CNAME.mnemonic()) {
            Some(RecordType::CNAME)
        } else if spells(s, RecordType::MX.mnemonic()) {
            Some(RecordType::MX)
        } else if spells(s, RecordType::NS.mnemonic()) {
            Some(RecordType::NS)
        } else if spells(s, RecordType::PTR.mnemonic()) {
            Some(RecordType::PTR)
        } else if spells(s, RecordType::SOA.mnemonic()) {
            Some(RecordType::SOA)
        } else if spells(s, RecordType::SRV.mnemonic()) {
            Some(RecordType::SRV)
        } else if spells(s, RecordType::TXT.mnemonic()) {
            Some(RecordType::TXT)
        } else {
            None
        }
    }

    /// The 16-bit code of the type in wire format.
    pub open spec fn code(self) -> u16 {
        match self {
            RecordType::A => 1,
            RecordType::NS => 2,
            RecordType::CNAME => 5,
            RecordType::SOA => 6,
            RecordType::PTR => 12,
            RecordType::MX => 15,
            RecordType::TXT => 16,
            RecordType::AAAA => 28,
            RecordType::SRV => 33,
        }
    }

    /// The type with wire code `c`.
    pub open spec fn with_code(c: u16) -> Option<RecordType> {
        if c == 1 {
            Some(RecordType::A)
        } else if c == 2 {
            Some(RecordType::NS)
        } else if c == 5 {
            Some(RecordType::CNAME)
        } else if c == 6 {
            Some(RecordType::SOA)
        } else if c == 12 {
            Some(RecordType::PTR)
        } else if c == 15 {
            Some(RecordType::MX)
        } else if c == 16 {
            Some(RecordType::TXT)
        } else if c == 28 {
            Some(RecordType::AAAA)
        } else if c == 33 {
            Some(RecordType::SRV)
        } else {
            None
        }
    }

    /// The category of the type: `SOA` and `NS` are meta types, every other
    /// type is a resource type.
    pub open spec fn spec_category(self) -> Category {
        match self {
            RecordType::SOA | RecordType::NS => Category::Meta,
            _ => Category::Resource,
        }
    }

    /// The category of the type.
    #[verifier::when_used_as_spec(spec_category)]
    pub fn category(self) -> (r: Category)
        ensures
            r == self.spec_category(),
    {
        match self {
            RecordType::SOA | RecordType::NS => Category::Meta,
            _ => Category::Resource,
        }
    }

    /// The text form.
    pub fn to_string(&self) -> (r: String)
        ensures
            r@ == self.mnemonic(),
    {
        match self {
            RecordType::A => "A".to_owned(),
            RecordType::AAAA => "AAAA".to_owned(),
            RecordType::CNAME => "CNAME".to_owned(),
            RecordType::MX => "MX".to_owned(),
            RecordType::NS => "NS".to_owned(),
            RecordType::PTR => "PTR".to_owned(),
            RecordType::SOA => "SOA".to_owned(),
            RecordType::SRV => "SRV".to_owned(),
            RecordType::TXT => "TXT".to_owned(),
        }
    }

    /// The type that the characters `s` name.
    pub fn from_chars(s: &[char]) -> (r: Option<RecordType>)
        ensures
            r == RecordType::named(s@),
    {
        proof {
            reveal_strlit("A");
            reveal_strlit("AAAA");
            reveal_strlit("CNAME");
            reveal_strlit("MX");
            reveal_strlit("NS");
            reveal_strlit("PTR");
            reveal_strlit("SOA");
            reveal_strlit("SRV");
            reveal_strlit("TXT");
        }
        let a: [char; 1] = ['A'];
        let aaaa: [char; 4] = ['A', 'A', 'A', 'A'];
        let cname: [char; 5] = ['C', 'N', 'A', 'M', 'E'];
        let mx: [char; 2] = ['M', 'X'];
        let ns: [char; 2] = ['N', 'S'];
        let ptr: [char; 3] = ['P', 'T', 'R'];
        let soa: [char; 3] = ['S', 'O', 'A'];
        let srv: [char; 3] = ['S', 'R', 'V'];
        let txt: [char; 3] = ['T', 'X', 'T'];
        assert(a@ =~= "A"@);
        assert(aaaa@ =~= "AAAA"@);
        assert(cname@ =~= "CNAME"@);
        assert(mx@ =~= "MX"@);
        assert(ns@ =~= "NS"@);
        assert(ptr@ =~= "PTR"@);
        assert(soa@ =~= "SOA"@);
        assert(srv@ =~= "SRV"@);
        assert(txt@ =~= "TXT"@);
        if spells_word(s, a.as_slice()) {
            Some(RecordType::A)
        } else if spells_word(s, aaaa.as_slice()) {
            Some(RecordType::AAAA)
        } else if spells_word(s, cname.as_slice()) {
            Some(RecordType::CNAME)
        } else if spells_word(s, mx.as_slice()) {
            Some(RecordType::MX)
        } else if spells_word(s, ns.as_slice()) {
            Some(RecordType::NS)
        } else if spells_word(s, ptr.as_slice()) {
            Some(RecordType::PTR)
        } else if spells_word(s, soa.as_slice()) {
            Some(RecordType::SOA)
        } else if spells_word(s, srv.as_slice()) {
            Some(RecordType::SRV)
        } else if spells_word(s, txt.as_slice()) {
            Some(RecordType::TXT)
        } else {
            None
        }
    }

    /// The type that `s` names, or a message that quotes `s`.
    pub fn from_str(s: &str) -> (r: Result<RecordType, String>)
        ensures
            match RecordType::named(s@) {
                Some(t) => r == Ok::<RecordType, String>(t),
                None => r is Err && r->Err_0@ == "Unknown RecordType: "@ + s@,
            },
    {
        let chars = chars_of(s);
        match RecordType::from_chars(chars.as_slice()) {
            Some(t) => Ok(t),
            None => Err("Unknown RecordType: ".to_owned().concat(s)),
        }
    }

    /// The 16-bit code in wire format.
    pub fn wire_code(&self) -> (r: u16)
        ensures
            r == self.code(),
    {
        match self {
            RecordType::A => 1,
            RecordType::NS => 2,
            RecordType::CNAME => 5,
            RecordType::SOA => 6,
            RecordType::PTR => 12,
            RecordType::MX => 15,
            RecordType::TXT => 16,
            RecordType::AAAA => 28,
            RecordType::SRV => 33,
        }
    }

    /// The type with wire code `c`.
    pub fn from_code(c: u16) -> (r: Option<RecordType>)
        ensures
            r == RecordType::with_code(c),
    {
        if c == 1 {
            Some(RecordType::A)
        } else if c == 2 {
            Some(RecordType::NS)
        } else if c == 5 {
            Some(RecordType::CNAME)
        } else if c == 6 {
            Some(RecordType::SOA)
        } else if c == 12 {
            Some(RecordType::PTR)
        } else if c == 15 {
            Some(RecordType::MX)
        } else if c == 16 {
            Some(RecordType::TXT)
        } else if c == 28 {
            Some(RecordType::AAAA)
        } else if c == 33 {
            Some(RecordType::SRV)
        } else {
            None
        }
    }
}


/// The class of a DNS record. Only the Internet class is served.
#[derive(Debug, PartialEq, Eq, Hash, Clone, Copy, Structural)]
pub enum RecordClass {
    IN,
}

impl RecordClass {
    /// The name of the class as written in master files.
    pub open spec fn mnemonic(self) -> Seq<char> {
        "IN"@
    }

    /// The class that `s` names: the one whose mnemonic `s` is once it is
    /// put in upper case.
    pub open spec fn named(s: Seq<char>) -> Option<RecordClass> {
        if spells(s, RecordClass::IN.mnemonic()) {
            Some(RecordClass::IN)
        } else {
            None
        }
    }

    /// The 16-bit code of the class in wire format.
    pub open spec fn code(self) -> u16 {
        1
    }

    /// The class with wire code `c`.
    pub open spec fn with_code(c: u16) -> Option<RecordClass> {
        if c == 1 {
            Some(RecordClass::IN)
        } else {
            None
        }
    }

    /// The text form.
    pub fn to_string(&self) -> (r: String)
        ensures
            r@ == self.mnemonic(),
    {
        "IN".to_owned()
    }

    /// The class that the characters `s` name.
    pub fn from_chars(s: &[char]) -> (r: Option<RecordClass>)
        ensures
            r == RecordClass::named(s@),
    {
        proof {
            reveal_strlit("IN");
        }
        let name: [char; 2] = ['I', 'N'];
        assert(name@ =~= "IN"@);
        if spells_word(s, name.as_slice()) {
            Some(RecordClass::IN)
        } else {
            None
        }
    }

    /// The class that `s` names, or a message that quotes `s`.
    pub fn from_str(s: &str) -> (r: Result<RecordClass, String>)
        ensures
            match RecordClass::named(s@) {
                Some(c) => r == Ok::<RecordClass, String>(c),
                None => r is Err && r->Err_0@ == "Unknown RecordClass: "@ + s@,
            },
    {
        let chars = chars_of(s);
        match RecordClass::from_chars(chars.as_slice()) {
            Some(c) => Ok(c),
            None => Err("Unknown RecordClass: ".to_owned().concat(s)),
        }
    }

    /// The 16-bit code in wire format.
    pub fn wire_code(&self) -> (r: u16)
        ensures
            r == self.code(),
    {
        1
    }

    /// The class with wire code `c`.
    pub fn from_code(c: u16) -> (r: Option<RecordClass>)
        ensures
            r == RecordClass::with_code(c),
    {
        if c == 1 {
            Some(RecordClass::IN)
        } else {
            None
        }
    }
}

/// The data of a DNS record, one variant for each record type. Addresses
/// are held as their octets (`A`) and their 16-bit groups (`AAAA`), most
/// significant first; domain names and text as strings.
#[derive(Debug, PartialEq, Eq, Hash, Clone)]
pub enum RecordData {
    A([u8; 4]),
    AAAA([u16; 8]),
    CNAME(String),
    MX { preference: u16, exchange: String },
    NS(String),
    PTR(String),
    SOA { mname: String, rname: String, serial: u32, refresh: u32, retry: u32, expire: u32, minimum: u32 },
    SRV { priority: u16, weight: u16, port: u16, target: String },
    TXT(String),
}

/// What a [`RecordData`] holds, as mathematical values.
pub enum RecordDataView {
    A(Seq<u8>),
    AAAA(Seq<u16>),
    CNAME(Seq<char>),
    MX { preference: u16, exchange: Seq<char> },
    NS(Seq<char>),
    PTR(Seq<char>),
    SOA {
        mname: Seq<char>,
        rname: Seq<char>,
        serial: u32,
        refresh: u32,
        retry: u32,
        expire: u32,
        minimum: u32,
    },
    SRV { priority: u16, weight: u16, port: u16, target: Seq<char> },
    TXT(Seq<char>),
}

impl RecordDataView {
    /// The record type of the data.
    pub open spec fn kind(self) -> RecordType {
        match self {
            RecordDataView::A(_) => RecordType::A,
            RecordDataView::AAAA(_) => RecordType::AAAA,
            RecordDataView::CNAME(_) => RecordType::CNAME,
            RecordDataView::MX { .. } => RecordType::MX,
            RecordDataView::NS(_) => RecordType::NS,
            RecordDataView::PTR(_) => RecordType::PTR,
            RecordDataView::SOA { .. } => RecordType::SOA,
            RecordDataView::SRV { .. } => RecordType::SRV,
            RecordDataView::TXT(_) => RecordType::TXT,
        }
    }
}

impl View for RecordData {
    type V = RecordDataView;

    open spec fn view(&self) -> RecordDataView {
        match *self {
            RecordData::A(a) => RecordDataView::A(a@),
            RecordData::AAAA(a) => RecordDataView::AAAA(a@),
            RecordData::CNAME(s) => RecordDataView::CNAME(s@),
            RecordData::MX { preference, exchange } => RecordDataView::MX {
                preference,
                exchange: exchange@,
            },
            RecordData::NS(s) => RecordDataView::NS(s@),
            RecordData::PTR(s) => RecordDataView::PTR(s@),
            RecordData::SOA { mname, rname, serial, refresh, retry, expire, minimum } => RecordDataView::SOA {
                mname: mname@,
                rname: rname@,
                serial,
                refresh,
                retry,
                expire,
                minimum,
            },
            RecordData::SRV { priority, weight, port, target } => RecordDataView::SRV {
                priority,
                weight,
                port,
                target: target@,
            },
            RecordData::TXT(s) => RecordDataView::TXT(s@),
        }
    }
}

fn same_octets(a: &[u8; 4], b: &[u8; 4]) -> (r: bool)
    ensures
        r == (a@ == b@),
{
    let r = a[0] == b[0] && a[1] == b[1] && a[2] == b[2] && a[3] == b[3];
    assert(r == (a@ =~= b@));
    r
}

fn same_groups(a: &[u16; 8], b: &[u16; 8]) -> (r: bool)
    ensures
        r == (a@ == b@),
{
    let mut i: usize = 0;
    while i < 8
        invariant
            i <= 8,
            forall|j: int| 0 <= j < i ==> a@[j] == b@[j],
        decreases 8 - i,
    {
        if a[i] != b[i] {
            assert(a@[i as int] != b@[i as int]);
            return false;
        }
        i += 1;
    }
    assert(a@ =~= b@);
    true
}

fn same_text(a: &String, b: &String) -> (r: bool)
    ensures
        r == (a@ == b@),
{
    *a == *b
}

impl RecordData {
    /// The record type of the data.
    pub fn get_type(&self) -> (r: RecordType)
        ensures
            r == self@.kind(),
    {
        match self {
            RecordData::A(_) => RecordType::A,
            RecordData::AAAA(_) => RecordType::AAAA,
            RecordData::CNAME(_) => RecordType::CNAME,
            RecordData::MX { .. } => RecordType::MX,
            RecordData::NS(_) => RecordType::NS,
            RecordData::PTR(_) => RecordType::PTR,
            RecordData::SOA { .. } => RecordType::SOA,
            RecordData::SRV { .. } => RecordType::SRV,
            RecordData::TXT(_) => RecordType::TXT,
        }
    }

    /// Whether two record data hold the same values.
    pub fn same(&self, other: &RecordData) -> (r: bool)
        ensures
            r == (self@ == other@),
    {
        match self {
            RecordData::A(a) => match other {
                RecordData::A(b) => same_octets(a, b),
                _ => false,
            },
            RecordData::AAAA(a) => match other {
                RecordData::AAAA(b) => same_groups(a, b),
                _ => false,
            },
            RecordData::CNAME(a) => match other {
                RecordData::CNAME(b) => same_text(a, b),
                _ => false,
            },
            RecordData::MX { preference: p, exchange: e } => match other {
                RecordData::MX { preference: q, exchange: f } => *p == *q && same_text(e, f),
                _ => false,
            },
            RecordData::NS(a) => match other {
                RecordData::NS(b) => same_text(a, b),
                _ => false,
            },
            RecordData::PTR(a) => match other {
                RecordData::PTR(b) => same_text(a, b),
                _ => false,
            },
            RecordData::SOA { mname, rname, serial, refresh, retry, expire, minimum } => match other {
                RecordData::SOA {
                    mname: m2,
                    rname: r2,
                    serial: s2,
                    refresh: f2,
                    retry: t2,
                    expire: e2,
                    minimum: n2,
                } => same_text(mname, m2) && same_text(rname, r2) && *serial == *s2 && *refresh
                    == *f2 && *retry == *t2 && *expire == *e2 && *minimum == *n2,
                _ => false,
            },
            RecordData::SRV { priority, weight, port, target } => match other {
                RecordData::SRV { priority: p2, weight: w2, port: o2, target: t2 } => *priority
                    == *p2 && *weight == *w2 && *port == *o2 && same_text(target, t2),
                _ => false,
            },
            RecordData::TXT(a) => match other {
                RecordData::TXT(b) => same_text(a, b),
                _ => false,
            },
        }
    }

    /// A copy of the data.
    pub fn copy(&self) -> (r: RecordData)
        ensures
            r@ == self@,
    {
        match self {
            RecordData::A(a) => RecordData::A(*a),
            RecordData::AAAA(a) => RecordData::AAAA(*a),
            RecordData::CNAME(s) => RecordData::CNAME(s.clone()),
            RecordData::MX { preference, exchange } => RecordData::MX {
                preference: *preference,
                exchange: exchange.clone(),
            },
            RecordData::NS(s) => RecordData::NS(s.clone()),
            RecordData::PTR(s) => RecordData::PTR(s.clone()),
            RecordData::SOA { mname, rname, serial, refresh, retry, expire, minimum } => RecordData::SOA {
                mname: mname.clone(),
                rname: rname.clone(),
                serial: *serial,
                refresh: *refresh,
                retry: *retry,
                expire: *expire,
                minimum: *minimum,
            },
            RecordData::SRV { priority, weight, port, target } => RecordData::SRV {
                priority: *priority,
                weight: *weight,
                port: *port,
                target: target.clone(),
            },
            RecordData::TXT(s) => RecordData::TXT(s.clone()),
        }
    }
}

/// One resource record: an owner name, a time to live in seconds, a class
/// and the data.
#[derive(Debug, PartialEq, Eq, Hash, Clone)]
pub struct ResourceRecord {
    pub name: String,
    pub ttl: u32,
    pub class: RecordClass,
    pub data: RecordData,
}

/// What a [`ResourceRecord`] holds, as mathematical values.
pub struct RecordView {
    pub name: Seq<char>,
    pub ttl: u32,
    pub class: RecordClass,
    pub data: RecordDataView,
}

impl View for ResourceRecord {
    type V = RecordView;

    open spec fn view(&self) -> RecordView {
        RecordView { name: self.name@, ttl: self.ttl, class: self.class, data: self.data@ }
    }
}

impl ResourceRecord {
    /// A copy of the record.
    pub fn copy(&self) -> (r: ResourceRecord)
        ensures
            r@ == self@,
    {
        ResourceRecord {
            name: self.name.clone(),
            ttl: self.ttl,
            class: self.class,
            data: self.data.copy(),
        }
    }
}

/// The views of a sequence of records.
pub open spec fn record_views(v: Seq<ResourceRecord>) -> Seq<RecordView> {
    Seq::new(v.len(), |i: int| v[i]@)
}

/// A zone: the records that one master file holds, in the order of the
/// file, under an origin name and a default time to live.
#[derive(Debug, Clone)]
pub struct Zone {
    pub origin: String,
    pub ttl: u32,
    pub records: Vec<ResourceRecord>,
}

/// What a [`Zone`] holds, as mathematical values.
pub struct ZoneView {
    pub origin: Seq<char>,
    pub ttl: u32,
    pub records: Seq<RecordView>,
}

impl View for Zone {
    type V = ZoneView;

    open spec fn view(&self) -> ZoneView {
        ZoneView { origin: self.origin@, ttl: self.ttl, records: record_views(self.records@) }
    }
}

} // verus!
