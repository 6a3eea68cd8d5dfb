//! The reader of zone master files.
//!
//! A file is read line by line. Blank lines and lines whose first word
//! begins with `;` are skipped. A line whose first word begins with `$` is
//! a directive: `$ORIGIN name` and `$TTL seconds` change the origin and the
//! default time to live for the lines that follow; other directives are
//! passed over. Every other line is one record,
//! `[name] [ttl] [class] type data...`, whose optional fields are told
//! apart by their shape.

use crate::addr::{ipv4, ipv6, parse_ipv4, parse_ipv6};
use crate::db::record::{
    record_views, RecordClass, RecordData, RecordDataView, RecordType, RecordView, ResourceRecord,
    Zone, ZoneView,
};
use crate::text::{
    chars_of, decimal, eq_chars, join, joined, lemma_words_nonempty, lines, number_text,
    parse_decimal, split_fields, split_words, string_of, views, words, write_number,
};
use vstd::prelude::*;
use vstd::string::StringExecFns;

verus! {

/// Why a master file was refused.
#[derive(Debug, PartialEq, Eq, Hash, Clone, Copy, Structural)]
pub enum ParseErrorKind {
    /// `$ORIGIN` without a name.
    MissingOrigin,
    /// `$TTL` without a value, or with one that is no 32-bit number.
    InvalidTtl,
    /// A record line without a record type where one is due.
    MissingType,
    /// Record data with fewer fields than the type takes.
    MissingField,
    /// Record data with more fields than the type takes.
    UnexpectedField,
    /// An address that is no IPv4 or IPv6 literal.
    InvalidAddress,
    /// A numeric field that is no number of the width it has.
    InvalidNumber,
}

impl ParseErrorKind {
    /// What the refusal says, in words.
    pub open spec fn description(self) -> Seq<char> {
        match self {
            ParseErrorKind::MissingOrigin => "$ORIGIN without a name"@,
            ParseErrorKind::InvalidTtl => "invalid $TTL"@,
            ParseErrorKind::MissingType => "missing or unknown record type"@,
            ParseErrorKind::MissingField => "too few data fields"@,
            ParseErrorKind::UnexpectedField => "too many data fields"@,
            ParseErrorKind::InvalidAddress => "invalid address"@,
            ParseErrorKind::InvalidNumber => "invalid number"@,
        }
    }

    /// The text form.
    pub fn to_string(&self) -> (r: String)
        ensures
            r@ == self.description(),
    {
        match self {
            ParseErrorKind::MissingOrigin => "$ORIGIN without a name".to_owned(),
            ParseErrorKind::InvalidTtl => "invalid $TTL".to_owned(),
            ParseErrorKind::MissingType => "missing or unknown record type".to_owned(),
            ParseErrorKind::MissingField => "too few data fields".to_owned(),
            ParseErrorKind::UnexpectedField => "too many data fields".to_owned(),
            ParseErrorKind::InvalidAddress => "invalid address".to_owned(),
            ParseErrorKind::InvalidNumber => "invalid number".to_owned(),
        }
    }
}

/// A refusal, with the number of the line, counted from one, and the word
/// that gave offence.
#[derive(Debug, PartialEq, Eq, Clone)]
pub struct ParseError {
    pub kind: ParseErrorKind,
    pub line: usize,
    pub token: String,
}

/// What a [`ParseError`] holds, as mathematical values.
pub struct ParseErrorView {
    pub kind: ParseErrorKind,
    pub line: nat,
    pub token: Seq<char>,
}

impl View for ParseError {
    type V = ParseErrorView;

    open spec fn view(&self) -> ParseErrorView {
        ParseErrorView { kind: self.kind, line: self.line as nat, token: self.token@ }
    }
}

impl ParseErrorView {
    /// The refusal in one line of text: the number of the line, what was
    /// wrong, and the word that gave offence.
    pub open spec fn text(self) -> Seq<char> {
        "line "@ + number_text(self.line) + ": "@ + self.kind.description() + ": "@ + self.token
    }
}

impl ParseError {
    /// The text form.
    pub fn to_string(&self) -> (r: String)
        ensures
            r@ == self@.text(),
    {
        let line = string_of(write_number(self.line as u64).as_slice());
        let kind = self.kind.to_string();
        "line ".to_owned().concat(line.as_str()).concat(": ").concat(kind.as_str()).concat(
            ": ",
        ).concat(self.token.as_str())
    }
}

/// A refusal within one line: the kind and the offending word.
struct Fault {
    kind: ParseErrorKind,
    token: String,
}

/// What a refusal within one line holds, as mathematical values.
pub struct FaultView {
    pub kind: ParseErrorKind,
    pub token: Seq<char>,
}

impl View for Fault {
    type V = FaultView;

    closed spec fn view(&self) -> FaultView {
        FaultView { kind: self.kind, token: self.token@ }
    }
}

/// The refusal of the given kind for the given word.
pub open spec fn fault(kind: ParseErrorKind, token: Seq<char>) -> FaultView {
    FaultView { kind, token }
}

/// The largest number of 16 bits.
pub open spec fn u16_max() -> nat {
    0xFFFF
}

/// The largest number of 32 bits.
pub open spec fn u32_max() -> nat {
    0xFFFF_FFFF
}

/// The full name of a record's owner: `@` is the origin, a name that ends
/// in a dot stands as it is, any other name is put before the origin.
pub open spec fn owner_name(name: Seq<char>, origin: Seq<char>) -> Seq<char> {
    if name == "@"@ {
        origin
    } else if name.len() > 0 && name.last() == '.' {
        name
    } else {
        name + "."@ + origin
    }
}

/// How many data fields a record type takes; `TXT` takes any number.
pub open spec fn arity(t: RecordType) -> Option<nat> {
    match t {
        RecordType::A | RecordType::AAAA | RecordType::CNAME | RecordType::NS | RecordType::PTR => Some(
            1,
        ),
        RecordType::MX => Some(2),
        RecordType::SOA => Some(7),
        RecordType::SRV => Some(4),
        RecordType::TXT => None,
    }
}

/// The data of an `SOA` record from its seven fields.
pub open spec fn soa_data(f: Seq<Seq<char>>) -> Result<RecordDataView, FaultView> {
    if decimal(f[2], u32_max()) is None {
        Err(fault(ParseErrorKind::InvalidNumber, f[2]))
    } else if decimal(f[3], u32_max()) is None {
        Err(fault(ParseErrorKind::InvalidNumber, f[3]))
    } else if decimal(f[4], u32_max()) is None {
        Err(fault(ParseErrorKind::InvalidNumber, f[4]))
    } else if decimal(f[5], u32_max()) is None {
        Err(fault(ParseErrorKind::InvalidNumber, f[5]))
    } else if decimal(f[6], u32_max()) is None {
        Err(fault(ParseErrorKind::InvalidNumber, f[6]))
    } else {
        Ok(
            RecordDataView::SOA {
                mname: f[0],
                rname: f[1],
                serial: decimal(f[2], u32_max())->0 as u32,
                refresh: decimal(f[3], u32_max())->0 as u32,
                retry: decimal(f[4], u32_max())->0 as u32,
                expire: decimal(f[5], u32_max())->0 as u32,
                minimum: decimal(f[6], u32_max())->0 as u32,
            },
        )
    }
}

/// The data of an `SRV` record from its four fields.
pub open spec fn srv_data(f: Seq<Seq<char>>) -> Result<RecordDataView, FaultView> {
    if decimal(f[0], u16_max()) is None {
        Err(fault(ParseErrorKind::InvalidNumber, f[0]))
    } else if decimal(f[1], u16_max()) is None {
        Err(fault(ParseErrorKind::InvalidNumber, f[1]))
    } else if decimal(f[2], u16_max()) is None {
        Err(fault(ParseErrorKind::InvalidNumber, f[2]))
    } else {
        Ok(
            RecordDataView::SRV {
                priority: decimal(f[0], u16_max())->0 as u16,
                weight: decimal(f[1], u16_max())->0 as u16,
                port: decimal(f[2], u16_max())->0 as u16,
                target: f[3],
            },
        )
    }
}

/// The data of a record of type `t` from the fields `f` that follow the
/// type word `type_token`. Too few fields are charged to the type word,
/// too many to the first one over, a malformed field to itself; the
/// fields are judged from left to right.
pub open spec fn record_data(t: RecordType, type_token: Seq<char>, f: Seq<Seq<char>>) -> Result<
    RecordDataView,
    FaultView,
> {
    if arity(t) is Some && f.len() < arity(t)->0 {
        Err(fault(ParseErrorKind::MissingField, type_token))
    } else if arity(t) is Some && f.len() > arity(t)->0 {
        Err(fault(ParseErrorKind::UnexpectedField, f[arity(t)->0 as int]))
    } else {
        match t {
            RecordType::A => match ipv4(f[0]) {
                Some(o) => Ok(RecordDataView::A(o)),
                None => Err(fault(ParseErrorKind::InvalidAddress, f[0])),
            },
            RecordType::AAAA => match ipv6(f[0]) {
                Some(g) => Ok(RecordDataView::AAAA(g)),
                None => Err(fault(ParseErrorKind::InvalidAddress, f[0])),
            },
            RecordType::CNAME => Ok(RecordDataView::CNAME(f[0])),
            RecordType::NS => Ok(RecordDataView::NS(f[0])),
            RecordType::PTR => Ok(RecordDataView::PTR(f[0])),
            RecordType::MX => match decimal(f[0], u16_max()) {
                Some(p) => Ok(RecordDataView::MX { preference: p as u16, exchange: f[1] }),
                None => Err(fault(ParseErrorKind::InvalidNumber, f[0])),
            },
            RecordType::SOA => soa_data(f),
            RecordType::SRV => srv_data(f),
            RecordType::TXT => Ok(RecordDataView::TXT(joined(f, ' '))),
        }
    }
}

/// Whether a word has the shape of a time to live, a class or a type, and
/// so is no owner name.
pub open spec fn is_field(t: Seq<char>) -> bool {
    decimal(t, u32_max()) is Some || RecordClass::named(t) is Some || RecordType::named(t) is Some
}

/// The zone after a record line with the words `w`.
pub open spec fn record_line(st: ZoneView, w: Seq<Seq<char>>) -> Result<ZoneView, FaultView>
    recommends
        w.len() > 0,
{
    let named = !is_field(w[0]);
    let name = if named {
        owner_name(w[0], st.origin)
    } else {
        st.origin
    };
    let at_ttl: int = if named {
        1
    } else {
        0
    };
    let has_ttl = at_ttl < w.len() && decimal(w[at_ttl], u32_max()) is Some;
    let ttl = if has_ttl {
        decimal(w[at_ttl], u32_max())->0 as u32
    } else {
        st.ttl
    };
    let at_class = if has_ttl {
        at_ttl + 1
    } else {
        at_ttl
    };
    let has_class = at_class < w.len() && RecordClass::named(w[at_class]) is Some;
    let class = if has_class {
        RecordClass::named(w[at_class])->0
    } else {
        RecordClass::IN
    };
    let at_type = if has_class {
        at_class + 1
    } else {
        at_class
    };
    if at_type < w.len() && RecordType::named(w[at_type]) is Some {
        match record_data(RecordType::named(w[at_type])->0, w[at_type], w.skip(at_type + 1)) {
            Ok(data) => Ok(
                ZoneView {
                    origin: st.origin,
                    ttl: st.ttl,
                    records: st.records.push(RecordView { name, ttl, class, data }),
                },
            ),
            Err(e) => Err(e),
        }
    } else {
        Err(
            fault(
                ParseErrorKind::MissingType,
                if at_type < w.len() {
                    w[at_type]
                } else {
                    Seq::empty()
                },
            ),
        )
    }
}

/// The zone after a directive line with the words `w`.
pub open spec fn directive_line(st: ZoneView, w: Seq<Seq<char>>) -> Result<ZoneView, FaultView>
    recommends
        w.len() > 0,
{
    if w[0] == "$ORIGIN"@ {
        if w.len() < 2 {
            Err(fault(ParseErrorKind::MissingOrigin, w[0]))
        } else {
            Ok(ZoneView { origin: w[1], ttl: st.ttl, records: st.records })
        }
    } else if w[0] == "$TTL"@ {
        if w.len() < 2 {
            Err(fault(ParseErrorKind::InvalidTtl, w[0]))
        } else {
            match decimal(w[1], u32_max()) {
                Some(v) => Ok(ZoneView { origin: st.origin, ttl: v as u32, records: st.records }),
                None => Err(fault(ParseErrorKind::InvalidTtl, w[1])),
            }
        }
    } else {
        Ok(st)
    }
}

/// The zone after one line.
pub open spec fn read_line(st: ZoneView, line: Seq<char>) -> Result<ZoneView, FaultView> {
    let w = words(line);
    if w.len() == 0 || w[0].first() == ';' {
        Ok(st)
    } else if w[0].first() == '$' {
        directive_line(st, w)
    } else {
        record_line(st, w)
    }
}

/// The zone after the given lines, read in order from a zone with the
/// given origin and default time to live and no records; or the first
/// refusal, with the number of its line.
pub open spec fn read_lines(all: Seq<Seq<char>>, origin: Seq<char>, ttl: u32) -> Result<
    ZoneView,
    ParseErrorView,
>
    decreases all.len(),
{
    if all.len() == 0 {
        Ok(ZoneView { origin, ttl, records: Seq::empty() })
    } else {
        match read_lines(all.drop_last(), origin, ttl) {
            Err(e) => Err(e),
            Ok(st) => match read_line(st, all.last()) {
                Ok(next) => Ok(next),
                Err(f) => Err(ParseErrorView { kind: f.kind, line: all.len(), token: f.token }),
            },
        }
    }
}

/// What reading the master file `content` gives.
pub open spec fn read_zone(content: Seq<char>, origin: Seq<char>, ttl: u32) -> Result<
    ZoneView,
    ParseErrorView,
> {
    read_lines(lines(content), origin, ttl)
}


fn refuse(kind: ParseErrorKind, token: &[char]) -> (r: Fault)
    ensures
        r@ == fault(kind, token@),
{
    Fault { kind, token: string_of(token) }
}

fn number_u32(f: &[char]) -> (r: Option<u32>)
    ensures
        match decimal(f@, u32_max()) {
            Some(v) => r == Some(v as u32),
            None => r is None,
        },
{
    parse_decimal(f, 0xFFFF_FFFF)
}

fn number_u16(f: &[char]) -> (r: Option<u16>)
    ensures
        match decimal(f@, u16_max()) {
            Some(v) => r == Some(v as u16),
            None => r is None,
        },
{
    match parse_decimal(f, 0xFFFF) {
        Some(v) => Some(v as u16),
        None => None,
    }
}

fn read_soa(f: &[Vec<char>]) -> (r: Result<RecordData, Fault>)
    requires
        f@.len() == 7,
    ensures
        match soa_data(views(f@)) {
            Ok(d) => r is Ok && r->Ok_0@ == d,
            Err(e) => r is Err && r->Err_0@ == e,
        },
{
    assert(forall|i: int| 0 <= i < 7 ==> views(f@)[i] == f@[i]@);
    let serial = match number_u32(f[2].as_slice()) {
        Some(v) => v,
        None => {
            return Err(refuse(ParseErrorKind::InvalidNumber, f[2].as_slice()));
        },
    };
    let refresh = match number_u32(f[3].as_slice()) {
        Some(v) => v,
        None => {
            return Err(refuse(ParseErrorKind::InvalidNumber, f[3].as_slice()));
        },
    };
    let retry = match number_u32(f[4].as_slice()) {
        Some(v) => v,
        None => {
            return Err(refuse(ParseErrorKind::InvalidNumber, f[4].as_slice()));
        },
    };
    let expire = match number_u32(f[5].as_slice()) {
        Some(v) => v,
        None => {
            return Err(refuse(ParseErrorKind::InvalidNumber, f[5].as_slice()));
        },
    };
    let minimum = match number_u32(f[6].as_slice()) {
        Some(v) => v,
        None => {
            return Err(refuse(ParseErrorKind::InvalidNumber, f[6].as_slice()));
        },
    };
    Ok(
        RecordData::SOA {
            mname: string_of(f[0].as_slice()),
            rname: string_of(f[1].as_slice()),
            serial,
            refresh,
            retry,
            expire,
            minimum,
        },
    )
}

fn read_srv(f: &[Vec<char>]) -> (r: Result<RecordData, Fault>)
    requires
        f@.len() == 4,
    ensures
        match srv_data(views(f@)) {
            Ok(d) => r is Ok && r->Ok_0@ == d,
            Err(e) => r is Err && r->Err_0@ == e,
        },
{
    assert(forall|i: int| 0 <= i < 4 ==> views(f@)[i] == f@[i]@);
    let priority = match number_u16(f[0].as_slice()) {
        Some(v) => v,
        None => {
            return Err(refuse(ParseErrorKind::InvalidNumber, f[0].as_slice()));
        },
    };
    let weight = match number_u16(f[1].as_slice()) {
        Some(v) => v,
        None => {
            return Err(refuse(ParseErrorKind::InvalidNumber, f[1].as_slice()));
        },
    };
    let port = match number_u16(f[2].as_slice()) {
        Some(v) => v,
        None => {
            return Err(refuse(ParseErrorKind::InvalidNumber, f[2].as_slice()));
        },
    };
    Ok(RecordData::SRV { priority, weight, port, target: string_of(f[3].as_slice()) })
}

fn field_count(t: RecordType) -> (r: Option<usize>)
    ensures
        match arity(t) {
            Some(n) => r == Some(n as usize),
            None => r is None,
        },
{
    match t {
        RecordType::A | RecordType::AAAA | RecordType::CNAME | RecordType::NS | RecordType::PTR => Some(
            1,
        ),
        RecordType::MX => Some(2),
        RecordType::SOA => Some(7),
        RecordType::SRV => Some(4),
        RecordType::TXT => None,
    }
}

/// Reads the data of a record of type `t` from the fields `f` that follow
/// the type word.
fn read_data(t: RecordType, type_token: &[char], f: &[Vec<char>]) -> (r: Result<RecordData, Fault>)
    ensures
        match record_data(t, type_token@, views(f@)) {
            Ok(d) => r is Ok && r->Ok_0@ == d,
            Err(e) => r is Err && r->Err_0@ == e,
        },
{
    assert(forall|i: int| 0 <= i < f@.len() ==> views(f@)[i] == f@[i]@);
    match field_count(t) {
        Some(n) => {
            if f.len() < n {
                return Err(refuse(ParseErrorKind::MissingField, type_token));
            }
            if f.len() > n {
                return Err(refuse(ParseErrorKind::UnexpectedField, f[n].as_slice()));
            }
        },
        None => {},
    }
    match t {
        RecordType::A => match parse_ipv4(f[0].as_slice()) {
            Some(o) => Ok(RecordData::A(o)),
            None => Err(refuse(ParseErrorKind::InvalidAddress, f[0].as_slice())),
        },
        RecordType::AAAA => match parse_ipv6(f[0].as_slice()) {
            Some(g) => Ok(RecordData::AAAA(g)),
            None => Err(refuse(ParseErrorKind::InvalidAddress, f[0].as_slice())),
        },
        RecordType::CNAME => Ok(RecordData::CNAME(string_of(f[0].as_slice()))),
        RecordType::NS => Ok(RecordData::NS(string_of(f[0].as_slice()))),
        RecordType::PTR => Ok(RecordData::PTR(string_of(f[0].as_slice()))),
        RecordType::MX => match number_u16(f[0].as_slice()) {
            Some(p) => Ok(RecordData::MX { preference: p, exchange: string_of(f[1].as_slice()) }),
            None => Err(refuse(ParseErrorKind::InvalidNumber, f[0].as_slice())),
        },
        RecordType::SOA => read_soa(f),
        RecordType::SRV => read_srv(f),
        RecordType::TXT => {
            let text = join(f, ' ');
            Ok(RecordData::TXT(string_of(text.as_slice())))
        },
    }
}


fn is_field_word(t: &[char]) -> (r: bool)
    ensures
        r == is_field(t@),
{
    number_u32(t).is_some() || RecordClass::from_chars(t).is_some() || RecordType::from_chars(
        t,
    ).is_some()
}

fn full_name(name: &[char], origin: &String) -> (r: String)
    ensures
        r@ == owner_name(name@, origin@),
{
    proof {
        reveal_strlit("@");
        reveal_strlit(".");
    }
    if name.len() == 1 && name[0] == '@' {
        assert(name@ =~= "@"@);
        origin.clone()
    } else if name.len() > 0 && name[name.len() - 1] == '.' {
        string_of(name)
    } else {
        string_of(name).concat(".").concat(origin.as_str())
    }
}

/// Reads a record line with the words `w` and appends the record to `zone`.
fn read_record(zone: &mut Zone, w: &Vec<Vec<char>>) -> (r: Result<(), Fault>)
    requires
        w@.len() > 0,
    ensures
        match record_line(old(zone)@, views(w@)) {
            Ok(z) => r is Ok && final(zone)@ == z,
            Err(e) => r is Err && r->Err_0@ == e && final(zone)@ == old(zone)@,
        },
{
    assert(forall|i: int| 0 <= i < w@.len() ==> views(w@)[i] == w@[i]@);
    let n = w.len();
    let mut at: usize = 0;
    let name = if is_field_word(w[0].as_slice()) {
        zone.origin.clone()
    } else {
        at = 1;
        full_name(w[0].as_slice(), &zone.origin)
    };
    let mut ttl = zone.ttl;
    if at < n {
        match number_u32(w[at].as_slice()) {
            Some(v) => {
                ttl = v;
                at += 1;
            },
            None => {},
        }
    }
    let mut class = RecordClass::IN;
    if at < n {
        match RecordClass::from_chars(w[at].as_slice()) {
            Some(c) => {
                class = c;
                at += 1;
            },
            None => {},
        }
    }
    if at >= n {
        let none: [char; 0] = [];
        assert(none@ =~= Seq::<char>::empty());
        return Err(refuse(ParseErrorKind::MissingType, none.as_slice()));
    }
    let t = match RecordType::from_chars(w[at].as_slice()) {
        Some(t) => t,
        None => {
            return Err(refuse(ParseErrorKind::MissingType, w[at].as_slice()));
        },
    };
    let rest = vstd::slice::slice_subrange(w.as_slice(), at + 1, n);
    assert(views(rest@) == views(w@).skip(at + 1));
    match read_data(t, w[at].as_slice(), rest) {
        Ok(data) => {
            let record = ResourceRecord { name, ttl, class, data };
            let ghost before = record_views(zone.records@);
            zone.records.push(record);
            assert(record_views(zone.records@) == before.push(record@));
            Ok(())
        },
        Err(e) => Err(e),
    }
}

/// Reads a directive line with the words `w`.
fn read_directive(zone: &mut Zone, w: &Vec<Vec<char>>) -> (r: Result<(), Fault>)
    requires
        w@.len() > 0,
    ensures
        match directive_line(old(zone)@, views(w@)) {
            Ok(z) => r is Ok && final(zone)@ == z,
            Err(e) => r is Err && r->Err_0@ == e && final(zone)@ == old(zone)@,
        },
{
    assert(forall|i: int| 0 <= i < w@.len() ==> views(w@)[i] == w@[i]@);
    proof {
        reveal_strlit("$ORIGIN");
        reveal_strlit("$TTL");
    }
    let origin_word: [char; 7] = ['$', 'O', 'R', 'I', 'G', 'I', 'N'];
    let ttl_word: [char; 4] = ['$', 'T', 'T', 'L'];
    assert(origin_word@ =~= "$ORIGIN"@);
    assert(ttl_word@ =~= "$TTL"@);
    if eq_chars(w[0].as_slice(), origin_word.as_slice()) {
        if w.len() < 2 {
            return Err(refuse(ParseErrorKind::MissingOrigin, w[0].as_slice()));
        }
        zone.origin = string_of(w[1].as_slice());
        Ok(())
    } else if eq_chars(w[0].as_slice(), ttl_word.as_slice()) {
        if w.len() < 2 {
            return Err(refuse(ParseErrorKind::InvalidTtl, w[0].as_slice()));
        }
        match number_u32(w[1].as_slice()) {
            Some(v) => {
                zone.ttl = v;
                Ok(())
            },
            None => Err(refuse(ParseErrorKind::InvalidTtl, w[1].as_slice())),
        }
    } else {
        Ok(())
    }
}

/// Reads one line into `zone`.
fn read_one_line(zone: &mut Zone, line: &[char]) -> (r: Result<(), Fault>)
    ensures
        match read_line(old(zone)@, line@) {
            Ok(z) => r is Ok && final(zone)@ == z,
            Err(e) => r is Err && r->Err_0@ == e && final(zone)@ == old(zone)@,
        },
{
    let w = split_words(line);
    proof {
        lemma_words_nonempty(line@);
    }
    if w.len() == 0 {
        return Ok(());
    }
    assert(views(w@)[0] == w@[0]@);
    let first = w[0][0];
    if first == ';' {
        Ok(())
    } else if first == '$' {
        read_directive(zone, &w)
    } else {
        read_record(zone, &w)
    }
}

/// The reader of zone master files.
pub struct ZoneParser;

impl ZoneParser {
    /// Reads the master file `content` into a zone. Before the first
    /// directive the origin is `default_origin` and the default time to
    /// live `default_ttl`; the zone carries the values in force at the end
    /// of the file and the records in the order of the file. The first
    /// line that is refused ends the reading.
    pub fn parse_zone_file(content: &str, default_origin: String, default_ttl: u32) -> (r: Result<
        Zone,
        ParseError,
    >)
        ensures
            match read_zone(content@, default_origin@, default_ttl) {
                Ok(z) => r is Ok && r->Ok_0@ == z,
                Err(e) => r is Err && r->Err_0@ == e,
            },
    {
        let ghost origin = default_origin@;
        let chars = chars_of(content);
        let all = split_fields(chars.as_slice(), '\n');
        let mut zone = Zone { origin: default_origin, ttl: default_ttl, records: Vec::new() };
        assert(record_views(zone.records@) == Seq::<RecordView>::empty());
        assert(views(all@).take(0) == Seq::<Seq<char>>::empty());
        let mut k: usize = 0;
        while k < all.len()
            invariant
                k <= all@.len(),
                origin == default_origin@,
                views(all@) == lines(content@),
                read_lines(views(all@).take(k as int), origin, default_ttl) == Ok::<
                    ZoneView,
                    ParseErrorView,
                >(zone@),
            decreases all.len() - k,
        {
            let ghost next = views(all@).take(k + 1);
            let ghost before = zone@;
            proof {
                assert(next.drop_last() == views(all@).take(k as int));
                assert(next.last() == all@[k as int]@);
                assert(read_lines(next.drop_last(), origin, default_ttl) == Ok::<
                    ZoneView,
                    ParseErrorView,
                >(before));
            }
            match read_one_line(&mut zone, all[k].as_slice()) {
                Ok(()) => {
                    assert(read_line(before, next.last()) == Ok::<ZoneView, FaultView>(zone@));
                },
                Err(f) => {
                    proof {
                        assert(read_line(before, next.last()) == Err::<ZoneView, FaultView>(f@));
                        assert(read_lines(next, origin, default_ttl) is Err);
                        lemma_refusal_stands(views(all@), k + 1, origin, default_ttl);
                    }
                    return Err(ParseError { kind: f.kind, line: k + 1, token: f.token });
                },
            }
            k += 1;
        }
        assert(views(all@).take(k as int) == views(all@));
        Ok(zone)
    }
}

/// A refusal among the first `n` lines is the refusal of the whole.
proof fn lemma_refusal_stands(all: Seq<Seq<char>>, n: int, origin: Seq<char>, ttl: u32)
    requires
        0 <= n <= all.len(),
        read_lines(all.take(n), origin, ttl) is Err,
    ensures
        read_lines(all, origin, ttl) == read_lines(all.take(n), origin, ttl),
    decreases all.len(),
{
    if n < all.len() {
        assert(all.drop_last().take(n) == all.take(n));
        lemma_refusal_stands(all.drop_last(), n, origin, ttl);
    } else {
        assert(all.take(n) == all);
    }
}

} // verus!
