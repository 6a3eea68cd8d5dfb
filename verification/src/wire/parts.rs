//! The parts of a message that `trust_dns_proto` reads and writes: a
//! domain name, and the data of a record of one of the nine types.
//!
//! Nothing here is proved. Each function hands plain values to the outside
//! crate and takes plain values back, and its contract gives what came
//! back a name, so that the contracts of the codec can say from which
//! octets and which values each part of a message comes.
//!
//! The readers take a whole message and an offset into it, since a name
//! may point back into the message. `Name::read` calls itself once for
//! every pointer that it follows; it follows a pointer only to an offset
//! before the start of the name that ends in the pointer, which is what
//! [`hops`](crate::wire::pointers::hops) counts. So each reader asks for a
//! message that is [`shallow`]: then no read nests deeper than
//! [`MAX_POINTER_HOPS`](crate::wire::pointers::MAX_POINTER_HOPS) calls.
//!
//! Names pass as text in ASCII: `Name::to_ascii` gives a label in
//! another script in its `xn--` form, and `Name::from_ascii` takes no
//! other. The conversions of the outside crate that take and give other
//! scripts go through a Punycode encoder whose counters can overflow on a
//! long label; none of the functions here reaches it. For the same reason
//! the data readers are called for the nine types only: the readers of
//! some other types parse names from text.

use crate::db::record::{RecordData, RecordDataView, RecordType};
use crate::wire::header::DecodeError;
use crate::wire::pointers::shallow;
use trust_dns_proto::error::{ProtoError, ProtoErrorKind};
use trust_dns_proto::rr::rdata::{MX, SOA, SRV, TXT};
use trust_dns_proto::rr::{Name, RData};
use trust_dns_proto::serialize::binary::{BinDecodable, BinDecoder, BinEncodable, BinEncoder, Restrict};
use vstd::prelude::*;

verus! {

/// `trust_dns_proto::error::ProtoError`, which the writers hand on as
/// they get it: nothing is known of what it holds.
#[verifier::external_type_specification]
#[verifier::external_body]
pub struct ExProtoError(trust_dns_proto::error::ProtoError);

/// The longest message that the outside reader takes offsets into.
pub const MAX_MESSAGE_LEN: usize = 0xFFFF;

/// The most characters of a name that is handed to the outside crate,
/// so that the work it does on a name is bounded. A name of 255 octets,
/// the longest there is, takes fewer characters even where every octet
/// is written as an escape of four.
pub const MAX_NAME_TEXT: usize = 1024;

/// The name that stands at offset `at` of the message `bytes`, as ASCII
/// text, and the offset behind it; or why there is none.
pub uninterp spec fn wire_name(bytes: Seq<u8>, at: nat) -> Result<(Seq<char>, nat), DecodeError>;

/// The data of `len` octets that stands at offset `at` of the message
/// `bytes`, read as the data of a record with the type code `rtype`.
pub uninterp spec fn wire_data(bytes: Seq<u8>, at: nat, rtype: u16, len: u16) -> Option<
    RecordDataView,
>;

/// The octets of a name, without compression.
pub uninterp spec fn name_bytes(name: Seq<char>) -> Option<Seq<u8>>;

/// The octets of the data of a record, its names in lower case and
/// without compression.
pub uninterp spec fn data_bytes(data: RecordDataView) -> Option<Seq<u8>>;

/// Kinds of data that hold one address or one text.
pub open spec fn is_plain(t: RecordType) -> bool {
    t == RecordType::A || t == RecordType::AAAA || t == RecordType::TXT
}

/// Kinds of data that hold one name.
pub open spec fn is_target(t: RecordType) -> bool {
    t == RecordType::CNAME || t == RecordType::NS || t == RecordType::PTR
}

/// Kinds of data that hold numbers and one name.
pub open spec fn is_service(t: RecordType) -> bool {
    t == RecordType::MX || t == RecordType::SRV
}

/// Whether `rtype` is the code of a type whose data is an address or a text.
pub open spec fn plain_code(rtype: u16) -> bool {
    RecordType::with_code(rtype) is Some && is_plain(RecordType::with_code(rtype)->0)
}

/// Whether `rtype` is the code of a type whose data is one name.
pub open spec fn target_code(rtype: u16) -> bool {
    RecordType::with_code(rtype) is Some && is_target(RecordType::with_code(rtype)->0)
}

/// Whether `rtype` is the code of a type whose data is numbers and a name.
pub open spec fn service_code(rtype: u16) -> bool {
    RecordType::with_code(rtype) is Some && is_service(RecordType::with_code(rtype)->0)
}

/// Whether no name in the data has more than [`MAX_NAME_TEXT`] characters.
pub open spec fn names_fit(data: RecordDataView) -> bool {
    match data {
        RecordDataView::CNAME(n) | RecordDataView::NS(n) | RecordDataView::PTR(n) => n.len()
            <= MAX_NAME_TEXT,
        RecordDataView::MX { exchange, .. } => exchange.len() <= MAX_NAME_TEXT,
        RecordDataView::SRV { target, .. } => target.len() <= MAX_NAME_TEXT,
        RecordDataView::SOA { mname, rname, .. } => mname.len() <= MAX_NAME_TEXT && rname.len()
            <= MAX_NAME_TEXT,
        _ => true,
    }
}

/// `Name::read` on a decoder that stands at offset `at` of `bytes`: the
/// name as `Name::to_ascii` gives it, and `BinDecoder::index` after the
/// name. A failure for want of octets (`ProtoError::kind` holds the text
/// of the decoder's `InsufficientBytes`) is given as `Truncated`, one that
/// concerns the labels as `InvalidLabel`, any other as `Malformed`. The
/// result depends on the arguments alone, and the index is within the
/// message.
#[verifier::external_body]
pub(crate) fn read_name(bytes: &[u8], at: usize) -> (r: Result<(String, usize), DecodeError>)
    requires
        at <= bytes@.len() <= MAX_MESSAGE_LEN,
        shallow(bytes@),
    ensures
        match r {
            Ok((name, next)) => wire_name(bytes@, at as nat) == Ok::<(Seq<char>, nat), DecodeError>(
                (name@, next as nat),
            ) && next <= bytes@.len(),
            Err(e) => wire_name(bytes@, at as nat) == Err::<(Seq<char>, nat), DecodeError>(e) && (e
                == DecodeError::Truncated || e == DecodeError::InvalidLabel || e
                == DecodeError::Malformed),
        },
{
    let short = trust_dns_proto::serialize::binary::DecodeError::InsufficientBytes.to_string();
    let mut decoder = BinDecoder::new(bytes).clone(at as u16);
    let name = Name::read(&mut decoder).map_err(|e| match e.kind() {
        ProtoErrorKind::Msg(m) if *m == short => DecodeError::Truncated,
        ProtoErrorKind::LabelBytesTooLong(_) => DecodeError::InvalidLabel,
        ProtoErrorKind::UnrecognizedLabelCode(_) => DecodeError::InvalidLabel,
        ProtoErrorKind::DomainNameTooLong(_) => DecodeError::InvalidLabel,
        ProtoErrorKind::PointerNotPriorToLabel { .. } => DecodeError::InvalidLabel,
        ProtoErrorKind::LabelOverlapsWithOther { .. } => DecodeError::InvalidLabel,
        _ => DecodeError::Malformed,
    })?;
    Ok((name.to_ascii(), decoder.index()))
}

/// `RData::read`, for the type with code `rtype` and the length `len`, on
/// a decoder that stands at offset `at` of `bytes`: the octets of an `A`,
/// the groups of an `AAAA`, the strings of a `TXT` as its `Display` joins
/// them. There is no data where the reading fails. The result depends on
/// the arguments alone.
#[verifier::external_body]
pub(crate) fn read_plain_data(bytes: &[u8], at: usize, rtype: u16, len: u16) -> (r: Option<RecordData>)
    requires
        at <= bytes@.len() <= MAX_MESSAGE_LEN,
        shallow(bytes@),
        plain_code(rtype),
    ensures
        match r {
            Some(d) => wire_data(bytes@, at as nat, rtype, len) == Some(d@),
            None => wire_data(bytes@, at as nat, rtype, len) is None,
        },
{
    let mut decoder = BinDecoder::new(bytes).clone(at as u16);
    match RData::read(&mut decoder, rtype.into(), Restrict::new(len)).ok()? {
        RData::A(a) => Some(RecordData::A(a.octets())),
        RData::AAAA(a) => Some(RecordData::AAAA(a.segments())),
        RData::TXT(t) => Some(RecordData::TXT(t.to_string())),
        _ => None,
    }
}

/// `RData::read`, for the type with code `rtype` and the length `len`, on
/// a decoder that stands at offset `at` of `bytes`: the name of a
/// `CNAME`, an `NS` or a `PTR` as `Name::to_ascii` gives it. There is no
/// data where the reading fails. The result depends on the arguments
/// alone.
#[verifier::external_body]
pub(crate) fn read_target_data(bytes: &[u8], at: usize, rtype: u16, len: u16) -> (r: Option<RecordData>)
    requires
        at <= bytes@.len() <= MAX_MESSAGE_LEN,
        shallow(bytes@),
        target_code(rtype),
    ensures
        match r {
            Some(d) => wire_data(bytes@, at as nat, rtype, len) == Some(d@),
            None => wire_data(bytes@, at as nat, rtype, len) is None,
        },
{
    let mut decoder = BinDecoder::new(bytes).clone(at as u16);
    match RData::read(&mut decoder, rtype.into(), Restrict::new(len)).ok()? {
        RData::CNAME(n) => Some(RecordData::CNAME(n.to_ascii())),
        RData::NS(n) => Some(RecordData::NS(n.to_ascii())),
        RData::PTR(n) => Some(RecordData::PTR(n.to_ascii())),
        _ => None,
    }
}

/// `RData::read`, for the type with code `rtype` and the length `len`, on
/// a decoder that stands at offset `at` of `bytes`: the numbers of an
/// `MX` or an `SRV`, and its name as `Name::to_ascii` gives it. There is
/// no data where the reading fails. The result depends on the arguments
/// alone.
#[verifier::external_body]
pub(crate) fn read_service_data(bytes: &[u8], at: usize, rtype: u16, len: u16) -> (r: Option<RecordData>)
    requires
        at <= bytes@.len() <= MAX_MESSAGE_LEN,
        shallow(bytes@),
        service_code(rtype),
    ensures
        match r {
            Some(d) => wire_data(bytes@, at as nat, rtype, len) == Some(d@),
            None => wire_data(bytes@, at as nat, rtype, len) is None,
        },
{
    let mut decoder = BinDecoder::new(bytes).clone(at as u16);
    match RData::read(&mut decoder, rtype.into(), Restrict::new(len)).ok()? {
        RData::MX(m) => Some(RecordData::MX { preference: m.preference(), exchange: m.exchange().to_ascii() }),
        RData::SRV(s) => {
            let (priority, weight, port) = (s.priority(), s.weight(), s.port());
            Some(RecordData::SRV { priority, weight, port, target: s.target().to_ascii() })
        },
        _ => None,
    }
}

/// `RData::read`, for the type `SOA` and the length `len`, on a decoder
/// that stands at offset `at` of `bytes`: the two names as
/// `Name::to_ascii` gives them and the five numbers, the three signed
/// ones taken as the unsigned numbers with the same 32 bits. There is no
/// data where the reading fails. The result depends on the arguments
/// alone.
#[verifier::external_body]
pub(crate) fn read_soa_data(bytes: &[u8], at: usize, rtype: u16, len: u16) -> (r: Option<RecordData>)
    requires
        at <= bytes@.len() <= MAX_MESSAGE_LEN,
        shallow(bytes@),
        RecordType::with_code(rtype) == Some(RecordType::SOA),
    ensures
        match r {
            Some(d) => wire_data(bytes@, at as nat, rtype, len) == Some(d@),
            None => wire_data(bytes@, at as nat, rtype, len) is None,
        },
{
    let mut decoder = BinDecoder::new(bytes).clone(at as u16);
    match RData::read(&mut decoder, rtype.into(), Restrict::new(len)).ok()? {
        RData::SOA(s) => {
            let (mname, rname) = (s.mname().to_ascii(), s.rname().to_ascii());
            let (refresh, retry, expire) = (s.refresh() as u32, s.retry() as u32, s.expire() as u32);
            Some(RecordData::SOA { mname, rname, serial: s.serial(), refresh, retry, expire, minimum: s.minimum() })
        },
        _ => None,
    }
}

/// `Name::to_bytes` of the name that `Name::from_ascii` makes of `name`.
/// It fails where one of the two does. The result depends on the name
/// alone, and holds no compression pointer.
#[verifier::external_body]
pub(crate) fn emit_name(name: &str) -> (r: Result<Vec<u8>, ProtoError>)
    requires
        name@.len() <= MAX_NAME_TEXT,
    ensures
        match r {
            Ok(b) => name_bytes(name@) == Some(b@),
            Err(_) => name_bytes(name@) is None,
        },
{
    Name::from_ascii(name)?.to_bytes()
}

/// `RData::emit`, on a new encoder, of an address or of a text as the one
/// string of a `TXT`. It fails where the emitting does. The result
/// depends on the data alone.
#[verifier::external_body]
pub(crate) fn emit_plain_data(data: &RecordData) -> (r: Result<Vec<u8>, ProtoError>)
    requires
        is_plain(data@.kind()),
    ensures
        match r {
            Ok(b) => data_bytes(data@) == Some(b@),
            Err(_) => data_bytes(data@) is None,
        },
{
    let rdata = match data {
        RecordData::A(o) => RData::A((*o).into()),
        RecordData::AAAA(g) => RData::AAAA((*g).into()),
        RecordData::TXT(t) => RData::TXT(TXT::new(vec![t.clone()])),
        _ => return Err("no address or text".into()),
    };
    let mut buf = Vec::new();
    rdata.emit(&mut BinEncoder::new(&mut buf))?;
    Ok(buf)
}

/// `RData::emit`, on a new encoder that writes names in full, of a
/// `CNAME`, an `NS` or a `PTR` whose name is made by `Name::from_ascii`.
/// It fails where the name or the emitting does. The result depends on
/// the data alone.
#[verifier::external_body]
pub(crate) fn emit_target_data(data: &RecordData) -> (r: Result<Vec<u8>, ProtoError>)
    requires
        is_target(data@.kind()),
        names_fit(data@),
    ensures
        match r {
            Ok(b) => data_bytes(data@) == Some(b@),
            Err(_) => data_bytes(data@) is None,
        },
{
    let rdata = match data {
        RecordData::CNAME(t) => RData::CNAME(Name::from_ascii(t)?),
        RecordData::NS(t) => RData::NS(Name::from_ascii(t)?),
        RecordData::PTR(t) => RData::PTR(Name::from_ascii(t)?),
        _ => return Err("no CNAME, NS or PTR".into()),
    };
    let mut buf = Vec::new();
    let mut encoder = BinEncoder::new(&mut buf);
    encoder.set_canonical_names(true);
    rdata.emit(&mut encoder)?;
    Ok(buf)
}

/// `RData::emit`, on a new encoder that writes names in full, of an `MX`
/// or an `SRV` (`MX::new`, `SRV::new`) whose name is made by
/// `Name::from_ascii`. It fails where the name or the emitting does. The
/// result depends on the data alone.
#[verifier::external_body]
pub(crate) fn emit_service_data(data: &RecordData) -> (r: Result<Vec<u8>, ProtoError>)
    requires
        is_service(data@.kind()),
        names_fit(data@),
    ensures
        match r {
            Ok(b) => data_bytes(data@) == Some(b@),
            Err(_) => data_bytes(data@) is None,
        },
{
    let rdata = match data {
        RecordData::MX { preference, exchange } => RData::MX(MX::new(*preference, Name::from_ascii(exchange)?)),
        RecordData::SRV { priority, weight, port, target } => RData::SRV(SRV::new(*priority, *weight, *port, Name::from_ascii(target)?)),
        _ => return Err("no MX or SRV".into()),
    };
    let mut buf = Vec::new();
    let mut encoder = BinEncoder::new(&mut buf);
    encoder.set_canonical_names(true);
    rdata.emit(&mut encoder)?;
    Ok(buf)
}

/// `RData::emit`, on a new encoder that writes names in full, of an `SOA`
/// (`SOA::new`) whose names are made by `Name::from_ascii`, the three
/// signed numbers being those with the same 32 bits. It fails where a
/// name or the emitting does. The result depends on the data alone.
#[verifier::external_body]
pub(crate) fn emit_soa_data(data: &RecordData) -> (r: Result<Vec<u8>, ProtoError>)
    requires
        data@.kind() == RecordType::SOA,
        names_fit(data@),
    ensures
        match r {
            Ok(b) => data_bytes(data@) == Some(b@),
            Err(_) => data_bytes(data@) is None,
        },
{
    let RecordData::SOA { mname, rname, serial, refresh, retry, expire, minimum } = data else {
        return Err("no SOA".into());
    };
    let (m, r) = (Name::from_ascii(mname)?, Name::from_ascii(rname)?);
    let soa = SOA::new(m, r, *serial, *refresh as i32, *retry as i32, *expire as i32, *minimum);
    let mut buf = Vec::new();
    let mut encoder = BinEncoder::new(&mut buf);
    encoder.set_canonical_names(true);
    RData::SOA(soa).emit(&mut encoder)?;
    Ok(buf)
}

} // verus!
