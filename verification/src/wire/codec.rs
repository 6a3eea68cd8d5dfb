//! Reading and writing whole messages.
//!
//! A message is its header, then its questions, then its answer,
//! authority and additional records, each section as long as the header
//! says. A question is a name and the codes of a type and a class. A
//! record is a name, the codes of its type and its class, its time to
//! live, the length of its data and the data. Every number stands with
//! its most significant octet first. Records of a type or a class that
//! [`ResourceRecord`] cannot hold are passed over when a message is read.

use crate::db::record::{
    record_views, RecordClass, RecordData, RecordDataView, RecordType, RecordView, ResourceRecord,
};
use crate::wire::header::{
    be16, be32, header_bytes, header_of, push_u16, push_u32, read_header, read_u16, read_u32,
    u16_bytes, u32_bytes, write_header, Counts, DecodeError, EncodeError, Header, HEADER_LEN,
};
use crate::wire::message::{question_views, Message, MessageView, Question, QuestionView};
use crate::wire::parts::{
    data_bytes, emit_name, emit_plain_data, emit_service_data, emit_soa_data, emit_target_data,
    name_bytes, names_fit, read_name, read_plain_data, read_service_data, read_soa_data,
    read_target_data, wire_data, wire_name, MAX_MESSAGE_LEN, MAX_NAME_TEXT,
};
use crate::wire::pointers::{is_shallow, shallow};
use vstd::prelude::*;
use vstd::string::StrSliceExecFns;

verus! {

/// The most octets that a message may take by default: what fits a UDP
/// datagram where no larger size was agreed on.
pub const MAX_UDP_PAYLOAD: usize = 512;

/// What stands before the data of a record on the wire: the owner, the
/// codes of the type and the class, the time to live and the length of
/// the data.
#[derive(Debug, PartialEq, Eq, Hash, Clone)]
pub struct RecordHead {
    pub name: String,
    pub rtype: u16,
    pub class: u16,
    pub ttl: u32,
    pub data_len: u16,
}

/// What a [`RecordHead`] holds, as mathematical values.
pub struct RecordHeadView {
    pub name: Seq<char>,
    pub rtype: u16,
    pub class: u16,
    pub ttl: u32,
    pub data_len: u16,
}

impl View for RecordHead {
    type V = RecordHeadView;

    open spec fn view(&self) -> RecordHeadView {
        RecordHeadView {
            name: self.name@,
            rtype: self.rtype,
            class: self.class,
            ttl: self.ttl,
            data_len: self.data_len,
        }
    }
}

/// The question that stands at offset `at` and the offset behind it: a
/// name and four octets. Where the four octets are not all there, the
/// message is `Truncated`.
pub open spec fn wire_question(bytes: Seq<u8>, at: nat) -> Result<(QuestionView, nat), DecodeError> {
    match wire_name(bytes, at) {
        Err(e) => Err(e),
        Ok((name, n)) => if n + 4 > bytes.len() {
            Err(DecodeError::Truncated)
        } else {
            let i = n as int;
            Ok(
                (
                    QuestionView {
                        name,
                        qtype: be16(bytes[i], bytes[i + 1]),
                        qclass: be16(bytes[i + 2], bytes[i + 3]),
                    },
                    n + 4,
                ),
            )
        },
    }
}

/// The head of the record that stands at offset `at` and the offset of
/// its data: a name and ten octets. Where the ten octets or the data are
/// not all there, the message is `Truncated`.
pub open spec fn wire_record(bytes: Seq<u8>, at: nat) -> Result<(RecordHeadView, nat), DecodeError> {
    match wire_name(bytes, at) {
        Err(e) => Err(e),
        Ok((name, n)) => if n + 10 > bytes.len() {
            Err(DecodeError::Truncated)
        } else {
            let i = n as int;
            let head = RecordHeadView {
                name,
                rtype: be16(bytes[i], bytes[i + 1]),
                class: be16(bytes[i + 2], bytes[i + 3]),
                ttl: be32(bytes[i + 4], bytes[i + 5], bytes[i + 6], bytes[i + 7]),
                data_len: be16(bytes[i + 8], bytes[i + 9]),
            };
            if n + 10 + head.data_len > bytes.len() {
                Err(DecodeError::Truncated)
            } else {
                Ok((head, n + 10))
            }
        },
    }
}

/// The first `n` questions from offset `at` on, and the offset behind them.
pub open spec fn questions_at(bytes: Seq<u8>, at: nat, n: nat) -> Result<
    (Seq<QuestionView>, nat),
    DecodeError,
>
    decreases n,
{
    if n == 0 {
        Ok((Seq::empty(), at))
    } else {
        match questions_at(bytes, at, (n - 1) as nat) {
            Err(e) => Err(e),
            Ok((before, mid)) => match wire_question(bytes, mid) {
                Err(e) => Err(e),
                Ok((q, next)) => Ok((before.push(q), next)),
            },
        }
    }
}

/// The record type under which a record is kept: that of its type code,
/// where its class is `IN`.
pub open spec fn kept_as(head: RecordHeadView) -> Option<RecordType> {
    if head.class == RecordClass::IN.code() {
        RecordType::with_code(head.rtype)
    } else {
        None
    }
}

/// The record that a head and the data read behind it make. There is
/// none where the record is passed over for its class or its type. A
/// record that is kept but has no data, or data of another type than its
/// own, is `Malformed`.
pub open spec fn kept_record(head: RecordHeadView, data: Option<RecordDataView>) -> Result<
    Option<RecordView>,
    DecodeError,
> {
    match kept_as(head) {
        None => Ok(None),
        Some(t) => match data {
            Some(d) => if d.kind() == t {
                Ok(Some(RecordView { name: head.name, ttl: head.ttl, class: RecordClass::IN, data: d }))
            } else {
                Err(DecodeError::Malformed)
            },
            None => Err(DecodeError::Malformed),
        },
    }
}

/// The record at offset `at` and the offset behind it. The record is
/// `None` where it is passed over.
pub open spec fn record_at(bytes: Seq<u8>, at: nat) -> Result<(Option<RecordView>, nat), DecodeError> {
    match wire_record(bytes, at) {
        Err(e) => Err(e),
        Ok((head, data_at)) => {
            let data = if kept_as(head) is Some {
                wire_data(bytes, data_at, head.rtype, head.data_len)
            } else {
                None
            };
            match kept_record(head, data) {
                Ok(r) => Ok((r, data_at + head.data_len as nat)),
                Err(e) => Err(e),
            }
        },
    }
}

/// Those of the first `n` records from offset `at` on that are kept, and
/// the offset behind the `n` records.
pub open spec fn records_at(bytes: Seq<u8>, at: nat, n: nat) -> Result<
    (Seq<RecordView>, nat),
    DecodeError,
>
    decreases n,
{
    if n == 0 {
        Ok((Seq::empty(), at))
    } else {
        match records_at(bytes, at, (n - 1) as nat) {
            Err(e) => Err(e),
            Ok((before, mid)) => match record_at(bytes, mid) {
                Err(e) => Err(e),
                Ok((Some(r), next)) => Ok((before.push(r), next)),
                Ok((None, next)) => Ok((before, next)),
            },
        }
    }
}

/// The message with header `h` whose sections, as long as `c` says, stand
/// behind the header in `bytes`.
pub open spec fn body_of(bytes: Seq<u8>, h: Header, c: Counts) -> Result<MessageView, DecodeError> {
    match questions_at(bytes, HEADER_LEN as nat, c.questions as nat) {
        Err(e) => Err(e),
        Ok((questions, a)) => match records_at(bytes, a, c.answers as nat) {
            Err(e) => Err(e),
            Ok((answers, b)) => match records_at(bytes, b, c.authority as nat) {
                Err(e) => Err(e),
                Ok((authority, d)) => match records_at(bytes, d, c.additional as nat) {
                    Err(e) => Err(e),
                    Ok((additional, _)) => Ok(
                        MessageView { header: h, questions, answers, authority, additional },
                    ),
                },
            },
        },
    }
}

/// What reading `bytes` as a message gives: the refusal of the header, a
/// refusal for more octets than offsets reach, a refusal for a chain of
/// compression pointers that is too long, the refusal of the first part
/// that cannot be read, or the message.
pub open spec fn decoded(bytes: Seq<u8>) -> Result<MessageView, DecodeError> {
    match header_of(bytes) {
        Err(e) => Err(e),
        Ok((h, c)) => if bytes.len() > MAX_MESSAGE_LEN {
            Err(DecodeError::Malformed)
        } else if !shallow(bytes) {
            Err(DecodeError::InvalidLabel)
        } else {
            body_of(bytes, h, c)
        },
    }
}

/// Reads the question at offset `at`.
fn read_question(bytes: &[u8], at: usize) -> (r: Result<(Question, usize), DecodeError>)
    requires
        at <= bytes@.len() <= MAX_MESSAGE_LEN,
        shallow(bytes@),
    ensures
        match wire_question(bytes@, at as nat) {
            Ok((q, next)) => r is Ok && r->Ok_0.0@ == q && r->Ok_0.1 == next && next <= bytes@.len(),
            Err(e) => r == Err::<(Question, usize), DecodeError>(e),
        },
{
    let (name, n) = match read_name(bytes, at) {
        Ok(found) => found,
        Err(e) => {
            return Err(e);
        },
    };
    if bytes.len() - n < 4 {
        return Err(DecodeError::Truncated);
    }
    let question = Question { name, qtype: read_u16(bytes, n), qclass: read_u16(bytes, n + 2) };
    Ok((question, n + 4))
}

/// Reads the head of the record at offset `at`, and gives the offset of
/// the data.
fn read_record_head(bytes: &[u8], at: usize) -> (r: Result<(RecordHead, usize), DecodeError>)
    requires
        at <= bytes@.len() <= MAX_MESSAGE_LEN,
        shallow(bytes@),
    ensures
        match wire_record(bytes@, at as nat) {
            Ok((h, data_at)) => r is Ok && r->Ok_0.0@ == h && r->Ok_0.1 == data_at && data_at
                + h.data_len <= bytes@.len(),
            Err(e) => r == Err::<(RecordHead, usize), DecodeError>(e),
        },
{
    let (name, n) = match read_name(bytes, at) {
        Ok(found) => found,
        Err(e) => {
            return Err(e);
        },
    };
    if bytes.len() - n < 10 {
        return Err(DecodeError::Truncated);
    }
    let head = RecordHead {
        name,
        rtype: read_u16(bytes, n),
        class: read_u16(bytes, n + 2),
        ttl: read_u32(bytes, n + 4),
        data_len: read_u16(bytes, n + 8),
    };
    if bytes.len() - (n + 10) < head.data_len as usize {
        return Err(DecodeError::Truncated);
    }
    Ok((head, n + 10))
}

/// The record type under which a record with the head `head` is kept.
pub fn kept_type(head: &RecordHead) -> (r: Option<RecordType>)
    ensures
        r == kept_as(head@),
{
    if head.class != RecordClass::IN.wire_code() {
        return None;
    }
    RecordType::from_code(head.rtype)
}

/// Makes the record of a head and the data that was read behind it, if
/// any was.
///
/// A record of another class than `IN`, or of a type that is none of the
/// nine, is passed over: there is no record and no refusal, whatever the
/// data. A record that is kept takes the owner and the time to live of
/// the head; without data, or with data of another type than the head
/// names, it is `Malformed`.
pub fn keep_record(head: RecordHead, data: Option<RecordData>) -> (r: Result<
    Option<ResourceRecord>,
    DecodeError,
>)
    ensures
        match kept_record(
            head@,
            match data {
                Some(d) => Some(d@),
                None => None,
            },
        ) {
            Ok(Some(rec)) => r is Ok && r->Ok_0 is Some && r->Ok_0->0@ == rec,
            Ok(None) => r == Ok::<Option<ResourceRecord>, DecodeError>(None),
            Err(e) => r == Err::<Option<ResourceRecord>, DecodeError>(e),
        },
{
    let t = match kept_type(&head) {
        Some(t) => t,
        None => {
            return Ok(None);
        },
    };
    match data {
        Some(d) => if d.get_type() == t {
            Ok(Some(ResourceRecord { name: head.name, ttl: head.ttl, class: RecordClass::IN, data: d }))
        } else {
            Err(DecodeError::Malformed)
        },
        None => Err(DecodeError::Malformed),
    }
}

/// Reads the data of `len` octets at offset `at` as that of a record of
/// type `t`, whose code is `rtype`.
fn read_data(bytes: &[u8], at: usize, t: RecordType, rtype: u16, len: u16) -> (r: Option<RecordData>)
    requires
        at <= bytes@.len() <= MAX_MESSAGE_LEN,
        shallow(bytes@),
        RecordType::with_code(rtype) == Some(t),
    ensures
        match wire_data(bytes@, at as nat, rtype, len) {
            Some(d) => r is Some && r->0@ == d,
            None => r is None,
        },
{
    match t {
        RecordType::MX | RecordType::SRV => read_service_data(bytes, at, rtype, len),
        RecordType::SOA => read_soa_data(bytes, at, rtype, len),
        RecordType::CNAME | RecordType::NS | RecordType::PTR => read_target_data(
            bytes,
            at,
            rtype,
            len,
        ),
        RecordType::A | RecordType::AAAA | RecordType::TXT => read_plain_data(bytes, at, rtype, len),
    }
}

/// Reads the record at offset `at`.
fn read_record(bytes: &[u8], at: usize) -> (r: Result<(Option<ResourceRecord>, usize), DecodeError>)
    requires
        at <= bytes@.len() <= MAX_MESSAGE_LEN,
        shallow(bytes@),
    ensures
        match record_at(bytes@, at as nat) {
            Ok((Some(rec), next)) => r is Ok && r->Ok_0.0 is Some && r->Ok_0.0->0@ == rec
                && r->Ok_0.1 == next && next <= bytes@.len(),
            Ok((None, next)) => r is Ok && r->Ok_0.0 is None && r->Ok_0.1 == next && next
                <= bytes@.len(),
            Err(e) => r == Err::<(Option<ResourceRecord>, usize), DecodeError>(e),
        },
{
    let (head, data_at) = match read_record_head(bytes, at) {
        Ok(found) => found,
        Err(e) => {
            return Err(e);
        },
    };
    let next = data_at + head.data_len as usize;
    let data = match kept_type(&head) {
        Some(t) => read_data(bytes, data_at, t, head.rtype, head.data_len),
        None => None,
    };
    match keep_record(head, data) {
        Ok(found) => Ok((found, next)),
        Err(e) => Err(e),
    }
}

/// Reads `n` questions from offset `at` on.
fn read_questions(bytes: &[u8], at: usize, n: u16) -> (r: Result<(Vec<Question>, usize), DecodeError>)
    requires
        at <= bytes@.len() <= MAX_MESSAGE_LEN,
        shallow(bytes@),
    ensures
        match questions_at(bytes@, at as nat, n as nat) {
            Ok((qs, next)) => r is Ok && question_views(r->Ok_0.0@) == qs && r->Ok_0.1 == next
                && next <= bytes@.len(),
            Err(e) => r == Err::<(Vec<Question>, usize), DecodeError>(e),
        },
{
    let mut out: Vec<Question> = Vec::new();
    let mut pos: usize = at;
    let mut i: u16 = 0;
    assert(question_views(out@) == Seq::<QuestionView>::empty());
    while i < n
        invariant
            i <= n,
            pos <= bytes@.len() <= MAX_MESSAGE_LEN,
            shallow(bytes@),
            questions_at(bytes@, at as nat, i as nat) == Ok::<(Seq<QuestionView>, nat), DecodeError>(
                (question_views(out@), pos as nat),
            ),
        decreases n - i,
    {
        match read_question(bytes, pos) {
            Ok((q, next)) => {
                let ghost before = question_views(out@);
                out.push(q);
                assert(question_views(out@) == before.push(q@));
                pos = next;
            },
            Err(e) => {
                proof {
                    lemma_questions_fail(bytes@, at as nat, (i + 1) as nat, n as nat);
                }
                return Err(e);
            },
        }
        i += 1;
    }
    Ok((out, pos))
}

/// Where the first `k` questions cannot be read, the first `n` cannot.
proof fn lemma_questions_fail(bytes: Seq<u8>, at: nat, k: nat, n: nat)
    requires
        k <= n,
        questions_at(bytes, at, k) is Err,
    ensures
        questions_at(bytes, at, n) == questions_at(bytes, at, k),
    decreases n,
{
    if k < n {
        lemma_questions_fail(bytes, at, k, (n - 1) as nat);
    }
}

/// Where the first `k` records cannot be read, the first `n` cannot.
proof fn lemma_records_fail(bytes: Seq<u8>, at: nat, k: nat, n: nat)
    requires
        k <= n,
        records_at(bytes, at, k) is Err,
    ensures
        records_at(bytes, at, n) == records_at(bytes, at, k),
    decreases n,
{
    if k < n {
        lemma_records_fail(bytes, at, k, (n - 1) as nat);
    }
}

/// Reads `n` records from offset `at` on.
fn read_records(bytes: &[u8], at: usize, n: u16) -> (r: Result<(Vec<ResourceRecord>, usize), DecodeError>)
    requires
        at <= bytes@.len() <= MAX_MESSAGE_LEN,
        shallow(bytes@),
    ensures
        match records_at(bytes@, at as nat, n as nat) {
            Ok((rs, next)) => r is Ok && record_views(r->Ok_0.0@) == rs && r->Ok_0.1 == next
                && next <= bytes@.len(),
            Err(e) => r == Err::<(Vec<ResourceRecord>, usize), DecodeError>(e),
        },
{
    let mut out: Vec<ResourceRecord> = Vec::new();
    let mut pos: usize = at;
    let mut i: u16 = 0;
    assert(record_views(out@) == Seq::<RecordView>::empty());
    while i < n
        invariant
            i <= n,
            pos <= bytes@.len() <= MAX_MESSAGE_LEN,
            shallow(bytes@),
            records_at(bytes@, at as nat, i as nat) == Ok::<(Seq<RecordView>, nat), DecodeError>(
                (record_views(out@), pos as nat),
            ),
        decreases n - i,
    {
        match read_record(bytes, pos) {
            Ok((found, next)) => {
                match found {
                    Some(rec) => {
                        let ghost before = record_views(out@);
                        out.push(rec);
                        assert(record_views(out@) == before.push(rec@));
                    },
                    None => {},
                }
                pos = next;
            },
            Err(e) => {
                proof {
                    lemma_records_fail(bytes@, at as nat, (i + 1) as nat, n as nat);
                }
                return Err(e);
            },
        }
        i += 1;
    }
    Ok((out, pos))
}

/// Reads a message.
///
/// Fewer than twelve octets are refused as `Truncated`, an unknown
/// operation code as `UnsupportedOpcode`, more than 65535 octets as
/// `Malformed`, a chain of more than 127 compression pointers anywhere in
/// the message as `InvalidLabel`. Where a question or a record cannot be
/// read the refusal is that of the first such part: `Truncated` where
/// the message ends before the part does, `InvalidLabel` where a name is
/// at fault, `Malformed` where the data of a record is. Octets behind the
/// last section are passed over.
pub fn decode(bytes: &[u8]) -> (r: Result<Message, DecodeError>)
    ensures
        match decoded(bytes@) {
            Ok(m) => r is Ok && r->Ok_0@ == m,
            Err(e) => r == Err::<Message, DecodeError>(e),
        },
        bytes@.len() < HEADER_LEN ==> r == Err::<Message, DecodeError>(DecodeError::Truncated),
{
    let (header, counts) = match read_header(bytes) {
        Ok(found) => found,
        Err(e) => {
            return Err(e);
        },
    };
    if bytes.len() > MAX_MESSAGE_LEN {
        return Err(DecodeError::Malformed);
    }
    if !is_shallow(bytes) {
        return Err(DecodeError::InvalidLabel);
    }
    let (questions, a) = match read_questions(bytes, HEADER_LEN, counts.questions) {
        Ok(found) => found,
        Err(e) => {
            return Err(e);
        },
    };
    let (answers, b) = match read_records(bytes, a, counts.answers) {
        Ok(found) => found,
        Err(e) => {
            return Err(e);
        },
    };
    let (authority, c) = match read_records(bytes, b, counts.authority) {
        Ok(found) => found,
        Err(e) => {
            return Err(e);
        },
    };
    let (additional, _) = match read_records(bytes, c, counts.additional) {
        Ok(found) => found,
        Err(e) => {
            return Err(e);
        },
    };
    Ok(Message { header, questions, answers, authority, additional })
}


/// The octets of a question: its name, then the codes of the type and
/// the class. There are none where the name has more than
/// [`MAX_NAME_TEXT`] characters or no wire form.
pub open spec fn question_bytes(q: QuestionView) -> Option<Seq<u8>> {
    if q.name.len() > MAX_NAME_TEXT {
        None
    } else {
        match name_bytes(q.name) {
            Some(n) => Some(n + u16_bytes(q.qtype) + u16_bytes(q.qclass)),
            None => None,
        }
    }
}

/// The octets of a record: the owner, the code of the type of its data,
/// the code of the class `IN`, the time to live, the length of the data
/// and the data. There are none where a name has more than
/// [`MAX_NAME_TEXT`] characters, where the owner or the data has no wire
/// form, or where the data takes more than 65535 octets.
pub open spec fn record_bytes(r: RecordView) -> Option<Seq<u8>> {
    if r.name.len() > MAX_NAME_TEXT || !names_fit(r.data) {
        None
    } else {
        match (name_bytes(r.name), data_bytes(r.data)) {
            (Some(n), Some(d)) => if d.len() > 0xFFFF {
                None
            } else {
                Some(
                    n + u16_bytes(r.data.kind().code()) + u16_bytes(RecordClass::IN.code())
                        + u32_bytes(r.ttl) + u16_bytes(d.len() as u16) + d,
                )
            },
            _ => None,
        }
    }
}

/// The octets of the questions, one after the other.
pub open spec fn questions_bytes(qs: Seq<QuestionView>) -> Option<Seq<u8>>
    decreases qs.len(),
{
    if qs.len() == 0 {
        Some(Seq::empty())
    } else {
        match (questions_bytes(qs.drop_last()), question_bytes(qs.last())) {
            (Some(before), Some(b)) => Some(before + b),
            _ => None,
        }
    }
}

/// The octets of the records, one after the other.
pub open spec fn records_bytes(rs: Seq<RecordView>) -> Option<Seq<u8>>
    decreases rs.len(),
{
    if rs.len() == 0 {
        Some(Seq::empty())
    } else {
        match (records_bytes(rs.drop_last()), record_bytes(rs.last())) {
            (Some(before), Some(b)) => Some(before + b),
            _ => None,
        }
    }
}

/// The section counts of a message, where each fits in 16 bits.
pub open spec fn counts_of(m: MessageView) -> Option<Counts> {
    if m.questions.len() <= 0xFFFF && m.answers.len() <= 0xFFFF && m.authority.len() <= 0xFFFF
        && m.additional.len() <= 0xFFFF {
        Some(
            Counts {
                questions: m.questions.len() as u16,
                answers: m.answers.len() as u16,
                authority: m.authority.len() as u16,
                additional: m.additional.len() as u16,
            },
        )
    } else {
        None
    }
}

/// The octets of a message: the header with the lengths of the sections,
/// then the questions, the answers, the authority records and the
/// additional records. There are none where the response code does not
/// fit the header, a section has more than 65535 entries, or a question
/// or a record has no wire form.
pub open spec fn message_bytes(m: MessageView) -> Option<Seq<u8>> {
    if !m.header.rcode.fits() {
        None
    } else {
        match (
            counts_of(m),
            questions_bytes(m.questions),
            records_bytes(m.answers),
            records_bytes(m.authority),
            records_bytes(m.additional),
        ) {
            (Some(c), Some(q), Some(a), Some(n), Some(x)) => Some(
                header_bytes(m.header, c) + q + a + n + x,
            ),
            _ => None,
        }
    }
}

/// What writing a message within `limit` octets gives.
pub open spec fn encoded(m: MessageView, limit: nat) -> Result<Seq<u8>, EncodeError> {
    match message_bytes(m) {
        None => Err(EncodeError::Unencodable),
        Some(b) => if b.len() > limit {
            Err(EncodeError::BufferOverflow)
        } else {
            Ok(b)
        },
    }
}

/// Tells whether `s` has no more than [`MAX_NAME_TEXT`] characters.
fn name_fits(s: &str) -> (r: bool)
    ensures
        r == (s@.len() <= MAX_NAME_TEXT),
{
    s.unicode_len() <= MAX_NAME_TEXT
}

/// Tells whether no name in the data has more than [`MAX_NAME_TEXT`]
/// characters.
fn data_names_fit(data: &RecordData) -> (r: bool)
    ensures
        r == names_fit(data@),
{
    match data {
        RecordData::CNAME(n) => name_fits(n.as_str()),
        RecordData::NS(n) => name_fits(n.as_str()),
        RecordData::PTR(n) => name_fits(n.as_str()),
        RecordData::MX { exchange, .. } => name_fits(exchange.as_str()),
        RecordData::SRV { target, .. } => name_fits(target.as_str()),
        RecordData::SOA { mname, rname, .. } => name_fits(mname.as_str()) && name_fits(
            rname.as_str(),
        ),
        _ => true,
    }
}

/// Writes one question.
fn write_question(q: &Question) -> (out: Option<Vec<u8>>)
    ensures
        match question_bytes(q@) {
            Some(b) => out is Some && out->0@ == b,
            None => out is None,
        },
{
    if !name_fits(q.name.as_str()) {
        return None;
    }
    let mut out = match emit_name(q.name.as_str()) {
        Ok(b) => b,
        Err(_) => {
            return None;
        },
    };
    push_u16(&mut out, q.qtype);
    push_u16(&mut out, q.qclass);
    Some(out)
}

/// Writes one record.
fn write_record(r: &ResourceRecord) -> (out: Option<Vec<u8>>)
    ensures
        match record_bytes(r@) {
            Some(b) => out is Some && out->0@ == b,
            None => out is None,
        },
{
    if !name_fits(r.name.as_str()) || !data_names_fit(&r.data) {
        return None;
    }
    let mut out = match emit_name(r.name.as_str()) {
        Ok(b) => b,
        Err(_) => {
            return None;
        },
    };
    let written = match r.data.get_type() {
        RecordType::MX | RecordType::SRV => emit_service_data(&r.data),
        RecordType::SOA => emit_soa_data(&r.data),
        RecordType::CNAME | RecordType::NS | RecordType::PTR => emit_target_data(&r.data),
        RecordType::A | RecordType::AAAA | RecordType::TXT => emit_plain_data(&r.data),
    };
    let data = match written {
        Ok(b) => b,
        Err(_) => {
            return None;
        },
    };
    if data.len() > 0xFFFF {
        return None;
    }
    push_u16(&mut out, r.data.get_type().wire_code());
    push_u16(&mut out, RecordClass::IN.wire_code());
    push_u32(&mut out, r.ttl);
    push_u16(&mut out, data.len() as u16);
    out.extend_from_slice(data.as_slice());
    assert(out@ =~= record_bytes(r@)->0);
    Some(out)
}

/// Appends the octets of the questions to `out`.
fn write_questions(qs: &Vec<Question>, out: &mut Vec<u8>) -> (ok: bool)
    ensures
        match questions_bytes(question_views(qs@)) {
            Some(b) => ok && final(out)@ == old(out)@ + b,
            None => !ok,
        },
{
    let ghost start = out@;
    let mut i: usize = 0;
    assert(question_views(qs@).take(0) == Seq::<QuestionView>::empty());
    assert(out@ == start + Seq::<u8>::empty());
    while i < qs.len()
        invariant
            i <= qs@.len(),
            match questions_bytes(question_views(qs@).take(i as int)) {
                Some(b) => out@ == start + b,
                None => false,
            },
        decreases qs.len() - i,
    {
        let ghost next = question_views(qs@).take(i + 1);
        proof {
            assert(next.drop_last() == question_views(qs@).take(i as int));
            assert(next.last() == qs@[i as int]@);
        }
        match write_question(&qs[i]) {
            Some(b) => {
                let ghost before = out@;
                out.extend_from_slice(b.as_slice());
                assert(out@ == start + (questions_bytes(next.drop_last())->0 + b@));
            },
            None => {
                proof {
                    lemma_questions_unwritten(question_views(qs@), i + 1);
                }
                return false;
            },
        }
        i += 1;
    }
    assert(question_views(qs@).take(i as int) == question_views(qs@));
    true
}

/// Appends the octets of the records to `out`.
fn write_records(rs: &Vec<ResourceRecord>, out: &mut Vec<u8>) -> (ok: bool)
    ensures
        match records_bytes(record_views(rs@)) {
            Some(b) => ok && final(out)@ == old(out)@ + b,
            None => !ok,
        },
{
    let ghost start = out@;
    let mut i: usize = 0;
    assert(record_views(rs@).take(0) == Seq::<RecordView>::empty());
    assert(out@ == start + Seq::<u8>::empty());
    while i < rs.len()
        invariant
            i <= rs@.len(),
            match records_bytes(record_views(rs@).take(i as int)) {
                Some(b) => out@ == start + b,
                None => false,
            },
        decreases rs.len() - i,
    {
        let ghost next = record_views(rs@).take(i + 1);
        proof {
            assert(next.drop_last() == record_views(rs@).take(i as int));
            assert(next.last() == rs@[i as int]@);
        }
        match write_record(&rs[i]) {
            Some(b) => {
                out.extend_from_slice(b.as_slice());
                assert(out@ == start + (records_bytes(next.drop_last())->0 + b@));
            },
            None => {
                proof {
                    lemma_records_unwritten(record_views(rs@), i + 1);
                }
                return false;
            },
        }
        i += 1;
    }
    assert(record_views(rs@).take(i as int) == record_views(rs@));
    true
}

/// Where the first `n` questions have no octets, the whole has none.
proof fn lemma_questions_unwritten(qs: Seq<QuestionView>, n: int)
    requires
        0 <= n <= qs.len(),
        questions_bytes(qs.take(n)) is None,
    ensures
        questions_bytes(qs) is None,
    decreases qs.len(),
{
    if n < qs.len() {
        assert(qs.drop_last().take(n) == qs.take(n));
        lemma_questions_unwritten(qs.drop_last(), n);
    } else {
        assert(qs.take(n) == qs);
    }
}

/// Where the first `n` records have no octets, the whole has none.
proof fn lemma_records_unwritten(rs: Seq<RecordView>, n: int)
    requires
        0 <= n <= rs.len(),
        records_bytes(rs.take(n)) is None,
    ensures
        records_bytes(rs) is None,
    decreases rs.len(),
{
    if n < rs.len() {
        assert(rs.drop_last().take(n) == rs.take(n));
        lemma_records_unwritten(rs.drop_last(), n);
    } else {
        assert(rs.take(n) == rs);
    }
}

/// Writes a message in at most `limit` octets.
///
/// A message whose octets number more than `limit` is refused with
/// `BufferOverflow`, one that has no octets with `Unencodable`.
pub fn encode_within(msg: &Message, limit: usize) -> (r: Result<Vec<u8>, EncodeError>)
    ensures
        match encoded(msg@, limit as nat) {
            Ok(b) => r is Ok && r->Ok_0@ == b,
            Err(e) => r == Err::<Vec<u8>, EncodeError>(e),
        },
{
    if msg.questions.len() > 0xFFFF || msg.answers.len() > 0xFFFF || msg.authority.len() > 0xFFFF
        || msg.additional.len() > 0xFFFF {
        return Err(EncodeError::Unencodable);
    }
    let counts = Counts {
        questions: msg.questions.len() as u16,
        answers: msg.answers.len() as u16,
        authority: msg.authority.len() as u16,
        additional: msg.additional.len() as u16,
    };
    assert(counts_of(msg@) == Some(counts));
    let mut out = match write_header(&msg.header, &counts) {
        Ok(out) => out,
        Err(e) => {
            return Err(e);
        },
    };
    if !write_questions(&msg.questions, &mut out) {
        return Err(EncodeError::Unencodable);
    }
    if !write_records(&msg.answers, &mut out) {
        return Err(EncodeError::Unencodable);
    }
    if !write_records(&msg.authority, &mut out) {
        return Err(EncodeError::Unencodable);
    }
    if !write_records(&msg.additional, &mut out) {
        return Err(EncodeError::Unencodable);
    }
    if out.len() > limit {
        return Err(EncodeError::BufferOverflow);
    }
    Ok(out)
}

/// Writes a message in at most [`MAX_UDP_PAYLOAD`] octets.
pub fn encode(msg: &Message) -> (r: Result<Vec<u8>, EncodeError>)
    ensures
        match encoded(msg@, MAX_UDP_PAYLOAD as nat) {
            Ok(b) => r is Ok && r->Ok_0@ == b,
            Err(e) => r == Err::<Vec<u8>, EncodeError>(e),
        },
{
    encode_within(msg, MAX_UDP_PAYLOAD)
}


/// The offset behind the first `n` of the questions in a message that
/// holds them from `start` on.
pub open spec fn questions_end(qs: Seq<QuestionView>, start: nat, n: int) -> nat {
    match questions_bytes(qs.take(n)) {
        Some(b) => start + b.len(),
        None => start,
    }
}

/// The offset behind the first `n` of the records in a message that holds
/// them from `start` on.
pub open spec fn records_end(rs: Seq<RecordView>, start: nat, n: int) -> nat {
    match records_bytes(rs.take(n)) {
        Some(b) => start + b.len(),
        None => start,
    }
}

/// Whether the name of each of the questions, which stand in `bytes`
/// from `start` on, is read where it stands as it was written.
pub open spec fn question_names_read_back(bytes: Seq<u8>, qs: Seq<QuestionView>, start: nat) -> bool {
    forall|i: int|
        0 <= i < qs.len() ==> wire_name(bytes, #[trigger] questions_end(qs, start, i)) == Ok::<
            (Seq<char>, nat),
            DecodeError,
        >((qs[i].name, questions_end(qs, start, i) + name_bytes(qs[i].name)->0.len()))
}

/// Whether the owner and the data of each of the records, which stand in
/// `bytes` from `start` on, are read where they stand as they were
/// written.
pub open spec fn record_parts_read_back(bytes: Seq<u8>, rs: Seq<RecordView>, start: nat) -> bool {
    forall|i: int|
        0 <= i < rs.len() ==> {
            let at = #[trigger] records_end(rs, start, i);
            let behind = at + name_bytes(rs[i].name)->0.len();
            &&& wire_name(bytes, at) == Ok::<(Seq<char>, nat), DecodeError>((rs[i].name, behind))
            &&& wire_data(
                bytes,
                behind + 10,
                rs[i].data.kind().code(),
                data_bytes(rs[i].data)->0.len() as u16,
            ) == Some(rs[i].data)
        }
}

/// Whether every name and the data of every record of a message are
/// read, where they stand in the octets of the message, as they were
/// written.
pub open spec fn parts_read_back(m: MessageView, bytes: Seq<u8>) -> bool {
    let a = questions_end(m.questions, HEADER_LEN as nat, m.questions.len() as int);
    let b = records_end(m.answers, a, m.answers.len() as int);
    let c = records_end(m.authority, b, m.authority.len() as int);
    &&& question_names_read_back(bytes, m.questions, HEADER_LEN as nat)
    &&& record_parts_read_back(bytes, m.answers, a)
    &&& record_parts_read_back(bytes, m.authority, b)
    &&& record_parts_read_back(bytes, m.additional, c)
}

/// Whether the octets `part` stand in `bytes` from `start` on.
pub open spec fn stands_at(bytes: Seq<u8>, start: nat, part: Seq<u8>) -> bool {
    &&& start + part.len() <= bytes.len()
    &&& forall|k: int| 0 <= k < part.len() ==> bytes[start + k] == #[trigger] part[k]
}

/// Where the octets of the questions stand in a message, the octets of
/// each question stand behind those of the questions before it.
proof fn lemma_question_stands(bytes: Seq<u8>, qs: Seq<QuestionView>, start: nat, i: int)
    requires
        questions_bytes(qs) is Some,
        stands_at(bytes, start, questions_bytes(qs)->0),
        0 <= i < qs.len(),
    ensures
        questions_bytes(qs.take(i)) is Some,
        questions_bytes(qs.take(i + 1)) is Some,
        question_bytes(qs[i]) is Some,
        questions_end(qs, start, i + 1) == questions_end(qs, start, i) + question_bytes(
            qs[i],
        )->0.len(),
        stands_at(bytes, questions_end(qs, start, i), question_bytes(qs[i])->0),
    decreases qs.len(),
{
    let init = qs.drop_last();
    let whole = questions_bytes(qs)->0;
    let before = questions_bytes(init)->0;
    let last = question_bytes(qs.last())->0;
    assert(whole == before + last);
    if i == qs.len() - 1 {
        assert(qs.take(i) == init);
        assert(qs.take(i + 1) == qs);
        assert forall|k: int| 0 <= k < last.len() implies bytes[start + before.len() + k]
            == #[trigger] last[k] by {
            assert(whole[before.len() + k] == last[k]);
        }
    } else {
        assert forall|k: int| 0 <= k < before.len() implies bytes[start + k] == #[trigger] before[k] by {
            assert(whole[k] == before[k]);
        }
        lemma_question_stands(bytes, init, start, i);
        assert(init.take(i) == qs.take(i));
        assert(init.take(i + 1) == qs.take(i + 1));
    }
}

/// Where the octets of the records stand in a message, the octets of
/// each record stand behind those of the records before it.
proof fn lemma_record_stands(bytes: Seq<u8>, rs: Seq<RecordView>, start: nat, i: int)
    requires
        records_bytes(rs) is Some,
        stands_at(bytes, start, records_bytes(rs)->0),
        0 <= i < rs.len(),
    ensures
        records_bytes(rs.take(i)) is Some,
        records_bytes(rs.take(i + 1)) is Some,
        record_bytes(rs[i]) is Some,
        records_end(rs, start, i + 1) == records_end(rs, start, i) + record_bytes(rs[i])->0.len(),
        stands_at(bytes, records_end(rs, start, i), record_bytes(rs[i])->0),
    decreases rs.len(),
{
    let init = rs.drop_last();
    let whole = records_bytes(rs)->0;
    let before = records_bytes(init)->0;
    let last = record_bytes(rs.last())->0;
    assert(whole == before + last);
    if i == rs.len() - 1 {
        assert(rs.take(i) == init);
        assert(rs.take(i + 1) == rs);
        assert forall|k: int| 0 <= k < last.len() implies bytes[start + before.len() + k]
            == #[trigger] last[k] by {
            assert(whole[before.len() + k] == last[k]);
        }
    } else {
        assert forall|k: int| 0 <= k < before.len() implies bytes[start + k] == #[trigger] before[k] by {
            assert(whole[k] == before[k]);
        }
        lemma_record_stands(bytes, init, start, i);
        assert(init.take(i) == rs.take(i));
        assert(init.take(i + 1) == rs.take(i + 1));
    }
}

/// A question whose octets stand at `at` and whose name is read there as
/// it was written is read there as it was written.
proof fn lemma_question_read_back(bytes: Seq<u8>, q: QuestionView, at: nat)
    requires
        question_bytes(q) is Some,
        stands_at(bytes, at, question_bytes(q)->0),
        wire_name(bytes, at) == Ok::<(Seq<char>, nat), DecodeError>(
            (q.name, at + name_bytes(q.name)->0.len()),
        ),
    ensures
        wire_question(bytes, at) == Ok::<(QuestionView, nat), DecodeError>(
            (q, at + question_bytes(q)->0.len()),
        ),
{
    let name = name_bytes(q.name)->0;
    let part = question_bytes(q)->0;
    let l: int = name.len() as int;
    let n: int = at + l;
    crate::wire::header::lemma_numbers_round_trip(q.qtype, 0);
    crate::wire::header::lemma_numbers_round_trip(q.qclass, 0);
    assert(part.len() == l + 4);
    assert(bytes[at + l] == part[l]);
    assert(bytes[at + (l + 1)] == part[l + 1]);
    assert(bytes[at + (l + 2)] == part[l + 2]);
    assert(bytes[at + (l + 3)] == part[l + 3]);
    assert(part[l] == u16_bytes(q.qtype)[0]);
    assert(part[l + 1] == u16_bytes(q.qtype)[1]);
    assert(part[l + 2] == u16_bytes(q.qclass)[0]);
    assert(part[l + 3] == u16_bytes(q.qclass)[1]);
}

/// A record whose octets stand at `at` and whose owner and data are read
/// there as they were written is read there as it was written, and is
/// not passed over.
proof fn lemma_record_read_back(bytes: Seq<u8>, r: RecordView, at: nat)
    requires
        record_bytes(r) is Some,
        stands_at(bytes, at, record_bytes(r)->0),
        wire_name(bytes, at) == Ok::<(Seq<char>, nat), DecodeError>(
            (r.name, at + name_bytes(r.name)->0.len()),
        ),
        wire_data(
            bytes,
            at + name_bytes(r.name)->0.len() + 10,
            r.data.kind().code(),
            data_bytes(r.data)->0.len() as u16,
        ) == Some(r.data),
    ensures
        record_at(bytes, at) == Ok::<(Option<RecordView>, nat), DecodeError>(
            (Some(r), at + record_bytes(r)->0.len()),
        ),
{
    let name = name_bytes(r.name)->0;
    let data = data_bytes(r.data)->0;
    let part = record_bytes(r)->0;
    let l: int = name.len() as int;
    let n: int = at + l;
    let code = r.data.kind().code();
    let len = data.len() as u16;
    crate::wire::header::lemma_numbers_round_trip(code, r.ttl);
    crate::wire::header::lemma_numbers_round_trip(RecordClass::IN.code(), 0);
    crate::wire::header::lemma_numbers_round_trip(len, 0);
    assert(part.len() == l + 10 + data.len());
    let fixed = u16_bytes(code) + u16_bytes(RecordClass::IN.code()) + u32_bytes(r.ttl) + u16_bytes(
        len,
    );
    assert(fixed.len() == 10);
    assert(part =~= name + fixed + data);
    assert forall|k: int| 0 <= k < 10 implies bytes[n + k] == #[trigger] fixed[k] by {
        assert(bytes[at + (l + k)] == part[l + k]);
    }
    assert(fixed[0] == u16_bytes(code)[0]);
    assert(fixed[1] == u16_bytes(code)[1]);
    assert(fixed[2] == u16_bytes(RecordClass::IN.code())[0]);
    assert(fixed[3] == u16_bytes(RecordClass::IN.code())[1]);
    assert(fixed[4] == u32_bytes(r.ttl)[0]);
    assert(fixed[5] == u32_bytes(r.ttl)[1]);
    assert(fixed[6] == u32_bytes(r.ttl)[2]);
    assert(fixed[7] == u32_bytes(r.ttl)[3]);
    assert(fixed[8] == u16_bytes(len)[0]);
    assert(fixed[9] == u16_bytes(len)[1]);
    let head = RecordHeadView {
        name: r.name,
        rtype: code,
        class: RecordClass::IN.code(),
        ttl: r.ttl,
        data_len: len,
    };
    assert(wire_record(bytes, at) == Ok::<(RecordHeadView, nat), DecodeError>(
        (head, (n + 10) as nat),
    ));
    assert(kept_as(head) == Some(r.data.kind()));
    assert(r.class == RecordClass::IN);
}

/// Questions whose octets stand in a message and whose names are read
/// back where they stand are read back as a section.
proof fn lemma_questions_read_back(bytes: Seq<u8>, qs: Seq<QuestionView>, start: nat, n: int)
    requires
        0 <= n <= qs.len(),
        questions_bytes(qs) is Some,
        stands_at(bytes, start, questions_bytes(qs)->0),
        question_names_read_back(bytes, qs, start),
    ensures
        questions_at(bytes, start, n as nat) == Ok::<(Seq<QuestionView>, nat), DecodeError>(
            (qs.take(n), questions_end(qs, start, n)),
        ),
    decreases n,
{
    if n == 0 {
        assert(qs.take(0) == Seq::<QuestionView>::empty());
    } else {
        lemma_questions_read_back(bytes, qs, start, n - 1);
        lemma_question_stands(bytes, qs, start, n - 1);
        lemma_question_read_back(bytes, qs[n - 1], questions_end(qs, start, n - 1));
        assert(qs.take(n - 1).push(qs[n - 1]) == qs.take(n));
    }
}

/// Records whose octets stand in a message and whose owners and data are
/// read back where they stand are read back as a section.
proof fn lemma_records_read_back(bytes: Seq<u8>, rs: Seq<RecordView>, start: nat, n: int)
    requires
        0 <= n <= rs.len(),
        records_bytes(rs) is Some,
        stands_at(bytes, start, records_bytes(rs)->0),
        record_parts_read_back(bytes, rs, start),
    ensures
        records_at(bytes, start, n as nat) == Ok::<(Seq<RecordView>, nat), DecodeError>(
            (rs.take(n), records_end(rs, start, n)),
        ),
    decreases n,
{
    if n == 0 {
        assert(rs.take(0) == Seq::<RecordView>::empty());
    } else {
        lemma_records_read_back(bytes, rs, start, n - 1);
        lemma_record_stands(bytes, rs, start, n - 1);
        lemma_record_read_back(bytes, rs[n - 1], records_end(rs, start, n - 1));
        assert(rs.take(n - 1).push(rs[n - 1]) == rs.take(n));
    }
}

/// Where the octets of a message are put together, each section stands
/// behind those before it.
proof fn lemma_sections_stand(h: Seq<u8>, q: Seq<u8>, a: Seq<u8>, n: Seq<u8>, x: Seq<u8>)
    ensures
        stands_at(h + q + a + n + x, 0, h),
        stands_at(h + q + a + n + x, h.len(), q),
        stands_at(h + q + a + n + x, h.len() + q.len(), a),
        stands_at(h + q + a + n + x, h.len() + q.len() + a.len(), n),
        stands_at(h + q + a + n + x, h.len() + q.len() + a.len() + n.len(), x),
{
}

/// The sections of a message are read back from where they stand,
/// provided that every name and the data of every record is.
proof fn lemma_body_read_back(m: MessageView, bytes: Seq<u8>, c: Counts)
    requires
        counts_of(m) == Some(c),
        questions_bytes(m.questions) is Some,
        records_bytes(m.answers) is Some,
        records_bytes(m.authority) is Some,
        records_bytes(m.additional) is Some,
        stands_at(bytes, HEADER_LEN as nat, questions_bytes(m.questions)->0),
        stands_at(
            bytes,
            HEADER_LEN as nat + questions_bytes(m.questions)->0.len(),
            records_bytes(m.answers)->0,
        ),
        stands_at(
            bytes,
            HEADER_LEN as nat + questions_bytes(m.questions)->0.len() + records_bytes(
                m.answers,
            )->0.len(),
            records_bytes(m.authority)->0,
        ),
        stands_at(
            bytes,
            HEADER_LEN as nat + questions_bytes(m.questions)->0.len() + records_bytes(
                m.answers,
            )->0.len() + records_bytes(m.authority)->0.len(),
            records_bytes(m.additional)->0,
        ),
        parts_read_back(m, bytes),
    ensures
        body_of(bytes, m.header, c) == Ok::<MessageView, DecodeError>(m),
{
    assert(m.questions.take(m.questions.len() as int) == m.questions);
    assert(m.answers.take(m.answers.len() as int) == m.answers);
    assert(m.authority.take(m.authority.len() as int) == m.authority);
    assert(m.additional.take(m.additional.len() as int) == m.additional);
    let at_a = questions_end(m.questions, HEADER_LEN as nat, m.questions.len() as int);
    let at_n = records_end(m.answers, at_a, m.answers.len() as int);
    let at_x = records_end(m.authority, at_n, m.authority.len() as int);
    lemma_questions_read_back(bytes, m.questions, HEADER_LEN as nat, m.questions.len() as int);
    lemma_records_read_back(bytes, m.answers, at_a, m.answers.len() as int);
    lemma_records_read_back(bytes, m.authority, at_n, m.authority.len() as int);
    lemma_records_read_back(bytes, m.additional, at_x, m.additional.len() as int);
}

/// A message that is written and read again is the same message,
/// provided that its octets are few enough to be read, hold no chain of
/// compression pointers that is too long, and that every name and the
/// data of every record is read, where it stands among them, as it was
/// written. The header, the section counts, the order of the sections
/// and the numbers of every question and record come back by proof.
pub proof fn lemma_round_trip(m: MessageView, bytes: Seq<u8>)
    requires
        message_bytes(m) == Some(bytes),
        bytes.len() <= MAX_MESSAGE_LEN,
        shallow(bytes),
        parts_read_back(m, bytes),
    ensures
        decoded(bytes) == Ok::<MessageView, DecodeError>(m),
{
    let c = counts_of(m)->0;
    let head = header_bytes(m.header, c);
    let q = questions_bytes(m.questions)->0;
    let a = records_bytes(m.answers)->0;
    let n = records_bytes(m.authority)->0;
    let x = records_bytes(m.additional)->0;
    crate::wire::header::lemma_header_round_trip(m.header, c);
    assert(head.len() == 12);
    assert(bytes == head + q + a + n + x);
    lemma_sections_stand(head, q, a, n, x);
    assert(bytes.len() >= 12);
    assert(forall|i: int| 0 <= i < 12 ==> bytes[0 + i] == head[i]);
    assert(header_of(bytes) == header_of(head));
    lemma_body_read_back(m, bytes, c);
}

/// A message that holds a header and nothing else is written as the
/// twelve octets of its header and read back as it was, provided that
/// its response code fits.
pub proof fn lemma_round_trip_of_header(h: Header)
    requires
        h.rcode.fits(),
    ensures
        ({
            let m = MessageView {
                header: h,
                questions: Seq::empty(),
                answers: Seq::empty(),
                authority: Seq::empty(),
                additional: Seq::empty(),
            };
            let c = Counts { questions: 0, answers: 0, authority: 0, additional: 0 };
            &&& message_bytes(m) == Some(header_bytes(h, c))
            &&& encoded(m, MAX_UDP_PAYLOAD as nat) == Ok::<Seq<u8>, EncodeError>(header_bytes(h, c))
            &&& decoded(header_bytes(h, c)) == Ok::<MessageView, DecodeError>(m)
        }),
{
    let m = MessageView {
        header: h,
        questions: Seq::empty(),
        answers: Seq::empty(),
        authority: Seq::empty(),
        additional: Seq::empty(),
    };
    let c = Counts { questions: 0, answers: 0, authority: 0, additional: 0 };
    let bytes = header_bytes(h, c);
    assert(counts_of(m) == Some(c));
    assert(bytes + Seq::<u8>::empty() + Seq::<u8>::empty() + Seq::<u8>::empty() + Seq::<
        u8,
    >::empty() == bytes);
    assert(bytes.len() == 12);
    crate::wire::pointers::lemma_short_is_shallow(bytes);
    assert(parts_read_back(m, bytes));
    lemma_round_trip(m, bytes);
}

} // verus!
