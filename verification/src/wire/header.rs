//! The fixed header of a DNS message.
//!
//! ```text
//!  0  1  2  3  4  5  6  7  8  9 10 11 12 13 14 15
//! |                      ID                       |
//! |QR|   Opcode  |AA|TC|RD|RA|   Z    |   RCODE   |
//! |                    QDCOUNT                    |
//! |                    ANCOUNT                    |
//! |                    NSCOUNT                    |
//! |                    ARCOUNT                    |
//! ```
//!
//! Every 16-bit field is written most significant octet first. The `Z`
//! bits are written as zero and passed over when read.

use vstd::prelude::*;

verus! {

/// Why octets were not read as a message.
#[derive(Debug, PartialEq, Eq, Hash, Clone, Copy, Structural)]
pub enum DecodeError {
    /// Fewer octets than the header, a question or a record takes.
    Truncated,
    /// A domain name with a label or a compression pointer that is not in order.
    InvalidLabel,
    /// An operation code that stands for no known operation.
    UnsupportedOpcode,
    /// Anything else that is no well-formed message.
    Malformed,
}

/// Why a message was not written as octets.
#[derive(Debug, PartialEq, Eq, Hash, Clone, Copy, Structural)]
pub enum EncodeError {
    /// The message takes more octets than the limit allows.
    BufferOverflow,
    /// A part of the message has no wire form: a name, a text, a response
    /// code or a section that is too long.
    Unencodable,
}

impl DecodeError {
    /// What the refusal says, in words.
    pub open spec fn description(self) -> Seq<char> {
        match self {
            DecodeError::Truncated => "the message is cut short"@,
            DecodeError::InvalidLabel => "a name with a label or a pointer out of order"@,
            DecodeError::UnsupportedOpcode => "unknown operation code"@,
            DecodeError::Malformed => "malformed message"@,
        }
    }

    /// The text form.
    pub fn to_string(&self) -> (r: String)
        ensures
            r@ == self.description(),
    {
        match self {
            DecodeError::Truncated => "the message is cut short".to_owned(),
            DecodeError::InvalidLabel => "a name with a label or a pointer out of order".to_owned(),
            DecodeError::UnsupportedOpcode => "unknown operation code".to_owned(),
            DecodeError::Malformed => "malformed message".to_owned(),
        }
    }
}

impl EncodeError {
    /// What the refusal says, in words.
    pub open spec fn description(self) -> Seq<char> {
        match self {
            EncodeError::BufferOverflow => "the message is longer than the limit"@,
            EncodeError::Unencodable => "a part of the message has no wire form"@,
        }
    }

    /// The text form.
    pub fn to_string(&self) -> (r: String)
        ensures
            r@ == self.description(),
    {
        match self {
            EncodeError::BufferOverflow => "the message is longer than the limit".to_owned(),
            EncodeError::Unencodable => "a part of the message has no wire form".to_owned(),
        }
    }
}

/// The kind of operation that a message asks for.
#[derive(Debug, PartialEq, Eq, Hash, Clone, Copy, Structural)]
pub enum OpCode {
    Query,
    Status,
    Notify,
    Update,
}

impl OpCode {
    /// The four-bit code of the operation.
    pub open spec fn code(self) -> u8 {
        match self {
            OpCode::Query => 0,
            OpCode::Status => 2,
            OpCode::Notify => 4,
            OpCode::Update => 5,
        }
    }

    /// The operation with code `c`.
    pub open spec fn with_code(c: u8) -> Option<OpCode> {
        if c == 0 {
            Some(OpCode::Query)
        } else if c == 2 {
            Some(OpCode::Status)
        } else if c == 4 {
            Some(OpCode::Notify)
        } else if c == 5 {
            Some(OpCode::Update)
        } else {
            None
        }
    }

    /// The code in wire format.
    pub fn wire_code(&self) -> (r: u8)
        ensures
            r == self.code(),
    {
        match self {
            OpCode::Query => 0,
            OpCode::Status => 2,
            OpCode::Notify => 4,
            OpCode::Update => 5,
        }
    }

    /// The operation with code `c`.
    pub fn from_code(c: u8) -> (r: Option<OpCode>)
        ensures
            r == OpCode::with_code(c),
    {
        if c == 0 {
            Some(OpCode::Query)
        } else if c == 2 {
            Some(OpCode::Status)
        } else if c == 4 {
            Some(OpCode::Notify)
        } else if c == 5 {
            Some(OpCode::Update)
        } else {
            None
        }
    }
}

/// The status that a response reports.
#[derive(Debug, PartialEq, Eq, Hash, Clone, Copy, Structural)]
pub enum ResponseCode {
    NoError,
    FormErr,
    ServFail,
    NXDomain,
    NotImp,
    Refused,
    /// A code from 6 to 15.
    Other(u8),
}

impl ResponseCode {
    /// The code of the status.
    pub open spec fn code(self) -> u8 {
        match self {
            ResponseCode::NoError => 0,
            ResponseCode::FormErr => 1,
            ResponseCode::ServFail => 2,
            ResponseCode::NXDomain => 3,
            ResponseCode::NotImp => 4,
            ResponseCode::Refused => 5,
            ResponseCode::Other(n) => n,
        }
    }

    /// The status with code `c`.
    pub open spec fn with_code(c: u8) -> ResponseCode {
        if c == 0 {
            ResponseCode::NoError
        } else if c == 1 {
            ResponseCode::FormErr
        } else if c == 2 {
            ResponseCode::ServFail
        } else if c == 3 {
            ResponseCode::NXDomain
        } else if c == 4 {
            ResponseCode::NotImp
        } else if c == 5 {
            ResponseCode::Refused
        } else {
            ResponseCode::Other(c)
        }
    }

    /// Whether the status fits the four bits that a header has for it, and
    /// is written in the one way that a header is read back.
    pub open spec fn spec_fits(self) -> bool {
        match self {
            ResponseCode::Other(n) => 6 <= n <= 15,
            _ => true,
        }
    }

    /// Whether the status fits the four bits that a header has for it.
    #[verifier::when_used_as_spec(spec_fits)]
    pub fn fits(self) -> (r: bool)
        ensures
            r == self.spec_fits(),
    {
        match self {
            ResponseCode::Other(n) => 6 <= n && n <= 15,
            _ => true,
        }
    }

    /// The code in wire format.
    pub fn wire_code(&self) -> (r: u8)
        ensures
            r == self.code(),
    {
        match self {
            ResponseCode::NoError => 0,
            ResponseCode::FormErr => 1,
            ResponseCode::ServFail => 2,
            ResponseCode::NXDomain => 3,
            ResponseCode::NotImp => 4,
            ResponseCode::Refused => 5,
            ResponseCode::Other(n) => *n,
        }
    }

    /// The status with code `c`.
    pub fn from_code(c: u8) -> (r: ResponseCode)
        ensures
            r == ResponseCode::with_code(c),
    {
        if c == 0 {
            ResponseCode::NoError
        } else if c == 1 {
            ResponseCode::FormErr
        } else if c == 2 {
            ResponseCode::ServFail
        } else if c == 3 {
            ResponseCode::NXDomain
        } else if c == 4 {
            ResponseCode::NotImp
        } else if c == 5 {
            ResponseCode::Refused
        } else {
            ResponseCode::Other(c)
        }
    }
}

/// The identifier and the flags of a message.
#[derive(Debug, PartialEq, Eq, Hash, Clone, Copy, Structural)]
pub struct Header {
    pub id: u16,
    pub response: bool,
    pub opcode: OpCode,
    pub authoritative: bool,
    pub truncated: bool,
    pub recursion_desired: bool,
    pub recursion_available: bool,
    pub rcode: ResponseCode,
}

/// How many entries each section of a message has.
#[derive(Debug, PartialEq, Eq, Hash, Clone, Copy, Structural)]
pub struct Counts {
    pub questions: u16,
    pub answers: u16,
    pub authority: u16,
    pub additional: u16,
}

/// The number of octets of a header.
pub const HEADER_LEN: usize = 12;

/// The more significant octet of a 16-bit number.
pub open spec fn high(v: u16) -> u8 {
    (v / 256) as u8
}

/// The less significant octet of a 16-bit number.
pub open spec fn low(v: u16) -> u8 {
    (v % 256) as u8
}

/// The 16-bit number with the octets `a` and `b`, `a` the more significant.
pub open spec fn be16(a: u8, b: u8) -> u16 {
    (a as int * 256 + b as int) as u16
}

/// The two octets of a 16-bit number, the more significant first.
pub open spec fn u16_bytes(v: u16) -> Seq<u8> {
    seq![high(v), low(v)]
}

/// The 32-bit number with the four octets, the most significant first.
pub open spec fn be32(a: u8, b: u8, c: u8, d: u8) -> u32 {
    (a as int * 16777216 + b as int * 65536 + c as int * 256 + d as int) as u32
}

/// The four octets of a 32-bit number, the most significant first.
pub open spec fn u32_bytes(v: u32) -> Seq<u8> {
    seq![
        (v / 16777216) as u8,
        ((v / 65536) % 256) as u8,
        ((v / 256) % 256) as u8,
        (v % 256) as u8,
    ]
}

/// Numbers that are written and read again are the same numbers.
pub proof fn lemma_numbers_round_trip(v: u16, w: u32)
    ensures
        be16(u16_bytes(v)[0], u16_bytes(v)[1]) == v,
        be32(u32_bytes(w)[0], u32_bytes(w)[1], u32_bytes(w)[2], u32_bytes(w)[3]) == w,
{
}

/// One for a flag that is set, zero for one that is not.
pub open spec fn bit(b: bool) -> int {
    if b {
        1
    } else {
        0
    }
}

/// The first octet of the flags: `QR`, the operation code, `AA`, `TC`, `RD`.
pub open spec fn flags_high(h: Header) -> u8 {
    (128 * bit(h.response) + 8 * (h.opcode.code() as int) + 4 * bit(h.authoritative) + 2 * bit(
        h.truncated,
    ) + bit(h.recursion_desired)) as u8
}

/// The second octet of the flags: `RA`, three zero bits, the response code.
pub open spec fn flags_low(h: Header) -> u8 {
    (128 * bit(h.recursion_available) + h.rcode.code() as int) as u8
}

/// The twelve octets of a header with the given section counts.
pub open spec fn header_bytes(h: Header, c: Counts) -> Seq<u8> {
    seq![
        high(h.id),
        low(h.id),
        flags_high(h),
        flags_low(h),
        high(c.questions),
        low(c.questions),
        high(c.answers),
        low(c.answers),
        high(c.authority),
        low(c.authority),
        high(c.additional),
        low(c.additional),
    ]
}

/// The operation code in the first octet of the flags.
pub open spec fn opcode_bits(b: u8) -> u8 {
    ((b / 8) % 16) as u8
}

/// The header and the section counts that the first twelve octets of
/// `bytes` hold.
pub open spec fn header_of(bytes: Seq<u8>) -> Result<(Header, Counts), DecodeError> {
    if bytes.len() < HEADER_LEN {
        Err(DecodeError::Truncated)
    } else {
        match OpCode::with_code(opcode_bits(bytes[2])) {
            None => Err(DecodeError::UnsupportedOpcode),
            Some(opcode) => Ok(
                (
                    Header {
                        id: be16(bytes[0], bytes[1]),
                        response: bytes[2] >= 128,
                        opcode,
                        authoritative: (bytes[2] / 4) % 2 == 1,
                        truncated: (bytes[2] / 2) % 2 == 1,
                        recursion_desired: bytes[2] % 2 == 1,
                        recursion_available: bytes[3] >= 128,
                        rcode: ResponseCode::with_code((bytes[3] % 16) as u8),
                    },
                    Counts {
                        questions: be16(bytes[4], bytes[5]),
                        answers: be16(bytes[6], bytes[7]),
                        authority: be16(bytes[8], bytes[9]),
                        additional: be16(bytes[10], bytes[11]),
                    },
                ),
            ),
        }
    }
}

/// A header that is written and read again is the same header, with the
/// same counts, provided that its response code fits.
pub proof fn lemma_header_round_trip(h: Header, c: Counts)
    requires
        h.rcode.fits(),
    ensures
        header_of(header_bytes(h, c)) == Ok::<(Header, Counts), DecodeError>((h, c)),
{
    let b = header_bytes(h, c);
    assert(b.len() == 12);
    assert(opcode_bits(b[2]) == h.opcode.code());
    assert(be16(b[0], b[1]) == h.id);
    assert(be16(b[4], b[5]) == c.questions);
    assert(be16(b[6], b[7]) == c.answers);
    assert(be16(b[8], b[9]) == c.authority);
    assert(be16(b[10], b[11]) == c.additional);
    assert(ResponseCode::with_code((b[3] % 16) as u8) == h.rcode);
}

fn bit_of(b: bool) -> (r: u8)
    ensures
        r == bit(b),
{
    if b {
        1
    } else {
        0
    }
}

/// Appends the two octets of `v` to `out`.
pub fn push_u16(out: &mut Vec<u8>, v: u16)
    ensures
        final(out)@ == old(out)@ + u16_bytes(v),
{
    out.push((v / 256) as u8);
    out.push((v % 256) as u8);
    assert(out@ =~= old(out)@ + u16_bytes(v));
}

/// Writes a header with the given section counts. A header whose
/// response code does not fit is refused as `Unencodable`.
pub fn write_header(h: &Header, c: &Counts) -> (r: Result<Vec<u8>, EncodeError>)
    ensures
        match r {
            Ok(b) => h.rcode.fits() && b@ == header_bytes(*h, *c),
            Err(e) => !h.rcode.fits() && e == EncodeError::Unencodable,
        },
{
    if !h.rcode.fits() {
        return Err(EncodeError::Unencodable);
    }
    let mut out: Vec<u8> = Vec::new();
    push_u16(&mut out, h.id);
    out.push(
        128 * bit_of(h.response) + 8 * h.opcode.wire_code() + 4 * bit_of(h.authoritative) + 2
            * bit_of(h.truncated) + bit_of(h.recursion_desired),
    );
    out.push(128 * bit_of(h.recursion_available) + h.rcode.wire_code());
    push_u16(&mut out, c.questions);
    push_u16(&mut out, c.answers);
    push_u16(&mut out, c.authority);
    push_u16(&mut out, c.additional);
    assert(out@ =~= header_bytes(*h, *c));
    Ok(out)
}

/// Reads the 16-bit number at offset `at`.
pub(crate) fn read_u16(bytes: &[u8], at: usize) -> (r: u16)
    requires
        at + 1 < bytes@.len(),
    ensures
        r == be16(bytes@[at as int], bytes@[at + 1]),
{
    (bytes[at] as u16) * 256 + (bytes[at + 1] as u16)
}

/// Reads the 32-bit number at offset `at`.
pub(crate) fn read_u32(bytes: &[u8], at: usize) -> (r: u32)
    requires
        at + 3 < bytes@.len(),
    ensures
        r == be32(bytes@[at as int], bytes@[at + 1], bytes@[at + 2], bytes@[at + 3]),
{
    (bytes[at] as u32) * 16777216 + (bytes[at + 1] as u32) * 65536 + (bytes[at + 2] as u32) * 256
        + (bytes[at + 3] as u32)
}

/// Appends the four octets of `v` to `out`.
pub(crate) fn push_u32(out: &mut Vec<u8>, v: u32)
    ensures
        final(out)@ == old(out)@ + u32_bytes(v),
{
    out.push((v / 16777216) as u8);
    out.push(((v / 65536) % 256) as u8);
    out.push(((v / 256) % 256) as u8);
    out.push((v % 256) as u8);
    assert(out@ =~= old(out)@ + u32_bytes(v));
}

/// Reads the header and the section counts from the first twelve octets.
pub fn read_header(bytes: &[u8]) -> (r: Result<(Header, Counts), DecodeError>)
    ensures
        r == header_of(bytes@),
{
    if bytes.len() < HEADER_LEN {
        return Err(DecodeError::Truncated);
    }
    let opcode = match OpCode::from_code((bytes[2] / 8) % 16) {
        Some(o) => o,
        None => {
            return Err(DecodeError::UnsupportedOpcode);
        },
    };
    let header = Header {
        id: read_u16(bytes, 0),
        response: bytes[2] >= 128,
        opcode,
        authoritative: (bytes[2] / 4) % 2 == 1,
        truncated: (bytes[2] / 2) % 2 == 1,
        recursion_desired: bytes[2] % 2 == 1,
        recursion_available: bytes[3] >= 128,
        rcode: ResponseCode::from_code(bytes[3] % 16),
    };
    let counts = Counts {
        questions: read_u16(bytes, 4),
        answers: read_u16(bytes, 6),
        authority: read_u16(bytes, 8),
        additional: read_u16(bytes, 10),
    };
    Ok((header, counts))
}

} // verus!
