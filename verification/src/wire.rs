//! DNS messages and their wire format.
//!
//! The library frames a message itself: the twelve-octet header, the
//! section counts, the order of the sections and the numbers of every
//! question and record. The names and the data of the records are read
//! and written by `trust_dns_proto`.

pub mod codec;
pub mod header;
pub mod message;
pub mod parts;
pub mod pointers;

pub use codec::{decode, encode, encode_within, keep_record, kept_type, RecordHead};
pub use header::{Counts, DecodeError, EncodeError, Header, OpCode, ResponseCode};
pub use message::{Message, MessageView, Question, QuestionView};
