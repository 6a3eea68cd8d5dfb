//! The core of an authoritative DNS name server: the zone and record
//! model, the store of zones, the reader of master files, the wire codec,
//! the query dispatcher and the queue between receiver and workers. Every
//! function states what it returns in a contract that Verus proves; what
//! `trust_dns_proto` does for the codec is named and taken on trust.

pub mod addr;
pub mod db;
pub mod dispatcher;
pub mod queue;
pub mod text;
pub mod wire;
pub mod zone_parser;
