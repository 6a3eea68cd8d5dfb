use dont_need_stability::db::record::RecordClass;
use dont_need_stability::db::{RecordData, ResourceRecord};
use dont_need_stability::wire::{
    decode, encode, encode_within, DecodeError, Header, Message, OpCode, Question, ResponseCode,
};
use std::str::FromStr;
use trust_dns_proto::op::{Message as OutsideMessage, MessageType, OpCode as OutsideOpCode, Query};
use trust_dns_proto::op::ResponseCode as OutsideResponseCode;
use trust_dns_proto::rr::rdata::{MX, SOA, SRV, TXT};
use trust_dns_proto::rr::{Name, RData, Record, RecordType};

fn name(s: &str) -> Name {
    Name::from_str(s).unwrap()
}

fn rr(owner: &str, ttl: u32, data: RecordData) -> ResourceRecord {
    ResourceRecord { name: owner.to_string(), ttl, class: RecordClass::IN, data }
}

fn all_data() -> Vec<(RecordData, RData)> {
    vec![
        (RecordData::A([192, 0, 2, 1]), RData::A([192, 0, 2, 1].into())),
        (
            RecordData::AAAA([0x2001, 0xdb8, 0, 0, 0, 0, 0, 1]),
            RData::AAAA([0x2001u16, 0xdb8, 0, 0, 0, 0, 0, 1].into()),
        ),
        (RecordData::CNAME("www.example.com.".to_string()), RData::CNAME(name("www.example.com."))),
        (
            RecordData::MX { preference: 10, exchange: "mail.example.com.".to_string() },
            RData::MX(MX::new(10, name("mail.example.com."))),
        ),
        (RecordData::NS("ns1.example.com.".to_string()), RData::NS(name("ns1.example.com."))),
        (RecordData::PTR("host.example.com.".to_string()), RData::PTR(name("host.example.com."))),
        (
            RecordData::SOA {
                mname: "ns1.example.com.".to_string(),
                rname: "hostmaster.example.com.".to_string(),
                serial: 2023102701,
                refresh: 3600,
                retry: 1800,
                expire: 604800,
                minimum: 600,
            },
            RData::SOA(SOA::new(
                name("ns1.example.com."),
                name("hostmaster.example.com."),
                2023102701,
                3600,
                1800,
                604800,
                600,
            )),
        ),
        (
            RecordData::SRV { priority: 1, weight: 2, port: 5060, target: "sip.example.com.".to_string() },
            RData::SRV(SRV::new(1, 2, 5060, name("sip.example.com."))),
        ),
        (RecordData::TXT("v=spf1 -all".to_string()), RData::TXT(TXT::new(vec!["v=spf1 -all".to_string()]))),
    ]
}

fn ours(data: &RecordData) -> Message {
    Message {
        header: Header {
            id: 0x2b2b,
            response: true,
            opcode: OpCode::Query,
            authoritative: true,
            truncated: false,
            recursion_desired: true,
            recursion_available: false,
            rcode: ResponseCode::NoError,
        },
        questions: vec![Question {
            name: "example.com.".to_string(),
            qtype: data.get_type().wire_code(),
            qclass: 1,
        }],
        answers: vec![rr("example.com.", 300, data.clone())],
        authority: vec![rr("example.com.", 301, data.clone())],
        additional: vec![rr("example.com.", 302, data.clone())],
    }
}

fn theirs(data: &RData) -> OutsideMessage {
    let mut m = OutsideMessage::new();
    m.set_id(0x2b2b)
        .set_message_type(MessageType::Response)
        .set_op_code(OutsideOpCode::Query)
        .set_authoritative(true)
        .set_recursion_desired(true)
        .set_response_code(OutsideResponseCode::NoError)
        .add_query(Query::query(name("example.com."), data.to_record_type()))
        .add_answer(Record::from_rdata(name("example.com."), 300, data.clone()))
        .add_name_server(Record::from_rdata(name("example.com."), 301, data.clone()))
        .add_additional(Record::from_rdata(name("example.com."), 302, data.clone()));
    m
}

#[test]
fn what_the_outside_crate_writes_is_read() {
    for (data, outside) in all_data() {
        let bytes = theirs(&outside).to_vec().unwrap();
        assert_eq!(decode(&bytes), Ok(ours(&data)), "{:?}", data);
    }
}

#[test]
fn what_is_written_the_outside_crate_reads() {
    for (data, outside) in all_data() {
        let bytes = encode(&ours(&data)).unwrap();
        let want = OutsideMessage::from_vec(&theirs(&outside).to_vec().unwrap()).unwrap();
        assert_eq!(OutsideMessage::from_vec(&bytes).unwrap(), want, "{:?}", data);
    }
}

#[test]
fn a_query_with_an_opt_record_is_read() {
    let mut m = OutsideMessage::new();
    m.set_id(9).set_recursion_desired(true).add_query(Query::query(name("example.com."), RecordType::A));
    m.edns_mut().set_max_payload(1232);
    let got = decode(&m.to_vec().unwrap()).unwrap();
    assert_eq!(got.header.id, 9);
    assert!(got.header.recursion_desired);
    assert_eq!(got.questions, vec![Question { name: "example.com.".to_string(), qtype: 1, qclass: 1 }]);
    assert!(got.additional.is_empty());
}

/// A message of `hops + 1` questions, each but the first a pointer to the
/// name of the one before.
fn chained_questions(hops: usize) -> Vec<u8> {
    let mut b = vec![0, 1, 0, 0, 0, 1, 0, 0, 0, 0, 0, 0];
    b.extend([1, b'a', 0, 0, 1, 0, 1]);
    let mut prior = 12usize;
    for _ in 0..hops {
        let at = b.len();
        b.push(0xc0 | (prior >> 8) as u8);
        b.push(prior as u8);
        b.extend([0, 1, 0, 1]);
        prior = at;
    }
    let n = (hops + 1) as u16;
    b[4] = (n >> 8) as u8;
    b[5] = n as u8;
    b
}

#[test]
fn a_chain_of_pointers_is_followed_as_far_as_names_need() {
    for hops in [0usize, 1, 2, 126, 127] {
        let got = decode(&chained_questions(hops)).unwrap();
        assert_eq!(got.questions.len(), hops + 1);
        assert!(got.questions.iter().all(|q| q.name == "a."));
        assert_eq!(encode_within(&got, 65535).unwrap().len(), 12 + 7 * (hops + 1));
    }
}

#[test]
fn a_chain_of_pointers_that_is_too_long_is_refused() {
    for hops in [128usize, 129, 1000, 2600] {
        assert_eq!(decode(&chained_questions(hops)), Err(DecodeError::InvalidLabel));
    }
}

#[test]
fn a_long_chain_is_refused_wherever_it_stands() {
    let mut b = vec![0, 1, 0, 0, 0, 1, 0, 0, 0, 0, 0, 0];
    b.extend(b"\x07example\x03com\x00\x00\x01\x00\x01");
    assert!(decode(&b).is_ok());
    let mut prior = 12usize;
    for _ in 0..8000 {
        let at = b.len();
        b.push(0xc0 | (prior >> 8) as u8);
        b.push(prior as u8);
        prior = at;
    }
    assert_eq!(decode(&b), Err(DecodeError::InvalidLabel));
}
