use dont_need_stability::db::record::RecordClass;
use dont_need_stability::db::{RecordData, ResourceRecord};
use dont_need_stability::wire::header::{read_header, write_header};
use dont_need_stability::wire::{
    decode, encode, encode_within, keep_record, kept_type, Counts, DecodeError, EncodeError, Header,
    Message, OpCode, Question, RecordHead, ResponseCode,
};

fn header(id: u16) -> Header {
    Header {
        id,
        response: false,
        opcode: OpCode::Query,
        authoritative: false,
        truncated: false,
        recursion_desired: false,
        recursion_available: false,
        rcode: ResponseCode::NoError,
    }
}

fn question(name: &str, qtype: u16) -> Question {
    Question { name: name.to_string(), qtype, qclass: 1 }
}

fn rr(name: &str, ttl: u32, data: RecordData) -> ResourceRecord {
    ResourceRecord { name: name.to_string(), ttl, class: RecordClass::IN, data }
}

fn query(id: u16, name: &str, qtype: u16) -> Message {
    Message {
        header: header(id),
        questions: vec![question(name, qtype)],
        answers: vec![],
        authority: vec![],
        additional: vec![],
    }
}

fn answer(id: u16, name: &str, data: RecordData) -> Message {
    let mut h = header(id);
    h.response = true;
    h.authoritative = true;
    Message {
        header: h,
        questions: vec![question(name, data.get_type().wire_code())],
        answers: vec![rr(name, 3600, data)],
        authority: vec![],
        additional: vec![],
    }
}

fn name_octets(labels: &[&str]) -> Vec<u8> {
    let mut out = Vec::new();
    for l in labels {
        out.push(l.len() as u8);
        out.extend_from_slice(l.as_bytes());
    }
    out.push(0);
    out
}

fn example_query_octets() -> Vec<u8> {
    let mut b = vec![0x12, 0x34, 0x01, 0x00, 0, 1, 0, 0, 0, 0, 0, 0];
    b.extend(name_octets(&["example", "com"]));
    b.extend([0, 1, 0, 1]);
    b
}

fn assert_round_trip(m: &Message) {
    let bytes = encode(m).unwrap();
    assert_eq!(&decode(&bytes).unwrap(), m);
}

#[test]
fn round_trip_of_a_query() {
    assert_round_trip(&query(7, "example.com.", 1));
    assert_round_trip(&query(0xffff, "www.example.com.", 28));
    assert_round_trip(&query(0, ".", 2));
}

#[test]
fn round_trip_a() {
    assert_round_trip(&answer(1, "example.com.", RecordData::A([192, 0, 2, 1])));
}

#[test]
fn round_trip_aaaa() {
    assert_round_trip(&answer(
        2,
        "example.com.",
        RecordData::AAAA([0x2001, 0xdb8, 0, 0, 0, 0xff00, 0x42, 0x8329]),
    ));
}

#[test]
fn round_trip_cname() {
    assert_round_trip(&answer(3, "www.example.com.", RecordData::CNAME("example.com.".to_string())));
}

#[test]
fn round_trip_mx() {
    assert_round_trip(&answer(
        4,
        "example.com.",
        RecordData::MX { preference: 10, exchange: "mail.example.com.".to_string() },
    ));
}

#[test]
fn round_trip_ns() {
    assert_round_trip(&answer(5, "example.com.", RecordData::NS("ns1.example.com.".to_string())));
}

#[test]
fn round_trip_ptr() {
    assert_round_trip(&answer(
        6,
        "1.2.0.192.in-addr.arpa.",
        RecordData::PTR("host.example.com.".to_string()),
    ));
}

#[test]
fn round_trip_soa() {
    assert_round_trip(&answer(
        7,
        "example.com.",
        RecordData::SOA {
            mname: "ns1.example.com.".to_string(),
            rname: "hostmaster.example.com.".to_string(),
            serial: 2023102701,
            refresh: 3600,
            retry: 1800,
            expire: 4294967295,
            minimum: 600,
        },
    ));
}

#[test]
fn round_trip_srv() {
    assert_round_trip(&answer(
        8,
        "_sip._tcp.example.com.",
        RecordData::SRV { priority: 1, weight: 2, port: 5060, target: "sip.example.com.".to_string() },
    ));
}

#[test]
fn round_trip_txt() {
    assert_round_trip(&answer(9, "example.com.", RecordData::TXT("v=spf1 -all".to_string())));
}

#[test]
fn round_trip_of_every_header_field() {
    for opcode in [OpCode::Query, OpCode::Status, OpCode::Notify, OpCode::Update] {
        for rcode in [
            ResponseCode::NoError,
            ResponseCode::FormErr,
            ResponseCode::ServFail,
            ResponseCode::NXDomain,
            ResponseCode::NotImp,
            ResponseCode::Refused,
            ResponseCode::Other(6),
            ResponseCode::Other(15),
        ] {
            for flags in 0u8..32 {
                let h = Header {
                    id: 0xabcd,
                    response: flags & 1 != 0,
                    opcode,
                    authoritative: flags & 2 != 0,
                    truncated: flags & 4 != 0,
                    recursion_desired: flags & 8 != 0,
                    recursion_available: flags & 16 != 0,
                    rcode,
                };
                let m = Message {
                    header: h,
                    questions: vec![question("example.com.", 1)],
                    answers: vec![],
                    authority: vec![],
                    additional: vec![],
                };
                assert_round_trip(&m);
            }
        }
    }
}

#[test]
fn round_trip_of_all_sections() {
    let m = Message {
        header: header(77),
        questions: vec![question("example.com.", 255), question("other.example.", 1)],
        answers: vec![
            rr("example.com.", 60, RecordData::A([192, 0, 2, 1])),
            rr("example.com.", 61, RecordData::A([192, 0, 2, 2])),
        ],
        authority: vec![rr("example.com.", 62, RecordData::NS("ns1.example.com.".to_string()))],
        additional: vec![rr("ns1.example.com.", 63, RecordData::AAAA([0, 0, 0, 0, 0, 0, 0, 1]))],
    };
    assert_round_trip(&m);
}

#[test]
fn header_is_twelve_octets_most_significant_first() {
    let h = Header {
        id: 0x1234,
        response: true,
        opcode: OpCode::Update,
        authoritative: true,
        truncated: false,
        recursion_desired: true,
        recursion_available: true,
        rcode: ResponseCode::NXDomain,
    };
    let c = Counts { questions: 1, answers: 0x0203, authority: 0xffff, additional: 256 };
    let bytes = write_header(&h, &c).unwrap();
    assert_eq!(bytes, vec![0x12, 0x34, 0xad, 0x83, 0, 1, 2, 3, 0xff, 0xff, 1, 0]);
    let mut unfit = h;
    unfit.rcode = ResponseCode::Other(16);
    assert_eq!(write_header(&unfit, &c), Err(EncodeError::Unencodable));
    assert_eq!(read_header(&bytes), Ok((h, c)));
}

#[test]
fn header_reading_passes_over_the_reserved_bits() {
    let bytes = [0, 1, 0x00, 0x70, 0, 0, 0, 0, 0, 0, 0, 0];
    let (h, _) = read_header(&bytes).unwrap();
    assert_eq!(h.rcode, ResponseCode::NoError);
    assert!(!h.recursion_available);
}

#[test]
fn query_is_written_octet_by_octet() {
    let mut m = query(0x1234, "example.com.", 1);
    m.header.recursion_desired = true;
    assert_eq!(encode(&m), Ok(example_query_octets()));
}

#[test]
fn query_is_read_octet_by_octet() {
    let mut m = query(0x1234, "example.com.", 1);
    m.header.recursion_desired = true;
    assert_eq!(decode(&example_query_octets()), Ok(m));
}

#[test]
fn record_is_written_octet_by_octet() {
    let m = answer(1, "a.", RecordData::MX { preference: 0x0102, exchange: "b.a.".to_string() });
    let mut want = vec![0, 1, 0x84, 0, 0, 1, 0, 1, 0, 0, 0, 0];
    want.extend(name_octets(&["a"]));
    want.extend([0, 15, 0, 1]);
    want.extend(name_octets(&["a"]));
    want.extend([0, 15, 0, 1, 0, 0, 0x0e, 0x10, 0, 7, 1, 2]);
    want.extend(name_octets(&["b", "a"]));
    assert_eq!(encode(&m), Ok(want));
}

#[test]
fn owners_keep_their_letter_case_and_names_in_data_lose_it() {
    let m = answer(1, "WWW.Example.COM.", RecordData::NS("NS1.Example.COM.".to_string()));
    let got = decode(&encode(&m).unwrap()).unwrap();
    assert_eq!(got.questions[0].name, "WWW.Example.COM.");
    assert_eq!(got.answers[0].name, "WWW.Example.COM.");
    assert_eq!(got.answers[0].data, RecordData::NS("ns1.example.com.".to_string()));
}

#[test]
fn truncated_buffers_are_refused() {
    let full = example_query_octets();
    for n in 0..12 {
        assert_eq!(decode(&full[..n]), Err(DecodeError::Truncated));
    }
    for n in 12..full.len() {
        assert_eq!(decode(&full[..n]), Err(DecodeError::Truncated));
    }
    assert!(decode(&full).is_ok());
}

#[test]
fn records_cut_short_are_refused_as_truncated() {
    let m = answer(1, "example.com.", RecordData::MX { preference: 10, exchange: "mail.example.com.".to_string() });
    let full = encode(&m).unwrap();
    for n in 0..full.len() {
        assert_eq!(decode(&full[..n]), Err(DecodeError::Truncated), "{}", n);
    }
    assert_eq!(decode(&full), Ok(m));
}

#[test]
fn unknown_operations_are_refused() {
    for code in [1u8, 3, 6, 7, 8, 15] {
        let mut b = example_query_octets();
        b[2] = code << 3;
        assert_eq!(decode(&b), Err(DecodeError::UnsupportedOpcode));
    }
    for (code, opcode) in [(0u8, OpCode::Query), (2, OpCode::Status), (4, OpCode::Notify), (5, OpCode::Update)] {
        let mut b = example_query_octets();
        b[2] = code << 3;
        assert_eq!(decode(&b).unwrap().header.opcode, opcode);
    }
}

#[test]
fn overlong_buffers_are_refused() {
    let mut b = example_query_octets();
    b.resize(65536, 0);
    assert_eq!(decode(&b), Err(DecodeError::Malformed));
    b.truncate(65535);
    assert!(decode(&b).is_ok());
}

#[test]
fn compressed_names_are_followed() {
    let mut b = vec![0, 9, 0x84, 0, 0, 1, 0, 1, 0, 0, 0, 0];
    b.extend(name_octets(&["example", "com"]));
    b.extend([0, 5, 0, 1]);
    b.extend([0xc0, 12, 0, 5, 0, 1, 0, 0, 0, 60, 0, 6, 3, b'w', b'w', b'w', 0xc0, 12]);
    let m = decode(&b).unwrap();
    assert_eq!(m.questions, vec![question("example.com.", 5)]);
    assert_eq!(
        m.answers,
        vec![rr("example.com.", 60, RecordData::CNAME("www.example.com.".to_string()))]
    );
}

#[test]
fn pointers_that_do_not_point_back_are_refused() {
    let mut own = vec![0, 9, 0, 0, 0, 1, 0, 0, 0, 0, 0, 0];
    own.extend([0xc0, 12, 0, 1, 0, 1]);
    assert_eq!(decode(&own), Err(DecodeError::InvalidLabel));
    let mut forward = vec![0, 9, 0, 0, 0, 1, 0, 0, 0, 0, 0, 0];
    forward.extend([0xc0, 18, 0, 1, 0, 1, 1, b'a', 0]);
    assert_eq!(decode(&forward), Err(DecodeError::InvalidLabel));
    let mut outside = vec![0, 9, 0, 0, 0, 1, 0, 0, 0, 0, 0, 0];
    outside.extend([0xff, 0xff, 0, 1, 0, 1]);
    assert_eq!(decode(&outside), Err(DecodeError::InvalidLabel));
}

#[test]
fn reserved_label_codes_are_refused() {
    let mut b = vec![0, 9, 0, 0, 0, 1, 0, 0, 0, 0, 0, 0];
    b.extend([0x80, b'a', 0, 0, 1, 0, 1]);
    assert_eq!(decode(&b), Err(DecodeError::InvalidLabel));
    let mut c = vec![0, 9, 0, 0, 0, 1, 0, 0, 0, 0, 0, 0];
    c.extend([0x40, b'a', 0, 0, 1, 0, 1]);
    assert_eq!(decode(&c), Err(DecodeError::InvalidLabel));
}

#[test]
fn labels_longer_than_the_buffer_are_refused() {
    let mut b = vec![0, 9, 0, 0, 0, 1, 0, 0, 0, 0, 0, 0];
    b.extend([40, b'a', b'b', b'c']);
    assert_eq!(decode(&b), Err(DecodeError::Truncated));
}

#[test]
fn counts_beyond_the_buffer_are_refused() {
    let mut b = example_query_octets();
    b[5] = 2;
    assert_eq!(decode(&b), Err(DecodeError::Truncated));
    let mut c = example_query_octets();
    c[7] = 1;
    assert_eq!(decode(&c), Err(DecodeError::Truncated));
    let mut d = example_query_octets();
    d[11] = 3;
    assert_eq!(decode(&d), Err(DecodeError::Truncated));
}

#[test]
fn data_shorter_than_its_type_is_refused() {
    let mut b = vec![0, 9, 0x80, 0, 0, 0, 0, 1, 0, 0, 0, 0];
    b.extend(name_octets(&["a"]));
    b.extend([0, 1, 0, 1, 0, 0, 0, 60, 0, 2, 192, 0]);
    assert_eq!(decode(&b), Err(DecodeError::Malformed));
    let mut long = vec![0, 9, 0x80, 0, 0, 0, 0, 1, 0, 0, 0, 0];
    long.extend(name_octets(&["a"]));
    long.extend([0, 1, 0, 1, 0, 0, 0, 60, 0, 5, 192, 0, 2, 1, 9]);
    assert_eq!(decode(&long), Err(DecodeError::Malformed));
    let mut beyond = vec![0, 9, 0x80, 0, 0, 0, 0, 1, 0, 0, 0, 0];
    beyond.extend(name_octets(&["a"]));
    beyond.extend([0, 1, 0, 1, 0, 0, 0, 60, 0, 5, 192, 0, 2, 1]);
    assert_eq!(decode(&beyond), Err(DecodeError::Truncated));
    let mut none = vec![0, 9, 0x80, 0, 0, 0, 0, 1, 0, 0, 0, 0];
    none.extend(name_octets(&["a"]));
    none.extend([0, 1, 0, 1, 0, 0, 0, 60, 0, 0]);
    assert_eq!(decode(&none), Err(DecodeError::Malformed));
}

#[test]
fn records_of_other_types_and_classes_are_passed_over() {
    let mut b = vec![0, 9, 0, 0, 0, 1, 0, 2, 0, 0, 0, 1];
    b.extend(name_octets(&["example", "com"]));
    b.extend([0, 1, 0, 1]);
    b.extend([0xc0, 12, 0, 13, 0, 1, 0, 0, 0, 60, 0, 4, 1, b'x', 1, b'y']);
    b.extend([0xc0, 12, 0, 1, 0, 1, 0, 0, 0, 61, 0, 4, 192, 0, 2, 1]);
    b.extend([0, 0, 41, 0x10, 0, 0, 0, 0, 0, 0, 0]);
    let m = decode(&b).unwrap();
    assert_eq!(m.answers, vec![rr("example.com.", 61, RecordData::A([192, 0, 2, 1]))]);
    assert!(m.additional.is_empty());
    let mut chaos = vec![0, 9, 0, 0, 0, 0, 0, 1, 0, 0, 0, 0];
    chaos.extend(name_octets(&["a"]));
    chaos.extend([0, 16, 0, 3, 0, 0, 0, 60, 0, 2, 1, b'x']);
    assert!(decode(&chaos).unwrap().answers.is_empty());
}

#[test]
fn octets_behind_the_last_section_are_passed_over() {
    let mut b = example_query_octets();
    b.extend([1, 2, 3]);
    assert_eq!(decode(&b).unwrap().questions, vec![question("example.com.", 1)]);
}

#[test]
fn messages_longer_than_a_datagram_are_refused() {
    let mut m = answer(1, "example.com.", RecordData::A([192, 0, 2, 1]));
    let one = encode(&m).unwrap().len();
    let per_record = 13 + 10 + 4;
    while m.answers.len() < (512 - one) / per_record + 1 {
        m.answers.push(rr("example.com.", 3600, RecordData::A([192, 0, 2, 1])));
    }
    assert!(encode(&m).unwrap().len() <= 512);
    m.answers.push(rr("example.com.", 3600, RecordData::A([192, 0, 2, 1])));
    assert_eq!(encode(&m), Err(EncodeError::BufferOverflow));
    let long = encode_within(&m, 65535).unwrap();
    assert!(long.len() > 512);
    assert_eq!(decode(&long).unwrap(), m);
    assert_eq!(encode_within(&m, long.len()), Ok(long.clone()));
    assert_eq!(encode_within(&m, long.len() - 1), Err(EncodeError::BufferOverflow));
}

#[test]
fn parts_without_wire_form_are_refused() {
    let long_label = format!("{}.example.com.", "a".repeat(64));
    assert_eq!(encode(&query(1, &long_label, 1)), Err(EncodeError::Unencodable));
    assert_eq!(encode(&query(1, "bad name.example.com.", 1)), Err(EncodeError::Unencodable));
    assert_eq!(
        encode(&answer(1, "example.com.", RecordData::NS(long_label.clone()))),
        Err(EncodeError::Unencodable)
    );
    assert_eq!(
        encode(&answer(1, "example.com.", RecordData::TXT("x".repeat(256)))),
        Err(EncodeError::Unencodable)
    );
    assert!(encode(&answer(1, "example.com.", RecordData::TXT("x".repeat(255)))).is_ok());
    let mut code = query(1, "example.com.", 1);
    code.header.rcode = ResponseCode::Other(16);
    assert_eq!(encode(&code), Err(EncodeError::Unencodable));
    code.header.rcode = ResponseCode::Other(3);
    assert_eq!(encode(&code), Err(EncodeError::Unencodable));
    assert_eq!(encode(&query(1, "b\u{fc}cher.example.", 1)), Err(EncodeError::Unencodable));
    assert_eq!(encode(&query(1, &"a.".repeat(513), 1)), Err(EncodeError::Unencodable));
    assert_eq!(encode(&query(1, &"a.".repeat(128), 1)), Err(EncodeError::Unencodable));
    assert!(encode_within(&query(1, &"a.".repeat(127), 1), 65535).is_ok());
    assert_eq!(
        encode(&answer(1, "example.com.", RecordData::CNAME("a".repeat(5000)))),
        Err(EncodeError::Unencodable)
    );
}

#[test]
fn a_long_label_with_a_high_character_is_refused_not_crashed_on() {
    let label = format!("{}{}", "a".repeat(4096), '\u{fff80}');
    let name = format!("{}.example.", label);
    assert_eq!(encode(&query(1, &name, 1)), Err(EncodeError::Unencodable));
    assert_eq!(encode(&query(1, &label, 1)), Err(EncodeError::Unencodable));
    assert_eq!(
        encode(&answer(1, "example.com.", RecordData::NS(name.clone()))),
        Err(EncodeError::Unencodable)
    );
    let short = format!("{}{}.example.", "a".repeat(40), '\u{fff80}');
    assert_eq!(encode(&query(1, &short, 1)), Err(EncodeError::Unencodable));
}

#[test]
fn questions_of_any_class_and_type_are_written_and_read() {
    let mut m = query(1, "example.com.", 65535);
    m.questions[0].qclass = 2;
    assert_round_trip(&m);
    m.questions[0].qclass = 0xfffe;
    m.questions[0].qtype = 0;
    assert_round_trip(&m);
}

#[test]
fn codes_of_operations_and_statuses() {
    for (o, c) in [(OpCode::Query, 0u8), (OpCode::Status, 2), (OpCode::Notify, 4), (OpCode::Update, 5)] {
        assert_eq!(o.wire_code(), c);
        assert_eq!(OpCode::from_code(c), Some(o));
    }
    assert_eq!(OpCode::from_code(1), None);
    assert_eq!(OpCode::from_code(16), None);
    for (r, c) in [
        (ResponseCode::NoError, 0u8),
        (ResponseCode::FormErr, 1),
        (ResponseCode::ServFail, 2),
        (ResponseCode::NXDomain, 3),
        (ResponseCode::NotImp, 4),
        (ResponseCode::Refused, 5),
        (ResponseCode::Other(9), 9),
    ] {
        assert_eq!(r.wire_code(), c);
        assert_eq!(ResponseCode::from_code(c), r);
        assert!(r.fits());
    }
    assert!(!ResponseCode::Other(0).fits());
    assert!(!ResponseCode::Other(16).fits());
}

#[test]
fn names_that_only_the_relaxed_reading_takes_are_written() {
    let m = query(1, "under_score.example.com.", 1);
    let bytes = encode(&m).unwrap();
    assert_eq!(decode(&bytes).unwrap(), m);
    let escaped = query(2, "a\\.b.example.com.", 1);
    let bytes = encode(&escaped).unwrap();
    assert_eq!(&bytes[12..19], &[3, b'a', b'.', b'b', 7, b'e', b'x']);
    assert_eq!(decode(&bytes).unwrap(), escaped);
}

#[test]
fn international_names_pass_in_their_ascii_form() {
    let m = query(1, "xn--bcher-kva.example.", 1);
    let bytes = encode(&m).unwrap();
    assert_eq!(&bytes[12..26], b"\x0dxn--bcher-kva");
    assert_eq!(decode(&bytes).unwrap(), m);
}

#[test]
fn a_record_of_another_type_is_passed_over_whatever_its_data() {
    let mut b = vec![0, 9, 0x80, 0, 0, 0, 0, 2, 0, 0, 0, 0];
    b.extend(name_octets(&["a"]));
    let issuer = format!("{}{}", "a".repeat(4096), '\u{fff80}');
    let mut data = vec![0, 5];
    data.extend(b"issue");
    data.extend(issuer.as_bytes());
    b.extend([1, 1, 0, 1, 0, 0, 0, 60, (data.len() >> 8) as u8, data.len() as u8]);
    b.extend(&data);
    b.extend(name_octets(&["a"]));
    b.extend([0, 1, 0, 1, 0, 0, 0, 61, 0, 4, 192, 0, 2, 1]);
    let m = decode(&b).unwrap();
    assert_eq!(m.answers, vec![rr("a.", 61, RecordData::A([192, 0, 2, 1]))]);
}

#[test]
fn codec_refusals_are_put_in_words() {
    assert_eq!(DecodeError::Truncated.to_string(), "the message is cut short");
    assert_eq!(
        DecodeError::InvalidLabel.to_string(),
        "a name with a label or a pointer out of order"
    );
    assert_eq!(DecodeError::UnsupportedOpcode.to_string(), "unknown operation code");
    assert_eq!(DecodeError::Malformed.to_string(), "malformed message");
    assert_eq!(EncodeError::BufferOverflow.to_string(), "the message is longer than the limit");
    assert_eq!(EncodeError::Unencodable.to_string(), "a part of the message has no wire form");
}

#[test]
fn a_message_that_is_only_a_header_takes_twelve_octets() {
    let mut h = header(0xc0c0);
    h.response = true;
    h.rcode = ResponseCode::Refused;
    let m = Message { header: h, questions: vec![], answers: vec![], authority: vec![], additional: vec![] };
    let bytes = encode(&m).unwrap();
    assert_eq!(bytes, vec![0xc0, 0xc0, 0x80, 0x05, 0, 0, 0, 0, 0, 0, 0, 0]);
    assert_eq!(decode(&bytes), Ok(m));
}

fn head(rtype: u16, class: u16) -> RecordHead {
    RecordHead { name: "example.com.".to_string(), rtype, class, ttl: 77, data_len: 4 }
}

#[test]
fn a_record_is_kept_under_its_type_where_its_class_is_in() {
    assert_eq!(kept_type(&head(1, 1)), Some(dont_need_stability::db::RecordType::A));
    assert_eq!(kept_type(&head(33, 1)), Some(dont_need_stability::db::RecordType::SRV));
    assert_eq!(kept_type(&head(1, 3)), None);
    assert_eq!(kept_type(&head(1, 255)), None);
    assert_eq!(kept_type(&head(257, 1)), None);
    assert_eq!(kept_type(&head(41, 4096)), None);
}

#[test]
fn a_head_and_its_data_make_a_record() {
    let a = RecordData::A([192, 0, 2, 1]);
    assert_eq!(
        keep_record(head(1, 1), Some(a.clone())),
        Ok(Some(rr("example.com.", 77, a.clone())))
    );
    assert_eq!(keep_record(head(1, 1), None), Err(DecodeError::Malformed));
    assert_eq!(keep_record(head(28, 1), Some(a.clone())), Err(DecodeError::Malformed));
    assert_eq!(keep_record(head(1, 3), Some(a.clone())), Ok(None));
    assert_eq!(keep_record(head(1, 3), None), Ok(None));
    assert_eq!(keep_record(head(257, 1), None), Ok(None));
    assert_eq!(keep_record(head(257, 1), Some(a)), Ok(None));
}
