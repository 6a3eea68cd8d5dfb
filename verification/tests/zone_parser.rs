use dont_need_stability::db::record::RecordClass;
use dont_need_stability::db::{RecordData, ResourceRecord, Zone};
use dont_need_stability::zone_parser::{ParseError, ParseErrorKind, ZoneParser};

fn parse(text: &str) -> Result<Zone, ParseError> {
    ZoneParser::parse_zone_file(text, "default.test.".to_string(), 300)
}

fn records(text: &str) -> Vec<ResourceRecord> {
    parse(text).unwrap().records
}

fn refusal(text: &str) -> (ParseErrorKind, usize, String) {
    let e = parse(text).unwrap_err();
    (e.kind, e.line, e.token)
}

fn rr(name: &str, ttl: u32, data: RecordData) -> ResourceRecord {
    ResourceRecord { name: name.to_string(), ttl, class: RecordClass::IN, data }
}

#[test]
fn origin_and_ttl_directives_set_the_defaults() {
    let zone = parse("$ORIGIN example.com.\n$TTL 3600\n@ A 192.0.2.1\n").unwrap();
    assert_eq!(zone.origin, "example.com.");
    assert_eq!(zone.ttl, 3600);
    assert_eq!(zone.records, vec![rr("example.com.", 3600, RecordData::A([192, 0, 2, 1]))]);
}

#[test]
fn empty_file_gives_the_defaults() {
    let zone = parse("").unwrap();
    assert_eq!(zone.origin, "default.test.");
    assert_eq!(zone.ttl, 300);
    assert!(zone.records.is_empty());
}

#[test]
fn blank_lines_and_comments_are_skipped() {
    let text = "\n   \n; a comment\n  ; an indented comment\r\n\t\n@ A 192.0.2.1\r\n;last";
    assert_eq!(records(text), vec![rr("default.test.", 300, RecordData::A([192, 0, 2, 1]))]);
}

#[test]
fn unknown_directives_are_passed_over() {
    let zone = parse("$INCLUDE other.zone\n$GENERATE 1-2 x\n$origin lower.case.\n").unwrap();
    assert_eq!(zone.origin, "default.test.");
    assert!(zone.records.is_empty());
}

#[test]
fn directives_take_effect_from_their_line_on() {
    let text = "www A 192.0.2.1\n$ORIGIN b.test.\n$TTL 60\nwww A 192.0.2.2\n$ORIGIN c.test.\n";
    let zone = parse(text).unwrap();
    assert_eq!(zone.origin, "c.test.");
    assert_eq!(zone.ttl, 60);
    assert_eq!(
        zone.records,
        vec![
            rr("www.default.test.", 300, RecordData::A([192, 0, 2, 1])),
            rr("www.b.test.", 60, RecordData::A([192, 0, 2, 2])),
        ]
    );
}

#[test]
fn owner_names_are_completed_by_the_origin() {
    let text = "@ A 192.0.2.1\nwww A 192.0.2.2\nhost.other.org. A 192.0.2.3\nA 192.0.2.4\n";
    assert_eq!(
        records(text),
        vec![
            rr("default.test.", 300, RecordData::A([192, 0, 2, 1])),
            rr("www.default.test.", 300, RecordData::A([192, 0, 2, 2])),
            rr("host.other.org.", 300, RecordData::A([192, 0, 2, 3])),
            rr("default.test.", 300, RecordData::A([192, 0, 2, 4])),
        ]
    );
}

#[test]
fn optional_fields_are_told_apart_by_shape() {
    let text = "www 60 IN A 192.0.2.1\nwww 60 A 192.0.2.2\nwww in a 192.0.2.3\n\
                60 IN A 192.0.2.4\nIN A 192.0.2.5\n+7 A 192.0.2.6\n4294967295 A 192.0.2.7\n";
    assert_eq!(
        records(text),
        vec![
            rr("www.default.test.", 60, RecordData::A([192, 0, 2, 1])),
            rr("www.default.test.", 60, RecordData::A([192, 0, 2, 2])),
            rr("www.default.test.", 300, RecordData::A([192, 0, 2, 3])),
            rr("default.test.", 60, RecordData::A([192, 0, 2, 4])),
            rr("default.test.", 300, RecordData::A([192, 0, 2, 5])),
            rr("default.test.", 7, RecordData::A([192, 0, 2, 6])),
            rr("default.test.", 4294967295, RecordData::A([192, 0, 2, 7])),
        ]
    );
}

#[test]
fn a_number_too_large_for_a_ttl_is_an_owner_name() {
    assert_eq!(
        records("4294967296 A 192.0.2.1\n"),
        vec![rr("4294967296.default.test.", 300, RecordData::A([192, 0, 2, 1]))]
    );
}

#[test]
fn every_record_type_is_read() {
    let text = "@ A 10.1.2.3\n\
                @ AAAA 2001:db8::1\n\
                www CNAME target.example.\n\
                @ MX 10 mail.example.\n\
                @ NS ns1.example.\n\
                4.3.2.1.in-addr.arpa. PTR host.example.\n\
                @ SOA ns1.example. admin.example. 2023102701 3600 1800 604800 600\n\
                _sip._tcp SRV 1 2 5060 sip.example.\n\
                @ TXT \"v=spf1   -all\"  done\n";
    assert_eq!(
        records(text),
        vec![
            rr("default.test.", 300, RecordData::A([10, 1, 2, 3])),
            rr("default.test.", 300, RecordData::AAAA([0x2001, 0xdb8, 0, 0, 0, 0, 0, 1])),
            rr("www.default.test.", 300, RecordData::CNAME("target.example.".to_string())),
            rr(
                "default.test.",
                300,
                RecordData::MX { preference: 10, exchange: "mail.example.".to_string() }
            ),
            rr("default.test.", 300, RecordData::NS("ns1.example.".to_string())),
            rr("4.3.2.1.in-addr.arpa.", 300, RecordData::PTR("host.example.".to_string())),
            rr(
                "default.test.",
                300,
                RecordData::SOA {
                    mname: "ns1.example.".to_string(),
                    rname: "admin.example.".to_string(),
                    serial: 2023102701,
                    refresh: 3600,
                    retry: 1800,
                    expire: 604800,
                    minimum: 600,
                }
            ),
            rr(
                "_sip._tcp.default.test.",
                300,
                RecordData::SRV {
                    priority: 1,
                    weight: 2,
                    port: 5060,
                    target: "sip.example.".to_string()
                }
            ),
            rr("default.test.", 300, RecordData::TXT("\"v=spf1 -all\" done".to_string())),
        ]
    );
}

#[test]
fn txt_without_words_is_empty() {
    assert_eq!(records("@ TXT\n"), vec![rr("default.test.", 300, RecordData::TXT(String::new()))]);
}

#[test]
fn missing_origin_name_is_refused() {
    assert_eq!(refusal("\n$ORIGIN\n"), (ParseErrorKind::MissingOrigin, 2, "$ORIGIN".to_string()));
}

#[test]
fn bad_ttl_directive_is_refused() {
    assert_eq!(refusal("$TTL\n"), (ParseErrorKind::InvalidTtl, 1, "$TTL".to_string()));
    assert_eq!(refusal("$TTL 1h\n"), (ParseErrorKind::InvalidTtl, 1, "1h".to_string()));
    assert_eq!(
        refusal("$TTL 4294967296\n"),
        (ParseErrorKind::InvalidTtl, 1, "4294967296".to_string())
    );
    assert_eq!(refusal("$TTL -1\n"), (ParseErrorKind::InvalidTtl, 1, "-1".to_string()));
}

#[test]
fn missing_type_is_refused() {
    assert_eq!(refusal("www\n"), (ParseErrorKind::MissingType, 1, String::new()));
    assert_eq!(refusal("www 60 IN\n"), (ParseErrorKind::MissingType, 1, String::new()));
    assert_eq!(
        refusal("@ A 192.0.2.1\nwww 60 IN 192.0.2.1\n"),
        (ParseErrorKind::MissingType, 2, "192.0.2.1".to_string())
    );
    assert_eq!(refusal("www AXFR x\n"), (ParseErrorKind::MissingType, 1, "AXFR".to_string()));
    assert_eq!(refusal("IN 60 A 192.0.2.1\n"), (ParseErrorKind::MissingType, 1, "60".to_string()));
}

#[test]
fn wrong_number_of_fields_is_refused() {
    assert_eq!(refusal("@ A\n"), (ParseErrorKind::MissingField, 1, "A".to_string()));
    assert_eq!(refusal("@ mx 10\n"), (ParseErrorKind::MissingField, 1, "mx".to_string()));
    assert_eq!(
        refusal("@ SOA a. b. 1 2 3 4\n"),
        (ParseErrorKind::MissingField, 1, "SOA".to_string())
    );
    assert_eq!(refusal("@ SRV 1 2 3\n"), (ParseErrorKind::MissingField, 1, "SRV".to_string()));
    assert_eq!(
        refusal("@ A 192.0.2.1 ; note\n"),
        (ParseErrorKind::UnexpectedField, 1, ";".to_string())
    );
    assert_eq!(
        refusal("@ SOA a. b. 1 2 3 4 5 6\n"),
        (ParseErrorKind::UnexpectedField, 1, "6".to_string())
    );
    assert_eq!(
        refusal("@ NS a. b.\n"),
        (ParseErrorKind::UnexpectedField, 1, "b.".to_string())
    );
}

#[test]
fn malformed_addresses_are_refused() {
    assert_eq!(
        refusal("@ A 192.0.2.256\n"),
        (ParseErrorKind::InvalidAddress, 1, "192.0.2.256".to_string())
    );
    assert_eq!(
        refusal("\n\n@ AAAA 2001:db8:::1\n"),
        (ParseErrorKind::InvalidAddress, 3, "2001:db8:::1".to_string())
    );
    assert_eq!(refusal("@ A ::1\n"), (ParseErrorKind::InvalidAddress, 1, "::1".to_string()));
}

#[test]
fn malformed_numbers_are_refused() {
    assert_eq!(
        refusal("@ MX 65536 mail.\n"),
        (ParseErrorKind::InvalidNumber, 1, "65536".to_string())
    );
    assert_eq!(refusal("@ MX ten mail.\n"), (ParseErrorKind::InvalidNumber, 1, "ten".to_string()));
    assert_eq!(
        refusal("@ SOA a. b. 1 2 x y 5\n"),
        (ParseErrorKind::InvalidNumber, 1, "x".to_string())
    );
    assert_eq!(
        refusal("@ SOA a. b. 1 2 3 4 4294967296\n"),
        (ParseErrorKind::InvalidNumber, 1, "4294967296".to_string())
    );
    assert_eq!(
        refusal("@ SRV 1 2 70000 t.\n"),
        (ParseErrorKind::InvalidNumber, 1, "70000".to_string())
    );
}

#[test]
fn reading_stops_at_the_first_refusal() {
    assert_eq!(
        refusal("@ A 192.0.2.1\n@ A bad\n$TTL bad\n"),
        (ParseErrorKind::InvalidAddress, 2, "bad".to_string())
    );
}

#[test]
fn refusals_are_put_in_words() {
    let e = parse("\n\n@ A 300.0.2.1\n").unwrap_err();
    assert_eq!(e.to_string(), "line 3: invalid address: 300.0.2.1");
    assert_eq!(parse("$ORIGIN").unwrap_err().to_string(), "line 1: $ORIGIN without a name: $ORIGIN");
    assert_eq!(parse("$TTL x").unwrap_err().to_string(), "line 1: invalid $TTL: x");
    assert_eq!(parse("www").unwrap_err().to_string(), "line 1: missing or unknown record type: ");
    assert_eq!(parse("@ MX 1").unwrap_err().to_string(), "line 1: too few data fields: MX");
    assert_eq!(parse("@ A 1.2.3.4 5").unwrap_err().to_string(), "line 1: too many data fields: 5");
    assert_eq!(parse("@ MX x y").unwrap_err().to_string(), "line 1: invalid number: x");
    let text = format!("{}@ A x", "\n".repeat(1233));
    assert_eq!(parse(&text).unwrap_err().to_string(), "line 1234: invalid address: x");
}
