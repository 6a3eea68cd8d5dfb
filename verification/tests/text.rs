use dont_need_stability::addr::{parse_hex_group, parse_ipv4, parse_ipv6, parse_octet};
use dont_need_stability::text::{
    char_fold_code, char_is_space, chars_of, eq_chars, eq_ignoring_case, join, parse_decimal,
    parse_number, split_fields, split_words,
};

fn chars(s: &str) -> Vec<char> {
    s.chars().collect()
}

fn strings(v: Vec<Vec<char>>) -> Vec<String> {
    v.into_iter().map(|w| w.into_iter().collect()).collect()
}

#[test]
fn whitespace_is_what_unicode_calls_white_space() {
    for code in 0u32..=0x10ffff {
        if let Some(c) = char::from_u32(code) {
            assert_eq!(char_is_space(c), c.is_whitespace(), "U+{:04X}", code);
        }
    }
}

#[test]
fn chars_of_gives_the_characters_in_order() {
    assert_eq!(chars_of(""), Vec::<char>::new());
    assert_eq!(chars_of("a\u{e9}\u{1f600}z"), vec!['a', '\u{e9}', '\u{1f600}', 'z']);
}

#[test]
fn words_are_the_runs_between_whitespace() {
    let samples = [
        "",
        " ",
        "a",
        " a",
        "a ",
        "  a\tb  c ",
        "one\u{3000}two\u{a0}three",
        "zero\u{200b}width",
        "\r\n\u{85}x\u{2028}y\u{2029}",
        "www 3600 IN A 192.0.2.1",
    ];
    for s in samples {
        let want: Vec<String> = s.split_whitespace().map(|w| w.to_string()).collect();
        assert_eq!(strings(split_words(&chars(s))), want, "{:?}", s);
    }
    assert_eq!(strings(split_words(&chars("  a\tb  c "))), vec!["a", "b", "c"]);
}

#[test]
fn fields_are_the_pieces_between_separators() {
    let samples = ["", "a", "\n", "a\n", "\na", "a\nb", "a\n\nb\n", "a.b", "..", "1.2.3.4"];
    for s in samples {
        for sep in ['\n', '.'] {
            let want: Vec<String> = s.split(sep).map(|w| w.to_string()).collect();
            assert_eq!(strings(split_fields(&chars(s), sep)), want, "{:?} at {:?}", s, sep);
        }
    }
    assert_eq!(strings(split_fields(&chars("a\n\nb\n"), '\n')), vec!["a", "", "b", ""]);
}

#[test]
fn join_puts_the_separator_between_neighbours() {
    let parts = vec![chars("a"), chars(""), chars("bc")];
    assert_eq!(join(&parts, ' '), chars("a  bc"));
    assert_eq!(join(&parts[..1], ' '), chars("a"));
    assert_eq!(join(&parts[..0], ' '), chars(""));
}

#[test]
fn decimal_numerals_are_read_as_the_standard_library_reads_them() {
    let samples = [
        "", "0", "7", "007", "+5", "+", "++1", "-1", "+-1", "1a", "a1", " 1", "1 ", "4294967295",
        "4294967296", "04294967295", "99999999999999999999999", "\u{663}", "1_000", "0x10", "+0",
    ];
    for s in samples {
        assert_eq!(parse_decimal(&chars(s), u32::MAX), s.parse::<u32>().ok(), "{:?}", s);
    }
    assert_eq!(parse_decimal(&chars("65535"), 65535), Some(65535));
    assert_eq!(parse_decimal(&chars("65536"), 65535), None);
    assert_eq!(parse_decimal(&chars("+65535"), 65535), Some(65535));
    assert_eq!(parse_decimal(&chars("0"), 0), Some(0));
    assert_eq!(parse_decimal(&chars("1"), 0), None);
}

#[test]
fn plain_numbers_take_no_sign() {
    assert_eq!(parse_number(&chars("42"), 255), Some(42));
    assert_eq!(parse_number(&chars("255"), 255), Some(255));
    assert_eq!(parse_number(&chars("256"), 255), None);
    assert_eq!(parse_number(&chars("+4"), 255), None);
    assert_eq!(parse_number(&chars(""), 255), None);
}

#[test]
fn letter_case_is_folded_for_ascii_only() {
    assert_eq!(char_fold_code('a'), 'A' as u32);
    assert_eq!(char_fold_code('z'), 'Z' as u32);
    assert_eq!(char_fold_code('A'), 'A' as u32);
    assert_eq!(char_fold_code('1'), '1' as u32);
    assert_eq!(char_fold_code('\u{e4}'), 0xe4);
    let samples = ["", "a", "A", "soa", "SOA", "SoA", "so", "soaa", "\u{17f}oa", "i\u{131}", "IN", "in"];
    for s in samples {
        for t in samples {
            assert_eq!(
                eq_ignoring_case(&chars(s), &chars(t)),
                s.eq_ignore_ascii_case(t),
                "{:?} {:?}",
                s,
                t
            );
            assert_eq!(eq_chars(&chars(s), &chars(t)), s == t);
        }
    }
}

#[test]
fn octets_take_no_leading_zero() {
    assert_eq!(parse_octet(&chars("0")), Some(0));
    assert_eq!(parse_octet(&chars("9")), Some(9));
    assert_eq!(parse_octet(&chars("10")), Some(10));
    assert_eq!(parse_octet(&chars("255")), Some(255));
    for s in ["", "00", "01", "256", "999", "1000", "0255", "+1", "-1", "1a", " 1"] {
        assert_eq!(parse_octet(&chars(s)), None, "{:?}", s);
    }
}

#[test]
fn dotted_quads_are_read() {
    assert_eq!(parse_ipv4(&chars("0.0.0.0")), Some([0, 0, 0, 0]));
    assert_eq!(parse_ipv4(&chars("255.255.255.255")), Some([255, 255, 255, 255]));
    assert_eq!(parse_ipv4(&chars("192.0.2.1")), Some([192, 0, 2, 1]));
    assert_eq!(parse_ipv4(&chars("10.20.30.40")), Some([10, 20, 30, 40]));
    for s in [
        "", ".", "...", "1.2.3", "1.2.3.4.5", "1.2.3.", ".1.2.3", "1..2.3", "01.2.3.4", "1.2.3.04",
        "256.1.1.1", "1.2.3.256", "1.2.3.4 ", " 1.2.3.4", "+1.2.3.4", "1.2.3.-4", "1.2.3.0x4",
        "a.b.c.d", "1,2,3,4", "1.2.3.0004", "00.0.0.0", "::1",
    ] {
        assert_eq!(parse_ipv4(&chars(s)), None, "{:?}", s);
    }
}

#[test]
fn hex_groups_are_one_to_four_digits() {
    assert_eq!(parse_hex_group(&chars("0")), Some(0));
    assert_eq!(parse_hex_group(&chars("0000")), Some(0));
    assert_eq!(parse_hex_group(&chars("ffff")), Some(0xffff));
    assert_eq!(parse_hex_group(&chars("FFFF")), Some(0xffff));
    assert_eq!(parse_hex_group(&chars("aBc")), Some(0xabc));
    assert_eq!(parse_hex_group(&chars("1f")), Some(0x1f));
    for s in ["", "00000", "10000", "g", "-1", "+1", "0x1", " 1", "1."] {
        assert_eq!(parse_hex_group(&chars(s)), None, "{:?}", s);
    }
}

#[test]
fn ipv6_literals_are_read() {
    let good: [(&str, [u16; 8]); 17] = [
        ("::", [0, 0, 0, 0, 0, 0, 0, 0]),
        ("::1", [0, 0, 0, 0, 0, 0, 0, 1]),
        ("1::", [1, 0, 0, 0, 0, 0, 0, 0]),
        ("1::2", [1, 0, 0, 0, 0, 0, 0, 2]),
        ("1:2:3:4:5:6:7:8", [1, 2, 3, 4, 5, 6, 7, 8]),
        ("2001:db8::8a2e:370:7334", [0x2001, 0xdb8, 0, 0, 0, 0x8a2e, 0x370, 0x7334]),
        ("2001:0db8:0000:0000:0000:ff00:0042:8329", [0x2001, 0xdb8, 0, 0, 0, 0xff00, 0x42, 0x8329]),
        ("ABCD:EF01::", [0xabcd, 0xef01, 0, 0, 0, 0, 0, 0]),
        ("1:2:3:4:5:6:7::", [1, 2, 3, 4, 5, 6, 7, 0]),
        ("::2:3:4:5:6:7:8", [0, 2, 3, 4, 5, 6, 7, 8]),
        ("1::3:4:5:6:7:8", [1, 0, 3, 4, 5, 6, 7, 8]),
        ("1:2:3:4::6:7:8", [1, 2, 3, 4, 0, 6, 7, 8]),
        ("::ffff:192.0.2.128", [0, 0, 0, 0, 0, 0xffff, 0xc000, 0x0280]),
        ("::1.2.3.4", [0, 0, 0, 0, 0, 0, 0x0102, 0x0304]),
        ("1:2:3:4:5:6:1.2.3.4", [1, 2, 3, 4, 5, 6, 0x0102, 0x0304]),
        ("64:ff9b::255.255.255.255", [0x64, 0xff9b, 0, 0, 0, 0, 0xffff, 0xffff]),
        ("1:2:3:4:5::1.2.3.4", [1, 2, 3, 4, 5, 0, 0x0102, 0x0304]),
    ];
    for (s, want) in good {
        assert_eq!(parse_ipv6(&chars(s)), Some(want), "{:?}", s);
    }
    for s in [
        "", ":", ":::", "::::", "1", "1:", ":1", "1:2:3:4:5:6:7", "1:2:3:4:5:6:7:8:9",
        "1:2:3:4:5:6:7:8::", "::1:2:3:4:5:6:7:8", "1::2::3", "1:::2", "12345::", "g::", "::g",
        "1.2.3.4", "1.2.3.4::", "::1.2.3.4.5", "::1.2.3", "::01.2.3.4", "::1.2.3.256",
        "1:2:3:4:5:6:7:1.2.3.4", "1:2:3:4:5:6::1.2.3.4", "::1.2.3.4:5", "1.2.3.4:5::", " ::1",
        "::1 ", "[::1]", "::1%eth0", "fe80::1/64", "1:2:3:4:5:6:7:", ":2:3:4:5:6:7:8", "0x1::",
        "+1::", "-1::",
    ] {
        assert_eq!(parse_ipv6(&chars(s)), None, "{:?}", s);
    }
}

#[test]
fn numbers_are_written_as_the_standard_library_writes_them() {
    for n in [0u64, 1, 9, 10, 11, 99, 100, 101, 255, 1000, 4294967295, 4294967296, u64::MAX] {
        let text: String = dont_need_stability::text::write_number(n).into_iter().collect();
        assert_eq!(text, n.to_string());
        if n <= u32::MAX as u64 {
            assert_eq!(parse_number(&chars(&text), u32::MAX), Some(n as u32));
        }
    }
}

#[test]
fn keyword_letters_are_what_upper_casing_makes_of_a_character() {
    let letters = "ACEIMNOPRSTVX";
    let words = ["A", "AAAA", "CNAME", "MX", "NS", "PTR", "SOA", "SRV", "TXT", "IN"];
    for code in 0u32..=0x10ffff {
        let Some(c) = char::from_u32(code) else { continue };
        let upper: String = c.to_uppercase().collect();
        let folded = dont_need_stability::text::char_keyword_code(c);
        let mut it = upper.chars();
        let (first, more) = (it.next().unwrap(), it.next().is_some());
        if !more {
            if first.is_ascii() {
                assert_eq!(folded, first as u32, "U+{:04X}", code);
            } else {
                assert!(!letters.contains(char::from_u32(folded).unwrap()), "U+{:04X}", code);
            }
        } else {
            assert!(words.iter().all(|w| !w.contains(&upper)), "U+{:04X}", code);
            assert!(folded == code, "U+{:04X}", code);
        }
    }
}
