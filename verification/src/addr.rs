//! Internet addresses in their textual form: dotted-quad IPv4 and
//! colon-separated IPv6, with `::` compression and a trailing dotted quad.

use crate::text::{fields, number, parse_number, split_fields, views};
use vstd::prelude::*;

verus! {

/// One decimal part of a dotted quad: one to three digits, no leading zero
/// before another digit, at most 255.
pub open spec fn octet(s: Seq<char>) -> Option<u8> {
    if s.len() <= 3 && (s.len() == 1 || (s.len() > 0 && s[0] != '0')) {
        match number(s, 255) {
            Some(v) => Some(v as u8),
            None => None,
        }
    } else {
        None
    }
}

/// The four octets that a dotted quad spells.
pub open spec fn ipv4(s: Seq<char>) -> Option<Seq<u8>> {
    let f = fields(s, '.');
    if f.len() == 4 && octet(f[0]) is Some && octet(f[1]) is Some && octet(f[2]) is Some && octet(
        f[3],
    ) is Some {
        Some(seq![octet(f[0])->0, octet(f[1])->0, octet(f[2])->0, octet(f[3])->0])
    } else {
        None
    }
}

/// Reads one decimal part of a dotted quad.
pub fn parse_octet(s: &[char]) -> (r: Option<u8>)
    ensures
        r == octet(s@),
{
    if s.len() > 3 || s.len() == 0 || (s.len() > 1 && s[0] == '0') {
        return None;
    }
    match parse_number(s, 255) {
        Some(v) => Some(v as u8),
        None => None,
    }
}

/// Reads a dotted quad.
pub fn parse_ipv4(s: &[char]) -> (r: Option<[u8; 4]>)
    ensures
        match ipv4(s@) {
            Some(o) => r is Some && r->0@ == o,
            None => r is None,
        },
{
    let f = split_fields(s, '.');
    if f.len() != 4 {
        return None;
    }
    assert(forall|i: int| 0 <= i < 4 ==> views(f@)[i] == f@[i]@);
    let a = parse_octet(f[0].as_slice());
    let b = parse_octet(f[1].as_slice());
    let c = parse_octet(f[2].as_slice());
    let d = parse_octet(f[3].as_slice());
    match (a, b, c, d) {
        (Some(a), Some(b), Some(c), Some(d)) => {
            let out: [u8; 4] = [a, b, c, d];
            assert(out@ =~= seq![a, b, c, d]);
            Some(out)
        },
        _ => None,
    }
}


/// Whether `c` is a hexadecimal digit, in either letter case.
pub open spec fn is_hex(c: char) -> bool {
    let n = c as u32;
    (0x30 <= n <= 0x39) || (0x41 <= n <= 0x46) || (0x61 <= n <= 0x66)
}

/// The value of a hexadecimal digit.
pub open spec fn hex_value(c: char) -> nat {
    let n = c as u32;
    if 0x30 <= n <= 0x39 {
        (n - 0x30) as nat
    } else if 0x41 <= n <= 0x46 {
        (n - 0x41 + 10) as nat
    } else {
        (n - 0x61 + 10) as nat
    }
}

/// Whether `s` holds hexadecimal digits only.
pub open spec fn all_hex(s: Seq<char>) -> bool {
    forall|i: int| 0 <= i < s.len() ==> is_hex(#[trigger] s[i])
}

/// The number that a run of hexadecimal digits spells.
pub open spec fn hex_digits_value(s: Seq<char>) -> nat
    decreases s.len(),
{
    if s.len() == 0 {
        0
    } else {
        hex_digits_value(s.drop_last()) * 16 + hex_value(s.last())
    }
}

/// One 16-bit group of an IPv6 address: one to four hexadecimal digits.
pub open spec fn hex_group(s: Seq<char>) -> Option<u16> {
    if 1 <= s.len() <= 4 && all_hex(s) {
        Some(hex_digits_value(s) as u16)
    } else {
        None
    }
}

/// The groups that a sequence of fields spells, each field one group.
pub open spec fn groups(f: Seq<Seq<char>>) -> Option<Seq<u16>>
    decreases f.len(),
{
    if f.len() == 0 {
        Some(Seq::empty())
    } else {
        match (groups(f.drop_last()), hex_group(f.last())) {
            (Some(g), Some(x)) => Some(g.push(x)),
            _ => None,
        }
    }
}

/// The two groups that hold the four octets of a dotted quad.
pub open spec fn quad_groups(o: Seq<u8>) -> Seq<u16> {
    seq![(o[0] as int * 256 + o[1] as int) as u16, (o[2] as int * 256 + o[3] as int) as u16]
}

/// The groups that a sequence of fields spells where the last field may be
/// a dotted quad, which stands for two groups.
pub open spec fn tail_groups(f: Seq<Seq<char>>) -> Option<Seq<u16>> {
    if f.len() > 0 && ipv4(f.last()) is Some {
        match groups(f.drop_last()) {
            Some(g) => Some(g + quad_groups(ipv4(f.last())->0)),
            None => None,
        }
    } else {
        groups(f)
    }
}

/// The colon-separated fields on one side of `::`; an empty side has none.
pub open spec fn side(s: Seq<char>) -> Seq<Seq<char>> {
    if s.len() == 0 {
        Seq::empty()
    } else {
        fields(s, ':')
    }
}

/// The position of the first `::` at or after `from`.
pub open spec fn first_gap(s: Seq<char>, from: int) -> Option<int>
    decreases s.len() - from,
{
    if from < 0 || from + 1 >= s.len() {
        None
    } else if s[from] == ':' && s[from + 1] == ':' {
        Some(from)
    } else {
        first_gap(s, from + 1)
    }
}

/// `n` groups of zero.
pub open spec fn zeros(n: int) -> Seq<u16> {
    Seq::new(n as nat, |i: int| 0u16)
}

/// The eight groups that an IPv6 literal spells. Without `::` the fields
/// must spell exactly eight groups; with `::` the two sides together spell
/// at most seven and zero groups fill the gap. Only the last field of the
/// whole literal may be a dotted quad.
pub open spec fn ipv6(s: Seq<char>) -> Option<Seq<u16>> {
    match first_gap(s, 0) {
        Some(k) => match (groups(side(s.take(k))), tail_groups(side(s.skip(k + 2)))) {
            (Some(h), Some(t)) => if h.len() + t.len() <= 7 {
                Some(h + zeros(8 - h.len() - t.len()) + t)
            } else {
                None
            },
            _ => None,
        },
        None => match tail_groups(fields(s, ':')) {
            Some(g) => if g.len() == 8 {
                Some(g)
            } else {
                None
            },
            None => None,
        },
    }
}

/// Reads one 16-bit group of an IPv6 address.
pub fn parse_hex_group(s: &[char]) -> (r: Option<u16>)
    ensures
        r == hex_group(s@),
{
    if s.len() == 0 || s.len() > 4 {
        return None;
    }
    let mut acc: u32 = 0;
    let mut i: usize = 0;
    while i < s.len()
        invariant
            i <= s.len() <= 4,
            all_hex(s@.take(i as int)),
            acc == hex_digits_value(s@.take(i as int)),
            i == 0 ==> acc == 0,
            i == 1 ==> acc <= 0xF,
            i == 2 ==> acc <= 0xFF,
            i == 3 ==> acc <= 0xFFF,
            i == 4 ==> acc <= 0xFFFF,
        decreases s.len() - i,
    {
        let n: u32 = s[i] as u32;
        let ghost next = s@.take(i + 1);
        proof {
            assert(next.drop_last() == s@.take(i as int));
            assert(next.last() == s@[i as int]);
        }
        let d: u32 = if 0x30 <= n && n <= 0x39 {
            n - 0x30
        } else if 0x41 <= n && n <= 0x46 {
            n - 0x41 + 10
        } else if 0x61 <= n && n <= 0x66 {
            n - 0x61 + 10
        } else {
            assert(!is_hex(s@[i as int]));
            return None;
        };
        acc = acc * 16 + d;
        i += 1;
    }
    assert(s@.take(i as int) == s@);
    Some(acc as u16)
}

/// Reads the first `n` fields of `f` as one group each.
fn parse_groups(f: &Vec<Vec<char>>, n: usize) -> (r: Option<Vec<u16>>)
    requires
        n <= f@.len(),
    ensures
        match groups(views(f@).take(n as int)) {
            Some(g) => r is Some && r->0@ == g,
            None => r is None,
        },
{
    let mut out: Vec<u16> = Vec::new();
    let mut i: usize = 0;
    while i < n
        invariant
            i <= n <= f@.len(),
            groups(views(f@).take(i as int)) == Some(out@),
        decreases n - i,
    {
        let ghost next = views(f@).take(i + 1);
        proof {
            assert(next.drop_last() == views(f@).take(i as int));
            assert(next.last() == f@[i as int]@);
            assert(views(f@).take(n as int).take(i + 1) == next);
        }
        match parse_hex_group(f[i].as_slice()) {
            Some(x) => {
                out.push(x);
            },
            None => {
                proof {
                    lemma_groups_prefix(views(f@).take(n as int), i + 1);
                }
                return None;
            },
        }
        i += 1;
    }
    Some(out)
}

/// Where the first `n` fields spell no groups, the fields spell none.
proof fn lemma_groups_prefix(f: Seq<Seq<char>>, n: int)
    requires
        0 <= n <= f.len(),
        groups(f.take(n)) is None,
    ensures
        groups(f) is None,
    decreases f.len(),
{
    if n < f.len() {
        assert(f.drop_last().take(n) == f.take(n));
        lemma_groups_prefix(f.drop_last(), n);
    } else {
        assert(f.take(n) == f);
    }
}

/// Reads fields as groups where the last field may be a dotted quad.
fn parse_tail_groups(f: &Vec<Vec<char>>) -> (r: Option<Vec<u16>>)
    ensures
        match tail_groups(views(f@)) {
            Some(g) => r is Some && r->0@ == g,
            None => r is None,
        },
{
    let n = f.len();
    assert(views(f@).take(n as int) == views(f@));
    if n == 0 {
        return parse_groups(f, 0);
    }
    assert(views(f@).last() == f@[n - 1]@);
    assert(views(f@).drop_last() == views(f@).take(n - 1));
    match parse_ipv4(f[n - 1].as_slice()) {
        Some(o) => match parse_groups(f, n - 1) {
            Some(mut g) => {
                let ghost head = g@;
                let hi: u16 = (o[0] as u16) * 256 + (o[1] as u16);
                let lo: u16 = (o[2] as u16) * 256 + (o[3] as u16);
                g.push(hi);
                g.push(lo);
                assert(g@ == head + quad_groups(o@));
                Some(g)
            },
            None => None,
        },
        None => parse_groups(f, n),
    }
}

fn split_side(s: &[char]) -> (r: Vec<Vec<char>>)
    ensures
        views(r@) == side(s@),
{
    if s.len() == 0 {
        Vec::new()
    } else {
        split_fields(s, ':')
    }
}

/// The position of the first `::` in `s`.
fn find_gap(s: &[char]) -> (r: Option<usize>)
    ensures
        match r {
            Some(k) => first_gap(s@, 0) == Some(k as int) && k + 2 <= s@.len(),
            None => first_gap(s@, 0) is None,
        },
{
    if s.len() < 2 {
        return None;
    }
    let mut i: usize = 0;
    while i < s.len() - 1
        invariant
            s@.len() >= 2,
            i <= s@.len() - 1,
            first_gap(s@, 0) == first_gap(s@, i as int),
        decreases s.len() - i,
    {
        if s[i] == ':' && s[i + 1] == ':' {
            return Some(i);
        }
        i += 1;
    }
    None
}

/// Reads an IPv6 literal.
pub fn parse_ipv6(s: &[char]) -> (r: Option<[u16; 8]>)
    ensures
        match ipv6(s@) {
            Some(g) => r is Some && r->0@ == g,
            None => r is None,
        },
{
    let mut out: [u16; 8] = [0u16; 8];
    let len = s.len();
    match find_gap(s) {
        Some(k) => {
            let head_text = vstd::slice::slice_subrange(s, 0, k);
            let tail_text = vstd::slice::slice_subrange(s, k + 2, len);
            assert(head_text@ == s@.take(k as int));
            assert(tail_text@ == s@.skip(k + 2));
            let head_fields = split_side(head_text);
            let tail_fields = split_side(tail_text);
            assert(views(head_fields@).take(head_fields@.len() as int) == views(head_fields@));
            let head = parse_groups(&head_fields, head_fields.len());
            let tail = parse_tail_groups(&tail_fields);
            match (head, tail) {
                (Some(h), Some(t)) => {
                    if h.len() > 7 || t.len() > 7 - h.len() {
                        return None;
                    }
                    let ghost want = h@ + zeros(8 - h@.len() - t@.len()) + t@;
                    let mut i: usize = 0;
                    while i < h.len()
                        invariant
                            i <= h@.len(),
                            h@.len() + t@.len() <= 7,
                            want == h@ + zeros(8 - h@.len() - t@.len()) + t@,
                            forall|j: int| 0 <= j < i ==> out@[j] == want[j],
                            forall|j: int| i <= j < 8 ==> out@[j] == 0,
                        decreases h.len() - i,
                    {
                        out[i] = h[i];
                        i += 1;
                    }
                    let base: usize = 8 - t.len();
                    let mut i: usize = 0;
                    while i < t.len()
                        invariant
                            i <= t@.len(),
                            h@.len() + t@.len() <= 7,
                            base == 8 - t@.len(),
                            want == h@ + zeros(8 - h@.len() - t@.len()) + t@,
                            forall|j: int| 0 <= j < h@.len() ==> out@[j] == want[j],
                            forall|j: int| h@.len() <= j < base ==> out@[j] == 0,
                            forall|j: int| base <= j < base + i ==> out@[j] == want[j],
                        decreases t.len() - i,
                    {
                        out[base + i] = t[i];
                        i += 1;
                    }
                    assert(out@ =~= want);
                    Some(out)
                },
                _ => None,
            }
        },
        None => {
            let f = split_fields(s, ':');
            match parse_tail_groups(&f) {
                Some(g) => {
                    if g.len() != 8 {
                        return None;
                    }
                    let mut i: usize = 0;
                    while i < 8
                        invariant
                            i <= 8,
                            g@.len() == 8,
                            forall|j: int| 0 <= j < i ==> out@[j] == g@[j],
                        decreases 8 - i,
                    {
                        out[i] = g[i];
                        i += 1;
                    }
                    assert(out@ =~= g@);
                    Some(out)
                },
                None => None,
            }
        },
    }
}

} // verus!
