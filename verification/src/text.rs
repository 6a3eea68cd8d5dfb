//! Character-level helpers shared by the readers of textual input:
//! whitespace, words, lines, decimal numbers and ASCII case folding.

use vstd::prelude::*;

verus! {

/// Whether `c` carries the Unicode `White_Space` property.
pub open spec fn is_space(c: char) -> bool {
    let n = c as u32;
    ||| 0x09 <= n <= 0x0D
    ||| n == 0x20
    ||| n == 0x85
    ||| n == 0xA0
    ||| n == 0x1680
    ||| 0x2000 <= n <= 0x200A
    ||| n == 0x2028
    ||| n == 0x2029
    ||| n == 0x202F
    ||| n == 0x205F
    ||| n == 0x3000
}

/// Tells whether `c` carries the Unicode `White_Space` property.
pub fn char_is_space(c: char) -> (r: bool)
    ensures
        r == is_space(c),
{
    let n: u32 = c as u32;
    (0x09 <= n && n <= 0x0D) || n == 0x20 || n == 0x85 || n == 0xA0 || n == 0x1680 || (0x2000 <= n
        && n <= 0x200A) || n == 0x2028 || n == 0x2029 || n == 0x202F || n == 0x205F || n == 0x3000
}

/// The characters of a string slice, in order.
pub fn chars_of(s: &str) -> (r: Vec<char>)
    ensures
        r@ == s@,
{
    let mut out: Vec<char> = Vec::new();
    for c in it: s.chars()
        invariant
            out@ == it.history(),
    {
        out.push(c);
    }
    out
}


/// The views of a vector of character vectors.
pub open spec fn views(v: Seq<Vec<char>>) -> Seq<Seq<char>> {
    Seq::new(v.len(), |i: int| v[i]@)
}

/// Collects characters into a `String` with `String::from_iter`: the string
/// holds exactly the given characters, in the given order.
#[verifier::external_body]
pub(crate) fn string_of(chars: &[char]) -> (s: String)
    ensures
        s@ == chars@,
{
    String::from_iter(chars)
}

/// The maximal runs of non-whitespace characters of `s`, left to right.
pub open spec fn words(s: Seq<char>) -> Seq<Seq<char>>
    decreases s.len(),
{
    if s.len() == 0 {
        Seq::empty()
    } else {
        let before = words(s.drop_last());
        if is_space(s.last()) {
            before
        } else if s.len() > 1 && !is_space(s[s.len() - 2]) && before.len() > 0 {
            before.update(before.len() - 1, before.last().push(s.last()))
        } else {
            before.push(seq![s.last()])
        }
    }
}

/// The pieces of `s` between occurrences of `sep`; there is always at least one.
pub open spec fn fields(s: Seq<char>, sep: char) -> Seq<Seq<char>>
    decreases s.len(),
{
    if s.len() == 0 {
        seq![Seq::empty()]
    } else {
        let before = fields(s.drop_last(), sep);
        if s.last() == sep {
            before.push(Seq::empty())
        } else if before.len() > 0 {
            before.update(before.len() - 1, before.last().push(s.last()))
        } else {
            before
        }
    }
}

/// The pieces of `s` between line feeds.
pub open spec fn lines(s: Seq<char>) -> Seq<Seq<char>> {
    fields(s, '\n')
}

/// Splits `s` into its words.
pub fn split_words(s: &[char]) -> (r: Vec<Vec<char>>)
    ensures
        views(r@) == words(s@),
{
    let mut out: Vec<Vec<char>> = Vec::new();
    let mut cur: Vec<char> = Vec::new();
    let mut i: usize = 0;
    while i < s.len()
        invariant
            i <= s.len(),
            (i == 0 || is_space(s@[i - 1])) ==> cur@.len() == 0 && views(out@) == words(s@.take(i as int)),
            (i > 0 && !is_space(s@[i - 1])) ==> cur@.len() > 0 && views(out@).push(cur@) == words(
                s@.take(i as int),
            ),
        decreases s.len() - i,
    {
        let c = s[i];
        let ghost prefix = s@.take(i as int);
        let ghost next = s@.take(i + 1);
        proof {
            assert(next.drop_last() == prefix);
            assert(next.last() == c);
            if i > 0 {
                assert(next[next.len() - 2] == s@[i - 1]);
            }
        }
        if char_is_space(c) {
            if cur.len() > 0 {
                let ghost before = views(out@);
                let done = cur;
                cur = Vec::new();
                out.push(done);
                assert(views(out@) == before.push(done@));
            }
        } else {
            let ghost before = views(out@);
            let ghost old_cur = cur@;
            cur.push(c);
            proof {
                if i > 0 && !is_space(s@[i - 1]) {
                    let w = words(prefix);
                    assert(w == before.push(old_cur));
                    assert(w.update(w.len() - 1, w.last().push(c)) == before.push(cur@));
                } else {
                    assert(cur@ == seq![c]);
                }
            }
        }
        i += 1;
    }
    assert(s@.take(s.len() as int) == s@);
    if cur.len() > 0 {
        let ghost before = views(out@);
        let ghost last = cur@;
        out.push(cur);
        assert(views(out@) == before.push(last));
    }
    out
}

/// Splits `s` at every occurrence of `sep`.
pub fn split_fields(s: &[char], sep: char) -> (r: Vec<Vec<char>>)
    ensures
        views(r@) == fields(s@, sep),
        r@.len() >= 1,
{
    let mut out: Vec<Vec<char>> = Vec::new();
    let mut cur: Vec<char> = Vec::new();
    let mut i: usize = 0;
    while i < s.len()
        invariant
            i <= s.len(),
            views(out@).push(cur@) == fields(s@.take(i as int), sep),
        decreases s.len() - i,
    {
        let c = s[i];
        let ghost prefix = s@.take(i as int);
        let ghost next = s@.take(i + 1);
        let ghost before = views(out@);
        let ghost old_cur = cur@;
        proof {
            assert(next.drop_last() == prefix);
            assert(next.last() == c);
        }
        if c == sep {
            let done = cur;
            cur = Vec::new();
            out.push(done);
            assert(views(out@) == before.push(old_cur));
        } else {
            cur.push(c);
            proof {
                let w = fields(prefix, sep);
                assert(w.update(w.len() - 1, w.last().push(c)) == before.push(cur@));
            }
        }
        i += 1;
    }
    assert(s@.take(s.len() as int) == s@);
    let ghost before = views(out@);
    let ghost last = cur@;
    out.push(cur);
    assert(views(out@) == before.push(last));
    out
}


/// Whether `c` is one of the ten decimal digits.
pub open spec fn is_digit(c: char) -> bool {
    '0' as u32 <= c as u32 <= '9' as u32
}

/// The value of a decimal digit.
pub open spec fn digit_value(c: char) -> nat {
    (c as u32 - '0' as u32) as nat
}

/// Whether `s` holds decimal digits only.
pub open spec fn all_digits(s: Seq<char>) -> bool {
    forall|i: int| 0 <= i < s.len() ==> is_digit(#[trigger] s[i])
}

/// The number that a run of decimal digits spells.
pub open spec fn digits_value(s: Seq<char>) -> nat
    decreases s.len(),
{
    if s.len() == 0 {
        0
    } else {
        digits_value(s.drop_last()) * 10 + digit_value(s.last())
    }
}

/// The value of `s` read as a run of one or more decimal digits that spells
/// a number of at most `max`.
pub open spec fn number(s: Seq<char>, max: nat) -> Option<nat> {
    if s.len() > 0 && all_digits(s) && digits_value(s) <= max {
        Some(digits_value(s))
    } else {
        None
    }
}

/// The digits of a decimal numeral: the text itself, without one leading `+`.
pub open spec fn numeral_body(s: Seq<char>) -> Seq<char> {
    if s.len() > 0 && s[0] == '+' {
        s.drop_first()
    } else {
        s
    }
}

/// The value of `s` read as an unsigned decimal numeral of at most `max`:
/// one or more digits, optionally preceded by `+`, and nothing else.
pub open spec fn decimal(s: Seq<char>, max: nat) -> Option<nat> {
    number(numeral_body(s), max)
}

/// The first digits of a run spell no more than the whole run.
proof fn lemma_digits_value_grows(s: Seq<char>, n: int)
    requires
        0 <= n <= s.len(),
    ensures
        digits_value(s.take(n)) <= digits_value(s),
    decreases s.len(),
{
    if n < s.len() {
        assert(s.drop_last().take(n) == s.take(n));
        lemma_digits_value_grows(s.drop_last(), n);
    } else {
        assert(s.take(n) == s);
    }
}

/// Reads `s` as a run of decimal digits that spells a number of at most `max`.
pub fn parse_number(s: &[char], max: u32) -> (r: Option<u32>)
    ensures
        match number(s@, max as nat) {
            Some(v) => r == Some(v as u32),
            None => r is None,
        },
{
    if s.len() == 0 {
        return None;
    }
    let mut acc: u64 = 0;
    let mut i: usize = 0;
    while i < s.len()
        invariant
            i <= s.len(),
            all_digits(s@.take(i as int)),
            acc == digits_value(s@.take(i as int)),
            acc <= max,
        decreases s.len() - i,
    {
        let c = s[i];
        let n: u32 = c as u32;
        let ghost next = s@.take(i + 1);
        proof {
            assert(next.drop_last() == s@.take(i as int));
            assert(next.last() == c);
        }
        if n < 0x30 || n > 0x39 {
            assert(!is_digit(s@[i as int]));
            return None;
        }
        acc = acc * 10 + (n - 0x30) as u64;
        if acc > max as u64 {
            proof {
                lemma_digits_value_grows(s@, i + 1);
            }
            return None;
        }
        i += 1;
    }
    assert(s@.take(i as int) == s@);
    Some(acc as u32)
}

/// Reads `s` as an unsigned decimal numeral of at most `max`.
pub fn parse_decimal(s: &[char], max: u32) -> (r: Option<u32>)
    ensures
        match decimal(s@, max as nat) {
            Some(v) => r == Some(v as u32),
            None => r is None,
        },
{
    if s.len() > 0 && s[0] == '+' {
        let body = vstd::slice::slice_subrange(s, 1, s.len());
        assert(body@ == s@.drop_first());
        parse_number(body, max)
    } else {
        parse_number(s, max)
    }
}

/// The code of `c` with the ASCII lower-case letters moved onto the upper-case ones.
pub open spec fn fold_code(c: char) -> u32 {
    let n = c as u32;
    if 0x61 <= n <= 0x7A {
        (n - 0x20) as u32
    } else {
        n
    }
}

/// Whether `s` and `t` are equal once ASCII letter case is disregarded.
pub open spec fn same_ignoring_case(s: Seq<char>, t: Seq<char>) -> bool {
    &&& s.len() == t.len()
    &&& forall|i: int| 0 <= i < s.len() ==> fold_code(#[trigger] s[i]) == fold_code(t[i])
}

/// The code of `c` with the ASCII lower-case letters moved onto the
/// upper-case ones.
pub fn char_fold_code(c: char) -> (r: u32)
    ensures
        r == fold_code(c),
{
    let n: u32 = c as u32;
    if 0x61 <= n && n <= 0x7A {
        n - 0x20
    } else {
        n
    }
}

/// Compares two character slices without regard to ASCII letter case.
pub fn eq_ignoring_case(s: &[char], t: &[char]) -> (r: bool)
    ensures
        r == same_ignoring_case(s@, t@),
{
    if s.len() != t.len() {
        return false;
    }
    let mut i: usize = 0;
    while i < s.len()
        invariant
            i <= s.len(),
            s.len() == t.len(),
            forall|j: int| 0 <= j < i ==> fold_code(#[trigger] s@[j]) == fold_code(t@[j]),
        decreases s.len() - i,
    {
        if char_fold_code(s[i]) != char_fold_code(t[i]) {
            return false;
        }
        i += 1;
    }
    true
}

/// The code of the capital that `c` becomes where the name of a record
/// type or class is put in upper case: the ASCII small letters become
/// their capitals, the long s (U+017F) becomes `S` and the dotless i
/// (U+0131) becomes `I`. Every other character stands for itself: what
/// upper-casing makes of it, be it one character or several, is part of
/// none of these names.
pub open spec fn keyword_code(c: char) -> u32 {
    let n = c as u32;
    if 0x61 <= n <= 0x7A {
        (n - 0x20) as u32
    } else if n == 0x17F {
        0x53
    } else if n == 0x131 {
        0x49
    } else {
        n
    }
}

/// Whether `s`, put in upper case, is `word`, the name of a record type
/// or class, which is written in ASCII capitals.
pub open spec fn spells(s: Seq<char>, word: Seq<char>) -> bool {
    &&& s.len() == word.len()
    &&& forall|i: int| 0 <= i < s.len() ==> keyword_code(#[trigger] s[i]) == word[i] as u32
}

/// The code of the capital that `c` becomes in the name of a record type
/// or class.
pub fn char_keyword_code(c: char) -> (r: u32)
    ensures
        r == keyword_code(c),
{
    let n: u32 = c as u32;
    if 0x61 <= n && n <= 0x7A {
        n - 0x20
    } else if n == 0x17F {
        0x53
    } else if n == 0x131 {
        0x49
    } else {
        n
    }
}

/// Tells whether `s`, put in upper case, is `word`.
pub fn spells_word(s: &[char], word: &[char]) -> (r: bool)
    ensures
        r == spells(s@, word@),
{
    if s.len() != word.len() {
        return false;
    }
    let mut i: usize = 0;
    while i < s.len()
        invariant
            i <= s.len(),
            s.len() == word.len(),
            forall|j: int| 0 <= j < i ==> keyword_code(#[trigger] s@[j]) == word@[j] as u32,
        decreases s.len() - i,
    {
        if char_keyword_code(s[i]) != word[i] as u32 {
            return false;
        }
        i += 1;
    }
    true
}

/// Compares two character slices.
pub fn eq_chars(s: &[char], t: &[char]) -> (r: bool)
    ensures
        r == (s@ == t@),
{
    if s.len() != t.len() {
        return false;
    }
    let mut i: usize = 0;
    while i < s.len()
        invariant
            i <= s.len(),
            s.len() == t.len(),
            forall|j: int| 0 <= j < i ==> s@[j] == t@[j],
        decreases s.len() - i,
    {
        if s[i] != t[i] {
            return false;
        }
        i += 1;
    }
    assert(s@ =~= t@);
    true
}


/// No word is empty.
pub proof fn lemma_words_nonempty(s: Seq<char>)
    ensures
        forall|i: int| 0 <= i < words(s).len() ==> (#[trigger] words(s)[i]).len() > 0,
    decreases s.len(),
{
    if s.len() > 0 {
        lemma_words_nonempty(s.drop_last());
        let before = words(s.drop_last());
        let w = words(s);
        assert forall|i: int| 0 <= i < w.len() implies (#[trigger] w[i]).len() > 0 by {
            if i < before.len() {
                assert(before[i].len() > 0);
            }
        }
    }
}

/// The fields joined into one text, with `sep` between neighbours.
pub open spec fn joined(f: Seq<Seq<char>>, sep: char) -> Seq<char>
    decreases f.len(),
{
    if f.len() == 0 {
        Seq::empty()
    } else if f.len() == 1 {
        f[0]
    } else {
        joined(f.drop_last(), sep).push(sep) + f.last()
    }
}

/// Where the words of `s` stand in `s`: for each word the position of
/// its first character and the position behind its last.
pub open spec fn word_spans(s: Seq<char>) -> Seq<(int, int)>
    decreases s.len(),
{
    if s.len() == 0 {
        Seq::empty()
    } else {
        let before = word_spans(s.drop_last());
        if is_space(s.last()) {
            before
        } else if s.len() > 1 && !is_space(s[s.len() - 2]) && before.len() > 0 {
            before.update(before.len() - 1, (before.last().0, s.len() as int))
        } else {
            before.push((s.len() - 1, s.len() as int))
        }
    }
}

/// Whether the characters from `a` up to `b` are a maximal run of
/// characters that are no whitespace: none of them is whitespace, and on
/// either side stands whitespace or an end of the text.
pub open spec fn is_run(s: Seq<char>, a: int, b: int) -> bool {
    &&& 0 <= a < b <= s.len()
    &&& forall|i: int| a <= i < b ==> !is_space(#[trigger] s[i])
    &&& (a == 0 || is_space(s[a - 1]))
    &&& (b == s.len() || is_space(s[b]))
}

/// Whether the position `i` lies in the span `p`.
pub open spec fn in_span(p: (int, int), i: int) -> bool {
    p.0 <= i < p.1
}

/// Whether the words of `s` are its maximal runs of characters that are
/// no whitespace, in the order in which they stand: each word is the
/// piece of the text at its span, each span is such a run, the spans
/// follow one another, and every character that is no whitespace lies
/// in one of them.
pub open spec fn words_are_runs(s: Seq<char>) -> bool {
    let w = words(s);
    let p = word_spans(s);
    &&& p.len() == w.len()
    &&& forall|k: int|
        0 <= k < p.len() ==> is_run(s, (#[trigger] p[k]).0, p[k].1) && w[k] == s.subrange(
            p[k].0,
            p[k].1,
        )
    &&& forall|j: int, k: int| 0 <= j < k < p.len() ==> (#[trigger] p[j]).1 < (#[trigger] p[k]).0
    &&& forall|i: int|
        0 <= i < s.len() && !is_space(#[trigger] s[i]) ==> exists|k: int|
            0 <= k < p.len() && in_span(#[trigger] p[k], i)
}

/// A run of `s` without its last character that ends before that
/// character's neighbour is a run of `s`.
proof fn lemma_run_stays(s: Seq<char>, a: int, b: int)
    requires
        s.len() > 0,
        is_run(s.drop_last(), a, b),
        b < s.len() - 1 || is_space(s.last()),
    ensures
        is_run(s, a, b),
        s.drop_last().subrange(a, b) == s.subrange(a, b),
{
    let init = s.drop_last();
    assert forall|i: int| a <= i < b implies !is_space(#[trigger] s[i]) by {
        assert(s[i] == init[i]);
    }
    if a > 0 {
        assert(s[a - 1] == init[a - 1]);
    }
    if b < s.len() - 1 {
        assert(s[b] == init[b]);
    }
    assert(init.subrange(a, b) =~= s.subrange(a, b));
}

/// A run that ends where `s` without its last character ends, and that
/// last character being no whitespace, make a run one longer.
proof fn lemma_run_grows(s: Seq<char>, a: int)
    requires
        s.len() > 1,
        is_run(s.drop_last(), a, s.len() - 1),
        !is_space(s.last()),
    ensures
        is_run(s, a, s.len() as int),
        s.drop_last().subrange(a, s.len() - 1).push(s.last()) == s.subrange(a, s.len() as int),
{
    let init = s.drop_last();
    assert forall|i: int| a <= i < s.len() implies !is_space(#[trigger] s[i]) by {
        if i < s.len() - 1 {
            assert(s[i] == init[i]);
        }
    }
    if a > 0 {
        assert(s[a - 1] == init[a - 1]);
    }
    assert(init.subrange(a, s.len() - 1).push(s.last()) =~= s.subrange(a, s.len() as int));
}

/// The words of a text are its maximal runs of characters that are no
/// whitespace. A text that ends in such a character ends in its last
/// word.
pub proof fn lemma_words_are_runs(s: Seq<char>)
    ensures
        words_are_runs(s),
        s.len() > 0 && !is_space(s.last()) ==> word_spans(s).len() > 0 && word_spans(s).last().1
            == s.len(),
    decreases s.len(),
{
    if s.len() > 0 {
        let init = s.drop_last();
        let c = s.last();
        let n = s.len() as int;
        lemma_words_are_runs(init);
        let w0 = words(init);
        let p0 = word_spans(init);
        let w = words(s);
        let p = word_spans(s);
        if n > 1 {
            assert(init.last() == s[n - 2]);
        }
        if is_space(c) {
            assert forall|k: int| 0 <= k < p.len() implies is_run(s, (#[trigger] p[k]).0, p[k].1)
                && w[k] == s.subrange(p[k].0, p[k].1) by {
                lemma_run_stays(s, p0[k].0, p0[k].1);
            }
            assert forall|i: int| 0 <= i < s.len() && !is_space(#[trigger] s[i]) implies exists|
                k: int,
            | 0 <= k < p.len() && in_span(#[trigger] p[k], i) by {
                assert(init[i] == s[i]);
                let k = choose|k: int| 0 <= k < p0.len() && in_span(#[trigger] p0[k], i);
                assert(in_span(p[k], i));
            }
        } else if n > 1 && !is_space(s[n - 2]) {
            let last = p0.len() - 1;
            assert(p0[last].1 == n - 1);
            assert forall|k: int| 0 <= k < p.len() implies is_run(s, (#[trigger] p[k]).0, p[k].1)
                && w[k] == s.subrange(p[k].0, p[k].1) by {
                if k < last {
                    assert(p0[k].1 < p0[last].0);
                    lemma_run_stays(s, p0[k].0, p0[k].1);
                } else {
                    lemma_run_grows(s, p0[last].0);
                }
            }
            assert forall|i: int| 0 <= i < s.len() && !is_space(#[trigger] s[i]) implies exists|
                k: int,
            | 0 <= k < p.len() && in_span(#[trigger] p[k], i) by {
                if i < n - 1 {
                    assert(init[i] == s[i]);
                    let k = choose|k: int| 0 <= k < p0.len() && in_span(#[trigger] p0[k], i);
                    assert(in_span(p[k], i));
                } else {
                    assert(in_span(p[last], i));
                }
            }
        } else {
            assert(p == p0.push((n - 1, n)));
            assert(w == w0.push(seq![c]));
            assert forall|k: int| 0 <= k < p0.len() implies (#[trigger] p0[k]).1 < n - 1 by {
                if p0[k].1 == n - 1 {
                    assert(!is_space(init[n - 2]));
                }
            }
            assert forall|k: int| 0 <= k < p.len() implies is_run(s, (#[trigger] p[k]).0, p[k].1)
                && w[k] == s.subrange(p[k].0, p[k].1) by {
                if k < p0.len() {
                    assert(p0[k].1 < n - 1);
                    lemma_run_stays(s, p0[k].0, p0[k].1);
                } else {
                    assert(seq![c] =~= s.subrange(n - 1, n));
                }
            }
            assert forall|i: int| 0 <= i < s.len() && !is_space(#[trigger] s[i]) implies exists|
                k: int,
            | 0 <= k < p.len() && in_span(#[trigger] p[k], i) by {
                if i < n - 1 {
                    assert(init[i] == s[i]);
                    let k = choose|k: int| 0 <= k < p0.len() && in_span(#[trigger] p0[k], i);
                    assert(in_span(p[k], i));
                } else {
                    assert(in_span(p[p0.len() as int], i));
                }
            }
        }
    }
}

/// No field holds the separator.
pub proof fn lemma_fields_hold_no_separator(s: Seq<char>, sep: char)
    ensures
        forall|i: int, j: int|
            0 <= i < fields(s, sep).len() && 0 <= j < fields(s, sep)[i].len() ==> #[trigger] fields(
                s,
                sep,
            )[i][j] != sep,
    decreases s.len(),
{
    if s.len() > 0 {
        lemma_fields_hold_no_separator(s.drop_last(), sep);
        let before = fields(s.drop_last(), sep);
        let f = fields(s, sep);
        assert forall|i: int, j: int| 0 <= i < f.len() && 0 <= j < f[i].len() implies #[trigger] f[i][j]
            != sep by {
            if i < before.len() && j < before[i].len() {
                assert(before[i][j] != sep);
            }
        }
    }
}

/// Splitting loses nothing: the fields of a text, joined again at the
/// separator, are the text.
pub proof fn lemma_join_fields(s: Seq<char>, sep: char)
    ensures
        fields(s, sep).len() >= 1,
        joined(fields(s, sep), sep) == s,
    decreases s.len(),
{
    if s.len() > 0 {
        let init = s.drop_last();
        let c = s.last();
        lemma_join_fields(init, sep);
        let f = fields(init, sep);
        assert(s == init.push(c));
        if c == sep {
            assert(f.push(Seq::empty()).drop_last() == f);
            assert(joined(f, sep).push(sep) + Seq::<char>::empty() == joined(f, sep).push(sep));
        } else {
            let g = f.update(f.len() - 1, f.last().push(c));
            if f.len() == 1 {
                assert(joined(g, sep) == f[0].push(c));
            } else {
                assert(g.drop_last() == f.drop_last());
                assert(joined(f.drop_last(), sep).push(sep) + f.last().push(c) == (joined(
                    f.drop_last(),
                    sep,
                ).push(sep) + f.last()).push(c));
            }
        }
    }
}

/// Joins the fields into one text, with `sep` between neighbours.
pub fn join(f: &[Vec<char>], sep: char) -> (r: Vec<char>)
    ensures
        r@ == joined(views(f@), sep),
{
    let mut out: Vec<char> = Vec::new();
    let mut i: usize = 0;
    while i < f.len()
        invariant
            i <= f.len(),
            out@ == joined(views(f@).take(i as int), sep),
        decreases f.len() - i,
    {
        let ghost next = views(f@).take(i + 1);
        proof {
            assert(next.drop_last() == views(f@).take(i as int));
            assert(next.last() == f@[i as int]@);
        }
        if i > 0 {
            out.push(sep);
        }
        let piece = &f[i];
        let ghost base = out@;
        let mut j: usize = 0;
        while j < piece.len()
            invariant
                j <= piece.len(),
                out@ == base + piece@.take(j as int),
            decreases piece.len() - j,
        {
            out.push(piece[j]);
            assert(piece@.take(j + 1) == piece@.take(j as int).push(piece@[j as int]));
            j += 1;
        }
        assert(piece@.take(j as int) == piece@);
        i += 1;
    }
    assert(views(f@).take(i as int) == views(f@));
    out
}


/// The character of a decimal digit.
pub open spec fn digit_char(d: nat) -> char
    recommends
        d < 10,
{
    ((0x30 + d) as u8) as char
}

fn digit_of(d: u8) -> (c: char)
    requires
        d < 10,
    ensures
        c == digit_char(d as nat),
        is_digit(c),
        digit_value(c) == d,
{
    (0x30 + d) as char
}


/// The decimal numeral of `n`: its digits, most significant first, with
/// no leading zero but for zero itself.
pub open spec fn number_text(n: nat) -> Seq<char>
    decreases n,
{
    if n < 10 {
        seq![digit_char(n)]
    } else {
        number_text(n / 10).push(digit_char(n % 10))
    }
}

/// A numeral that is written and read again is the same number.
pub proof fn lemma_number_text_reads_back(n: nat, max: nat)
    requires
        n <= max,
    ensures
        number(number_text(n), max) == Some(n),
        decimal(number_text(n), max) == Some(n),
    decreases n,
{
    let text = number_text(n);
    if n < 10 {
        assert(text.drop_last() == Seq::<char>::empty());
        assert(digits_value(text) == digits_value(Seq::<char>::empty()) * 10 + digit_value(
            text.last(),
        ));
    } else {
        lemma_number_text_reads_back(n / 10, max);
        assert(text.drop_last() == number_text(n / 10));
        assert forall|i: int| 0 <= i < text.len() implies is_digit(#[trigger] text[i]) by {
            if i < text.len() - 1 {
                assert(text[i] == number_text(n / 10)[i]);
            }
        }
    }
    assert(text[0] != '+') by {
        lemma_number_text_is_digits(n);
    }
}

/// A numeral holds digits only, and at least one.
pub proof fn lemma_number_text_is_digits(n: nat)
    ensures
        number_text(n).len() >= 1,
        all_digits(number_text(n)),
    decreases n,
{
    if n >= 10 {
        lemma_number_text_is_digits(n / 10);
        let text = number_text(n);
        assert forall|i: int| 0 <= i < text.len() implies is_digit(#[trigger] text[i]) by {
            if i < text.len() - 1 {
                assert(text[i] == number_text(n / 10)[i]);
            }
        }
    }
}

/// Writes `n` as a decimal numeral.
pub fn write_number(n: u64) -> (r: Vec<char>)
    ensures
        r@ == number_text(n as nat),
{
    let mut digits: Vec<char> = Vec::new();
    let mut m: u64 = n;
    digits.push(digit_of((m % 10) as u8));
    m = m / 10;
    while m > 0
        invariant
            digits@.len() >= 1,
            m == 0 ==> number_text(n as nat) == digits@.reverse(),
            m > 0 ==> number_text(n as nat) == number_text(m as nat) + digits@.reverse(),
        decreases m,
    {
        let ghost before = digits@;
        let d = digit_of((m % 10) as u8);
        digits.push(d);
        proof {
            assert(digits@.reverse() == seq![d] + before.reverse());
            if m >= 10 {
                assert(number_text(m as nat) == number_text((m / 10) as nat).push(d));
                assert(number_text((m / 10) as nat).push(d) + before.reverse() == number_text(
                    (m / 10) as nat,
                ) + (seq![d] + before.reverse()));
            } else {
                assert(number_text(m as nat) == seq![d]);
            }
        }
        m = m / 10;
    }
    let mut out: Vec<char> = Vec::new();
    let mut k: usize = digits.len();
    while k > 0
        invariant
            k <= digits@.len(),
            out@ == digits@.reverse().take(digits@.len() - k),
        decreases k,
    {
        k -= 1;
        let ghost before = out@;
        out.push(digits[k]);
        assert(out@ == digits@.reverse().take(digits@.len() - k)) by {
            assert(digits@.reverse()[digits@.len() - k - 1] == digits@[k as int]);
            assert(digits@.reverse().take(digits@.len() - k) == digits@.reverse().take(
                digits@.len() - k - 1,
            ).push(digits@[k as int]));
        }
    }
    assert(digits@.reverse().take(digits@.len() as int) == digits@.reverse());
    out
}

} // verus!
