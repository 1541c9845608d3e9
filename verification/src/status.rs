use vstd::prelude::*;
use vstd::utf8::{decode_utf8, valid_utf8};

use crate::progress::{decimal, digit_char};

verus! {

/// Whether `c` is white space in the sense of `char::is_whitespace`: the
/// ASCII controls from tab to carriage return, space, and the other code
/// points that carry the Unicode `White_Space` property.
pub open spec fn is_whitespace(c: char) -> bool {
    let u = c as u32;
    ||| u == 0x20
    ||| 0x09 <= u <= 0x0d
    ||| u == 0x85
    ||| u == 0xa0
    ||| u == 0x1680
    ||| 0x2000 <= u <= 0x200a
    ||| u == 0x2028
    ||| u == 0x2029
    ||| u == 0x202f
    ||| u == 0x205f
    ||| u == 0x3000
}

/// The index of the first `"\r\n"` in `s` at or after `i`, or `s.len()` when
/// there is none.
pub open spec fn line_end_from(s: Seq<char>, i: int) -> int
    decreases s.len() - i,
{
    if i + 1 >= s.len() {
        s.len() as int
    } else if s[i] == '\r' && s[i + 1] == '\n' {
        i
    } else {
        line_end_from(s, i + 1)
    }
}

/// The text before the first `"\r\n"`, or all of `s` when it has none.
pub open spec fn first_line(s: Seq<char>) -> Seq<char> {
    s.take(line_end_from(s, 0))
}

/// The white-space separated words of `s[i..]`, where `cur` holds the
/// characters of a word already begun before `i`.
pub open spec fn words_from(s: Seq<char>, i: int, cur: Seq<char>) -> Seq<Seq<char>>
    decreases s.len() - i,
{
    if i >= s.len() {
        if cur.len() > 0 { seq![cur] } else { seq![] }
    } else if is_whitespace(s[i]) {
        let rest = words_from(s, i + 1, seq![]);
        if cur.len() > 0 { seq![cur] + rest } else { rest }
    } else {
        words_from(s, i + 1, cur.push(s[i]))
    }
}

/// The maximal runs of non-white-space characters of `s`, in order (what
/// `str::split_whitespace` yields).
pub open spec fn words(s: Seq<char>) -> Seq<Seq<char>> {
    words_from(s, 0, seq![])
}

pub open spec fn is_ascii_digit(c: char) -> bool {
    0x30 <= (c as u32) <= 0x39
}

pub open spec fn all_ascii_digits(s: Seq<char>) -> bool {
    forall|i: int| 0 <= i < s.len() ==> is_ascii_digit(#[trigger] s[i])
}

/// The number that a string of decimal digits denotes.
pub open spec fn digits_value(s: Seq<char>) -> int
    decreases s.len(),
{
    if s.len() == 0 {
        0
    } else {
        digits_value(s.drop_last()) * 10 + ((s.last() as u32) - 0x30)
    }
}

/// What `str::parse::<u16>` gives: an optional leading `+`, then one or
/// more ASCII digits whose value fits in a `u16`.
pub open spec fn parse_u16_text(t: Seq<char>) -> Option<u16> {
    let d = if t.len() > 0 && t[0] == '+' { t.drop_first() } else { t };
    if d.len() > 0 && all_ascii_digits(d) && digits_value(d) <= u16::MAX {
        Some(digits_value(d) as u16)
    } else {
        None
    }
}

pub open spec fn http_prefix() -> Seq<char> {
    seq!['H', 'T', 'T', 'P', '/']
}

pub open spec fn starts_with(w: Seq<char>, p: Seq<char>) -> bool {
    p.len() <= w.len() && w.take(p.len() as int) == p
}

/// The status code of a response text: the second word of its first line,
/// read as a `u16`, provided the first word begins with `HTTP/`.
pub open spec fn status_code_of_text(text: Seq<char>) -> Option<u16> {
    let w = words(first_line(text));
    if w.len() >= 2 && starts_with(w[0], http_prefix()) {
        parse_u16_text(w[1])
    } else {
        None
    }
}

/// The status code carried by the first bytes of a response; none unless
/// all of them are well-formed UTF-8.
pub open spec fn status_code(buf: Seq<u8>) -> Option<u16> {
    if valid_utf8(buf) {
        status_code_of_text(decode_utf8(buf))
    } else {
        None
    }
}

/// `std::str::from_utf8`: the bytes as text when they are well-formed UTF-8
/// (the text's own UTF-8 encoding is then those very bytes), none otherwise.
#[verifier::external_body]
fn utf8_text(buf: &[u8]) -> (r: Option<&str>)
    ensures
        r is Some <==> valid_utf8(buf@),
        r matches Some(s) ==> s@ == decode_utf8(buf@),
{
    std::str::from_utf8(buf).ok()
}

fn chars_of(s: &str) -> (v: Vec<char>)
    ensures
        v@ == s@,
{
    let mut v: Vec<char> = Vec::new();
    for c in it: s.chars()
        invariant
            v@ == it.seq().take(it.index() as int),
            it.seq() == s@,
    {
        v.push(c);
    }
    v
}


fn char_is_whitespace(c: char) -> (b: bool)
    ensures
        b == is_whitespace(c),
{
    let u = c as u32;
    u == 0x20 || (0x09 <= u && u <= 0x0d) || u == 0x85 || u == 0xa0 || u == 0x1680
        || (0x2000 <= u && u <= 0x200a) || u == 0x2028 || u == 0x2029 || u == 0x202f
        || u == 0x205f || u == 0x3000
}

proof fn lemma_digits_value_prefix_monotone(d: Seq<char>, i: int, j: int)
    requires
        0 <= i <= j <= d.len(),
        all_ascii_digits(d),
    ensures
        digits_value(d.take(i)) <= digits_value(d.take(j)),
        digits_value(d.take(i)) >= 0,
    decreases j - i,
{
    if i < j {
        lemma_digits_value_prefix_monotone(d, i, j - 1);
        assert(d.take(j).drop_last() =~= d.take(j - 1));
        assert(is_ascii_digit(d[j - 1]));
    } else {
        lemma_digits_value_nonneg(d.take(i));
    }
}

proof fn lemma_digits_value_nonneg(d: Seq<char>)
    requires
        all_ascii_digits(d),
    ensures
        digits_value(d) >= 0,
    decreases d.len(),
{
    if d.len() > 0 {
        assert(all_ascii_digits(d.drop_last()));
        lemma_digits_value_nonneg(d.drop_last());
        assert(is_ascii_digit(d[d.len() - 1]));
    }
}

/// Reads a `u16` the way `str::parse::<u16>` does.
pub fn parse_u16_chars(t: &[char]) -> (r: Option<u16>)
    ensures
        r == parse_u16_text(t@),
{
    let start: usize = if t.len() > 0 && t[0] == '+' { 1 } else { 0 };
    let ghost d: Seq<char> = if t@.len() > 0 && t@[0] == '+' { t@.drop_first() } else { t@ };
    assert(d =~= t@.subrange(start as int, t@.len() as int));
    if start == t.len() {
        return None;
    }
    let mut acc: u32 = 0;
    let mut i: usize = start;
    while i < t.len()
        invariant
            start <= i <= t.len(),
            d =~= t@.subrange(start as int, t@.len() as int),
            d == (if t@.len() > 0 && t@[0] == '+' { t@.drop_first() } else { t@ }),
            start < t.len(),
            all_ascii_digits(d.take(i - start)),
            acc as int == digits_value(d.take(i - start)),
            acc <= u16::MAX,
        decreases t.len() - i,
    {
        let c = t[i];
        let u = c as u32;
        if !(0x30 <= u && u <= 0x39) {
            assert(!is_ascii_digit(d[i - start]));
            assert(!all_ascii_digits(d));
            return None;
        }
        proof {
            assert(d.take(i - start + 1).drop_last() =~= d.take(i - start));
            assert(d.take(i - start + 1).last() == c);
            assert(all_ascii_digits(d.take(i - start + 1)));
        }
        let next: u32 = acc * 10 + (u - 0x30);
        if next > 65535 {
            proof {
                if all_ascii_digits(d) {
                    lemma_digits_value_prefix_monotone(d, i - start + 1, d.len() as int);
                    assert(d.take(d.len() as int) =~= d);
                }
            }
            return None;
        }
        acc = next;
        i = i + 1;
    }
    proof {
        assert(d.take(d.len() as int) =~= d);
        assert(d.take((i - start) as int) =~= d);
    }
    Some(acc as u16)
}

proof fn lemma_line_end_bounds(s: Seq<char>, i: int)
    requires
        0 <= i <= s.len(),
    ensures
        i <= line_end_from(s, i) <= s.len(),
    decreases s.len() - i,
{
    if i + 1 < s.len() && !(s[i] == '\r' && s[i + 1] == '\n') {
        lemma_line_end_bounds(s, i + 1);
    }
}

/// Finds where the first line of `s` ends: the index of the first
/// `"\r\n"`, or `s.len()` when there is none.
fn first_line_end(s: &[char]) -> (e: usize)
    ensures
        e as int == line_end_from(s@, 0),
        e <= s.len(),
{
    proof {
        lemma_line_end_bounds(s@, 0);
    }
    let mut i: usize = 0;
    while s.len() > 0 && i < s.len() - 1
        invariant
            0 <= i <= s.len(),
            line_end_from(s@, 0) == line_end_from(s@, i as int),
        decreases s.len() - i,
    {
        if s[i] == '\r' && s[i + 1] == '\n' {
            return i;
        }
        i = i + 1;
    }
    i = s.len();
    i
}

pub open spec fn views_of(ws: Seq<Vec<char>>) -> Seq<Seq<char>> {
    ws.map_values(|w: Vec<char>| w@)
}

/// The white-space separated words of `s[..end]`.
fn words_before(s: &[char], end: usize) -> (out: Vec<Vec<char>>)
    requires
        end <= s.len(),
    ensures
        views_of(out@) == words(s@.take(end as int)),
{
    let ghost line = s@.take(end as int);
    let mut out: Vec<Vec<char>> = Vec::new();
    let mut cur: Vec<char> = Vec::new();
    let mut i: usize = 0;
    while i < end
        invariant
            i <= end <= s.len(),
            line == s@.take(end as int),
            words(line) == views_of(out@) + words_from(line, i as int, cur@),
        decreases end - i,
    {
        let c = s[i];
        assert(line[i as int] == c);
        if char_is_whitespace(c) {
            if cur.len() > 0 {
                let ghost before = out@;
                out.push(cur);
                proof {
                    assert(views_of(out@) =~= views_of(before).push(cur@));
                }
                cur = Vec::new();
            } else {
                assert(cur@ =~= seq![]);
            }
        } else {
            cur.push(c);
        }
        i = i + 1;
    }
    if cur.len() > 0 {
        let ghost before = out@;
        out.push(cur);
        proof {
            assert(views_of(out@) =~= views_of(before).push(cur@));
        }
    }
    assert(views_of(out@) =~= words(line));
    out
}

/// Reads the HTTP status code from the first bytes of a response: the
/// bytes must be UTF-8, the first word of the first line must begin with
/// `HTTP/`, and the second word must be a `u16`.
pub fn parse_status_code(buf: &[u8]) -> (r: Option<u16>)
    ensures
        r == status_code(buf@),
{
    let text = match utf8_text(buf) {
        Some(t) => t,
        None => return None,
    };
    let chars = chars_of(text);
    let end = first_line_end(chars.as_slice());
    let ws = words_before(chars.as_slice(), end);
    proof {
        assert(chars@.take(end as int) == first_line(decode_utf8(buf@)));
    }
    if ws.len() < 2 {
        return None;
    }
    let first = &ws[0];
    if first.len() < 5 || first[0] != 'H' || first[1] != 'T' || first[2] != 'T' || first[3] != 'P'
        || first[4] != '/' {
        proof {
            assert(ws@[0]@ == views_of(ws@)[0]);
            if starts_with(ws@[0]@, http_prefix()) {
                assert(ws@[0]@.take(5)[0] == 'H');
            }
        }
        return None;
    }
    proof {
        assert(ws@[0]@ == views_of(ws@)[0]);
        assert(ws@[0]@.take(5) =~= http_prefix());
        assert(ws@[1]@ == views_of(ws@)[1]);
    }
    parse_u16_chars(ws[1].as_slice())
}

/// The ASCII digits are exactly the characters `'0'` to `'9'`.
pub proof fn law_ascii_digits(c: char)
    ensures
        is_ascii_digit(c) <==> (c == '0' || c == '1' || c == '2' || c == '3' || c == '4'
            || c == '5' || c == '6' || c == '7' || c == '8' || c == '9'),
{
    let u = c as u32;
    assert(('0' as u32) == 0x30 && ('1' as u32) == 0x31 && ('2' as u32) == 0x32 && ('3' as u32) == 0x33
        && ('4' as u32) == 0x34 && ('5' as u32) == 0x35 && ('6' as u32) == 0x36 && ('7' as u32) == 0x37
        && ('8' as u32) == 0x38 && ('9' as u32) == 0x39);
    if 0x30 <= u <= 0x39 {
        vstd::utf8::char_u32_cast(c, u);
    }
}

/// Each decimal digit renders as the character whose code is `'0'` plus
/// the digit.
pub proof fn law_digit_char(d: nat)
    requires
        d < 10,
    ensures
        digit_char(d) as u32 == 0x30 + d,
        is_ascii_digit(digit_char(d)),
{
}

/// Reading back the decimal rendering of any number gives the number: the
/// rendering is a non-empty string of ASCII digits, without a leading zero
/// unless the number is zero, whose value is the number.
pub proof fn law_decimal_round_trip(n: nat)
    ensures
        decimal(n).len() > 0,
        all_ascii_digits(decimal(n)),
        digits_value(decimal(n)) == n,
        n > 0 ==> decimal(n)[0] != '0',
    decreases n,
{
    if n < 10 {
        law_digit_char(n);
        assert(decimal(n).drop_last() =~= Seq::<char>::empty());
        assert(digits_value(decimal(n).drop_last()) == 0);
        assert(decimal(n).last() == digit_char(n));
    } else {
        law_decimal_round_trip(n / 10);
        law_digit_char(n % 10);
        let s = decimal(n);
        assert(s.drop_last() =~= decimal(n / 10));
        assert(s.last() == digit_char(n % 10));
        assert forall|i: int| 0 <= i < s.len() implies is_ascii_digit(#[trigger] s[i]) by {
            if i < s.len() - 1 {
                assert(s[i] == decimal(n / 10)[i]);
            }
        }
        assert(s[0] == decimal(n / 10)[0]);
        assert(digits_value(s) == digits_value(decimal(n / 10)) * 10 + (n % 10));
        assert((n / 10) * 10 + n % 10 == n) by (nonlinear_arith);
    }
}

/// Every `u16` survives a round trip through its decimal text:
/// `str::parse::<u16>` of the rendering of `n` gives back `n`.
pub proof fn law_u16_round_trip(n: u16)
    ensures
        parse_u16_text(decimal(n as nat)) == Some(n),
{
    law_decimal_round_trip(n as nat);
    let s = decimal(n as nat);
    assert(is_ascii_digit(s[0]));
    assert(s[0] != '+') by {
        if s[0] == '+' {
            assert(('+' as u32) == 0x2b);
        }
    }
}

proof fn lemma_words_run(s: Seq<char>, i: int, k: int, cur: Seq<char>)
    requires
        0 <= i <= k <= s.len(),
        forall|j: int| i <= j < k ==> !is_whitespace(#[trigger] s[j]),
    ensures
        words_from(s, i, cur) == words_from(s, k, cur + s.subrange(i, k)),
    decreases k - i,
{
    if i < k {
        lemma_words_run(s, i + 1, k, cur.push(s[i]));
        assert(cur.push(s[i]) + s.subrange(i + 1, k) =~= cur + s.subrange(i, k));
    } else {
        assert(cur + s.subrange(i, k) =~= cur);
    }
}

proof fn lemma_line_end_at(s: Seq<char>, i: int, e: int)
    requires
        0 <= i <= e,
        e + 1 < s.len(),
        s[e] == '\r',
        s[e + 1] == '\n',
        forall|j: int| i <= j < e ==> #[trigger] s[j] != '\r',
    ensures
        line_end_from(s, i) == e,
    decreases e - i,
{
    if i < e {
        lemma_line_end_at(s, i + 1, e);
    }
}

/// The status line `HTTP/1.1 <n>` for the decimal rendering of a code.
pub open spec fn status_line_for(n: u16) -> Seq<char> {
    seq!['H', 'T', 'T', 'P', '/', '1', '.', '1', ' '] + decimal(n as nat) + seq!['\r', '\n']
}

/// Every `u16` code survives a round trip through a status line: the
/// status code of `HTTP/1.1 <n>\r\n` is `n`.
pub proof fn law_status_line_round_trip(n: u16)
    ensures
        status_code_of_text(status_line_for(n)) == Some(n),
{
    law_u16_round_trip(n);
    law_decimal_round_trip(n as nat);
    let head = seq!['H', 'T', 'T', 'P', '/', '1', '.', '1', ' '];
    let d = decimal(n as nat);
    let text = status_line_for(n);
    let line = head + d;
    let e = line.len() as int;
    assert(text =~= line + seq!['\r', '\n']);
    assert forall|j: int| 9 <= j < e implies !is_whitespace(#[trigger] line[j]) && line[j] != '\r' by {
        assert(line[j] == d[j - 9]);
        assert(is_ascii_digit(d[j - 9]));
        assert(('\r' as u32) == 0x0d);
    }
    assert forall|j: int| 0 <= j < 8 implies !is_whitespace(#[trigger] line[j]) && line[j] != '\r' by {
        assert(line[j] == head[j]);
    }
    assert(line[8] == ' ');
    assert forall|j: int| 0 <= j < e implies #[trigger] text[j] != '\r' by {
        assert(text[j] == line[j]);
        if 9 <= j {
            assert(!is_whitespace(line[j]) && line[j] != '\r');
        } else if j < 8 {
            assert(!is_whitespace(line[j]) && line[j] != '\r');
        }
    }
    assert(text[e] == '\r' && text[e + 1] == '\n');
    lemma_line_end_at(text, 0, e);
    assert(first_line(text) =~= line);
    assert forall|j: int| 0 <= j < 8 implies !is_whitespace(#[trigger] line[j]) by {
        assert(!is_whitespace(line[j]) && line[j] != '\r');
    }
    lemma_words_run(line, 0, 8, seq![]);
    assert(seq![] + line.subrange(0, 8) =~= http_prefix() + seq!['1', '.', '1']);
    assert(is_whitespace(line[8]));
    assert(words_from(line, 8, seq![] + line.subrange(0, 8)) == seq![seq![] + line.subrange(0, 8)] + words_from(line, 9, seq![]));
    assert forall|j: int| 9 <= j < e implies !is_whitespace(#[trigger] line[j]) by {
        assert(!is_whitespace(line[j]) && line[j] != '\r');
    }
    lemma_words_run(line, 9, e, seq![]);
    assert(seq![] + line.subrange(9, e) =~= d);
    assert(words_from(line, e, d) == seq![d]);
    let w = words(first_line(text));
    assert(w =~= seq![seq![] + line.subrange(0, 8), d]);
    assert((seq![] + line.subrange(0, 8)).take(5) =~= http_prefix());
}

/// Among ASCII characters, exactly space, tab, line feed, vertical tab, form
/// feed and carriage return are white space; no ASCII letter or digit is.
pub proof fn law_ascii_whitespace(c: char)
    requires
        (c as u32) < 0x80,
    ensures
        is_whitespace(c) <==> (c == ' ' || c == '\t' || c == '\n' || c == '\x0b' || c == '\x0c' || c == '\r'),
{
    assert((' ' as u32) == 0x20 && ('\t' as u32) == 0x09 && ('\n' as u32) == 0x0a && ('\x0b' as u32) == 0x0b
        && ('\x0c' as u32) == 0x0c && ('\r' as u32) == 0x0d);
    let u = c as u32;
    if 0x09 <= u <= 0x0d || u == 0x20 {
        vstd::utf8::char_u32_cast(c, u);
    }
}

proof fn lemma_line_end_facts(s: Seq<char>, i: int)
    requires
        0 <= i <= s.len(),
    ensures
        i <= line_end_from(s, i) <= s.len(),
        forall|j: int| i <= j < line_end_from(s, i) && j + 1 < s.len() ==> !(#[trigger] s[j] == '\r' && s[j + 1] == '\n'),
        line_end_from(s, i) < s.len() ==> line_end_from(s, i) + 1 < s.len()
            && s[line_end_from(s, i)] == '\r' && s[line_end_from(s, i) + 1] == '\n',
    decreases s.len() - i,
{
    if i + 1 < s.len() && !(s[i] == '\r' && s[i + 1] == '\n') {
        lemma_line_end_facts(s, i + 1);
    }
}

/// The first line is the text up to the first `"\r\n"`: a prefix of the
/// text with no `"\r\n"` inside, which is either the whole text or followed
/// by `"\r\n"`.
pub proof fn law_first_line(s: Seq<char>)
    ensures
        first_line(s) == s.take(first_line(s).len() as int),
        forall|j: int| 0 <= j && j + 1 < first_line(s).len() ==> !(#[trigger] first_line(s)[j] == '\r'
            && first_line(s)[j + 1] == '\n'),
        first_line(s).len() == s.len() || (first_line(s).len() + 1 < s.len()
            && s[first_line(s).len() as int] == '\r' && s[first_line(s).len() as int + 1] == '\n'),
{
    lemma_line_end_facts(s, 0);
    let e = line_end_from(s, 0);
    assert forall|j: int| 0 <= j && j + 1 < first_line(s).len() implies !(#[trigger] first_line(s)[j] == '\r'
        && first_line(s)[j + 1] == '\n') by {
        assert(first_line(s)[j] == s[j] && first_line(s)[j + 1] == s[j + 1]);
    }
}

proof fn lemma_words_from_shape(s: Seq<char>, i: int, cur: Seq<char>)
    requires
        0 <= i <= s.len(),
        forall|j: int| 0 <= j < cur.len() ==> !is_whitespace(#[trigger] cur[j]),
    ensures
        forall|w: int| 0 <= w < words_from(s, i, cur).len() ==> (#[trigger] words_from(s, i, cur)[w]).len() > 0
            && forall|j: int| 0 <= j < words_from(s, i, cur)[w].len() ==> !is_whitespace(#[trigger] words_from(s, i, cur)[w][j]),
    decreases s.len() - i,
{
    let ws = words_from(s, i, cur);
    if i < s.len() {
        if is_whitespace(s[i]) {
            lemma_words_from_shape(s, i + 1, seq![]);
            let rest = words_from(s, i + 1, seq![]);
            if cur.len() > 0 {
                assert forall|w: int| 0 <= w < ws.len() implies (#[trigger] ws[w]).len() > 0
                    && forall|j: int| 0 <= j < ws[w].len() ==> !is_whitespace(#[trigger] ws[w][j]) by {
                    if w == 0 {
                        assert(ws[w] == cur);
                    } else {
                        assert(ws[w] == rest[w - 1]);
                    }
                }
            } else {
                assert(ws == rest);
            }
        } else {
            let next = cur.push(s[i]);
            assert forall|j: int| 0 <= j < next.len() implies !is_whitespace(#[trigger] next[j]) by {
                if j < cur.len() {
                    assert(next[j] == cur[j]);
                }
            }
            lemma_words_from_shape(s, i + 1, next);
            assert(ws == words_from(s, i + 1, next));
        }
    } else if cur.len() > 0 {
        assert(ws == seq![cur]);
        assert forall|w: int| 0 <= w < ws.len() implies (#[trigger] ws[w]).len() > 0
            && forall|j: int| 0 <= j < ws[w].len() ==> !is_whitespace(#[trigger] ws[w][j]) by {
            assert(ws[w] == cur);
        }
    }
}

/// The words of a text are non-empty and hold no white space, and a
/// non-empty text without white space is a single word.
pub proof fn law_words(s: Seq<char>)
    ensures
        forall|w: int| 0 <= w < words(s).len() ==> (#[trigger] words(s)[w]).len() > 0
            && forall|j: int| 0 <= j < words(s)[w].len() ==> !is_whitespace(#[trigger] words(s)[w][j]),
        (s.len() > 0 && forall|j: int| 0 <= j < s.len() ==> !is_whitespace(#[trigger] s[j])) ==> words(s) == seq![s],
{
    lemma_words_from_shape(s, 0, seq![]);
    if s.len() > 0 && forall|j: int| 0 <= j < s.len() ==> !is_whitespace(#[trigger] s[j]) {
        lemma_words_run(s, 0, s.len() as int, seq![]);
        assert(seq![] + s.subrange(0, s.len() as int) =~= s);
    }
}

/// A code is read only from one or more ASCII digits, optionally after a
/// single `+`, and a `+` in front of any rendering of a code reads the same.
pub proof fn law_u16_text_shape(t: Seq<char>, n: u16)
    ensures
        parse_u16_text(t) is Some ==> {
            let d = if t[0] == '+' { t.drop_first() } else { t };
            &&& t.len() > 0
            &&& d.len() > 0
            &&& all_ascii_digits(d)
        },
        parse_u16_text(seq!['+'] + decimal(n as nat)) == Some(n),
{
    law_u16_round_trip(n);
    law_decimal_round_trip(n as nat);
    let t2 = seq!['+'] + decimal(n as nat);
    assert(t2[0] == '+');
    assert(t2.len() > 0);
    assert(t2.drop_first() =~= decimal(n as nat));
}

} // verus!
