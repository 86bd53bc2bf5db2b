//! Searching and cutting text by bytes.
use vstd::prelude::*;
use vstd::string::{StrSliceExecFns, StringExecFns, StringSliceAdditionalSpecFns};
use vstd::utf8::{
    encode_utf8, encode_utf8_decode_utf8, encode_utf8_valid_utf8, is_char_boundary,
    is_char_boundary_iff_not_is_continuation_byte, is_char_boundary_start_end_of_seq,
};

verus! {

/// The texts of some strings.
pub open spec fn texts(s: Seq<String>) -> Seq<Seq<char>> {
    Seq::new(s.len(), |i: int| s[i]@)
}

/// The text of an optional string.
pub open spec fn text_of(s: Option<String>) -> Option<Seq<char>> {
    match s {
        Some(t) => Some(t@),
        None => None,
    }
}

/// `pat` occurs in `text` at byte `i`.
pub open spec fn occurs_at(text: Seq<u8>, pat: Seq<u8>, i: int) -> bool {
    0 <= i && i + pat.len() <= text.len() && text.subrange(i, i + pat.len()) == pat
}

/// `pat` occurs somewhere in `text`.
pub open spec fn occurs(text: Seq<u8>, pat: Seq<u8>) -> bool {
    exists|i: int| occurs_at(text, pat, i)
}

/// Encoding distributes over concatenation.
pub proof fn lemma_encode_concat(a: Seq<char>, b: Seq<char>)
    ensures
        encode_utf8(a + b) == encode_utf8(a) + encode_utf8(b),
    decreases a.len(),
{
    if a.len() == 0 {
        assert(a + b =~= b);
        assert(encode_utf8(a) + encode_utf8(b) =~= encode_utf8(b));
    } else {
        let rest = a.drop_first();
        lemma_encode_concat(rest, b);
        assert((a + b).drop_first() =~= rest + b);
        assert((a + b)[0] == a[0]);
        assert(encode_utf8(a + b) =~= encode_utf8(a) + encode_utf8(b));
    }
}

/// Text is determined by its bytes.
pub proof fn lemma_encode_injective(a: Seq<char>, b: Seq<char>)
    requires
        encode_utf8(a) == encode_utf8(b),
    ensures
        a == b,
{
    encode_utf8_decode_utf8(a);
    encode_utf8_decode_utf8(b);
}

/// The two sides of a cut at a character boundary make up the whole.
pub proof fn lemma_cut(all: Seq<char>, head: Seq<char>, tail: Seq<char>, at: int)
    requires
        0 <= at <= encode_utf8(all).len(),
        encode_utf8(head) == encode_utf8(all).subrange(0, at),
        encode_utf8(tail) == encode_utf8(all).subrange(at, encode_utf8(all).len() as int),
    ensures
        head + tail == all,
{
    lemma_encode_concat(head, tail);
    let bytes = encode_utf8(all);
    assert(bytes.subrange(0, at) + bytes.subrange(at, bytes.len() as int) =~= bytes);
    lemma_encode_injective(head + tail, all);
}

/// A match of non-empty text starts at a character boundary.
pub proof fn lemma_match_is_boundary(text: Seq<char>, pat: Seq<char>, i: int)
    requires
        pat.len() > 0,
        occurs_at(encode_utf8(text), encode_utf8(pat), i),
    ensures
        is_char_boundary(encode_utf8(text), i),
{
    let (t, p) = (encode_utf8(text), encode_utf8(pat));
    encode_utf8_valid_utf8(text);
    encode_utf8_valid_utf8(pat);
    vstd::utf8::encode_utf8_first_scalar(pat);
    assert(p.len() > 0);
    is_char_boundary_start_end_of_seq(p);
    is_char_boundary_iff_not_is_continuation_byte(p, 0);
    assert(t.subrange(i, i + p.len())[0] == t[i]);
    is_char_boundary_iff_not_is_continuation_byte(t, i);
}

/// Whether `pat` occurs in `text` at byte `i`.
fn occurs_here(text: &[u8], pat: &[u8], i: usize) -> (r: bool)
    requires
        i + pat.len() <= text.len(),
    ensures
        r == occurs_at(text@, pat@, i as int),
{
    for k in 0usize..pat.len()
        invariant
            i + pat.len() <= text.len(),
            forall|m: int| 0 <= m < k ==> #[trigger] pat@[m] == text@[i + m],
    {
        if text[i + k] != pat[k] {
            assert(text@.subrange(i as int, i + pat@.len())[k as int] != pat@[k as int]);
            return false;
        }
    }
    assert(text@.subrange(i as int, i + pat@.len()) =~= pat@);
    true
}

/// The first byte at which `pat` occurs in `text`.
pub fn find_bytes(text: &[u8], pat: &[u8]) -> (r: Option<usize>)
    ensures
        match r {
            Some(i) => occurs_at(text@, pat@, i as int) && forall|k: int| 0 <= k < i ==> !occurs_at(text@, pat@, k),
            None => !occurs(text@, pat@),
        },
{
    if pat.len() > text.len() {
        return None;
    }
    let last: usize = text.len() - pat.len();
    let mut i: usize = 0;
    while i <= last
        invariant
            pat.len() <= text.len(),
            last == text.len() - pat.len(),
            i <= last + 1,
            forall|k: int| 0 <= k < i ==> !occurs_at(text@, pat@, k),
        decreases last + 1 - i,
    {
        if occurs_here(text, pat, i) {
            return Some(i);
        }
        if i == last {
            return None;
        }
        i = i + 1;
    }
    None
}

/// Whether `pat` occurs in `text`.
pub fn contains(text: &str, pat: &str) -> (r: bool)
    ensures
        r == occurs(text.spec_bytes(), pat.spec_bytes()),
{
    match find_bytes(text.as_bytes(), pat.as_bytes()) {
        Some(i) => {
            assert(occurs_at(text.spec_bytes(), pat.spec_bytes(), i as int));
            true
        },
        None => false,
    }
}

/// Whether two texts are the same.
pub fn same_text(a: &str, b: &str) -> (r: bool)
    ensures
        r == (a@ == b@),
{
    let (x, y): (&[u8], &[u8]) = (a.as_bytes(), b.as_bytes());
    if x.len() != y.len() {
        return false;
    }
    for i in 0usize..x.len()
        invariant
            x@ == a.spec_bytes(),
            y@ == b.spec_bytes(),
            x@.len() == y@.len(),
            forall|k: int| 0 <= k < i ==> x@[k] == y@[k],
    {
        if x[i] != y[i] {
            return false;
        }
    }
    proof {
        assert(x@ =~= y@);
        lemma_encode_injective(a@, b@);
    }
    true
}

/// Whether a text ends in `c`.
pub fn ends_with_char(s: &str, c: char) -> (r: bool)
    ensures
        r == (s@.len() > 0 && s@.last() == c),
{
    let n: usize = s.unicode_len();
    n > 0 && s.get_char(n - 1) == c
}

/// The largest char boundary `<= idx`.
pub fn floor_char_boundary(s: &str, idx: usize) -> (r: usize)
    ensures
        r <= idx,
        r <= s.spec_bytes().len(),
        is_char_boundary(s.spec_bytes(), r as int),
        forall|k: int| r < k <= idx && k <= s.spec_bytes().len() ==> !is_char_boundary(s.spec_bytes(), k),
{
    let len: usize = s.as_bytes().len();
    let mut i: usize = if idx < len {
        idx
    } else {
        len
    };
    while i > 0 && !s.is_char_boundary(i)
        invariant
            i <= idx,
            i <= len,
            len == s.spec_bytes().len(),
            forall|k: int| i < k <= idx && k <= len ==> !is_char_boundary(s.spec_bytes(), k),
        decreases i,
    {
        i = i - 1;
    }
    proof {
        encode_utf8_valid_utf8(s@);
        is_char_boundary_start_end_of_seq(s.spec_bytes());
    }
    i
}

/// Splits owned text at a character boundary.
pub fn split_text(s: String, at: usize) -> (r: (String, String))
    requires
        at <= encode_utf8(s@).len(),
        is_char_boundary(encode_utf8(s@), at as int),
    ensures
        encode_utf8(r.0@) == encode_utf8(s@).subrange(0, at as int),
        encode_utf8(r.1@) == encode_utf8(s@).subrange(at as int, encode_utf8(s@).len() as int),
        r.0@ + r.1@ == s@,
{
    let (a, b) = s.as_str().split_at(at);
    let (head, tail) = (a.to_owned(), b.to_owned());
    proof {
        lemma_cut(s@, head@, tail@, at as int);
    }
    (head, tail)
}

/// The character for a decimal digit.
pub open spec fn digit_char(d: nat) -> char {
    if d == 0 {
        '0'
    } else if d == 1 {
        '1'
    } else if d == 2 {
        '2'
    } else if d == 3 {
        '3'
    } else if d == 4 {
        '4'
    } else if d == 5 {
        '5'
    } else if d == 6 {
        '6'
    } else if d == 7 {
        '7'
    } else if d == 8 {
        '8'
    } else {
        '9'
    }
}

/// A number in decimal, without leading zeros.
pub open spec fn decimal_chars(n: nat) -> Seq<char>
    decreases n,
{
    if n < 10 {
        seq![digit_char(n)]
    } else {
        decimal_chars(n / 10).push(digit_char(n % 10))
    }
}

/// The text of one decimal digit.
fn digit_text(d: u64) -> (s: &'static str)
    requires
        d < 10,
    ensures
        s@ == seq![digit_char(d as nat)],
{
    proof {
        reveal_strlit("0");
        reveal_strlit("1");
        reveal_strlit("2");
        reveal_strlit("3");
        reveal_strlit("4");
        reveal_strlit("5");
        reveal_strlit("6");
        reveal_strlit("7");
        reveal_strlit("8");
        reveal_strlit("9");
    }
    match d {
        0 => "0",
        1 => "1",
        2 => "2",
        3 => "3",
        4 => "4",
        5 => "5",
        6 => "6",
        7 => "7",
        8 => "8",
        _ => "9",
    }
}

/// A number in decimal.
pub fn decimal(n: u64) -> (s: String)
    ensures
        s@ == decimal_chars(n as nat),
    decreases n,
{
    if n < 10 {
        digit_text(n).to_owned()
    } else {
        let mut s: String = decimal(n / 10);
        s.append(digit_text(n % 10));
        assert(s@ =~= decimal_chars(n as nat));
        s
    }
}

/// The hexadecimal digit of `d`.
pub open spec fn hex_digit(d: nat) -> char {
    if d < 10 {
        digit_char(d)
    } else if d == 10 {
        'a'
    } else if d == 11 {
        'b'
    } else if d == 12 {
        'c'
    } else if d == 13 {
        'd'
    } else if d == 14 {
        'e'
    } else {
        'f'
    }
}

/// The last `n` hexadecimal digits of a number, leading zeros kept.
pub open spec fn hex_chars(v: nat, n: nat) -> Seq<char>
    decreases n,
{
    if n == 0 {
        Seq::empty()
    } else {
        hex_chars(v / 16, (n - 1) as nat).push(hex_digit(v % 16))
    }
}

/// The text of one hexadecimal digit.
fn hex_text(d: u64) -> (s: &'static str)
    requires
        d < 16,
    ensures
        s@ == seq![hex_digit(d as nat)],
{
    proof {
        reveal_strlit("a");
        reveal_strlit("b");
        reveal_strlit("c");
        reveal_strlit("d");
        reveal_strlit("e");
        reveal_strlit("f");
    }
    if d < 10 {
        return digit_text(d);
    }
    match d {
        10 => "a",
        11 => "b",
        12 => "c",
        13 => "d",
        14 => "e",
        _ => "f",
    }
}

fn hex(v: u64, n: u64) -> (s: String)
    ensures
        s@ == hex_chars(v as nat, n as nat),
    decreases n,
{
    if n == 0 {
        String::new()
    } else {
        let mut s: String = hex(v / 16, n - 1);
        s.append(hex_text(v % 16));
        assert(s@ =~= hex_chars(v as nat, n as nat));
        s
    }
}

/// A number as sixteen hexadecimal digits.
pub fn hex16(v: u64) -> (s: String)
    ensures
        s@ == hex_chars(v as nat, 16),
{
    hex(v, 16)
}

/// The digits of `b` are all decimal digits.
pub open spec fn all_digits(b: Seq<u8>) -> bool {
    forall|i: int| 0 <= i < b.len() ==> 48 <= #[trigger] b[i] <= 57
}

/// The number a run of decimal digits stands for.
pub open spec fn digits_value(b: Seq<u8>) -> nat
    decreases b.len(),
{
    if b.len() == 0 {
        0
    } else {
        digits_value(b.drop_last()) * 10 + (b.last() - 48) as nat
    }
}

/// The digits of an unsigned number: an optional plus sign comes first.
pub open spec fn unsigned_digits(b: Seq<u8>) -> Seq<u8> {
    if b.len() > 0 && b[0] == 43 {
        b.subrange(1, b.len() as int)
    } else {
        b
    }
}

/// `b` is the text of an unsigned number no larger than `max`.
pub open spec fn is_unsigned(b: Seq<u8>, max: nat) -> bool {
    let d = unsigned_digits(b);
    d.len() > 0 && all_digits(d) && digits_value(d) <= max
}

proof fn lemma_digits_grow(b: Seq<u8>, k: int)
    requires
        0 <= k <= b.len(),
        all_digits(b),
    ensures
        digits_value(b.take(k)) <= digits_value(b),
    decreases b.len() - k,
{
    if k < b.len() {
        lemma_digits_grow(b, k + 1);
        let next = b.take(k + 1);
        assert(next.drop_last() =~= b.take(k));
        assert(next.last() == b[k]);
    } else {
        assert(b.take(k) =~= b);
    }
}

/// Parses an unsigned number of at most `max`, as the integer types do: an
/// optional plus sign, then digits and nothing else.
pub fn parse_unsigned(text: &str, max: u64) -> (r: Option<u64>)
    ensures
        r is Some <==> is_unsigned(text.spec_bytes(), max as nat),
        r is Some ==> r->0 == digits_value(unsigned_digits(text.spec_bytes())),
{
    let bytes: &[u8] = text.as_bytes();
    let start: usize = if bytes.len() > 0 && bytes[0] == 43 {
        1
    } else {
        0
    };
    let ghost d = unsigned_digits(text.spec_bytes());
    assert(d =~= bytes@.subrange(start as int, bytes@.len() as int));
    if start == bytes.len() {
        return None;
    }
    let mut value: u64 = 0;
    let mut i: usize = start;
    assert(d.take(0) =~= Seq::empty());
    while i < bytes.len()
        invariant
            start <= i <= bytes.len(),
            start <= 1,
            d == bytes@.subrange(start as int, bytes@.len() as int),
            d == unsigned_digits(text.spec_bytes()),
            all_digits(d.take(i - start)),
            value == digits_value(d.take(i - start)),
            value <= max,
        decreases bytes.len() - i,
    {
        let b: u8 = bytes[i];
        let ghost k = i - start;
        proof {
            assert(d[k] == b);
            assert(d.take(k + 1).drop_last() =~= d.take(k));
            assert(d.take(k + 1).last() == b);
        }
        if b < 48 || b > 57 {
            return None;
        }
        let digit: u64 = (b - 48) as u64;
        assert forall|m: int| 0 <= m < k + 1 implies 48 <= #[trigger] d.take(k + 1)[m] <= 57 by {
            if m < k {
                assert(d.take(k)[m] == d[m]);
            }
        }
        if value > max / 10 || digit > max - value * 10 {
            proof {
                if all_digits(d) {
                    lemma_digits_grow(d, k + 1);
                    assert(digits_value(d.take(k + 1)) == value * 10 + digit);
                    if value > max / 10 {
                        assert(value * 10 > max);
                    }
                }
            }
            return None;
        }
        value = value * 10 + digit;
        i = i + 1;
    }
    assert(d.take(d.len() as int) =~= d);
    Some(value)
}

/// The characters with the Unicode White_Space property.
pub open spec fn is_white_space(c: char) -> bool {
    let n = c as u32;
    ||| 0x09 <= n <= 0x0d
    ||| n == 0x20
    ||| n == 0x85
    ||| n == 0xa0
    ||| n == 0x1680
    ||| 0x2000 <= n <= 0x200a
    ||| n == 0x2028
    ||| n == 0x2029
    ||| n == 0x202f
    ||| n == 0x205f
    ||| n == 0x3000
}

fn is_white_space_char(c: char) -> (r: bool)
    ensures
        r == is_white_space(c),
{
    let n: u32 = c as u32;
    (0x09 <= n && n <= 0x0d) || n == 0x20 || n == 0x85 || n == 0xa0 || n == 0x1680 || (0x2000 <= n && n <= 0x200a)
        || n == 0x2028 || n == 0x2029 || n == 0x202f || n == 0x205f || n == 0x3000
}

/// A text without the white space at its start.
pub open spec fn trimmed_start(s: Seq<char>) -> Seq<char>
    decreases s.len(),
{
    if s.len() > 0 && is_white_space(s[0]) {
        trimmed_start(s.skip(1))
    } else {
        s
    }
}

/// A text without the white space at its end.
pub open spec fn trimmed_end(s: Seq<char>) -> Seq<char>
    decreases s.len(),
{
    if s.len() > 0 && is_white_space(s.last()) {
        trimmed_end(s.drop_last())
    } else {
        s
    }
}

/// A text without the white space at either end.
pub open spec fn trimmed(s: Seq<char>) -> Seq<char> {
    trimmed_end(trimmed_start(s))
}

/// Removes the white space at either end.
pub fn trim<'a>(s: &'a str) -> (t: &'a str)
    ensures
        t@ == trimmed(s@),
{
    let n: usize = s.unicode_len();
    let mut a: usize = 0;
    assert(s@.skip(0) =~= s@);
    while a < n && is_white_space_char(s.get_char(a))
        invariant
            n == s@.len(),
            a <= n,
            trimmed_start(s@) == trimmed_start(s@.skip(a as int)),
        decreases n - a,
    {
        assert(s@.skip(a as int).skip(1) =~= s@.skip(a + 1));
        a = a + 1;
    }
    let ghost rest = s@.skip(a as int);
    let mut b: usize = n;
    assert(s@.subrange(a as int, n as int) =~= rest);
    while b > a && is_white_space_char(s.get_char(b - 1))
        invariant
            n == s@.len(),
            a <= b <= n,
            trimmed_end(rest) == trimmed_end(s@.subrange(a as int, b as int)),
        decreases b,
    {
        assert(s@.subrange(a as int, b as int).drop_last() =~= s@.subrange(a as int, b - 1));
        b = b - 1;
    }
    s.substring_char(a, b)
}

/// A text without any `c` at its end.
pub open spec fn without_end(s: Seq<char>, c: char) -> Seq<char>
    decreases s.len(),
{
    if s.len() > 0 && s.last() == c {
        without_end(s.drop_last(), c)
    } else {
        s
    }
}

/// Removes every `c` at the end.
pub fn trim_end_char<'a>(s: &'a str, c: char) -> (t: &'a str)
    ensures
        t@ == without_end(s@, c),
{
    let n: usize = s.unicode_len();
    let mut b: usize = n;
    assert(s@.subrange(0, n as int) =~= s@);
    while b > 0 && s.get_char(b - 1) == c
        invariant
            n == s@.len(),
            b <= n,
            without_end(s@, c) == without_end(s@.subrange(0, b as int), c),
        decreases b,
    {
        assert(s@.subrange(0, b as int).drop_last() =~= s@.subrange(0, b - 1));
        b = b - 1;
    }
    s.substring_char(0, b)
}

/// What follows the last `c`; the whole text if there is none.
pub open spec fn after_last(s: Seq<char>, c: char) -> Seq<char>
    decreases s.len(),
{
    if s.len() == 0 || s.last() == c {
        Seq::empty()
    } else {
        after_last(s.drop_last(), c).push(s.last())
    }
}

proof fn lemma_after_last(s: Seq<char>, c: char, b: int)
    requires
        0 <= b <= s.len(),
        forall|i: int| b <= i < s.len() ==> s[i] != c,
        b > 0 ==> s[b - 1] == c,
    ensures
        after_last(s, c) == s.subrange(b, s.len() as int),
    decreases s.len(),
{
    if b < s.len() {
        lemma_after_last(s.drop_last(), c, b);
        assert(s.drop_last().subrange(b, s.len() - 1).push(s.last()) =~= s.subrange(b, s.len() as int));
    } else {
        assert(s.subrange(b, s.len() as int) =~= Seq::empty());
    }
}

/// Takes what follows the last `c`.
pub fn rest_after_last<'a>(s: &'a str, c: char) -> (t: &'a str)
    ensures
        t@ == after_last(s@, c),
{
    let n: usize = s.unicode_len();
    let mut b: usize = n;
    while b > 0 && s.get_char(b - 1) != c
        invariant
            n == s@.len(),
            b <= n,
            forall|i: int| b <= i < n ==> s@[i] != c,
        decreases b,
    {
        b = b - 1;
    }
    proof {
        lemma_after_last(s@, c, b as int);
    }
    s.substring_char(b, n)
}

/// Whether `c` is in the text.
pub fn has_char(s: &str, c: char) -> (r: bool)
    ensures
        r == s@.contains(c),
{
    let n: usize = s.unicode_len();
    for i in 0usize..n
        invariant
            n == s@.len(),
            forall|k: int| 0 <= k < i ==> s@[k] != c,
    {
        if s.get_char(i) == c {
            return true;
        }
    }
    false
}

/// A text occurs in another byte for byte exactly where the other is some
/// text, that text, and some more text.
pub proof fn law_occurring_is_being_a_part(text: Seq<char>, pat: Seq<char>)
    requires
        pat.len() > 0,
    ensures
        occurs(encode_utf8(text), encode_utf8(pat)) <==> exists|a: Seq<char>, b: Seq<char>|
            text == #[trigger] (a + pat + b),
{
    let (t, p) = (encode_utf8(text), encode_utf8(pat));
    if exists|a: Seq<char>, b: Seq<char>| text == #[trigger] (a + pat + b) {
        let (a, b) = choose|a: Seq<char>, b: Seq<char>| text == #[trigger] (a + pat + b);
        lemma_encode_concat(a, pat);
        lemma_encode_concat(a + pat, b);
        let i = encode_utf8(a).len() as int;
        assert(t.subrange(i, i + p.len()) =~= p);
        assert(occurs_at(t, p, i));
    }
    if occurs(t, p) {
        let i = choose|i: int| occurs_at(t, p, i);
        let (a, b) = lemma_occurs_behind(text, pat, i);
        assert(text == a + pat + b);
    }
}

/// A number in decimal is its digits, the last of them its remainder by ten,
/// and reads back as that number.
pub proof fn law_decimal_reads_back(n: nat)
    ensures
        decimal_chars(n).len() > 0,
        decimal_chars(n).last() as int == 48 + n % 10,
        n < 10 ==> decimal_chars(n).len() == 1,
        n >= 10 ==> decimal_chars(n).drop_last() == decimal_chars(n / 10),
        n > 0 ==> decimal_chars(n)[0] != '0',
        forall|i: int| 0 <= i < decimal_chars(n).len() ==> '0' <= #[trigger] decimal_chars(n)[i] <= '9',
        digits_value(decimal_chars(n).map_values(|c: char| c as u8)) == n,
    decreases n,
{
    let d = decimal_chars(n);
    let bytes = d.map_values(|c: char| c as u8);
    if n < 10 {
        assert(bytes.drop_last() =~= Seq::empty());
        assert(digits_value(bytes.drop_last()) == 0);
    } else {
        law_decimal_reads_back(n / 10);
        let rest = decimal_chars(n / 10);
        assert(d.drop_last() =~= rest);
        assert(bytes.drop_last() =~= rest.map_values(|c: char| c as u8));
        assert(d[0] == rest[0]);
        assert forall|i: int| 0 <= i < d.len() implies '0' <= #[trigger] d[i] <= '9' by {
            if i < rest.len() {
                assert(d[i] == rest[i]);
            }
        }
    }
}

/// Every further digit makes a number ten times as large and adds itself; no
/// digits make nothing.
pub proof fn law_digits_count_in_tens(b: Seq<u8>, d: u8)
    requires
        48 <= d <= 57,
    ensures
        digits_value(Seq::empty()) == 0,
        digits_value(b.push(d)) == 10 * digits_value(b) + d - 48,
{
    assert(b.push(d).drop_last() =~= b);
}

/// Unsigned text is one or more digits, with or without one plus sign in
/// front of them, and stands for a number within the limit.
pub proof fn law_unsigned_text(digits: Seq<u8>, max: nat)
    requires
        forall|i: int| 0 <= i < digits.len() ==> 48 <= #[trigger] digits[i] <= 57,
    ensures
        is_unsigned(digits, max) <==> digits.len() > 0 && digits_value(digits) <= max,
        is_unsigned(seq![43u8] + digits, max) <==> digits.len() > 0 && digits_value(digits) <= max,
        unsigned_digits(digits) == digits,
        unsigned_digits(seq![43u8] + digits) == digits,
{
    let signed = seq![43u8] + digits;
    assert(signed.subrange(1, signed.len() as int) =~= digits);
}

/// Any other byte makes a text no unsigned number.
pub proof fn law_other_text_is_no_number(b: Seq<u8>, max: nat, i: int)
    requires
        0 <= i < b.len(),
        b[i] < 48 || b[i] > 57,
        i == 0 ==> b[i] != 43,
    ensures
        !is_unsigned(b, max),
{
    if b[0] == 43 {
        assert(b.subrange(1, b.len() as int)[i - 1] == b[i]);
    }
}

/// Hexadecimal text has as many digits as asked for, the last of them the
/// number's remainder by sixteen.
pub proof fn law_hex_digits(v: nat, n: nat)
    ensures
        hex_chars(v, n).len() == n,
        n > 0 ==> hex_chars(v, n).drop_last() == hex_chars(v / 16, (n - 1) as nat),
        n > 0 ==> hex_chars(v, n).last() as int == (if v % 16 < 10 {
            48 + v % 16
        } else {
            87 + v % 16
        }),
    decreases n,
{
    if n > 0 {
        law_hex_digits(v / 16, (n - 1) as nat);
        assert(hex_chars(v, n).drop_last() =~= hex_chars(v / 16, (n - 1) as nat));
    }
}

/// Two numbers below `2^64` have the same sixteen hexadecimal digits only if
/// they are the same.
pub proof fn law_hex_text_tells_numbers_apart(v: nat, w: nat, n: nat)
    requires
        hex_chars(v, n) == hex_chars(w, n),
    ensures
        n > 0 ==> v % 16 == w % 16,
        n > 0 ==> hex_chars(v / 16, (n - 1) as nat) == hex_chars(w / 16, (n - 1) as nat),
{
    law_hex_digits(v, n);
    law_hex_digits(w, n);
}

proof fn lemma_trimmed_start(s: Seq<char>) -> (k: int)
    ensures
        0 <= k <= s.len(),
        trimmed_start(s) == s.skip(k),
        forall|i: int| 0 <= i < k ==> is_white_space(#[trigger] s[i]),
        k < s.len() ==> !is_white_space(s[k]),
    decreases s.len(),
{
    if s.len() > 0 && is_white_space(s[0]) {
        let rest = s.skip(1);
        let k = lemma_trimmed_start(rest);
        assert(rest.skip(k) =~= s.skip(k + 1));
        assert forall|i: int| 0 <= i < k + 1 implies is_white_space(#[trigger] s[i]) by {
            if i > 0 {
                assert(rest[i - 1] == s[i]);
            }
        }
        k + 1
    } else {
        assert(s.skip(0) =~= s);
        0
    }
}

proof fn lemma_trimmed_end(s: Seq<char>) -> (k: int)
    ensures
        0 <= k <= s.len(),
        trimmed_end(s) == s.take(k),
        forall|i: int| k <= i < s.len() ==> is_white_space(#[trigger] s[i]),
        k > 0 ==> !is_white_space(s[k - 1]),
    decreases s.len(),
{
    if s.len() > 0 && is_white_space(s.last()) {
        let rest = s.drop_last();
        let k = lemma_trimmed_end(rest);
        assert(rest.take(k) =~= s.take(k));
        assert forall|i: int| k <= i < s.len() implies is_white_space(#[trigger] s[i]) by {
            if i < rest.len() {
                assert(rest[i] == s[i]);
            }
        }
        k
    } else {
        assert(s.take(s.len() as int) =~= s);
        s.len() as int
    }
}

/// Trimming cuts white space off both ends and nothing else: what is left is
/// a part of the text, all that is cut off is white space, and what is left
/// neither starts nor ends with it.
pub proof fn law_trimming_cuts_white_space_only(s: Seq<char>)
    ensures
        exists|i: int, j: int|
            {
                &&& 0 <= i <= j <= s.len()
                &&& trimmed(s) == #[trigger] s.subrange(i, j)
                &&& forall|k: int| 0 <= k < i ==> is_white_space(#[trigger] s[k])
                &&& forall|k: int| j <= k < s.len() ==> is_white_space(#[trigger] s[k])
            },
        trimmed(s).len() > 0 ==> !is_white_space(trimmed(s)[0]) && !is_white_space(trimmed(s).last()),
{
    let i = lemma_trimmed_start(s);
    let rest = s.skip(i);
    let n = lemma_trimmed_end(rest);
    let j = i + n;
    assert(rest.take(n) =~= s.subrange(i, j));
    assert forall|k: int| j <= k < s.len() implies is_white_space(#[trigger] s[k]) by {
        assert(rest[k - i] == s[k]);
    }
}

/// White space among the ASCII characters: blank, tab, line feed, vertical
/// tab, form feed and carriage return.
pub proof fn law_ascii_white_space(c: char)
    requires
        (c as u32) < 128,
    ensures
        is_white_space(c) <==> c == ' ' || c == '\t' || c == '\n' || c == '\x0b' || c == '\x0c' || c == '\r',
{
}

/// Cutting `c` off the end leaves a text that does not end in `c`, and gives
/// the whole text back with every `c` put back.
pub proof fn law_only_the_end_is_cut(s: Seq<char>, c: char)
    ensures
        ({
            let t = without_end(s, c);
            &&& t.len() <= s.len()
            &&& s.take(t.len() as int) == t
            &&& forall|i: int| t.len() <= i < s.len() ==> #[trigger] s[i] == c
            &&& t.len() > 0 ==> t.last() != c
        }),
    decreases s.len(),
{
    let t = without_end(s, c);
    if s.len() > 0 && s.last() == c {
        law_only_the_end_is_cut(s.drop_last(), c);
        assert(s.take(t.len() as int) =~= s.drop_last().take(t.len() as int));
        assert forall|i: int| t.len() <= i < s.len() implies #[trigger] s[i] == c by {
            if i < s.len() - 1 {
                assert(s.drop_last()[i] == s[i]);
            }
        }
    } else {
        assert(s.take(s.len() as int) =~= s);
    }
}

/// What follows the last `c` is the end of the text, has no `c` in it, and
/// unless it is the whole text a `c` stands right in front of it.
pub proof fn law_the_rest_after_the_last(s: Seq<char>, c: char)
    ensures
        ({
            let t = after_last(s, c);
            &&& t.len() <= s.len()
            &&& s.skip(s.len() - t.len()) == t
            &&& !t.contains(c)
            &&& t.len() < s.len() ==> s[s.len() - t.len() - 1] == c
        }),
    decreases s.len(),
{
    let t = after_last(s, c);
    if s.len() == 0 || s.last() == c {
        assert(s.skip(s.len() as int) =~= t);
    } else {
        let rest = s.drop_last();
        let u = after_last(rest, c);
        law_the_rest_after_the_last(rest, c);
        assert(s.skip(s.len() - t.len()) =~= rest.skip(rest.len() - u.len()).push(s.last()));
        assert forall|i: int| 0 <= i < t.len() implies t[i] != c by {
            if i < u.len() {
                assert(t[i] == u[i]);
                assert(u.contains(u[i]));
            }
        }
    }
}

/// The texts of some strings are theirs one by one, in order.
pub proof fn law_texts_are_theirs(s: Seq<String>, t: Option<String>)
    ensures
        texts(s).len() == s.len(),
        forall|i: int| 0 <= i < s.len() ==> #[trigger] texts(s)[i] == s[i]@,
        text_of(t) is Some <==> t is Some,
        t matches Some(x) ==> text_of(t) == Some(x@),
{
}

/// Where one text ends and another begins is a character boundary of the two
/// together.
pub proof fn lemma_seam_is_boundary(a: Seq<char>, b: Seq<char>)
    ensures
        is_char_boundary(encode_utf8(a + b), encode_utf8(a).len() as int),
{
    lemma_encode_concat(a, b);
    let (x, y) = (encode_utf8(a), encode_utf8(b));
    encode_utf8_valid_utf8(a + b);
    is_char_boundary_start_end_of_seq(x + y);
    if b.len() > 0 {
        assert((x + y).subrange(x.len() as int, (x.len() + y.len()) as int) =~= y);
        assert(occurs_at(encode_utf8(a + b), y, x.len() as int));
        lemma_match_is_boundary(a + b, b, x.len() as int);
    } else {
        assert(y.len() == 0);
        assert(x + y =~= x);
    }
}

/// A text and its place: `pat` stands behind `a` exactly where its bytes
/// occur behind those of `a`.
pub proof fn lemma_occurs_behind(text: Seq<char>, pat: Seq<char>, i: int) -> (r: (Seq<char>, Seq<char>))
    requires
        pat.len() > 0,
        occurs_at(encode_utf8(text), encode_utf8(pat), i),
    ensures
        text == r.0 + pat + r.1,
        encode_utf8(r.0).len() == i,
{
    let (t, p) = (encode_utf8(text), encode_utf8(pat));
    lemma_match_is_boundary(text, pat, i);
    encode_utf8_valid_utf8(text);
    encode_utf8_valid_utf8(pat);
    vstd::utf8::valid_utf8_split(t, i);
    let (head, tail) = (t.subrange(0, i), t.subrange(i, t.len() as int));
    let rest = tail.subrange(p.len() as int, tail.len() as int);
    assert(tail.subrange(0, p.len() as int) =~= p);
    if !vstd::utf8::valid_utf8(rest) {
        vstd::utf8::partial_valid_partial_invalid_utf8(tail, p.len() as int);
    }
    let (a, b) = (vstd::utf8::decode_utf8(head), vstd::utf8::decode_utf8(rest));
    vstd::utf8::decode_utf8_encode_utf8(head);
    vstd::utf8::decode_utf8_encode_utf8(rest);
    lemma_encode_concat(a, pat);
    lemma_encode_concat(a + pat, b);
    assert(encode_utf8(a + pat + b) =~= t);
    lemma_encode_injective(a + pat + b, text);
    (a, b)
}

/// Digits are one byte each.
pub proof fn lemma_digits_encode(d: Seq<char>)
    requires
        forall|i: int| 0 <= i < d.len() ==> '0' <= #[trigger] d[i] <= '9',
    ensures
        encode_utf8(d) == d.map_values(|c: char| c as u8),
{
    assert(vstd::utf8::is_ascii_chars(d));
    vstd::utf8::is_ascii_chars_encode_utf8(d);
    assert(encode_utf8(d) =~= d.map_values(|c: char| c as u8));
}

/// What is found is the pattern, and it stands nowhere earlier; a pattern that
/// is not found stands nowhere.
pub proof fn law_the_first_place_is_found(text: &[u8], pat: &[u8], r: Option<usize>, k: int)
    requires
        call_ensures(find_bytes, (text, pat), r),
        0 <= k <= text@.len() - pat@.len(),
    ensures
        r matches Some(i) ==> i + pat@.len() <= text@.len() && text@.subrange(i as int, i + pat@.len()) == pat@,
        text@.subrange(k, k + pat@.len()) == pat@ ==> r is Some && r->0 <= k,
{
    if text@.subrange(k, k + pat@.len()) == pat@ {
        assert(occurs_at(text@, pat@, k));
    }
}

/// A text that is cut in two is both parts, and each is whole.
pub proof fn law_a_cut_loses_nothing(s: String, at: usize, r: (String, String))
    requires
        call_ensures(split_text, (s, at), r),
        at <= encode_utf8(s@).len(),
    ensures
        r.0@ + r.1@ == s@,
        encode_utf8(r.0@).len() == at,
{
}

/// A cut is moved back to the nearest character, and not at all where it
/// already stands at one.
pub proof fn law_a_cut_moves_back_to_a_character(s: &str, idx: usize, r: usize)
    requires
        call_ensures(floor_char_boundary, (s, idx), r),
    ensures
        r <= idx,
        is_char_boundary(s.spec_bytes(), r as int),
        idx <= s.spec_bytes().len() && is_char_boundary(s.spec_bytes(), idx as int) ==> r == idx,
{
}

/// Two texts are the same character for character; a text ends with its last
/// character; it has the characters that it is made of.
pub proof fn law_texts_are_compared_whole(a: &str, b: &str, c: char, same: bool, ends: bool, found: bool, k: int)
    requires
        call_ensures(same_text, (a, b), same),
        call_ensures(ends_with_char, (a, c), ends),
        call_ensures(has_char, (a, c), found),
    ensures
        same <==> a@ == b@,
        ends <==> a@.len() > 0 && a@[a@.len() - 1] == c,
        0 <= k < a@.len() && a@[k] == c ==> found,
        (forall|i: int| 0 <= i < a@.len() ==> #[trigger] a@[i] != c) ==> !found,
{
}

/// A number that is written out is read back, wherever it fits.
pub proof fn law_a_written_number_is_read_back(n: u64, max: u64, s: String, t: &str, r: Option<u64>)
    requires
        call_ensures(decimal, (n,), s),
        t@ == s@,
        call_ensures(parse_unsigned, (t, max), r),
    ensures
        r is Some <==> n <= max,
        r is Some ==> r->0 == n,
{
    let bytes = decimal_chars(n as nat).map_values(|c: char| c as u8);
    law_decimal_reads_back(n as nat);
    lemma_digits_encode(decimal_chars(n as nat));
    law_unsigned_text(bytes, max as nat);
}

/// White space beyond ASCII: the next line, the blanks of fixed width and the
/// two separators that Unicode has.
pub proof fn law_other_white_space(c: char)
    requires
        (c as u32) >= 128,
    ensures
        is_white_space(c) <==> seq![
            '\u{85}',
            '\u{a0}',
            '\u{1680}',
            '\u{2000}',
            '\u{2001}',
            '\u{2002}',
            '\u{2003}',
            '\u{2004}',
            '\u{2005}',
            '\u{2006}',
            '\u{2007}',
            '\u{2008}',
            '\u{2009}',
            '\u{200a}',
            '\u{2028}',
            '\u{2029}',
            '\u{202f}',
            '\u{205f}',
            '\u{3000}',
        ].contains(c),
{
    let all = seq![
        '\u{85}',
        '\u{a0}',
        '\u{1680}',
        '\u{2000}',
        '\u{2001}',
        '\u{2002}',
        '\u{2003}',
        '\u{2004}',
        '\u{2005}',
        '\u{2006}',
        '\u{2007}',
        '\u{2008}',
        '\u{2009}',
        '\u{200a}',
        '\u{2028}',
        '\u{2029}',
        '\u{202f}',
        '\u{205f}',
        '\u{3000}',
    ];
    let n = c as u32;
    if is_white_space(c) {
        let k: int = if n == 0x85 {
            0
        } else if n == 0xa0 {
            1
        } else if n == 0x1680 {
            2
        } else if n <= 0x200a {
            n - 0x2000 + 3
        } else if n <= 0x2029 {
            n - 0x2028 + 14
        } else if n == 0x202f {
            16
        } else if n == 0x205f {
            17
        } else {
            18
        };
        assert(all[k] as u32 == n);
        assert(all[k] == c);
    }
}

} // verus!
