//! Text as sequences of characters: trimming, words, lines, numbers.

use crate::fields::{last_field, lemma_last_field, lemma_last_field_unique, texts};
use vstd::prelude::*;
use vstd::utf8::{decode_utf8, valid_utf8};

verus! {

/// Appends a character to a string: `String::push` of the standard library.
#[verifier::external_body]
pub(crate) fn push_char(s: &mut String, c: char)
    ensures
        final(s)@ == old(s)@.push(c),
{
    s.push(c);
}

/// The characters of a string.
pub fn chars_of(s: &str) -> (r: Vec<char>)
    ensures
        r@ == s@,
{
    let mut out: Vec<char> = Vec::new();
    for c in it: s.chars()
        invariant
            it.seq() == s@,
            out@ == s@.take(it.index() as int),
    {
        out.push(c);
        assert(s@.take(it.index() + 1) =~= s@.take(it.index() as int).push(c));
    }
    assert(s@.take(s@.len() as int) =~= s@);
    out
}

/// The string of some characters.
pub fn string_of(chars: &Vec<char>) -> (r: String)
    ensures
        r@ == chars@,
{
    let mut r = String::new();
    let mut i: usize = 0;
    while i < chars.len()
        invariant
            i <= chars@.len(),
            r@ == chars@.take(i as int),
        decreases chars@.len() - i,
    {
        push_char(&mut r, chars[i]);
        i = i + 1;
        assert(chars@.take(i as int) =~= chars@.take(i - 1).push(chars@[i - 1]));
    }
    assert(chars@.take(chars@.len() as int) =~= chars@);
    r
}

/// Whether two lists of characters are equal.
pub fn same_chars(a: &Vec<char>, b: &Vec<char>) -> (r: bool)
    ensures
        r == (a@ == b@),
{
    if a.len() != b.len() {
        return false;
    }
    let mut i: usize = 0;
    while i < a.len()
        invariant
            i <= a@.len() == b@.len(),
            forall|j: int| 0 <= j < i ==> a@[j] == b@[j],
        decreases a@.len() - i,
    {
        if a[i] != b[i] {
            return false;
        }
        i = i + 1;
    }
    assert(a@ =~= b@);
    true
}

/// Whether two strings are equal.
pub fn same_text(a: &str, b: &str) -> (r: bool)
    ensures
        r == (a@ == b@),
{
    same_chars(&chars_of(a), &chars_of(b))
}

/// The characters `from..to`.
pub fn slice_chars(v: &Vec<char>, from: usize, to: usize) -> (r: Vec<char>)
    requires
        from <= to <= v@.len(),
    ensures
        r@ == v@.subrange(from as int, to as int),
{
    let mut r: Vec<char> = Vec::new();
    let mut i: usize = from;
    while i < to
        invariant
            from <= i <= to <= v@.len(),
            r@ == v@.subrange(from as int, i as int),
        decreases to - i,
    {
        r.push(v[i]);
        i = i + 1;
        assert(v@.subrange(from as int, i as int) =~= v@.subrange(from as int, i - 1).push(
            v@[i - 1],
        ));
    }
    r
}

/// The characters with the Unicode property `White_Space`.
pub open spec fn is_space(c: char) -> bool {
    let n = c as u32;
    ||| 9 <= n <= 13
    ||| n == 32
    ||| n == 0x85
    ||| n == 0xa0
    ||| n == 0x1680
    ||| 0x2000 <= n <= 0x200a
    ||| n == 0x2028
    ||| n == 0x2029
    ||| n == 0x202f
    ||| n == 0x205f
    ||| n == 0x3000
}

/// Whether a character is white space.
pub fn is_white(c: char) -> (r: bool)
    ensures
        r == is_space(c),
{
    let n = c as u32;
    (9 <= n && n <= 13) || n == 32 || n == 0x85 || n == 0xa0 || n == 0x1680 || (0x2000 <= n && n
        <= 0x200a) || n == 0x2028 || n == 0x2029 || n == 0x202f || n == 0x205f || n == 0x3000
}

/// Without the white space in front.
pub open spec fn trimmed_front(s: Seq<char>) -> Seq<char>
    decreases s.len(),
{
    if s.len() > 0 && is_space(s[0]) {
        trimmed_front(s.skip(1))
    } else {
        s
    }
}

/// Without the white space behind.
pub open spec fn trimmed_back(s: Seq<char>) -> Seq<char>
    decreases s.len(),
{
    if s.len() > 0 && is_space(s.last()) {
        trimmed_back(s.drop_last())
    } else {
        s
    }
}

/// Without the white space at both ends.
pub open spec fn trimmed_text(s: Seq<char>) -> Seq<char> {
    trimmed_back(trimmed_front(s))
}

/// The text without the white space at both ends.
pub fn trim(s: &Vec<char>) -> (r: Vec<char>)
    ensures
        r@ == trimmed_text(s@),
{
    let mut from: usize = 0;
    assert(s@.skip(0) =~= s@);
    while from < s.len() && is_white(s[from])
        invariant
            from <= s@.len(),
            trimmed_front(s@) == trimmed_front(s@.skip(from as int)),
        decreases s@.len() - from,
    {
        assert(s@.skip(from as int).skip(1) =~= s@.skip(from + 1));
        from = from + 1;
    }
    let ghost front = s@.skip(from as int);
    let mut to: usize = s.len();
    assert(s@.subrange(from as int, to as int) =~= front);
    while to > from && is_white(s[to - 1])
        invariant
            from <= to <= s@.len(),
            trimmed_back(front) == trimmed_back(s@.subrange(from as int, to as int)),
        decreases to,
    {
        assert(s@.subrange(from as int, to as int).drop_last() =~= s@.subrange(
            from as int,
            to - 1,
        ));
        to = to - 1;
    }
    slice_chars(s, from, to)
}

/// Where the last word begins that `s` ends in.
pub open spec fn word_start(s: Seq<char>) -> int
    decreases s.len(),
{
    if s.len() == 0 {
        0
    } else if is_space(s.last()) {
        s.len() as int
    } else {
        word_start(s.drop_last())
    }
}

/// The words of a text: its maximal runs without white space.
pub open spec fn words(s: Seq<char>) -> Seq<Seq<char>>
    decreases s.len(),
{
    if s.len() == 0 {
        Seq::empty()
    } else if is_space(s.last()) {
        words(s.drop_last())
    } else {
        proof {
            lemma_word_start(s);
        }
        words(s.take(word_start(s))).push(s.skip(word_start(s)))
    }
}

pub proof fn lemma_word_start(s: Seq<char>)
    ensures
        0 <= word_start(s) <= s.len(),
        s.len() > 0 && !is_space(s.last()) ==> word_start(s) < s.len(),
        word_start(s) > 0 ==> is_space(s[word_start(s) - 1]),
        forall|i: int| word_start(s) <= i < s.len() ==> !is_space(s[i]),
    decreases s.len(),
{
    if s.len() > 0 && !is_space(s.last()) {
        lemma_word_start(s.drop_last());
        assert forall|i: int| word_start(s) <= i < s.len() implies !is_space(s[i]) by {
            if i < s.len() - 1 {
                assert(s.drop_last()[i] == s[i]);
            }
        }
    }
}

proof fn lemma_word_start_unique(s: Seq<char>, start: int)
    requires
        0 <= start <= s.len(),
        start > 0 ==> is_space(s[start - 1]),
        forall|i: int| start <= i < s.len() ==> !is_space(s[i]),
    ensures
        word_start(s) == start,
{
    lemma_word_start(s);
    let found = word_start(s);
    if found < start {
        assert(is_space(s[start - 1]));
    } else if start < found {
        assert(is_space(s[found - 1]));
    }
}

/// The words of a text.
pub fn split_words(s: &Vec<char>) -> (r: Vec<Vec<char>>)
    ensures
        texts(r@) == words(s@),
{
    let mut out: Vec<Vec<char>> = Vec::new();
    let mut start: usize = 0;
    let mut i: usize = 0;
    assert(texts(out@) =~= words(s@.take(0)));
    while i < s.len()
        invariant
            start <= i <= s@.len(),
            start > 0 ==> is_space(s@[start - 1]),
            forall|j: int| start <= j < i ==> !is_space(s@[j]),
            texts(out@) == words(s@.take(start as int)),
        decreases s@.len() - i,
    {
        if is_white(s[i]) {
            let ghost q = s@.take(i as int);
            let ghost before = texts(out@);
            if start < i {
                let word = slice_chars(s, start, i);
                proof {
                    assert(!is_space(q.last()));
                    lemma_word_start_unique(q, start as int);
                    assert(q.take(start as int) =~= s@.take(start as int));
                    assert(q.skip(start as int) =~= word@);
                }
                out.push(word);
                assert(texts(out@) =~= before.push(word@));
            }
            proof {
                let longer = s@.take(i + 1);
                assert(longer.drop_last() =~= q);
                assert(is_space(longer.last()));
                assert(words(longer) == words(q));
            }
            start = i + 1;
        }
        i = i + 1;
    }
    let ghost before = texts(out@);
    assert(s@.take(s@.len() as int) =~= s@);
    if start < i {
        let word = slice_chars(s, start, i);
        proof {
            lemma_word_start_unique(s@, start as int);
            assert(s@.skip(start as int) =~= word@);
        }
        out.push(word);
        assert(texts(out@) =~= before.push(word@));
    }
    out
}

/// A line without the carriage return that a line feed followed.
pub open spec fn without_return(s: Seq<char>) -> Seq<char> {
    if s.len() > 0 && s.last() == '\r' {
        s.drop_last()
    } else {
        s
    }
}

/// The lines of a text. Each ends in a line feed, with or without a carriage
/// return before it; the last may go without.
pub open spec fn lines(s: Seq<char>) -> Seq<Seq<char>>
    decreases s.len(),
{
    if s.len() == 0 {
        Seq::empty()
    } else {
        let ended = s.last() == '\n';
        let body = if ended {
            s.drop_last()
        } else {
            s
        };
        let start = last_field(body, '\n');
        proof {
            lemma_last_field(body, '\n');
        }
        let line = body.skip(start);
        lines(s.take(start)).push(
            if ended {
                without_return(line)
            } else {
                line
            },
        )
    }
}

/// The lines of a text.
pub fn split_lines(s: &Vec<char>) -> (r: Vec<Vec<char>>)
    ensures
        texts(r@) == lines(s@),
{
    let mut out: Vec<Vec<char>> = Vec::new();
    let mut start: usize = 0;
    let mut i: usize = 0;
    assert(texts(out@) =~= lines(s@.take(0)));
    while i < s.len()
        invariant
            start <= i <= s@.len(),
            start > 0 ==> s@[start - 1] == '\n',
            forall|j: int| start <= j < i ==> s@[j] != '\n',
            texts(out@) == lines(s@.take(start as int)),
        decreases s@.len() - i,
    {
        if s[i] == '\n' {
            let ghost q = s@.take(i + 1);
            let ghost before = texts(out@);
            let end = if start < i && s[i - 1] == '\r' {
                i - 1
            } else {
                i
            };
            let line = slice_chars(s, start, end);
            proof {
                assert(q.drop_last() =~= s@.take(i as int));
                lemma_last_field_unique(s@.take(i as int), '\n', start as int);
                assert(q.take(start as int) =~= s@.take(start as int));
                let whole = s@.take(i as int).skip(start as int);
                assert(whole =~= s@.subrange(start as int, i as int));
                assert(without_return(whole) =~= line@);
            }
            out.push(line);
            assert(texts(out@) =~= before.push(line@));
            start = i + 1;
        }
        i = i + 1;
    }
    let ghost before = texts(out@);
    assert(s@.take(s@.len() as int) =~= s@);
    if start < i {
        let line = slice_chars(s, start, i);
        proof {
            assert(s@.last() != '\n');
            lemma_last_field_unique(s@, '\n', start as int);
            assert(s@.skip(start as int) =~= line@);
        }
        out.push(line);
        assert(texts(out@) =~= before.push(line@));
    }
    out
}

/// The text of some bytes, with a replacement character for each malformed part.
pub uninterp spec fn utf8_lossy(bytes: Seq<u8>) -> Seq<char>;

/// Whether every ASCII character of a text stands among some bytes.
pub open spec fn ascii_among(text: Seq<char>, bytes: Seq<u8>) -> bool {
    forall|i: int|
        0 <= i < text.len() && (text[i] as u32) < 128 ==> bytes.contains(
            (#[trigger] text[i]) as u32 as u8,
        )
}

/// The text of some bytes: `String::from_utf8_lossy` of the standard library.
/// Well-formed bytes are decoded as they are. Of others the well-formed parts
/// are, and the only character that comes in for the rest is U+FFFD; so no ASCII
/// character appears that does not stand among the bytes.
#[verifier::external_body]
pub(crate) fn decode_lossy(bytes: &Vec<u8>) -> (r: String)
    ensures
        r@ == utf8_lossy(bytes@),
        valid_utf8(bytes@) ==> r@ == decode_utf8(bytes@),
        ascii_among(r@, bytes@),
{
    String::from_utf8_lossy(bytes).into_owned()
}

/// The text of some bytes, or none: `String::from_utf8` of the standard library,
/// which accepts exactly the well-formed ones.
#[verifier::external_body]
pub(crate) fn decode_strict(bytes: &Vec<u8>) -> (r: Option<String>)
    ensures
        r is Some <==> valid_utf8(bytes@),
        r matches Some(s) ==> s@ == decode_utf8(bytes@),
{
    String::from_utf8(bytes.clone()).ok()
}

/// The decimal digits.
pub open spec fn is_digit(c: char) -> bool {
    48 <= c as u32 <= 57
}

/// Whether a character is a decimal digit.
pub fn is_decimal(c: char) -> (r: bool)
    ensures
        r == is_digit(c),
{
    let n = c as u32;
    48 <= n && n <= 57
}

/// Whether a text holds nothing but digits.
pub open spec fn all_digits(s: Seq<char>) -> bool {
    forall|i: int| 0 <= i < s.len() ==> is_digit(s[i])
}

/// The number that some digits write.
pub open spec fn digits_value(s: Seq<char>) -> nat
    decreases s.len(),
{
    if s.len() == 0 {
        0
    } else {
        digits_value(s.drop_last()) * 10 + ((s.last() as u32) - 48) as nat
    }
}

/// The digits of a number, without the sign that may stand before them.
pub open spec fn without_plus(s: Seq<char>) -> Seq<char> {
    if s.len() > 0 && s[0] == '+' {
        s.skip(1)
    } else {
        s
    }
}

/// The number that a text writes: digits, maybe a plus sign before them, and
/// a value of at most `max`.
pub open spec fn number(s: Seq<char>, max: nat) -> Option<nat> {
    let digits = without_plus(s);
    if digits.len() == 0 || !all_digits(digits) || digits_value(digits) > max {
        None
    } else {
        Some(digits_value(digits))
    }
}

proof fn lemma_digits_grow(s: Seq<char>, n: int)
    requires
        all_digits(s),
        0 <= n <= s.len(),
    ensures
        digits_value(s.take(n)) <= digits_value(s),
    decreases s.len() - n,
{
    if n < s.len() {
        lemma_digits_grow(s, n + 1);
        let longer = s.take(n + 1);
        assert(longer.drop_last() =~= s.take(n));
        assert(is_digit(longer.last()));
    } else {
        assert(s.take(n) =~= s);
    }
}

/// The number that a text writes.
pub fn parse_number(s: &Vec<char>, max: u64) -> (r: Option<u64>)
    ensures
        match r {
            Some(n) => number(s@, max as nat) == Some(n as nat),
            None => number(s@, max as nat) is None,
        },
{
    let start: usize = if s.len() > 0 && s[0] == '+' {
        1
    } else {
        0
    };
    let ghost digits = without_plus(s@);
    assert(digits =~= s@.skip(start as int));
    if start == s.len() {
        return None;
    }
    let mut value: u64 = 0;
    let mut i: usize = start;
    while i < s.len()
        invariant
            start <= i <= s@.len(),
            digits == s@.skip(start as int),
            digits == without_plus(s@),
            value <= max,
            all_digits(digits.take(i - start)),
            value == digits_value(digits.take(i - start)),
        decreases s@.len() - i,
    {
        let ghost seen = digits.take(i - start);
        let ghost longer = digits.take(i + 1 - start);
        assert(longer.drop_last() =~= seen);
        assert(longer.last() == s@[i as int]);
        if !is_decimal(s[i]) {
            assert(!is_digit(digits[i - start]));
            return None;
        }
        let digit: u64 = (s[i] as u32 - 48) as u64;
        let next: u128 = value as u128 * 10 + digit as u128;
        assert(next == digits_value(longer));
        if next > max as u128 {
            proof {
                if all_digits(digits) {
                    lemma_digits_grow(digits, i + 1 - start);
                }
            }
            return None;
        }
        value = next as u64;
        proof {
            assert forall|j: int| 0 <= j < longer.len() implies is_digit(longer[j]) by {
                if j < seen.len() {
                    assert(seen[j] == longer[j]);
                }
            }
        }
        i = i + 1;
    }
    assert(digits.take(digits.len() as int) =~= digits);
    Some(value)
}

/// The digit of a number below ten.
pub open spec fn digit_char(d: nat) -> char {
    (48 + d) as char
}

/// A number in decimal notation.
pub open spec fn decimal(n: nat) -> Seq<char>
    decreases n,
{
    if n < 10 {
        seq![digit_char(n)]
    } else {
        decimal(n / 10).push(digit_char(n % 10))
    }
}

/// What is written in decimal is read as the same number.
pub proof fn lemma_decimal_number(n: nat, max: nat)
    requires
        n <= max,
    ensures
        number(decimal(n), max) == Some(n),
{
    lemma_decimal(n);
    assert(decimal(n)[0] != '+');
    assert(without_plus(decimal(n)) == decimal(n));
}

proof fn lemma_decimal(n: nat)
    ensures
        decimal(n).len() > 0,
        all_digits(decimal(n)),
        digits_value(decimal(n)) == n,
    decreases n,
{
    if n < 10 {
        assert(decimal(n).drop_last() =~= Seq::<char>::empty());
        assert(digits_value(decimal(n).drop_last()) == 0);
        assert(decimal(n).last() == digit_char(n));
    } else {
        lemma_decimal(n / 10);
        assert(decimal(n).drop_last() =~= decimal(n / 10));
        assert(decimal(n).last() == digit_char(n % 10));
    }
}

fn digit(d: u128) -> (r: char)
    requires
        d < 10,
    ensures
        r == digit_char(d as nat),
{
    (48 + d as u8) as char
}

/// A number in decimal notation.
pub fn decimal_chars(n: u128) -> (r: Vec<char>)
    ensures
        r@ == decimal(n as nat),
    decreases n,
{
    if n < 10 {
        let mut r: Vec<char> = Vec::new();
        r.push(digit(n));
        assert(r@ =~= decimal(n as nat));
        r
    } else {
        let mut r = decimal_chars(n / 10);
        r.push(digit(n % 10));
        r
    }
}

/// A number in decimal notation.
pub fn decimal_text(n: u128) -> (r: String)
    ensures
        r@ == decimal(n as nat),
{
    string_of(&decimal_chars(n))
}

/// A letter from A to Z in lower case; any other character as it is.
pub open spec fn lower_char(c: char) -> char {
    if 65 <= c as u32 <= 90 {
        ((c as u32) + 32) as char
    } else {
        c
    }
}

/// A text with the letters from A to Z in lower case.
pub open spec fn lowered(s: Seq<char>) -> Seq<char> {
    s.map_values(|c: char| lower_char(c))
}

fn lower(c: char) -> (r: char)
    ensures
        r == lower_char(c),
{
    let n = c as u32;
    if 65 <= n && n <= 90 {
        (n as u8 + 32) as char
    } else {
        c
    }
}

/// Whether `a`, in lower case, is `b`.
pub fn lower_equals(a: &Vec<char>, b: &str) -> (r: bool)
    ensures
        r == (lowered(a@) == b@),
{
    let mut low: Vec<char> = Vec::new();
    let mut i: usize = 0;
    while i < a.len()
        invariant
            i <= a@.len(),
            low@ == lowered(a@.take(i as int)),
        decreases a@.len() - i,
    {
        low.push(lower(a[i]));
        i = i + 1;
        assert(lowered(a@.take(i as int)) =~= lowered(a@.take(i - 1)).push(lower_char(a@[i - 1])));
    }
    assert(a@.take(a@.len() as int) =~= a@);
    same_chars(&low, &chars_of(b))
}

/// Whether a text begins with another.
pub open spec fn begins(s: Seq<char>, start: Seq<char>) -> bool {
    start.len() <= s.len() && s.take(start.len() as int) == start
}

/// Whether a text begins with another.
pub fn text_begins(s: &str, start: &str) -> (r: bool)
    ensures
        r == begins(s@, start@),
{
    let a = chars_of(s);
    let b = chars_of(start);
    if b.len() > a.len() {
        return false;
    }
    let front = slice_chars(&a, 0, b.len());
    assert(a@.subrange(0, b@.len() as int) =~= a@.take(b@.len() as int));
    same_chars(&front, &b)
}

/// Several texts with another between each two.
pub open spec fn joined_texts(parts: Seq<Seq<char>>, between: Seq<char>) -> Seq<char>
    decreases parts.len(),
{
    if parts.len() == 0 {
        Seq::empty()
    } else if parts.len() == 1 {
        parts[0]
    } else {
        joined_texts(parts.drop_last(), between) + between + parts.last()
    }
}

/// The contents of a list of strings.
pub open spec fn strings(v: Seq<String>) -> Seq<Seq<char>> {
    v.map_values(|s: String| s@)
}

/// Several strings with another between each two.
pub fn join_texts(parts: &Vec<String>, between: &str) -> (r: String)
    ensures
        r@ == joined_texts(strings(parts@), between@),
{
    if parts.len() == 0 {
        return String::new();
    }
    let mut r = parts[0].clone();
    let mut i: usize = 1;
    assert(strings(parts@).take(1).len() == 1);
    while i < parts.len()
        invariant
            1 <= i <= parts@.len(),
            r@ == joined_texts(strings(parts@).take(i as int), between@),
        decreases parts@.len() - i,
    {
        r.append(between);
        r.append(parts[i].as_str());
        i = i + 1;
        assert(strings(parts@).take(i as int).drop_last() =~= strings(parts@).take(i - 1));
    }
    assert(strings(parts@).take(parts@.len() as int) =~= strings(parts@));
    r
}

/// Among the ASCII characters just the blank and those from tab to carriage return
/// are white space; no letter or digit is.
pub proof fn lemma_ascii_space(c: char)
    requires
        (c as u32) < 128,
    ensures
        is_space(c) <==> c as u32 == 32 || 9 <= c as u32 <= 13,
        is_digit(c) ==> !is_space(c),
{
}

proof fn lemma_trimmed_front(s: Seq<char>)
    ensures
        ({
            let n = s.len() - trimmed_front(s).len();
            &&& 0 <= n <= s.len()
            &&& trimmed_front(s) == s.skip(n)
            &&& forall|i: int| 0 <= i < n ==> is_space(#[trigger] s[i])
            &&& trimmed_front(s).len() > 0 ==> !is_space(trimmed_front(s)[0])
        }),
    decreases s.len(),
{
    if s.len() > 0 && is_space(s[0]) {
        let rest = s.skip(1);
        lemma_trimmed_front(rest);
        let n = s.len() - trimmed_front(s).len();
        assert(rest.skip(n - 1) =~= s.skip(n));
        assert forall|i: int| 0 <= i < n implies is_space(#[trigger] s[i]) by {
            if i > 0 {
                assert(is_space(rest[i - 1]));
            }
        }
    } else {
        assert(s.skip(0) =~= s);
    }
}

proof fn lemma_trimmed_back(s: Seq<char>)
    ensures
        ({
            let n = trimmed_back(s).len() as int;
            &&& 0 <= n <= s.len()
            &&& trimmed_back(s) == s.take(n)
            &&& forall|i: int| n <= i < s.len() ==> is_space(#[trigger] s[i])
            &&& n > 0 ==> !is_space(trimmed_back(s).last())
        }),
    decreases s.len(),
{
    if s.len() > 0 && is_space(s.last()) {
        let front = s.drop_last();
        lemma_trimmed_back(front);
        let n = trimmed_back(s).len() as int;
        assert(front.take(n) =~= s.take(n));
        assert forall|i: int| n <= i < s.len() implies is_space(#[trigger] s[i]) by {
            if i < front.len() {
                assert(is_space(front[i]));
            }
        }
    } else {
        assert(s.take(s.len() as int) =~= s);
    }
}

/// Trimming takes white space off both ends and nothing else: what is left is a part
/// of the text, all before and behind it is white space, and it begins and ends in
/// something else.
pub proof fn lemma_trimming(s: Seq<char>)
    ensures
        exists|a: int, b: int|
            0 <= a <= b <= s.len() && trimmed_text(s) == #[trigger] s.subrange(a, b) && (forall|
                i: int,
            |
                0 <= i < a ==> is_space(#[trigger] s[i])) && (forall|i: int|
                b <= i < s.len() ==> is_space(#[trigger] s[i])),
        trimmed_text(s).len() > 0 ==> !is_space(trimmed_text(s)[0]) && !is_space(
            trimmed_text(s).last(),
        ),
{
    let front = trimmed_front(s);
    lemma_trimmed_front(s);
    lemma_trimmed_back(front);
    let a = s.len() - front.len();
    let b = a + trimmed_text(s).len();
    assert(trimmed_text(s) =~= s.subrange(a, b));
    assert forall|i: int| b <= i < s.len() implies is_space(#[trigger] s[i]) by {
        assert(is_space(front[i - a]));
    }
    if trimmed_text(s).len() > 0 {
        assert(trimmed_text(s)[0] == front[0]);
    }
}

/// How a text is cut into words: white space adds none, and a run without white
/// space behind some is one more.
pub proof fn lemma_cut_into_words(s: Seq<char>, space: char, word: Seq<char>)
    requires
        is_space(space),
        word.len() > 0,
        forall|i: int| 0 <= i < word.len() ==> !is_space(word[i]),
    ensures
        words(Seq::<char>::empty()) == Seq::<Seq<char>>::empty(),
        words(word) == seq![word],
        words(s.push(space)) == words(s),
        words(s.push(space) + word) == words(s).push(word),
{
    assert(s.push(space).drop_last() =~= s);
    lemma_word_start_unique(word, 0);
    assert(word.take(0) =~= Seq::<char>::empty());
    assert(word.skip(0) =~= word);
    assert(Seq::<Seq<char>>::empty().push(word) =~= seq![word]);
    let longer = s.push(space) + word;
    let start = s.len() + 1int;
    assert forall|i: int| start <= i < longer.len() implies !is_space(longer[i]) by {
        assert(longer[i] == word[i - start]);
    }
    lemma_word_start_unique(longer, start);
    assert(longer.take(start) =~= s.push(space));
    assert(longer.skip(start) =~= word);
    assert(longer.last() == word.last());
}

/// How a text is cut into lines: each line feed ends one, which loses a carriage
/// return before it; and what stands behind the last is a line if there is any.
pub proof fn lemma_cut_into_lines(s: Seq<char>, line: Seq<char>)
    requires
        s.len() == 0 || s.last() == '\n',
        forall|i: int| 0 <= i < line.len() ==> line[i] != '\n',
    ensures
        lines(Seq::<char>::empty()) == Seq::<Seq<char>>::empty(),
        line.len() > 0 ==> lines(s + line) == lines(s).push(line),
        lines(s + line.push('\n')) == lines(s).push(
            if line.len() > 0 && line.last() == '\r' {
                line.drop_last()
            } else {
                line
            },
        ),
{
    let start = s.len() as int;
    let open = s + line;
    assert forall|i: int| start <= i < open.len() implies open[i] != '\n' by {
        assert(open[i] == line[i - start]);
    }
    lemma_last_field_unique(open, '\n', start);
    assert(open.take(start) =~= s);
    assert(open.skip(start) =~= line);
    let closed = s + line.push('\n');
    assert(closed.drop_last() =~= open);
    assert(closed.take(start) =~= s);
    assert(closed.last() == '\n');
    if line.len() > 0 {
        assert(open.last() == line.last());
    }
}

/// A number is digits, with or without a plus sign: each further digit makes ten
/// times as much and itself; zeros in front change nothing; and what holds anything
/// else, or nothing, or is too large, is none.
pub proof fn lemma_numbers(s: Seq<char>, c: char, max: nat)
    requires
        is_digit(c),
        all_digits(s),
    ensures
        number(Seq::<char>::empty(), max) is None,
        number(seq!['+'], max) is None,
        number(s.push(c), max) == if 10 * digits_value(s) + (c as u32 - 48) <= max {
            Some((10 * digits_value(s) + (c as u32 - 48)) as nat)
        } else {
            None
        },
        number(seq!['+'] + s.push(c), max) == number(s.push(c), max),
        s.len() > 0 ==> number(s, max) == if digits_value(s) <= max {
            Some(digits_value(s))
        } else {
            None
        },
        digits_value(Seq::<char>::empty()) == 0,
        digits_value(s.push(c)) == 10 * digits_value(s) + (c as u32 - 48),
{
    assert(s.push(c).drop_last() =~= s);
    assert(all_digits(s.push(c)));
    assert(s.push(c)[0] != '+') by {
        assert(is_digit(s.push(c)[0]));
    }
    assert((seq!['+'] + s.push(c)).skip(1) =~= s.push(c));
    assert(seq!['+'].skip(1) =~= Seq::<char>::empty());
    if s.len() > 0 {
        assert(is_digit(s[0]));
    }
}

/// A text with a character that is no digit, besides a plus sign in front, is no
/// number.
pub proof fn lemma_no_number(s: Seq<char>, i: int, max: nat)
    requires
        0 <= i < s.len(),
        !is_digit(s[i]),
        i > 0 || s[0] != '+',
    ensures
        number(s, max) is None,
{
    if s[0] == '+' {
        assert(s.skip(1)[i - 1] == s[i]);
    }
}

/// A number in decimal has no zero in front, and is read as that number.
pub proof fn lemma_decimal_digits(n: nat)
    ensures
        decimal(n).len() > 0,
        all_digits(decimal(n)),
        n >= 10 ==> decimal(n)[0] != '0',
        n < 10 ==> decimal(n).len() == 1,
        digits_value(decimal(n)) == n,
    decreases n,
{
    lemma_decimal(n);
    if n >= 10 {
        lemma_decimal_digits(n / 10);
        assert(decimal(n)[0] == decimal(n / 10)[0]);
        if n / 10 < 10 {
            assert(decimal(n / 10)[0] == digit_char(n / 10));
        }
    }
}

/// In lower case a text has the same length, and each letter from A to Z is the one
/// 32 places on; all else stays.
pub proof fn lemma_lower_case(s: Seq<char>, i: int)
    requires
        0 <= i < s.len(),
    ensures
        lowered(s).len() == s.len(),
        65 <= s[i] as u32 <= 90 ==> lowered(s)[i] as u32 == s[i] as u32 + 32,
        !(65 <= s[i] as u32 <= 90) ==> lowered(s)[i] == s[i],
{
}

/// A text begins with another exactly where their characters agree as far as the
/// other goes.
pub proof fn lemma_beginning(s: Seq<char>, start: Seq<char>)
    ensures
        begins(s, start) <==> start.len() <= s.len() && forall|i: int|
            0 <= i < start.len() ==> #[trigger] start[i] == s[i],
{
    if start.len() <= s.len() && forall|i: int| 0 <= i < start.len() ==> #[trigger] start[i] == s[
        i] {
        assert(s.take(start.len() as int) =~= start);
    }
    if begins(s, start) {
        assert forall|i: int| 0 <= i < start.len() implies #[trigger] start[i] == s[i] by {
            assert(s.take(start.len() as int)[i] == s[i]);
        }
    }
}

/// Joining puts the text between each two, and nowhere else.
pub proof fn lemma_joining_texts(parts: Seq<Seq<char>>, part: Seq<char>, between: Seq<char>)
    ensures
        joined_texts(Seq::<Seq<char>>::empty(), between) == Seq::<char>::empty(),
        joined_texts(seq![part], between) == part,
        parts.len() > 0 ==> joined_texts(parts.push(part), between) == joined_texts(parts, between)
            + between + part,
{
    assert(parts.push(part).drop_last() =~= parts);
}

} // verus!
