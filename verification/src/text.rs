//! Character-level helpers: whitespace trimming, decimal numbers, ASCII
//! case folding and line splitting, each with the meaning that the
//! standard library gives the same operation.
use vstd::prelude::*;

verus! {

/// Appends one character to a `String` (`String::push`).
#[verifier::external_body]
pub(crate) fn push_char(s: &mut String, c: char)
    ensures
        final(s)@ == old(s)@.push(c),
{
    s.push(c);
}

/// A copy of a string.
pub fn copy_string(s: &String) -> (r: String)
    ensures
        r == *s,
{
    s.clone()
}

/// The characters of `s`, in order.
pub fn chars_of(s: &str) -> (v: Vec<char>)
    ensures
        v@ == s@,
{
    let mut v: Vec<char> = Vec::new();
    for c in it: s.chars()
        invariant
            v@ == it.seq().take(it.index() as int),
            it.seq() == s@,
    {
        v.push(c);
    }
    v
}


/// A `String` holding exactly the characters of `v`.
pub fn string_from_chars(v: &[char]) -> (s: String)
    ensures
        s@ == v@,
{
    let mut s = String::new();
    let mut i: usize = 0;
    while i < v.len()
        invariant
            i <= v.len(),
            s@ == v@.take(i as int),
        decreases v.len() - i,
    {
        push_char(&mut s, v[i]);
        i = i + 1;
        proof {
            assert(v@.take(i as int) =~= v@.take(i - 1).push(v@[i - 1]));
        }
    }
    proof {
        assert(v@.take(v.len() as int) =~= v@);
    }
    s
}

/// Whether `v` holds exactly the characters of `lit`.
pub fn chars_eq_str(v: &[char], lit: &str) -> (b: bool)
    ensures
        b == (v@ == lit@),
{
    let w = chars_of(lit);
    if v.len() != w.len() {
        return false;
    }
    let mut i: usize = 0;
    while i < v.len()
        invariant
            i <= v.len(),
            v.len() == w@.len(),
            w@ == lit@,
            forall|j: int| 0 <= j < i ==> v@[j] == w@[j],
        decreases v.len() - i,
    {
        if v[i] != w[i] {
            return false;
        }
        i = i + 1;
    }
    proof {
        assert(v@ =~= w@);
    }
    true
}

/// Unicode `White_Space`, the property that `char::is_whitespace` tests.
pub open spec fn is_whitespace(c: char) -> bool {
    ||| '\t' <= c <= '\r'
    ||| c == ' '
    ||| c == '\u{85}'
    ||| c == '\u{a0}'
    ||| c == '\u{1680}'
    ||| '\u{2000}' <= c <= '\u{200a}'
    ||| c == '\u{2028}'
    ||| c == '\u{2029}'
    ||| c == '\u{202f}'
    ||| c == '\u{205f}'
    ||| c == '\u{3000}'
}

pub fn char_is_whitespace(c: char) -> (b: bool)
    ensures
        b == is_whitespace(c),
{
    ('\t' <= c && c <= '\r') || c == ' ' || c == '\u{85}' || c == '\u{a0}' || c == '\u{1680}'
        || ('\u{2000}' <= c && c <= '\u{200a}') || c == '\u{2028}' || c == '\u{2029}'
        || c == '\u{202f}' || c == '\u{205f}' || c == '\u{3000}'
}

/// `s` with leading whitespace removed (`str::trim_start`).
pub open spec fn trim_start(s: Seq<char>) -> Seq<char>
    decreases s.len(),
{
    if s.len() > 0 && is_whitespace(s[0]) {
        trim_start(s.drop_first())
    } else {
        s
    }
}

/// `s` with trailing whitespace removed (`str::trim_end`).
pub open spec fn trim_end(s: Seq<char>) -> Seq<char>
    decreases s.len(),
{
    if s.len() > 0 && is_whitespace(s.last()) {
        trim_end(s.drop_last())
    } else {
        s
    }
}

/// `s` with whitespace removed from both ends (`str::trim`).
pub open spec fn trim(s: Seq<char>) -> Seq<char> {
    trim_end(trim_start(s))
}

/// The characters of `s` with whitespace removed from both ends (`str::trim`).
pub fn trim_chars(s: &str) -> (r: Vec<char>)
    ensures
        r@ == trim(s@),
{
    let v = chars_of(s);
    let mut start: usize = 0;
    proof {
        assert(v@.subrange(0, v.len() as int) =~= v@);
    }
    while start < v.len() && char_is_whitespace(v[start])
        invariant
            start <= v.len(),
            v@ == s@,
            trim_start(s@) == trim_start(v@.subrange(start as int, v.len() as int)),
        decreases v.len() - start,
    {
        proof {
            assert(v@.subrange(start as int, v.len() as int).drop_first() =~= v@.subrange(
                start + 1,
                v.len() as int,
            ));
        }
        start = start + 1;
    }
    let ghost front = v@.subrange(start as int, v.len() as int);
    proof {
        if start < v.len() {
            assert(front[0] == v@[start as int]);
        }
        assert(trim_start(front) == front);
    }
    let mut end: usize = v.len();
    while end > start && char_is_whitespace(v[end - 1])
        invariant
            start <= end <= v.len(),
            v@ == s@,
            front == v@.subrange(start as int, v.len() as int),
            trim(s@) == trim_end(v@.subrange(start as int, end as int)),
        decreases end - start,
    {
        proof {
            assert(v@.subrange(start as int, end as int).drop_last() =~= v@.subrange(
                start as int,
                end - 1,
            ));
        }
        end = end - 1;
    }
    let mut r: Vec<char> = Vec::new();
    let mut k: usize = start;
    while k < end
        invariant
            start <= k <= end <= v.len(),
            r@ == v@.subrange(start as int, k as int),
        decreases end - k,
    {
        r.push(v[k]);
        k = k + 1;
        proof {
            assert(v@.subrange(start as int, k as int) =~= v@.subrange(start as int, k - 1).push(
                v@[k - 1],
            ));
        }
    }
    proof {
        let mid = v@.subrange(start as int, end as int);
        if end > start {
            assert(mid.last() == v@[end - 1]);
        }
        assert(trim_end(mid) == mid);
    }
    r
}

/// `s` with whitespace removed from both ends (`str::trim`).
pub fn trimmed(s: &str) -> (r: String)
    ensures
        r@ == trim(s@),
{
    let v = trim_chars(s);
    string_from_chars(v.as_slice())
}

/// Whether `s` is empty once trimmed, that is, holds only whitespace.
pub fn is_blank(s: &str) -> (b: bool)
    ensures
        b == (trim(s@).len() == 0),
{
    let v = trim_chars(s);
    v.len() == 0
}


/// Why a decimal number could not be read (`std::num::IntErrorKind`).
#[derive(Debug, Clone, Copy, PartialEq, Eq, Structural)]
pub enum ParseIntError {
    Empty,
    InvalidDigit,
    PosOverflow,
}

impl ParseIntError {
    /// The text that `std::num::ParseIntError` displays for this kind.
    pub fn message(&self) -> (r: &'static str)
        ensures
            r@ == self.spec_message(),
    {
        match self {
            ParseIntError::Empty => "cannot parse integer from empty string",
            ParseIntError::InvalidDigit => "invalid digit found in string",
            ParseIntError::PosOverflow => "number too large to fit in target type",
        }
    }

    pub open spec fn spec_message(&self) -> Seq<char> {
        match self {
            ParseIntError::Empty => "cannot parse integer from empty string"@,
            ParseIntError::InvalidDigit => "invalid digit found in string"@,
            ParseIntError::PosOverflow => "number too large to fit in target type"@,
        }
    }
}

pub open spec fn is_digit(c: char) -> bool {
    '0' <= c <= '9'
}

pub open spec fn digit_value(c: char) -> int {
    c as int - '0' as int
}

/// Reads the digits `ds` onto the value `acc` read so far, failing at the
/// first character that is not a digit or that would push the value past `max`.
pub open spec fn read_digits(ds: Seq<char>, acc: int, max: int) -> Result<int, ParseIntError>
    decreases ds.len(),
{
    if ds.len() == 0 {
        Ok(acc)
    } else if !is_digit(ds[0]) {
        Err(ParseIntError::InvalidDigit)
    } else if acc * 10 + digit_value(ds[0]) > max {
        Err(ParseIntError::PosOverflow)
    } else {
        read_digits(ds.drop_first(), acc * 10 + digit_value(ds[0]), max)
    }
}

/// An unsigned decimal number no greater than `max`, as `str::parse` reads
/// it: an optional `+` followed by one or more ASCII digits, nothing else.
pub open spec fn parse_unsigned(s: Seq<char>, max: int) -> Result<int, ParseIntError> {
    if s.len() == 0 {
        Err(ParseIntError::Empty)
    } else if s.len() == 1 && (s[0] == '+' || s[0] == '-') {
        Err(ParseIntError::InvalidDigit)
    } else if s[0] == '+' {
        read_digits(s.drop_first(), 0, max)
    } else {
        read_digits(s, 0, max)
    }
}

proof fn lemma_read_digits_bounded(ds: Seq<char>, acc: int, max: int)
    requires
        0 <= acc <= max,
    ensures
        read_digits(ds, acc, max) matches Ok(v) ==> 0 <= v <= max,
    decreases ds.len(),
{
    if ds.len() > 0 && is_digit(ds[0]) && acc * 10 + digit_value(ds[0]) <= max {
        lemma_read_digits_bounded(ds.drop_first(), acc * 10 + digit_value(ds[0]), max);
    }
}

fn parse_unsigned_chars(s: &[char], max: u64) -> (r: Result<u64, ParseIntError>)
    requires
        max < 0x1_0000_0000,
    ensures
        match parse_unsigned(s@, max as int) {
            Ok(v) => r == Ok::<u64, ParseIntError>(v as u64),
            Err(e) => r == Err::<u64, ParseIntError>(e),
        },
        r matches Ok(v) ==> v <= max,
        parse_unsigned(s@, max as int) matches Ok(v) ==> 0 <= v <= max,
{
    proof {
        if s.len() > 0 {
            lemma_read_digits_bounded(s@.drop_first(), 0, max as int);
            lemma_read_digits_bounded(s@, 0, max as int);
        }
    }
    if s.len() == 0 {
        return Err(ParseIntError::Empty);
    }
    if s.len() == 1 && (s[0] == '+' || s[0] == '-') {
        return Err(ParseIntError::InvalidDigit);
    }
    let mut i: usize = if s[0] == '+' { 1 } else { 0 };
    let ghost digits = if s[0] == '+' { s@.drop_first() } else { s@ };
    proof {
        assert(s@.subrange(i as int, s.len() as int) =~= digits);
    }
    let mut acc: u64 = 0;
    while i < s.len()
        invariant
            i <= s.len(),
            acc <= max,
            max < 0x1_0000_0000,
            parse_unsigned(s@, max as int) == read_digits(
                s@.subrange(i as int, s.len() as int),
                acc as int,
                max as int,
            ),
        decreases s.len() - i,
    {
        let c = s[i];
        let ghost rest = s@.subrange(i as int, s.len() as int);
        proof {
            assert(rest[0] == c);
            assert(rest.drop_first() =~= s@.subrange(i + 1, s.len() as int));
        }
        if !('0' <= c && c <= '9') {
            return Err(ParseIntError::InvalidDigit);
        }
        let d = (c as u32 - '0' as u32) as u64;
        if acc * 10 + d > max {
            return Err(ParseIntError::PosOverflow);
        }
        acc = acc * 10 + d;
        i = i + 1;
    }
    proof {
        assert(s@.subrange(i as int, s.len() as int).len() == 0);
    }
    Ok(acc)
}

pub open spec fn parse_u32_spec(s: Seq<char>) -> Result<u32, ParseIntError> {
    match parse_unsigned(s, u32::MAX as int) {
        Ok(v) => Ok(v as u32),
        Err(e) => Err(e),
    }
}

pub open spec fn parse_u16_spec(s: Seq<char>) -> Result<u16, ParseIntError> {
    match parse_unsigned(s, u16::MAX as int) {
        Ok(v) => Ok(v as u16),
        Err(e) => Err(e),
    }
}

/// `s.parse::<u32>()`.
pub fn parse_u32(s: &str) -> (r: Result<u32, ParseIntError>)
    ensures
        r == parse_u32_spec(s@),
{
    let v = chars_of(s);
    match parse_unsigned_chars(v.as_slice(), 0xFFFF_FFFF) {
        Ok(n) => Ok(n as u32),
        Err(e) => Err(e),
    }
}

/// `s.parse::<u16>()`.
pub fn parse_u16(s: &str) -> (r: Result<u16, ParseIntError>)
    ensures
        r == parse_u16_spec(s@),
{
    let v = chars_of(s);
    match parse_unsigned_chars(v.as_slice(), 0xFFFF) {
        Ok(n) => Ok(n as u16),
        Err(e) => Err(e),
    }
}

pub open spec fn digit_char(d: nat) -> char {
    ('0' as nat + d) as char
}

/// The decimal digits of `n`, most significant first, no leading zeros
/// (what `to_string` gives for an unsigned integer).
pub open spec fn decimal(n: nat) -> Seq<char>
    decreases n,
{
    if n < 10 {
        seq![digit_char(n)]
    } else {
        decimal(n / 10).push(digit_char(n % 10))
    }
}

/// `n.to_string()` for an unsigned integer.
pub fn u32_to_string(n: u32) -> (s: String)
    ensures
        s@ == decimal(n as nat),
    decreases n,
{
    if n < 10 {
        let mut s = String::new();
        push_char(&mut s, ((n as u8) + 48u8) as char);
        proof {
            assert(s@ =~= seq![digit_char(n as nat)]);
        }
        s
    } else {
        let mut s = u32_to_string(n / 10);
        push_char(&mut s, (((n % 10) as u8) + 48u8) as char);
        s
    }
}

proof fn lemma_digit_char(d: nat)
    requires
        d < 10,
    ensures
        is_digit(digit_char(d)),
        digit_value(digit_char(d)) == d,
{
    assert(('0' as nat + d) as char as int == '0' as int + d);
}

proof fn lemma_read_digits_append(ds: Seq<char>, acc: int, d: nat, max: int)
    requires
        d < 10,
        read_digits(ds, acc, max) matches Ok(v) && v * 10 + d <= max,
        0 <= acc,
    ensures
        read_digits(ds.push(digit_char(d)), acc, max) == Ok::<int, ParseIntError>(
            read_digits(ds, acc, max)->Ok_0 * 10 + d,
        ),
    decreases ds.len(),
{
    lemma_digit_char(d);
    let e = ds.push(digit_char(d));
    if ds.len() == 0 {
        assert(e.drop_first() =~= Seq::<char>::empty());
        assert(e[0] == digit_char(d));
        assert(read_digits(e.drop_first(), acc * 10 + d, max) == Ok::<int, ParseIntError>(acc * 10 + d));
    } else {
        assert(e.drop_first() =~= ds.drop_first().push(digit_char(d)));
        assert(e[0] == ds[0]);
        lemma_read_digits_append(ds.drop_first(), acc * 10 + digit_value(ds[0]), d, max);
    }
}

/// Reading back the decimal text of a number gives the number.
pub proof fn lemma_decimal_round_trip(n: nat, max: int)
    requires
        n <= max,
    ensures
        read_digits(decimal(n), 0, max) == Ok::<int, ParseIntError>(n as int),
        decimal(n).len() > 0,
        decimal(n)[0] != '+' && decimal(n)[0] != '-',
    decreases n,
{
    if n < 10 {
        lemma_digit_char(n);
        assert(decimal(n).drop_first() =~= Seq::<char>::empty());
        assert(read_digits(decimal(n).drop_first(), n as int, max) == Ok::<int, ParseIntError>(n as int));
    } else {
        assert((n / 10) * 10 + n % 10 == n);
        lemma_decimal_round_trip(n / 10, max);
        lemma_read_digits_append(decimal(n / 10), 0, (n % 10) as nat, max);
        assert(decimal(n)[0] == decimal(n / 10)[0]);
    }
}

/// `to_string` then `parse` gives back the same `u32`.
pub proof fn lemma_u32_string_round_trip(n: u32)
    ensures
        parse_u32_spec(decimal(n as nat)) == Ok::<u32, ParseIntError>(n),
{
    lemma_decimal_round_trip(n as nat, u32::MAX as int);
}

/// `to_string` then `parse` gives back the same `u16`.
pub proof fn lemma_u16_string_round_trip(n: u16)
    ensures
        parse_u16_spec(decimal(n as nat)) == Ok::<u16, ParseIntError>(n),
{
    lemma_decimal_round_trip(n as nat, u16::MAX as int);
}


pub open spec fn strip_cr(line: Seq<u8>) -> Seq<u8> {
    if line.len() > 0 && line.last() == 0x0Du8 {
        line.drop_last()
    } else {
        line
    }
}

/// Splits `s` into lines the way `str::lines` does, `cur` being the part of
/// the current line already read: a line ends at `\n`, a `\r` right before
/// that `\n` is dropped, and a final line ending is optional (an empty
/// remainder after the last `\n` is no line).
pub open spec fn split_lines(s: Seq<u8>, cur: Seq<u8>) -> Seq<Seq<u8>>
    decreases s.len(),
{
    if s.len() == 0 {
        if cur.len() == 0 {
            Seq::empty()
        } else {
            seq![cur]
        }
    } else if s[0] == 0x0Au8 {
        seq![strip_cr(cur)] + split_lines(s.drop_first(), Seq::empty())
    } else {
        split_lines(s.drop_first(), cur.push(s[0]))
    }
}

/// The lines of the UTF-8 text `s` (`str::lines`), as bytes.
pub open spec fn lines(s: Seq<u8>) -> Seq<Seq<u8>> {
    split_lines(s, Seq::empty())
}

proof fn lemma_split_without_lf(a: Seq<u8>, rest: Seq<u8>, cur: Seq<u8>)
    requires
        forall|i: int| 0 <= i < a.len() ==> #[trigger] a[i] != 0x0Au8,
    ensures
        split_lines(a + rest, cur) == split_lines(rest, cur + a),
    decreases a.len(),
{
    if a.len() == 0 {
        assert(a + rest =~= rest);
        assert(cur + a =~= cur);
    } else {
        let tail = a.drop_first();
        assert forall|i: int| 0 <= i < tail.len() implies #[trigger] tail[i] != 0x0Au8 by {
            assert(tail[i] == a[i + 1]);
        }
        assert((a + rest)[0] == a[0]);
        assert((a + rest).drop_first() =~= tail + rest);
        lemma_split_without_lf(tail, rest, cur.push(a[0]));
        assert(cur.push(a[0]) + tail =~= cur + a);
    }
}

/// How text splits into lines: no text has no lines; text without a line
/// feed is one line as it is; and a line feed ends the line before it (one
/// carriage return right before the line feed dropped), the lines after it
/// following.
pub proof fn lemma_lines_shape(a: Seq<u8>, b: Seq<u8>)
    requires
        forall|i: int| 0 <= i < a.len() ==> #[trigger] a[i] != 0x0Au8,
    ensures
        lines(Seq::<u8>::empty()) == Seq::<Seq<u8>>::empty(),
        a.len() > 0 ==> lines(a) == seq![a],
        lines(a + seq![0x0Au8] + b) == seq![
            if a.len() > 0 && a[a.len() - 1] == 0x0Du8 {
                a.subrange(0, a.len() - 1)
            } else {
                a
            },
        ] + lines(b),
{
    lemma_split_without_lf(a, Seq::empty(), Seq::empty());
    assert(a + Seq::<u8>::empty() =~= a);
    assert(Seq::<u8>::empty() + a =~= a);
    lemma_split_without_lf(a, seq![0x0Au8] + b, Seq::empty());
    assert(a + seq![0x0Au8] + b =~= a + (seq![0x0Au8] + b));
    assert((seq![0x0Au8] + b).drop_first() =~= b);
    if a.len() > 0 && a[a.len() - 1] == 0x0Du8 {
        assert(a.drop_last() =~= a.subrange(0, a.len() - 1));
    }
}

/// The byte sequences held by `v`, in order.
pub open spec fn byte_lines(v: Seq<Vec<u8>>) -> Seq<Seq<u8>> {
    v.map_values(|l: Vec<u8>| l@)
}

/// `line` without a final carriage return.
fn strip_cr_vec(line: &Vec<u8>) -> (r: Vec<u8>)
    ensures
        r@ == strip_cr(line@),
{
    let mut r = line.clone();
    if r.len() > 0 && r[r.len() - 1] == 0x0D {
        r.pop();
    }
    proof {
        if line@.len() > 0 && line@.last() == 0x0Du8 {
            assert(r@ =~= line@.drop_last());
        }
    }
    r
}

/// The lines of `s` (`str::lines` on the text whose UTF-8 bytes are `s`).
pub fn split_lines_bytes(s: &[u8]) -> (r: Vec<Vec<u8>>)
    ensures
        byte_lines(r@) == lines(s@),
{
    let mut r: Vec<Vec<u8>> = Vec::new();
    let mut cur: Vec<u8> = Vec::new();
    let mut i: usize = 0;
    proof {
        assert(s@.subrange(0, s.len() as int) =~= s@);
        assert(byte_lines(r@) + lines(s@) =~= lines(s@));
    }
    while i < s.len()
        invariant
            i <= s.len(),
            lines(s@) == byte_lines(r@) + split_lines(s@.subrange(i as int, s.len() as int), cur@),
        decreases s.len() - i,
    {
        let b = s[i];
        let ghost rest = s@.subrange(i as int, s.len() as int);
        proof {
            assert(rest[0] == b);
            assert(rest.drop_first() =~= s@.subrange(i + 1, s.len() as int));
        }
        if b == 0x0A {
            let line = strip_cr_vec(&cur);
            let ghost before = r@;
            r.push(line);
            proof {
                assert(byte_lines(r@) =~= byte_lines(before).push(line@));
                assert(byte_lines(before) + (seq![line@] + split_lines(rest.drop_first(), Seq::empty()))
                    =~= byte_lines(before).push(line@) + split_lines(rest.drop_first(), Seq::empty()));
            }
            cur = Vec::new();
        } else {
            cur.push(b);
        }
        i = i + 1;
    }
    proof {
        assert(s@.subrange(i as int, s.len() as int) =~= Seq::<u8>::empty());
    }
    if cur.len() > 0 {
        let ghost before = r@;
        let ghost last = cur@;
        r.push(cur);
        proof {
            assert(byte_lines(r@) =~= byte_lines(before).push(last));
            assert(byte_lines(before) + seq![last] =~= byte_lines(before).push(last));
        }
    } else {
        proof {
            assert(byte_lines(r@) + Seq::<Seq<u8>>::empty() =~= byte_lines(r@));
        }
    }
    r
}


/// `a` sorts strictly before `b`: compared character by character (by code
/// point, which for UTF-8 is also byte order), a proper prefix first.
pub open spec fn lex_lt(a: Seq<char>, b: Seq<char>) -> bool
    decreases a.len(),
{
    if a.len() == 0 {
        b.len() > 0
    } else if b.len() == 0 {
        false
    } else if a[0] != b[0] {
        (a[0] as int) < (b[0] as int)
    } else {
        lex_lt(a.drop_first(), b.drop_first())
    }
}

pub proof fn lemma_lex_total(a: Seq<char>, b: Seq<char>)
    ensures
        a != b ==> lex_lt(a, b) || lex_lt(b, a),
        !(lex_lt(a, b) && lex_lt(b, a)),
    decreases a.len(),
{
    if a.len() > 0 && b.len() > 0 {
        lemma_lex_total(a.drop_first(), b.drop_first());
        if a[0] == b[0] && a.drop_first() =~= b.drop_first() {
            assert forall|i: int| 0 <= i < a.len() implies a[i] == b[i] by {
                if i > 0 {
                    assert(a[i] == a.drop_first()[i - 1]);
                    assert(b[i] == b.drop_first()[i - 1]);
                }
            }
            assert(a =~= b);
        }
        if a[0] != b[0] {
            assert(a[0] as int != b[0] as int);
        }
    } else if a.len() == 0 && b.len() == 0 {
        assert(a =~= b);
    }
}

pub proof fn lemma_lex_transitive(a: Seq<char>, b: Seq<char>, c: Seq<char>)
    requires
        lex_lt(a, b),
        lex_lt(b, c),
    ensures
        lex_lt(a, c),
    decreases a.len(),
{
    if a.len() > 0 && b.len() > 0 && c.len() > 0 {
        if a[0] == b[0] && b[0] == c[0] {
            lemma_lex_transitive(a.drop_first(), b.drop_first(), c.drop_first());
        }
    }
}

/// Whether `a` sorts strictly before `b` (`a < b` on strings).
pub fn str_lt(a: &str, b: &str) -> (r: bool)
    ensures
        r == lex_lt(a@, b@),
{
    let x = chars_of(a);
    let y = chars_of(b);
    let mut i: usize = 0;
    proof {
        assert(a@.subrange(0, a@.len() as int) =~= a@);
        assert(b@.subrange(0, b@.len() as int) =~= b@);
    }
    while i < x.len() && i < y.len() && x[i] == y[i]
        invariant
            i <= x.len(),
            i <= y.len(),
            x@ == a@,
            y@ == b@,
            lex_lt(a@, b@) == lex_lt(a@.subrange(i as int, a@.len() as int), b@.subrange(
                i as int,
                b@.len() as int,
            )),
        decreases x.len() - i,
    {
        proof {
            let sa = a@.subrange(i as int, a@.len() as int);
            let sb = b@.subrange(i as int, b@.len() as int);
            assert(sa.drop_first() =~= a@.subrange(i + 1, a@.len() as int));
            assert(sb.drop_first() =~= b@.subrange(i + 1, b@.len() as int));
            assert(sa[0] == sb[0]);
        }
        i = i + 1;
    }
    proof {
        let sa = a@.subrange(i as int, a@.len() as int);
        let sb = b@.subrange(i as int, b@.len() as int);
        if i < x.len() && i < y.len() {
            assert(sa[0] == x@[i as int]);
            assert(sb[0] == y@[i as int]);
        }
    }
    if i == x.len() {
        i < y.len()
    } else if i == y.len() {
        false
    } else {
        x[i] < y[i]
    }
}

} // verus!
