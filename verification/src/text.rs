//! Text helpers: comparison and scanning of strings, and the decoding of
//! bytes read from a file into text.
use vstd::prelude::*;
use vstd::string::StringSliceAdditionalSpecFns;
use vstd::string::StrSliceExecFns;

verus! {

/// The text that lossy UTF-8 decoding makes of a byte sequence: every
/// well-formed scalar value as it stands, every ill-formed part replaced.
pub uninterp spec fn utf8_lossy(bytes: Seq<u8>) -> Seq<char>;

/// Decodes bytes as UTF-8 with `String::from_utf8_lossy`.
///
/// Trusted: the result is named `utf8_lossy` of the bytes, and for bytes that
/// are well-formed UTF-8 it is their decoding, as the documentation of
/// `from_utf8_lossy` states.
#[verifier::external_body]
pub(crate) fn string_from_utf8_lossy(bytes: &[u8]) -> (s: String)
    ensures
        s@ == utf8_lossy(bytes@),
        vstd::utf8::valid_utf8(bytes@) ==> s@ == vstd::utf8::decode_utf8(bytes@),
{
    String::from_utf8_lossy(bytes).into_owned()
}

/// Whether two byte slices hold the same bytes.
pub fn bytes_eq(a: &[u8], b: &[u8]) -> (r: bool)
    ensures
        r == (a@ == b@),
{
    if a.len() != b.len() {
        return false;
    }
    let mut i: usize = 0;
    while i < a.len()
        invariant
            i <= a.len(),
            a.len() == b.len(),
            forall|j: int| 0 <= j < i ==> a@[j] == b@[j],
        decreases a.len() - i,
    {
        if a[i] != b[i] {
            return false;
        }
        i += 1;
    }
    assert(a@ =~= b@);
    true
}

/// Whether two strings hold the same characters.
pub fn str_eq(a: &str, b: &str) -> (r: bool)
    ensures
        r == (a@ == b@),
{
    let r = bytes_eq(a.as_bytes(), b.as_bytes());
    proof {
        vstd::utf8::encode_utf8_decode_utf8(a@);
        vstd::utf8::encode_utf8_decode_utf8(b@);
    }
    r
}

/// Whether a string holds the NUL character.
pub fn has_nul(s: &str) -> (r: bool)
    ensures
        r == s@.contains('\0'),
{
    let n = s.unicode_len();
    let mut i: usize = 0;
    while i < n
        invariant
            i <= n,
            n == s@.len(),
            forall|j: int| 0 <= j < i ==> s@[j] != '\0',
        decreases n - i,
    {
        if s.get_char(i) == '\0' {
            return true;
        }
        i += 1;
    }
    false
}

/// The value of a decimal digit.
pub open spec fn digit_of(c: char) -> Option<int> {
    if '0' <= c <= '9' {
        Some(c as int - '0' as int)
    } else {
        None
    }
}

/// The value of a hexadecimal digit, of either case.
pub open spec fn hex_digit_of(c: char) -> Option<int> {
    if '0' <= c <= '9' {
        Some(c as int - '0' as int)
    } else if 'a' <= c <= 'f' {
        Some(c as int - 'a' as int + 10)
    } else if 'A' <= c <= 'F' {
        Some(c as int - 'A' as int + 10)
    } else {
        None
    }
}

/// The number that the characters from `i` on add to `so_far`, read as
/// digits to the base 10 or 16; `None` where one of them is no digit.
pub open spec fn digits_from(s: Seq<char>, hex: bool, i: int, so_far: int) -> Option<int>
    decreases s.len() - i,
{
    if i < 0 || i >= s.len() {
        Some(so_far)
    } else {
        match if hex {
            hex_digit_of(s[i])
        } else {
            digit_of(s[i])
        } {
            Some(d) => digits_from(
                s,
                hex,
                i + 1,
                so_far * (if hex {
                    16int
                } else {
                    10int
                }) + d,
            ),
            None => None,
        }
    }
}

/// The number that a text of decimal digits stands for, with or without a
/// plus sign before them; `None` for any other text.
pub open spec fn decimal_of(s: Seq<char>) -> Option<int> {
    let start = if s.len() > 0 && s[0] == '+' {
        1int
    } else {
        0int
    };
    if s.len() <= start {
        None
    } else {
        digits_from(s, false, start, 0)
    }
}

/// The number that a text stands for: hexadecimal digits after `0x` or
/// `0X`, or decimal digits; `None` for any other text.
pub open spec fn number_of(s: Seq<char>) -> Option<int> {
    if s.len() > 2 && s[0] == '0' && (s[1] == 'x' || s[1] == 'X') {
        digits_from(s, true, 2, 0)
    } else {
        decimal_of(s)
    }
}

/// A number read from digits is no less than what it started from.
pub proof fn lemma_digits_grow(s: Seq<char>, hex: bool, i: int, so_far: int)
    requires
        0 <= so_far,
        0 <= i,
    ensures
        digits_from(s, hex, i, so_far) matches Some(v) ==> v >= so_far,
    decreases s.len() - i,
{
    if i < s.len() {
        let digit = if hex {
            hex_digit_of(s[i])
        } else {
            digit_of(s[i])
        };
        if let Some(d) = digit {
            let base = if hex {
                16int
            } else {
                10int
            };
            assert(so_far * base + d >= so_far) by (nonlinear_arith)
                requires
                    so_far >= 0,
                    base >= 1,
                    d >= 0,
            ;
            lemma_digits_grow(s, hex, i + 1, so_far * base + d);
        }
    }
}

/// The value of a digit to the base 10 or 16.
fn digit_value(c: char, hex: bool) -> (r: Option<u64>)
    ensures
        match r {
            Some(d) => (if hex {
                hex_digit_of(c)
            } else {
                digit_of(c)
            }) == Some(d as int) && d < 16,
            None => (if hex {
                hex_digit_of(c)
            } else {
                digit_of(c)
            }) is None,
        },
{
    let n = c as u32;
    if 0x30 <= n && n <= 0x39 {
        Some((n - 0x30) as u64)
    } else if hex && 0x61 <= n && n <= 0x66 {
        Some((n - 0x61 + 10) as u64)
    } else if hex && 0x41 <= n && n <= 0x46 {
        Some((n - 0x41 + 10) as u64)
    } else {
        None
    }
}

/// Reads the characters from `start` on as digits to the base 10 or 16;
/// `None` where one of them is no digit or the number is above `max`.
fn read_digits(s: &str, hex: bool, start: usize, max: u64) -> (r: Option<u64>)
    requires
        start <= s@.len(),
    ensures
        match r {
            Some(v) => digits_from(s@, hex, start as int, 0) == Some(v as int) && v <= max,
            None => digits_from(s@, hex, start as int, 0) matches Some(v) ==> v > max,
        },
{
    let n = s.unicode_len();
    let base: u64 = if hex {
        16
    } else {
        10
    };
    let mut value: u64 = 0;
    let mut i: usize = start;
    while i < n
        invariant
            start <= i <= n,
            n == s@.len(),
            base == (if hex {
                16int
            } else {
                10int
            }),
            value <= max,
            digits_from(s@, hex, start as int, 0) == digits_from(s@, hex, i as int, value as int),
        decreases n - i,
    {
        let d = match digit_value(s.get_char(i), hex) {
            Some(d) => d,
            None => {
                return None;
            },
        };
        let next = value as u128 * base as u128 + d as u128;
        if next > max as u128 {
            proof {
                lemma_digits_grow(s@, hex, i + 1, next as int);
            }
            return None;
        }
        value = next as u64;
        i += 1;
    }
    Some(value)
}

/// The number, up to `max`, that a text of decimal digits stands for, with
/// or without a plus sign before them.
pub fn parse_decimal(s: &str, max: u64) -> (r: Option<u64>)
    ensures
        match r {
            Some(v) => decimal_of(s@) == Some(v as int) && v <= max,
            None => decimal_of(s@) matches Some(v) ==> v > max,
        },
{
    let n = s.unicode_len();
    let start: usize = if n > 0 && s.get_char(0) == '+' {
        1
    } else {
        0
    };
    if n <= start {
        None
    } else {
        read_digits(s, false, start, max)
    }
}

/// The number, up to `max`, that a text stands for: hexadecimal digits
/// after `0x` or `0X`, or decimal digits.
pub fn parse_number(s: &str, max: u64) -> (r: Option<u64>)
    ensures
        match r {
            Some(v) => number_of(s@) == Some(v as int) && v <= max,
            None => number_of(s@) matches Some(v) ==> v > max,
        },
{
    let n = s.unicode_len();
    if n > 2 && s.get_char(0) == '0' && (s.get_char(1) == 'x' || s.get_char(1) == 'X') {
        read_digits(s, true, 2, max)
    } else {
        parse_decimal(s, max)
    }
}

/// Whether a character is white space: a blank, one of the controls from
/// the tabulator to the carriage return, the next line control, or one of
/// the spaces of other widths and the separators of lines and paragraphs.
pub open spec fn is_space(c: char) -> bool {
    let n = c as u32;
    n == 0x20 || (0x09 <= n <= 0x0D) || n == 0x85 || n == 0xA0 || n == 0x1680 || (0x2000 <= n
        <= 0x200A) || n == 0x2028 || n == 0x2029 || n == 0x202F || n == 0x205F || n == 0x3000
}

/// The index of the first character from `i` on that is no white space.
pub open spec fn skip_spaces(s: Seq<char>, i: int) -> int
    decreases s.len() - i,
{
    if 0 <= i < s.len() && is_space(s[i]) {
        skip_spaces(s, i + 1)
    } else {
        i
    }
}

/// The index after the last character before `i`, down to `low`, that is
/// no white space.
pub open spec fn drop_spaces(s: Seq<char>, low: int, i: int) -> int
    decreases i,
{
    if 0 <= low < i <= s.len() && is_space(s[i - 1]) {
        drop_spaces(s, low, i - 1)
    } else {
        i
    }
}

/// A text without the white space at its two ends.
pub open spec fn trimmed(s: Seq<char>) -> Seq<char> {
    let from = skip_spaces(s, 0);
    s.subrange(from, drop_spaces(s, from, s.len() as int))
}

/// Whether a character is white space.
pub fn char_is_space(c: char) -> (r: bool)
    ensures
        r == is_space(c),
{
    let n = c as u32;
    n == 0x20 || (0x09 <= n && n <= 0x0D) || n == 0x85 || n == 0xA0 || n == 0x1680 || (0x2000 <= n
        && n <= 0x200A) || n == 0x2028 || n == 0x2029 || n == 0x202F || n == 0x205F || n == 0x3000
}

/// The bounds of a text without the white space at its two ends.
pub fn trim_bounds(s: &str) -> (r: (usize, usize))
    ensures
        r.0 == skip_spaces(s@, 0),
        r.1 == drop_spaces(s@, r.0 as int, s@.len() as int),
        r.0 <= r.1 <= s@.len(),
{
    let n = s.unicode_len();
    let mut from: usize = 0;
    while from < n && char_is_space(s.get_char(from))
        invariant
            from <= n,
            n == s@.len(),
            skip_spaces(s@, 0) == skip_spaces(s@, from as int),
        decreases n - from,
    {
        from += 1;
    }
    let mut to: usize = n;
    while to > from && char_is_space(s.get_char(to - 1))
        invariant
            from <= to <= n,
            n == s@.len(),
            drop_spaces(s@, from as int, n as int) == drop_spaces(s@, from as int, to as int),
        decreases to,
    {
        to -= 1;
    }
    (from, to)
}

/// The index of the first comma from `i` on, or the length where there is
/// none.
pub open spec fn comma_from(s: Seq<char>, i: int) -> int
    decreases s.len() - i,
{
    if 0 <= i < s.len() && s[i] != ',' {
        comma_from(s, i + 1)
    } else {
        i
    }
}

/// The parts of a text from `from` on that commas separate, each without
/// the white space at its two ends. A text without a comma is one part.
pub open spec fn parts_from(s: Seq<char>, from: int) -> Seq<Seq<char>>
    decreases s.len() - from,
{
    let end = comma_from(s, from);
    if from < 0 || end < from || end >= s.len() {
        seq![trimmed(s.subrange(from, s.len() as int))]
    } else {
        seq![trimmed(s.subrange(from, end))] + parts_from(s, end + 1)
    }
}

/// The texts that strings hold, in order.
pub open spec fn texts_of(strings: Seq<String>) -> Seq<Seq<char>> {
    Seq::new(strings.len(), |i: int| strings[i]@)
}

/// The parts of a text that commas separate, each without the white space
/// at its two ends.
pub fn split_trimmed(s: &str) -> (r: Vec<String>)
    ensures
        texts_of(r@) == parts_from(s@, 0),
{
    let n = s.unicode_len();
    let mut parts: Vec<String> = Vec::new();
    let mut from: usize = 0;
    let mut done = false;
    assert(texts_of(parts@) + parts_from(s@, 0) =~= parts_from(s@, 0));
    while !done
        invariant
            from <= n,
            n == s@.len(),
            !done ==> parts_from(s@, 0) == texts_of(parts@) + parts_from(s@, from as int),
            done ==> parts_from(s@, 0) == texts_of(parts@),
        decreases
                (if done {
                    0
                } else {
                    n - from + 1
                }),
    {
        let mut end: usize = from;
        while end < n && s.get_char(end) != ','
            invariant
                from <= end <= n,
                n == s@.len(),
                comma_from(s@, from as int) == comma_from(s@, end as int),
            decreases n - end,
        {
            end += 1;
        }
        let part = s.substring_char(from, end);
        let (a, b) = trim_bounds(part);
        let mut text = String::new();
        text.append(part.substring_char(a, b));
        let ghost before = parts@;
        parts.push(text);
        proof {
            assert(text@ =~= trimmed(s@.subrange(from as int, end as int)));
            assert(texts_of(parts@) =~= texts_of(before).push(text@));
            if end < n {
                assert(texts_of(parts@) + parts_from(s@, end + 1) =~= texts_of(before) + parts_from(
                    s@,
                    from as int,
                ));
            } else {
                assert(texts_of(parts@) =~= texts_of(before) + parts_from(s@, from as int));
            }
        }
        if end < n {
            from = end + 1;
        } else {
            done = true;
        }
    }
    parts
}

/// Well-formed bytes without a NUL encode a text without a NUL.
pub proof fn lemma_decoded_without_nul(bytes: Seq<u8>)
    requires
        vstd::utf8::valid_utf8(bytes),
        forall|i: int| 0 <= i < bytes.len() ==> bytes[i] != 0,
    ensures
        !vstd::utf8::decode_utf8(bytes).contains('\0'),
    decreases bytes.len(),
{
    let text = vstd::utf8::decode_utf8(bytes);
    if bytes.len() > 0 {
        assert(vstd::utf8::valid_first_scalar(bytes));
        let rest = vstd::utf8::pop_first_scalar(bytes);
        let n = vstd::utf8::length_of_first_scalar(bytes);
        assert(vstd::utf8::valid_utf8(rest));
        assert(0 < n <= bytes.len());
        assert forall|i: int| 0 <= i < rest.len() implies rest[i] != 0 by {
            assert(rest[i] == bytes[i + n]);
        }
        lemma_decoded_without_nul(rest);
        let first = vstd::utf8::decode_first_scalar(bytes) as char;
        vstd::utf8::decode_utf8_first_scalar(bytes);
        assert(vstd::utf8::take_first_scalar(bytes)[0] == bytes[0]);
        assert(first != '\0') by {
            if first == '\0' {
                assert(first as u32 == 0);
                assert(vstd::utf8::encode_scalar(0u32)[0] == 0) by {
                    assert(vstd::utf8::has_width_1_encoding(0u32));
                    assert((0u32 & 0x7F) as u8 == 0) by (bit_vector);
                }
            }
        }
        assert(text =~= seq![first] + vstd::utf8::decode_utf8(rest));
        assert forall|j: int| 0 <= j < text.len() implies text[j] != '\0' by {
            if j > 0 {
                assert(text[j] == vstd::utf8::decode_utf8(rest)[j - 1]);
            }
        }
    }
}

} // verus!
