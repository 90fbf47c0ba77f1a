//! Command-line value parsing: USB vendor/product ids given in hex or decimal.

use vstd::prelude::*;

use crate::text::{chars_of, hex4_upper, hex_upper_digit, opt_chars};

verus! {

/// Unicode `White_Space` characters, which `str::trim` removes.
pub open spec fn is_unicode_whitespace(c: char) -> bool {
    ||| ('\u{9}' <= c && c <= '\u{d}')
    ||| c == ' '
    ||| c == '\u{85}'
    ||| c == '\u{a0}'
    ||| c == '\u{1680}'
    ||| ('\u{2000}' <= c && c <= '\u{200a}')
    ||| c == '\u{2028}'
    ||| c == '\u{2029}'
    ||| c == '\u{202f}'
    ||| c == '\u{205f}'
    ||| c == '\u{3000}'
}

/// The first index at or after `i` that does not hold whitespace.
pub open spec fn skip_ws_forward(s: Seq<char>, i: int) -> int
    decreases s.len() - i,
{
    if 0 <= i < s.len() && is_unicode_whitespace(s[i]) {
        skip_ws_forward(s, i + 1)
    } else {
        i
    }
}

/// The end of `s[lo..j]` once trailing whitespace is dropped.
pub open spec fn skip_ws_backward(s: Seq<char>, lo: int, j: int) -> int
    decreases j - lo,
{
    if lo < j && j <= s.len() && is_unicode_whitespace(s[j - 1]) {
        skip_ws_backward(s, lo, j - 1)
    } else {
        j
    }
}

/// `s` without leading and trailing whitespace.
pub open spec fn trimmed(s: Seq<char>) -> Seq<char> {
    let a = skip_ws_forward(s, 0);
    s.subrange(a, skip_ws_backward(s, a, s.len() as int))
}

/// `t` without one leading `0x` or `0X`.
pub open spec fn strip_hex_prefix(t: Seq<char>) -> Seq<char> {
    if t.len() >= 2 && t[0] == '0' && (t[1] == 'x' || t[1] == 'X') {
        t.subrange(2, t.len() as int)
    } else {
        t
    }
}

/// A letter that only a hexadecimal number holds.
pub open spec fn is_hex_letter(c: char) -> bool {
    ('a' <= c && c <= 'f') || ('A' <= c && c <= 'F')
}

pub open spec fn is_ascii_digit(c: char) -> bool {
    '0' <= c && c <= '9'
}

/// The value of `c` as a digit in base `radix` (2 to 36), as `char::to_digit`.
pub open spec fn digit_value(c: char, radix: u32) -> Option<u32> {
    let v: int = if '0' <= c && c <= '9' {
        c as int - '0' as int
    } else if 'a' <= c && c <= 'z' {
        c as int - 'a' as int + 10
    } else if 'A' <= c && c <= 'Z' {
        c as int - 'A' as int + 10
    } else {
        99
    };
    if v < radix {
        Some(v as u32)
    } else {
        None
    }
}

/// Why a string is not an unsigned 32-bit number in a given base.
#[derive(Clone, Copy, Debug, PartialEq, Eq)]
pub enum IntErrorKind {
    /// The string is empty.
    Empty,
    /// A character is not a digit of the base (a lone or misplaced sign too).
    InvalidDigit,
    /// The number exceeds `u32::MAX`.
    PosOverflow,
}

/// Reading the digits `t[i..]` onto the value `acc` already read: the first
/// character that is not a digit, or the first digit that takes the value
/// past `u32::MAX`, decides the error.
pub open spec fn read_digits(t: Seq<char>, i: int, radix: u32, acc: u32) -> Result<u32, IntErrorKind>
    decreases t.len() - i,
{
    if i < 0 || i >= t.len() {
        Ok(acc)
    } else {
        match digit_value(t[i], radix) {
            None => Err(IntErrorKind::InvalidDigit),
            Some(d) => {
                let next = acc * radix + d;
                if next > u32::MAX {
                    Err(IntErrorKind::PosOverflow)
                } else {
                    read_digits(t, i + 1, radix, next as u32)
                }
            },
        }
    }
}

/// `t` read as a `u32` in base `radix`, as `u32::from_str_radix` does: an
/// optional leading `+`, then one or more digits.
pub open spec fn parse_u32_radix(t: Seq<char>, radix: u32) -> Result<u32, IntErrorKind> {
    if t.len() == 0 {
        Err(IntErrorKind::Empty)
    } else if t.len() == 1 && (t[0] == '+' || t[0] == '-') {
        Err(IntErrorKind::InvalidDigit)
    } else if t[0] == '+' {
        read_digits(t, 1, radix, 0)
    } else {
        read_digits(t, 0, radix, 0)
    }
}

/// Why a string is not a USB id.
#[derive(Clone, Copy, Debug, PartialEq, Eq)]
pub enum U16ParseError {
    /// The value holds a hex letter, or has a `0x` prefix and only decimal
    /// digits, but is no hex number.
    InvalidHex(IntErrorKind),
    /// The value is all decimal digits (or empty), has no `0x` prefix, and is
    /// no decimal number.
    InvalidDecimal(IntErrorKind),
    /// The value is neither, and no hex number either.
    InvalidValue(IntErrorKind),
    /// The number does not fit in 16 bits.
    OutOfRange,
}

/// `t` starts with `0x` or `0X`.
pub open spec fn has_hex_prefix(t: Seq<char>) -> bool {
    t.len() >= 2 && t[0] == '0' && (t[1] == 'x' || t[1] == 'X')
}

/// What `parse_u16_maybe_hex` gives for the characters `s`. After trimming
/// whitespace and one `0x`/`0X` prefix, a value holding a hex letter is read
/// in base 16; a value of decimal digits only is read in base 10, or in base
/// 16 when it had the prefix (so `0x2079` is the id 0x2079); any other value
/// is read in base 16. The number must then fit in 16 bits.
pub open spec fn parse_u16_maybe_hex_spec(s: Seq<char>) -> Result<u16, U16ParseError> {
    let prefixed = has_hex_prefix(trimmed(s));
    let t = strip_hex_prefix(trimmed(s));
    let read = if exists|i: int| 0 <= i < t.len() && is_hex_letter(#[trigger] t[i]) {
        match parse_u32_radix(t, 16) {
            Ok(v) => Ok(v),
            Err(e) => Err(U16ParseError::InvalidHex(e)),
        }
    } else if forall|i: int| 0 <= i < t.len() ==> is_ascii_digit(#[trigger] t[i]) {
        if prefixed {
            match parse_u32_radix(t, 16) {
                Ok(v) => Ok(v),
                Err(e) => Err(U16ParseError::InvalidHex(e)),
            }
        } else {
            match parse_u32_radix(t, 10) {
                Ok(v) => Ok(v),
                Err(e) => Err(U16ParseError::InvalidDecimal(e)),
            }
        }
    } else {
        match parse_u32_radix(t, 16) {
            Ok(v) => Ok(v),
            Err(e) => Err(U16ParseError::InvalidValue(e)),
        }
    };
    match read {
        Ok(v) => if v <= 0xFFFF {
            Ok(v as u16)
        } else {
            Err(U16ParseError::OutOfRange)
        },
        Err(e) => Err(e),
    }
}

fn is_whitespace(c: char) -> (r: bool)
    ensures
        r == is_unicode_whitespace(c),
{
    ('\u{9}' <= c && c <= '\u{d}') || c == ' ' || c == '\u{85}' || c == '\u{a0}' || c
        == '\u{1680}' || ('\u{2000}' <= c && c <= '\u{200a}') || c == '\u{2028}' || c
        == '\u{2029}' || c == '\u{202f}' || c == '\u{205f}' || c == '\u{3000}'
}

fn to_digit(c: char, radix: u32) -> (d: Option<u32>)
    requires
        2 <= radix <= 36,
    ensures
        d == digit_value(c, radix),
{
    let v: u32 = if '0' <= c && c <= '9' {
        c as u32 - '0' as u32
    } else if 'a' <= c && c <= 'z' {
        c as u32 - 'a' as u32 + 10
    } else if 'A' <= c && c <= 'Z' {
        c as u32 - 'A' as u32 + 10
    } else {
        99
    };
    if v < radix {
        Some(v)
    } else {
        None
    }
}

fn parse_radix(cs: &Vec<char>, lo: usize, hi: usize, radix: u32) -> (r: Result<u32, IntErrorKind>)
    requires
        lo <= hi <= cs@.len(),
        2 <= radix <= 36,
    ensures
        r == parse_u32_radix(cs@.subrange(lo as int, hi as int), radix),
{
    let ghost t = cs@.subrange(lo as int, hi as int);
    if lo == hi {
        return Err(IntErrorKind::Empty);
    }
    if hi - lo == 1 && (cs[lo] == '+' || cs[lo] == '-') {
        return Err(IntErrorKind::InvalidDigit);
    }
    let mut i = lo;
    if cs[lo] == '+' {
        i = lo + 1;
    }
    let ghost start = i - lo;
    assert(parse_u32_radix(t, radix) == read_digits(t, start, radix, 0));
    let mut acc: u32 = 0;
    while i < hi
        invariant
            lo <= i <= hi,
            hi <= cs@.len(),
            2 <= radix <= 36,
            t == cs@.subrange(lo as int, hi as int),
            parse_u32_radix(t, radix) == read_digits(t, i - lo, radix, acc),
        decreases hi - i,
    {
        assert(t[i - lo] == cs@[i as int]);
        match to_digit(cs[i], radix) {
            None => {
                return Err(IntErrorKind::InvalidDigit);
            },
            Some(d) => {
                assert(acc as u64 * radix as u64 <= 0xFFFF_FFFFu64 * 36) by (nonlinear_arith)
                    requires
                        acc <= 0xFFFF_FFFFu32,
                        radix <= 36,
                ;
                let next: u64 = acc as u64 * radix as u64 + d as u64;
                if next > 0xFFFF_FFFFu64 {
                    return Err(IntErrorKind::PosOverflow);
                }
                acc = next as u32;
            },
        }
        i = i + 1;
    }
    Ok(acc)
}

fn any_hex_letter(cs: &Vec<char>, lo: usize, hi: usize) -> (r: bool)
    requires
        lo <= hi <= cs@.len(),
    ensures
        r == exists|i: int|
            0 <= i < cs@.subrange(lo as int, hi as int).len() && is_hex_letter(
                #[trigger] cs@.subrange(lo as int, hi as int)[i],
            ),
{
    let ghost t = cs@.subrange(lo as int, hi as int);
    let mut i = lo;
    while i < hi
        invariant
            lo <= i <= hi <= cs@.len(),
            t == cs@.subrange(lo as int, hi as int),
            forall|j: int| 0 <= j < i - lo ==> !is_hex_letter(#[trigger] t[j]),
        decreases hi - i,
    {
        let c = cs[i];
        if ('a' <= c && c <= 'f') || ('A' <= c && c <= 'F') {
            assert(t[i - lo] == c);
            return true;
        }
        i = i + 1;
    }
    false
}

fn all_ascii_digits(cs: &Vec<char>, lo: usize, hi: usize) -> (r: bool)
    requires
        lo <= hi <= cs@.len(),
    ensures
        r == forall|i: int|
            0 <= i < cs@.subrange(lo as int, hi as int).len() ==> is_ascii_digit(
                #[trigger] cs@.subrange(lo as int, hi as int)[i],
            ),
{
    let ghost t = cs@.subrange(lo as int, hi as int);
    let mut i = lo;
    while i < hi
        invariant
            lo <= i <= hi <= cs@.len(),
            t == cs@.subrange(lo as int, hi as int),
            forall|j: int| 0 <= j < i - lo ==> is_ascii_digit(#[trigger] t[j]),
        decreases hi - i,
    {
        let c = cs[i];
        if !('0' <= c && c <= '9') {
            assert(t[i - lo] == c);
            return false;
        }
        i = i + 1;
    }
    true
}

/// Parses a USB vendor or product id: hexadecimal (with or without `0x`)
/// or decimal, surrounded by optional whitespace.
pub fn parse_u16_maybe_hex(s: &str) -> (res: Result<u16, U16ParseError>)
    ensures
        res == parse_u16_maybe_hex_spec(s@),
{
    let cs = chars_of(s);
    let n = cs.len();
    let mut a: usize = 0;
    while a < n && is_whitespace(cs[a])
        invariant
            a <= n == cs@.len(),
            skip_ws_forward(cs@, a as int) == skip_ws_forward(cs@, 0),
        decreases n - a,
    {
        a = a + 1;
    }
    let mut b: usize = n;
    while b > a && is_whitespace(cs[b - 1])
        invariant
            a <= b <= n == cs@.len(),
            skip_ws_forward(cs@, 0) == a,
            skip_ws_backward(cs@, a as int, b as int) == skip_ws_backward(cs@, a as int, n as int),
        decreases b - a,
    {
        b = b - 1;
    }
    assert(trimmed(s@) == cs@.subrange(a as int, b as int));
    let prefixed = b - a >= 2 && cs[a] == '0' && (cs[a + 1] == 'x' || cs[a + 1] == 'X');
    if prefixed {
        a = a + 2;
    }
    assert(strip_hex_prefix(trimmed(s@)) =~= cs@.subrange(a as int, b as int));
    let read = if any_hex_letter(&cs, a, b) {
        match parse_radix(&cs, a, b, 16) {
            Ok(v) => Ok(v),
            Err(e) => Err(U16ParseError::InvalidHex(e)),
        }
    } else if all_ascii_digits(&cs, a, b) {
        if prefixed {
            match parse_radix(&cs, a, b, 16) {
                Ok(v) => Ok(v),
                Err(e) => Err(U16ParseError::InvalidHex(e)),
            }
        } else {
            match parse_radix(&cs, a, b, 10) {
                Ok(v) => Ok(v),
                Err(e) => Err(U16ParseError::InvalidDecimal(e)),
            }
        }
    } else {
        match parse_radix(&cs, a, b, 16) {
            Ok(v) => Ok(v),
            Err(e) => Err(U16ParseError::InvalidValue(e)),
        }
    };
    match read {
        Ok(v) => if v <= 0xFFFF {
            Ok(v as u16)
        } else {
            Err(U16ParseError::OutOfRange)
        },
        Err(e) => Err(e),
    }
}


/// Why a `--vid`/`--pid` override is not usable.
#[derive(Clone, Copy, Debug, PartialEq, Eq)]
pub enum OverrideError {
    /// Only one of the two ids was given.
    Unpaired,
    /// The vendor id does not parse.
    InvalidVid(U16ParseError),
    /// The product id does not parse.
    InvalidPid(U16ParseError),
}

/// What `parse_override_vid_pid` gives: no override when neither id is
/// given, an error when only one is, else both ids, the vendor id first.
pub open spec fn override_spec(vid: Option<Seq<char>>, pid: Option<Seq<char>>) -> Result<
    Option<(u16, u16)>,
    OverrideError,
> {
    match (vid, pid) {
        (None, None) => Ok(None),
        (Some(v), Some(p)) => match parse_u16_maybe_hex_spec(v) {
            Err(e) => Err(OverrideError::InvalidVid(e)),
            Ok(vv) => match parse_u16_maybe_hex_spec(p) {
                Err(e) => Err(OverrideError::InvalidPid(e)),
                Ok(pv) => Ok(Some((vv, pv))),
            },
        },
        _ => Err(OverrideError::Unpaired),
    }
}

/// Reads the optional `--vid`/`--pid` override, which must come as a pair.
pub fn parse_override_vid_pid(vid: Option<&str>, pid: Option<&str>) -> (res: Result<
    Option<(u16, u16)>,
    OverrideError,
>)
    ensures
        res == override_spec(opt_chars(vid), opt_chars(pid)),
{
    match (vid, pid) {
        (None, None) => Ok(None),
        (Some(vs), Some(ps)) => {
            let v = match parse_u16_maybe_hex(vs) {
                Ok(v) => v,
                Err(e) => {
                    return Err(OverrideError::InvalidVid(e));
                },
            };
            let p = match parse_u16_maybe_hex(ps) {
                Ok(p) => p,
                Err(e) => {
                    return Err(OverrideError::InvalidPid(e));
                },
            };
            Ok(Some((v, p)))
        },
        _ => Err(OverrideError::Unpaired),
    }
}


proof fn lemma_hex_upper_digit(d: int)
    requires
        0 <= d < 16,
    ensures
        digit_value(hex_upper_digit(d), 16) == Some(d as u32),
        !is_unicode_whitespace(hex_upper_digit(d)),
{
    let t = seq!['0', '1', '2', '3', '4', '5', '6', '7', '8', '9', 'A', 'B', 'C', 'D', 'E', 'F'];
    assert(hex_upper_digit(d) == t[d]);
    if d < 10 {
        assert(t[d] as int == '0' as int + d) by {
            if d == 0 {} else if d == 1 {} else if d == 2 {} else if d == 3 {} else if d == 4 {
            } else if d == 5 {} else if d == 6 {} else if d == 7 {} else if d == 8 {} else {}
        }
    } else {
        assert(t[d] as int == 'A' as int + d - 10) by {
            if d == 10 {} else if d == 11 {} else if d == 12 {} else if d == 13 {} else if d == 14 {
            } else {}
        }
    }
}

/// An id as the controller list prints it (`0x` and four upper-case hex
/// digits) parses back to the same id, so any listed id can be passed to
/// `--vid`/`--pid`.
pub proof fn law_listed_ids_parse_back(v: u16)
    ensures
        parse_u16_maybe_hex_spec("0x"@ + hex4_upper(v)) == Ok::<u16, U16ParseError>(v),
{
    reveal_strlit("0x");
    let h = hex4_upper(v);
    let d3 = (v / 4096) as int % 16;
    let d2 = (v / 256) as int % 16;
    let d1 = (v / 16) as int % 16;
    let d0 = v as int % 16;
    lemma_hex_upper_digit(d3);
    lemma_hex_upper_digit(d2);
    lemma_hex_upper_digit(d1);
    lemma_hex_upper_digit(d0);
    assert(h[0] == hex_upper_digit(d3) && h[1] == hex_upper_digit(d2) && h[2] == hex_upper_digit(d1)
        && h[3] == hex_upper_digit(d0));
    assert(all_digits(h, 16));
    assert(digits_value(h, 0, 16) == 0);
    assert(digits_value(h, 1, 16) == d3);
    assert(digits_value(h, 2, 16) == d3 * 16 + d2);
    assert(digits_value(h, 3, 16) == (d3 * 16 + d2) * 16 + d1);
    assert(digits_value(h, 4, 16) == ((d3 * 16 + d2) * 16 + d1) * 16 + d0);
    assert(v as int == ((d3 * 16 + d2) * 16 + d1) * 16 + d0);
    law_hex_ids_parse_back('x', h, v);
    assert("0x"@ + h =~= seq!['0', 'x'] + h);
}


/// The value of the digits `t[0..n]` in base `radix`, each character read
/// as `digit_value` reads it.
pub open spec fn digits_value(t: Seq<char>, n: int, radix: u32) -> int
    decreases n,
{
    if n <= 0 {
        0
    } else {
        digits_value(t, n - 1, radix) * radix + match digit_value(t[n - 1], radix) {
            Some(d) => d as int,
            None => 0,
        }
    }
}

/// Every character of `t` is a digit in base `radix`.
pub open spec fn all_digits(t: Seq<char>, radix: u32) -> bool {
    forall|i: int| 0 <= i < t.len() ==> #[trigger] digit_value(t[i], radix) is Some
}

proof fn lemma_digits_value_monotone(t: Seq<char>, k: int, n: int, radix: u32)
    requires
        0 <= k <= n <= t.len(),
        1 <= radix,
    ensures
        0 <= digits_value(t, k, radix) <= digits_value(t, n, radix),
    decreases n,
{
    if n > k {
        lemma_digits_value_monotone(t, k, n - 1, radix);
        let p = digits_value(t, n - 1, radix);
        assert(p <= p * radix) by (nonlinear_arith)
            requires
                0 <= p,
                1 <= radix,
        ;
    } else {
        lemma_digits_value_nonneg(t, n, radix);
    }
}

proof fn lemma_digits_value_nonneg(t: Seq<char>, n: int, radix: u32)
    requires
        1 <= radix,
    ensures
        0 <= digits_value(t, n, radix),
    decreases n,
{
    if n > 0 {
        lemma_digits_value_nonneg(t, n - 1, radix);
        let p = digits_value(t, n - 1, radix);
        assert(0 <= p * radix) by (nonlinear_arith)
            requires
                0 <= p,
                1 <= radix,
        ;
    }
}

proof fn lemma_read_digits_value(t: Seq<char>, i: int, radix: u32)
    requires
        0 <= i <= t.len(),
        1 <= radix,
        all_digits(t, radix),
        digits_value(t, t.len() as int, radix) <= u32::MAX,
    ensures
        read_digits(t, i, radix, digits_value(t, i, radix) as u32) == Ok::<u32, IntErrorKind>(
            digits_value(t, t.len() as int, radix) as u32,
        ),
    decreases t.len() - i,
{
    lemma_digits_value_monotone(t, i, t.len() as int, radix);
    if i < t.len() {
        assert(digit_value(t[i], radix) is Some);
        lemma_digits_value_monotone(t, i + 1, t.len() as int, radix);
        lemma_read_digits_value(t, i + 1, radix);
    }
}

proof fn lemma_digit_not_whitespace(c: char, radix: u32)
    requires
        radix <= 36,
        digit_value(c, radix) is Some,
    ensures
        !is_unicode_whitespace(c),
        c != '+',
        c != '-',
{
}

/// Any `0x`/`0X` form of an id parses back to it: a prefix `0x` or `0X`,
/// then one or more hex digits of either case (padded with zeros or not)
/// whose value is the id. So `0x2079`, `0X2079`, `0x00ff` and `0xFF` are
/// all read in base 16.
pub proof fn law_hex_ids_parse_back(x: char, digits: Seq<char>, v: u16)
    requires
        x == 'x' || x == 'X',
        digits.len() > 0,
        all_digits(digits, 16),
        digits_value(digits, digits.len() as int, 16) == v,
    ensures
        parse_u16_maybe_hex_spec(seq!['0', x] + digits) == Ok::<u16, U16ParseError>(v),
{
    let s = seq!['0', x] + digits;
    let n = digits.len() as int;
    assert(digit_value(digits[n - 1], 16) is Some);
    lemma_digit_not_whitespace(digits[n - 1], 16);
    assert(s[s.len() - 1] == digits[n - 1]);
    assert(skip_ws_forward(s, 0) == 0);
    assert(skip_ws_backward(s, 0, s.len() as int) == s.len());
    assert(trimmed(s) =~= s);
    assert(has_hex_prefix(s));
    assert(strip_hex_prefix(s) =~= digits);
    assert(digit_value(digits[0], 16) is Some);
    lemma_digit_not_whitespace(digits[0], 16);
    lemma_read_digits_value(digits, 0, 16);
    assert(parse_u32_radix(digits, 16) == Ok::<u32, IntErrorKind>(v as u32));
}

proof fn lemma_skip_leading(s: Seq<char>, w: int, i: int)
    requires
        0 <= i <= w < s.len(),
        forall|k: int| 0 <= k < w ==> is_unicode_whitespace(#[trigger] s[k]),
        !is_unicode_whitespace(s[w]),
    ensures
        skip_ws_forward(s, i) == w,
    decreases w - i,
{
    if i < w {
        lemma_skip_leading(s, w, i + 1);
    }
}

proof fn lemma_skip_trailing(s: Seq<char>, lo: int, e: int, j: int)
    requires
        lo < e <= j <= s.len(),
        forall|k: int| e <= k < s.len() ==> is_unicode_whitespace(#[trigger] s[k]),
        !is_unicode_whitespace(s[e - 1]),
    ensures
        skip_ws_backward(s, lo, j) == e,
    decreases j - lo,
{
    if j > e {
        lemma_skip_trailing(s, lo, e, j - 1);
    }
}

/// A decimal id parses back to itself, whatever whitespace surrounds it:
/// one or more decimal digits (leading zeros allowed) whose value is the
/// id, between any runs of whitespace.
pub proof fn law_decimal_ids_parse_back(w1: Seq<char>, digits: Seq<char>, w2: Seq<char>, v: u16)
    requires
        forall|k: int| 0 <= k < w1.len() ==> is_unicode_whitespace(#[trigger] w1[k]),
        forall|k: int| 0 <= k < w2.len() ==> is_unicode_whitespace(#[trigger] w2[k]),
        digits.len() > 0,
        forall|k: int| 0 <= k < digits.len() ==> is_ascii_digit(#[trigger] digits[k]),
        digits_value(digits, digits.len() as int, 10) == v,
    ensures
        parse_u16_maybe_hex_spec(w1 + digits + w2) == Ok::<u16, U16ParseError>(v),
{
    let s = w1 + digits + w2;
    let a = w1.len() as int;
    let n = digits.len() as int;
    assert forall|k: int| 0 <= k < n implies #[trigger] digit_value(digits[k], 10) is Some by {
        assert(is_ascii_digit(digits[k]));
    }
    assert(all_digits(digits, 10));
    assert(s[a] == digits[0]);
    assert(s[a + n - 1] == digits[n - 1]);
    assert forall|k: int| 0 <= k < a implies is_unicode_whitespace(#[trigger] s[k]) by {
        assert(s[k] == w1[k]);
    }
    assert forall|k: int| a + n <= k < s.len() implies is_unicode_whitespace(#[trigger] s[k]) by {
        assert(s[k] == w2[k - a - n]);
    }
    assert(is_ascii_digit(digits[0]) && is_ascii_digit(digits[n - 1]));
    lemma_skip_leading(s, a, 0);
    lemma_skip_trailing(s, a, a + n, s.len() as int);
    assert(trimmed(s) =~= digits);
    if n >= 2 {
        assert(is_ascii_digit(digits[1]));
    }
    assert(!has_hex_prefix(digits));
    assert(strip_hex_prefix(digits) == digits);
    assert forall|k: int| 0 <= k < n implies !is_hex_letter(#[trigger] digits[k]) by {
        assert(is_ascii_digit(digits[k]));
    }
    lemma_read_digits_value(digits, 0, 10);
    assert(parse_u32_radix(digits, 10) == Ok::<u32, IntErrorKind>(v as u32));
}

} // verus!
