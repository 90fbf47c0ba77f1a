//! Character-level access to strings.

use vstd::prelude::*;

verus! {

/// The characters of an optional string.
pub open spec fn opt_chars(o: Option<&str>) -> Option<Seq<char>> {
    match o {
        Some(s) => Some(s@),
        None => None,
    }
}

/// The characters of `s`, in order.
pub fn chars_of(s: &str) -> (v: Vec<char>)
    ensures
        v@ == s@,
{
    let mut v: Vec<char> = Vec::new();
    for c in it: s.chars()
        invariant
            v@ == it.seq().take(it.index() as int),
    {
        v.push(c);
    }
    v
}


/// The upper-case hexadecimal digit of `d` (below 16).
pub open spec fn hex_upper_digit(d: int) -> char {
    seq!['0', '1', '2', '3', '4', '5', '6', '7', '8', '9', 'A', 'B', 'C', 'D', 'E', 'F'][d]
}

/// `v` as exactly four upper-case hexadecimal digits, as `{:04X}` prints a
/// `u16`.
pub open spec fn hex4_upper(v: u16) -> Seq<char> {
    seq![
        hex_upper_digit((v / 4096) as int % 16),
        hex_upper_digit((v / 256) as int % 16),
        hex_upper_digit((v / 16) as int % 16),
        hex_upper_digit(v as int % 16),
    ]
}

fn hex_digit_str(d: u16) -> (s: &'static str)
    requires
        d < 16,
    ensures
        s@ == seq![hex_upper_digit(d as int)],
{
    proof {
        reveal_strlit("0");
        reveal_strlit("1");
        reveal_strlit("2");
        reveal_strlit("3");
        reveal_strlit("4");
        reveal_strlit("5");
        reveal_strlit("6");
        reveal_strlit("7");
        reveal_strlit("8");
        reveal_strlit("9");
        reveal_strlit("A");
        reveal_strlit("B");
        reveal_strlit("C");
        reveal_strlit("D");
        reveal_strlit("E");
        reveal_strlit("F");
    }
    match d {
        0 => "0",
        1 => "1",
        2 => "2",
        3 => "3",
        4 => "4",
        5 => "5",
        6 => "6",
        7 => "7",
        8 => "8",
        9 => "9",
        10 => "A",
        11 => "B",
        12 => "C",
        13 => "D",
        14 => "E",
        _ => "F",
    }
}

/// Appends `v` as four upper-case hexadecimal digits.
pub fn push_hex4_upper(out: &mut String, v: u16)
    ensures
        final(out)@ == old(out)@ + hex4_upper(v),
{
    out.append(hex_digit_str((v / 4096) % 16));
    out.append(hex_digit_str((v / 256) % 16));
    out.append(hex_digit_str((v / 16) % 16));
    out.append(hex_digit_str(v % 16));
    assert(out@ =~= old(out)@ + hex4_upper(v));
}

} // verus!
