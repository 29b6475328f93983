use vstd::prelude::*;
use vstd::slice::slice_subrange;
use vstd::string::StringExecFns;

use crate::km::link::bytes_eq;

verus! {

/// Two reports pair up if equal, or equal once a single report-ID byte
/// present on only one side is set aside (some HID stacks prepend it,
/// others strip it).
pub open spec fn reports_agree(a: Seq<u8>, b: Seq<u8>) -> bool {
    ||| a == b
    ||| a.len() == b.len() + 1 && a.skip(1) == b
    ||| b.len() == a.len() + 1 && b.skip(1) == a
}

/// Whether the two reports pair up, see [`reports_agree`].
pub fn reports_match(a: &[u8], b: &[u8]) -> (r: bool)
    ensures
        r == reports_agree(a@, b@),
{
    if bytes_eq(a, b) {
        return true;
    }
    if a.len() > b.len() && a.len() - b.len() == 1 {
        let tail = slice_subrange(a, 1, a.len());
        assert(tail@ =~= a@.skip(1));
        if bytes_eq(tail, b) {
            return true;
        }
    }
    if b.len() > a.len() && b.len() - a.len() == 1 {
        let tail = slice_subrange(b, 1, b.len());
        assert(tail@ =~= b@.skip(1));
        if bytes_eq(tail, a) {
            return true;
        }
    }
    false
}

/// A lower-case hexadecimal digit.
pub open spec fn hex_lower(d: int) -> char {
    if d < 10 {
        (d + 48) as char
    } else {
        (d + 87) as char
    }
}

/// The bytes as lower-case hex, two digits each.
pub open spec fn hex_text(bs: Seq<u8>) -> Seq<char>
    decreases bs.len(),
{
    if bs.len() == 0 {
        Seq::empty()
    } else {
        hex_text(bs.drop_last()) + seq![
            hex_lower((bs.last() / 16) as int),
            hex_lower((bs.last() % 16) as int),
        ]
    }
}

fn hex_digit_str(d: u8) -> (s: &'static str)
    requires
        d < 16,
    ensures
        s@ == seq![hex_lower(d as int)],
{
    proof {
        reveal_strlit("0");
        reveal_strlit("1");
        reveal_strlit("2");
        reveal_strlit("3");
        reveal_strlit("4");
        reveal_strlit("5");
        reveal_strlit("6");
        reveal_strlit("7");
        reveal_strlit("8");
        reveal_strlit("9");
        reveal_strlit("a");
        reveal_strlit("b");
        reveal_strlit("c");
        reveal_strlit("d");
        reveal_strlit("e");
        reveal_strlit("f");
    }
    match d {
        0 => "0",
        1 => "1",
        2 => "2",
        3 => "3",
        4 => "4",
        5 => "5",
        6 => "6",
        7 => "7",
        8 => "8",
        9 => "9",
        10 => "a",
        11 => "b",
        12 => "c",
        13 => "d",
        14 => "e",
        _ => "f",
    }
}

/// The bytes as lower-case hex, two digits each, no separators.
pub fn hex(bytes: &[u8]) -> (s: String)
    ensures
        s@ == hex_text(bytes@),
{
    let mut s = String::new();
    let mut k: usize = 0;
    while k < bytes.len()
        invariant
            k <= bytes@.len(),
            s@ == hex_text(bytes@.take(k as int)),
        decreases bytes@.len() - k,
    {
        let b = bytes[k];
        s.append(hex_digit_str(b / 16));
        s.append(hex_digit_str(b % 16));
        assert(bytes@.take(k + 1).drop_last() =~= bytes@.take(k as int));
        assert(s@ =~= hex_text(bytes@.take(k + 1)));
        k = k + 1;
    }
    assert(bytes@.take(bytes@.len() as int) =~= bytes@);
    s
}

} // verus!
