use vstd::prelude::*;

use super::link::{hex2, hex_digit};

verus! {

/// Each byte as two upper-case hex digits and a space.
pub open spec fn hex_dump_of(bs: Seq<u8>) -> Seq<u8>
    decreases bs.len(),
{
    if bs.len() == 0 {
        Seq::empty()
    } else {
        hex_dump_of(bs.drop_last()) + hex2(bs.last()) + seq![32u8]
    }
}

/// How one byte reads in a text dump: printable ASCII as itself, carriage
/// return and line feed as `\r` and `\n`, anything else as `\xHH`.
pub open spec fn escaped(b: u8) -> Seq<u8> {
    if 32 <= b <= 126 {
        seq![b]
    } else if b == 13 {
        seq![92u8, 114u8]
    } else if b == 10 {
        seq![92u8, 110u8]
    } else {
        seq![92u8, 120u8] + hex2(b)
    }
}

/// The bytes as a text dump, each byte escaped.
pub open spec fn text_dump_of(bs: Seq<u8>) -> Seq<u8>
    decreases bs.len(),
{
    if bs.len() == 0 {
        Seq::empty()
    } else {
        text_dump_of(bs.drop_last()) + escaped(bs.last())
    }
}

/// The hex line of a raw dump: `XX ` per byte.
pub fn hex_dump(data: &[u8]) -> (out: Vec<u8>)
    ensures
        out@ == hex_dump_of(data@),
{
    let mut out: Vec<u8> = Vec::new();
    let mut k: usize = 0;
    while k < data.len()
        invariant
            k <= data@.len(),
            out@ == hex_dump_of(data@.take(k as int)),
        decreases data@.len() - k,
    {
        let b = data[k];
        out.push(hex_digit(b / 16));
        out.push(hex_digit(b % 16));
        out.push(32u8);
        assert(data@.take(k + 1).drop_last() =~= data@.take(k as int));
        assert(out@ =~= hex_dump_of(data@.take(k + 1)));
        k = k + 1;
    }
    assert(data@.take(data@.len() as int) =~= data@);
    out
}

/// The text line of a raw dump, each byte escaped (see [`escaped`]).
pub fn text_dump(data: &[u8]) -> (out: Vec<u8>)
    ensures
        out@ == text_dump_of(data@),
{
    let mut out: Vec<u8> = Vec::new();
    let mut k: usize = 0;
    while k < data.len()
        invariant
            k <= data@.len(),
            out@ == text_dump_of(data@.take(k as int)),
        decreases data@.len() - k,
    {
        let b = data[k];
        if 32 <= b && b <= 126 {
            out.push(b);
        } else if b == 13 {
            out.push(92u8);
            out.push(114u8);
        } else if b == 10 {
            out.push(92u8);
            out.push(110u8);
        } else {
            out.push(92u8);
            out.push(120u8);
            out.push(hex_digit(b / 16));
            out.push(hex_digit(b % 16));
        }
        assert(data@.take(k + 1).drop_last() =~= data@.take(k as int));
        assert(out@ =~= text_dump_of(data@.take(k + 1)));
        k = k + 1;
    }
    assert(data@.take(data@.len() as int) =~= data@);
    out
}

} // verus!
