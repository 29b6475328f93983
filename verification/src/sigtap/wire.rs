use vstd::prelude::*;

verus! {

/// One left shift of the CCITT register, folding in the polynomial when the
/// top bit falls out.
pub open spec fn crc_shift(crc: u16) -> u16 {
    if crc & 0x8000 != 0 {
        ((crc << 1u16) ^ 0x1021u16) as u16
    } else {
        (crc << 1u16) as u16
    }
}

/// `k` successive register shifts.
pub open spec fn crc_rounds(crc: u16, k: nat) -> u16
    decreases k,
{
    if k == 0 {
        crc
    } else {
        crc_shift(crc_rounds(crc, (k - 1) as nat))
    }
}

/// Feeds one byte into the register.
pub open spec fn crc_byte(crc: u16, b: u8) -> u16 {
    crc_rounds(crc ^ ((b as u16) << 8u16), 8)
}

/// CRC16 CCITT-FALSE (poly 0x1021, init 0xFFFF, no reflection, no final xor).
pub open spec fn crc16(s: Seq<u8>) -> u16
    decreases s.len(),
{
    if s.len() == 0 {
        0xFFFFu16
    } else {
        crc_byte(crc16(s.drop_last()), s.last())
    }
}

/// CCITT-FALSE (poly 0x1021, init 0xFFFF), the checksum the firmware appends
/// to each record.
pub fn crc16_ccitt(data: &[u8]) -> (crc: u16)
    ensures
        crc == crc16(data@),
{
    let mut crc: u16 = 0xFFFF;
    let mut i: usize = 0;
    while i < data.len()
        invariant
            i <= data.len(),
            crc == crc16(data@.take(i as int)),
        decreases data.len() - i,
    {
        let b = data[i];
        let start: u16 = crc ^ ((b as u16) << 8u16);
        crc = start;
        let mut k: u32 = 0;
        while k < 8
            invariant
                k <= 8,
                crc == crc_rounds(start, k as nat),
            decreases 8 - k,
        {
            crc = if crc & 0x8000 != 0 {
                (crc << 1u16) ^ 0x1021
            } else {
                crc << 1u16
            };
            k = k + 1;
        }
        assert(data@.take(i + 1).drop_last() =~= data@.take(i as int));
        i = i + 1;
    }
    assert(data@.take(data.len() as int) =~= data@);
    crc
}


pub const MAGIC0: u8 = 0xAA;

pub const MAGIC1: u8 = 0x55;

pub const VERSION: u8 = 0x01;

pub const TYPE_TAP: u8 = 1;

pub const TYPE_SYNC: u8 = 2;

/// Largest report a record may carry (the firmware's full-speed packet size).
pub const MAX_REPORT: usize = 64;

// Byte offsets inside a record, measured from MAGIC0.
pub const OFF_VERSION: usize = 2;

pub const OFF_TYPE: usize = 3;

pub const OFF_SEQ: usize = 4;

pub const OFF_T_CAP: usize = 8;

pub const OFF_T_SUB: usize = 16;

pub const OFF_T_EMIT: usize = 24;

pub const OFF_RLEN: usize = 32;

pub const OFF_REPORT: usize = 33;

/// Smallest prefix that sizes a record: everything through `rlen`.
pub const HEADER_LEN: usize = 33;

/// Length of the longest record: header, a maximal report and the CRC.
pub const MAX_FRAME: usize = 99;

/// Little-endian `u16` at offset `o`.
pub open spec fn le_u16(s: Seq<u8>, o: int) -> u16 {
    (s[o] as u16) | ((s[o + 1] as u16) << 8u16)
}

/// Little-endian `u32` at offset `o`.
pub open spec fn le_u32(s: Seq<u8>, o: int) -> u32 {
    (s[o] as u32) | ((s[o + 1] as u32) << 8u32) | ((s[o + 2] as u32) << 16u32) | ((s[o + 3] as u32)
        << 24u32)
}

/// Little-endian `u64` at offset `o`.
pub open spec fn le_u64(s: Seq<u8>, o: int) -> u64 {
    (s[o] as u64) | ((s[o + 1] as u64) << 8u64) | ((s[o + 2] as u64) << 16u64) | ((s[o + 3] as u64)
        << 24u64) | ((s[o + 4] as u64) << 32u64) | ((s[o + 5] as u64) << 40u64) | ((s[o
        + 6] as u64) << 48u64) | ((s[o + 7] as u64) << 56u64)
}

/// Little-endian two's-complement `i64` at offset `o`.
pub open spec fn le_i64(s: Seq<u8>, o: int) -> i64 {
    le_u64(s, o) as i64
}

pub fn rd_u16(b: &[u8], o: usize) -> (v: u16)
    requires
        o + 2 <= b@.len(),
    ensures
        v == le_u16(b@, o as int),
{
    (b[o] as u16) | ((b[o + 1] as u16) << 8u16)
}

pub fn rd_u32(b: &[u8], o: usize) -> (v: u32)
    requires
        o + 4 <= b@.len(),
    ensures
        v == le_u32(b@, o as int),
{
    (b[o] as u32) | ((b[o + 1] as u32) << 8u32) | ((b[o + 2] as u32) << 16u32) | ((b[o + 3] as u32)
        << 24u32)
}

pub fn rd_i64(b: &[u8], o: usize) -> (v: i64)
    requires
        o + 8 <= b@.len(),
    ensures
        v == le_i64(b@, o as int),
{
    let u: u64 = (b[o] as u64) | ((b[o + 1] as u64) << 8u64) | ((b[o + 2] as u64) << 16u64) | ((b[o
        + 3] as u64) << 24u64) | ((b[o + 4] as u64) << 32u64) | ((b[o + 5] as u64) << 40u64) | ((b[o
        + 6] as u64) << 48u64) | ((b[o + 7] as u64) << 56u64);
    u as i64
}

/// A decoded record, as a mathematical value.
pub enum RecordView {
    Tap { seq: u32, t_cap_us: i64, t_sub_us: i64, t_emit_us: i64, report: Seq<u8> },
    Sync { seq: u32, t_emit_us: i64 },
}

/// A record's report fits the firmware's limit (a beacon carries none).
pub open spec fn report_fits(r: RecordView) -> bool {
    match r {
        RecordView::Tap { report, .. } => report.len() <= MAX_REPORT,
        RecordView::Sync { .. } => true,
    }
}

/// What the scanner does at the head of the unparsed bytes.
pub enum Step {
    /// Not enough bytes yet to decide; keep them for the next push.
    Wait,
    /// No record starts here; move on by one byte.
    Skip,
    /// A framed record whose version or CRC does not check out; counted,
    /// then passed by one byte.
    Corrupt,
    /// A valid record of the given length.
    Emit(RecordView, nat),
}

/// Total length of a record carrying `rlen` report bytes.
pub open spec fn frame_len(rlen: u8) -> nat {
    (HEADER_LEN + rlen + 2) as nat
}

/// The record body covered by the CRC: version through the report.
pub open spec fn crc_body(s: Seq<u8>) -> Seq<u8> {
    s.subrange(OFF_VERSION as int, OFF_REPORT + s[OFF_RLEN as int])
}

/// The CRC carried after the report.
pub open spec fn crc_wire(s: Seq<u8>) -> u16 {
    le_u16(s, OFF_REPORT + s[OFF_RLEN as int])
}

/// The record a valid frame at the head of `s` decodes to, by its type byte.
pub open spec fn decode(s: Seq<u8>) -> Option<RecordView> {
    if s[OFF_TYPE as int] == TYPE_TAP {
        Some(
            RecordView::Tap {
                seq: le_u32(s, OFF_SEQ as int),
                t_cap_us: le_i64(s, OFF_T_CAP as int),
                t_sub_us: le_i64(s, OFF_T_SUB as int),
                t_emit_us: le_i64(s, OFF_T_EMIT as int),
                report: s.subrange(OFF_REPORT as int, OFF_REPORT + s[OFF_RLEN as int]),
            },
        )
    } else if s[OFF_TYPE as int] == TYPE_SYNC {
        Some(RecordView::Sync { seq: le_u32(s, OFF_SEQ as int), t_emit_us: le_i64(s, OFF_T_EMIT as int) })
    } else {
        None
    }
}

/// Classifies the head of the unparsed bytes.
#[verifier::opaque]
pub open spec fn step(s: Seq<u8>) -> Step {
    if s.len() < 2 {
        Step::Wait
    } else if !(s[0] == MAGIC0 && s[1] == MAGIC1) {
        Step::Skip
    } else if s.len() < HEADER_LEN {
        Step::Wait
    } else if s[OFF_RLEN as int] > MAX_REPORT {
        Step::Skip
    } else if s.len() < frame_len(s[OFF_RLEN as int]) {
        Step::Wait
    } else if s[OFF_VERSION as int] != VERSION || crc16(crc_body(s)) != crc_wire(s) {
        Step::Corrupt
    } else {
        match decode(s) {
            Some(r) => Step::Emit(r, frame_len(s[OFF_RLEN as int])),
            None => Step::Skip,
        }
    }
}

/// Every step that moves on moves by at least one byte and stays within `s`;
/// a wait keeps less than one maximal frame.
pub proof fn lemma_step_moves(s: Seq<u8>)
    ensures
        step(s) is Skip || step(s) is Corrupt ==> s.len() >= 2,
        step(s) matches Step::Emit(_, len) ==> 1 <= len <= s.len(),
        step(s) is Wait ==> s.len() < MAX_FRAME,
{
    reveal(step);
}

#[via_fn]
proof fn scan_decreases(s: Seq<u8>) {
    lemma_step_moves(s);
}

/// The outcome of scanning a byte sequence: the records found, the frames
/// rejected by version or CRC, and the unparsed tail kept for later.
pub struct ScanOut {
    pub records: Seq<RecordView>,
    pub crc_errors: nat,
    pub rest: Seq<u8>,
}

/// Scans `s` from its first byte, resynchronising on the magic pair.
pub open spec fn scan(s: Seq<u8>) -> ScanOut
    decreases s.len(),
    via scan_decreases
{
    match step(s) {
        Step::Wait => ScanOut { records: Seq::empty(), crc_errors: 0, rest: s },
        Step::Skip => scan(s.skip(1)),
        Step::Corrupt => {
            let r = scan(s.skip(1));
            ScanOut { records: r.records, crc_errors: r.crc_errors + 1, rest: r.rest }
        },
        Step::Emit(rec, len) => {
            let r = scan(s.skip(len as int));
            ScanOut { records: seq![rec] + r.records, crc_errors: r.crc_errors, rest: r.rest }
        },
    }
}

} // verus!
