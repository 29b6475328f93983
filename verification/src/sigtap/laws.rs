use vstd::prelude::*;

use super::wire::{
    crc16, crc_byte, crc_rounds, crc_shift, crc_body, crc_wire, decode, frame_len, le_i64, le_u16, le_u32, le_u64, lemma_step_moves,
    scan, step, RecordView, ScanOut, Step, HEADER_LEN, MAGIC0, MAGIC1, MAX_REPORT, OFF_RLEN,
    OFF_TYPE, OFF_VERSION, TYPE_SYNC, TYPE_TAP, VERSION,
};

verus! {

/// Scanning `a` and then, separately, what it kept followed by `b`.
pub open spec fn scan_in_two(a: Seq<u8>, b: Seq<u8>) -> ScanOut {
    let r1 = scan(a);
    let r2 = scan(r1.rest + b);
    ScanOut {
        records: r1.records + r2.records,
        crc_errors: r1.crc_errors + r2.crc_errors,
        rest: r2.rest,
    }
}

/// A decision taken on the bytes of `a` is taken the same way once more
/// bytes arrive behind them.
pub proof fn lemma_step_extend(a: Seq<u8>, b: Seq<u8>)
    requires
        !(step(a) is Wait),
    ensures
        step(a + b) == step(a),
{
    reveal(step);
    let s = a + b;
    assert(s[0] == a[0] && s[1] == a[1]);
    if a.len() >= HEADER_LEN {
        assert(s[OFF_RLEN as int] == a[OFF_RLEN as int]);
        assert(s[OFF_VERSION as int] == a[OFF_VERSION as int]);
        assert(s[OFF_TYPE as int] == a[OFF_TYPE as int]);
        let rlen = a[OFF_RLEN as int];
        if rlen <= MAX_REPORT && a.len() >= frame_len(rlen) {
            assert(crc_body(s) =~= crc_body(a));
            assert(s.subrange(33, 33 + rlen) =~= a.subrange(33, 33 + rlen));
            assert forall|k: int| 0 <= k < frame_len(rlen) implies s[k] == a[k] by {}
            assert(crc_wire(s) == crc_wire(a));
            assert(decode(s) == decode(a));
        }
    }
}

/// Feeding a stream in two pieces yields the same records, the same number
/// of rejected frames and the same kept tail as feeding it in one piece.
pub proof fn lemma_scan_split(a: Seq<u8>, b: Seq<u8>)
    ensures
        scan(a + b) == scan_in_two(a, b),
    decreases a.len(),
{
    lemma_step_moves(a);
    match step(a) {
        Step::Wait => {
            let e = Seq::<RecordView>::empty();
            assert(e + scan(a + b).records =~= scan(a + b).records);
        },
        _ => {
            lemma_step_extend(a, b);
            let k: int = match step(a) {
                Step::Emit(_, len) => len as int,
                _ => 1,
            };
            assert((a + b).skip(k) =~= a.skip(k) + b);
            lemma_scan_split(a.skip(k), b);
            let r1 = scan(a.skip(k));
            let r2 = scan(r1.rest + b);
            match step(a) {
                Step::Emit(rec, _) => {
                    assert(seq![rec] + (r1.records + r2.records) =~= (seq![rec] + r1.records)
                        + r2.records);
                },
                _ => {},
            }
        },
    }
}

/// Pushing `a` and then `b` into a parser holding `pending` gives what
/// pushing `a ++ b` at once gives: records, rejected frames and kept tail.
pub proof fn lemma_push_in_pieces(pending: Seq<u8>, a: Seq<u8>, b: Seq<u8>)
    ensures
        ({
            let first = scan(pending + a);
            let second = scan(first.rest + b);
            let whole = scan(pending + (a + b));
            &&& whole.records == first.records + second.records
            &&& whole.crc_errors == first.crc_errors + second.crc_errors
            &&& whole.rest == second.rest
        }),
{
    assert(pending + (a + b) =~= (pending + a) + b);
    lemma_scan_split(pending + a, b);
}

/// Bytes that hold no `MAGIC0` are skipped without a trace when more bytes
/// follow them.
pub proof fn lemma_skip_noise(g: Seq<u8>, s: Seq<u8>)
    requires
        forall|k: int| 0 <= k < g.len() ==> g[k] != MAGIC0,
        s.len() >= 1,
    ensures
        scan(g + s) == scan(s),
    decreases g.len(),
{
    if g.len() > 0 {
        let t = g + s;
        assert(step(t) is Skip) by {
            reveal(step);
        }
        assert(t.skip(1) =~= g.skip(1) + s);
        lemma_skip_noise(g.skip(1), s);
    } else {
        assert(g + s =~= s);
    }
}

/// Little-endian bytes of a `u16`.
pub open spec fn le_bytes16(v: u16) -> Seq<u8> {
    seq![(v & 0xff) as u8, ((v >> 8u16) & 0xff) as u8]
}

/// Little-endian bytes of a `u32`.
pub open spec fn le_bytes32(v: u32) -> Seq<u8> {
    seq![
        (v & 0xff) as u8,
        ((v >> 8u32) & 0xff) as u8,
        ((v >> 16u32) & 0xff) as u8,
        ((v >> 24u32) & 0xff) as u8,
    ]
}

/// Little-endian bytes of a `u64`.
pub open spec fn le_bytes64(v: u64) -> Seq<u8> {
    seq![
        (v & 0xff) as u8,
        ((v >> 8u64) & 0xff) as u8,
        ((v >> 16u64) & 0xff) as u8,
        ((v >> 24u64) & 0xff) as u8,
        ((v >> 32u64) & 0xff) as u8,
        ((v >> 40u64) & 0xff) as u8,
        ((v >> 48u64) & 0xff) as u8,
        ((v >> 56u64) & 0xff) as u8,
    ]
}

/// The body of a record as the firmware frames it: version through report.
pub open spec fn frame_body(
    typ: u8,
    seq: u32,
    t_cap_us: i64,
    t_sub_us: i64,
    t_emit_us: i64,
    report: Seq<u8>,
) -> Seq<u8> {
    seq![VERSION, typ] + le_bytes32(seq) + le_bytes64(t_cap_us as u64) + le_bytes64(
        t_sub_us as u64,
    ) + le_bytes64(t_emit_us as u64) + seq![report.len() as u8] + report
}

/// A whole record as the firmware writes it: magic, body, CRC16 of the body.
pub open spec fn frame(
    typ: u8,
    seq: u32,
    t_cap_us: i64,
    t_sub_us: i64,
    t_emit_us: i64,
    report: Seq<u8>,
) -> Seq<u8> {
    let body = frame_body(typ, seq, t_cap_us, t_sub_us, t_emit_us, report);
    seq![MAGIC0, MAGIC1] + body + le_bytes16(crc16(body))
}

/// The record a frame of the given type stands for.
pub open spec fn framed_record(
    typ: u8,
    seq: u32,
    t_cap_us: i64,
    t_sub_us: i64,
    t_emit_us: i64,
    report: Seq<u8>,
) -> RecordView {
    if typ == TYPE_TAP {
        RecordView::Tap { seq, t_cap_us, t_sub_us, t_emit_us, report }
    } else {
        RecordView::Sync { seq, t_emit_us }
    }
}

proof fn lemma_le16(v: u16)
    ensures
        le_u16(le_bytes16(v), 0) == v,
{
    let b = le_bytes16(v);
    let b0 = (v & 0xff) as u8;
    let b1 = ((v >> 8u16) & 0xff) as u8;
    assert(b[0] == b0 && b[1] == b1);
    assert((b0 as u16) | ((b1 as u16) << 8u16) == v) by (bit_vector)
        requires
            b0 == (v & 0xff) as u8,
            b1 == ((v >> 8u16) & 0xff) as u8,
    ;
}

proof fn lemma_le32(v: u32)
    ensures
        le_u32(le_bytes32(v), 0) == v,
{
    let b = le_bytes32(v);
    let b0 = (v & 0xff) as u8;
    let b1 = ((v >> 8u32) & 0xff) as u8;
    let b2 = ((v >> 16u32) & 0xff) as u8;
    let b3 = ((v >> 24u32) & 0xff) as u8;
    assert(b[0] == b0 && b[1] == b1 && b[2] == b2 && b[3] == b3);
    assert((b0 as u32) | ((b1 as u32) << 8u32) | ((b2 as u32) << 16u32) | ((b3 as u32) << 24u32)
        == v) by (bit_vector)
        requires
            b0 == (v & 0xff) as u8,
            b1 == ((v >> 8u32) & 0xff) as u8,
            b2 == ((v >> 16u32) & 0xff) as u8,
            b3 == ((v >> 24u32) & 0xff) as u8,
    ;
}

proof fn lemma_le64(t: i64)
    ensures
        le_i64(le_bytes64(t as u64), 0) == t,
{
    let v = t as u64;
    let b = le_bytes64(v);
    let b0 = (v & 0xff) as u8;
    let b1 = ((v >> 8u64) & 0xff) as u8;
    let b2 = ((v >> 16u64) & 0xff) as u8;
    let b3 = ((v >> 24u64) & 0xff) as u8;
    let b4 = ((v >> 32u64) & 0xff) as u8;
    let b5 = ((v >> 40u64) & 0xff) as u8;
    let b6 = ((v >> 48u64) & 0xff) as u8;
    let b7 = ((v >> 56u64) & 0xff) as u8;
    assert(b[0] == b0 && b[1] == b1 && b[2] == b2 && b[3] == b3);
    assert(b[4] == b4 && b[5] == b5 && b[6] == b6 && b[7] == b7);
    assert((b0 as u64) | ((b1 as u64) << 8u64) | ((b2 as u64) << 16u64) | ((b3 as u64) << 24u64)
        | ((b4 as u64) << 32u64) | ((b5 as u64) << 40u64) | ((b6 as u64) << 48u64) | ((b7 as u64)
        << 56u64) == v) by (bit_vector)
        requires
            b0 == (v & 0xff) as u8,
            b1 == ((v >> 8u64) & 0xff) as u8,
            b2 == ((v >> 16u64) & 0xff) as u8,
            b3 == ((v >> 24u64) & 0xff) as u8,
            b4 == ((v >> 32u64) & 0xff) as u8,
            b5 == ((v >> 40u64) & 0xff) as u8,
            b6 == ((v >> 48u64) & 0xff) as u8,
            b7 == ((v >> 56u64) & 0xff) as u8,
    ;
    assert((t as u64) as i64 == t) by (bit_vector);
}

/// What a little-endian field reads depends only on its own bytes.
proof fn lemma_fields_at(s: Seq<u8>, o: int, w: Seq<u8>)
    requires
        0 <= o,
        o + w.len() <= s.len(),
        s.subrange(o, o + w.len()) == w,
    ensures
        w.len() >= 2 ==> le_u16(s, o) == le_u16(w, 0),
        w.len() >= 4 ==> le_u32(s, o) == le_u32(w, 0),
        w.len() >= 8 ==> le_u64(s, o) == le_u64(w, 0),
{
    assert forall|k: int| 0 <= k < w.len() implies s[o + k] == w[k] by {
        assert(s.subrange(o, o + w.len())[k] == s[o + k]);
    }
    if w.len() >= 8 {
        assert(s[o + 4] == w[4] && s[o + 5] == w[5] && s[o + 6] == w[6] && s[o + 7] == w[7]);
    }
    if w.len() >= 4 {
        assert(s[o] == w[0] && s[o + 1] == w[1] && s[o + 2] == w[2] && s[o + 3] == w[3]);
    }
    if w.len() >= 2 {
        assert(s[o] == w[0] && s[o + 1] == w[1]);
    }
}

/// Where each field sits inside a frame body.
proof fn lemma_body_layout(
    typ: u8,
    seq: u32,
    t_cap_us: i64,
    t_sub_us: i64,
    t_emit_us: i64,
    report: Seq<u8>,
)
    ensures
        ({
            let body = frame_body(typ, seq, t_cap_us, t_sub_us, t_emit_us, report);
            &&& body.len() == 31 + report.len()
            &&& body[0] == VERSION
            &&& body[1] == typ
            &&& body.subrange(2, 6) == le_bytes32(seq)
            &&& body.subrange(6, 14) == le_bytes64(t_cap_us as u64)
            &&& body.subrange(14, 22) == le_bytes64(t_sub_us as u64)
            &&& body.subrange(22, 30) == le_bytes64(t_emit_us as u64)
            &&& body[30] == report.len() as u8
            &&& body.subrange(31, 31 + report.len() as int) == report
        }),
{
    let p1 = seq![VERSION, typ];
    let p2 = p1 + le_bytes32(seq);
    let p3 = p2 + le_bytes64(t_cap_us as u64);
    let p4 = p3 + le_bytes64(t_sub_us as u64);
    let p5 = p4 + le_bytes64(t_emit_us as u64);
    let p6 = p5 + seq![report.len() as u8];
    let body = p6 + report;
    assert(body == frame_body(typ, seq, t_cap_us, t_sub_us, t_emit_us, report));
    assert(body.subrange(31, 31 + report.len() as int) =~= report);
    assert(body.subrange(0, 31) =~= p6);
    assert(body.subrange(2, 6) =~= le_bytes32(seq)) by {
        assert(p6.subrange(2, 6) =~= le_bytes32(seq));
    }
    assert(body.subrange(6, 14) =~= le_bytes64(t_cap_us as u64)) by {
        assert(p6.subrange(6, 14) =~= le_bytes64(t_cap_us as u64));
    }
    assert(body.subrange(14, 22) =~= le_bytes64(t_sub_us as u64)) by {
        assert(p6.subrange(14, 22) =~= le_bytes64(t_sub_us as u64));
    }
    assert(body.subrange(22, 30) =~= le_bytes64(t_emit_us as u64)) by {
        assert(p6.subrange(22, 30) =~= le_bytes64(t_emit_us as u64));
    }
}

/// A record framed as the firmware frames it reads back as exactly that
/// record, whatever follows it in the stream.
pub proof fn lemma_frame_roundtrip(
    typ: u8,
    seq: u32,
    t_cap_us: i64,
    t_sub_us: i64,
    t_emit_us: i64,
    report: Seq<u8>,
    tail: Seq<u8>,
)
    requires
        report.len() <= MAX_REPORT,
        typ == TYPE_TAP || typ == TYPE_SYNC,
    ensures
        scan(frame(typ, seq, t_cap_us, t_sub_us, t_emit_us, report) + tail) == ({
            let r = scan(tail);
            ScanOut {
                records: seq![framed_record(typ, seq, t_cap_us, t_sub_us, t_emit_us, report)]
                    + r.records,
                crc_errors: r.crc_errors,
                rest: r.rest,
            }
        }),
{
    let body = frame_body(typ, seq, t_cap_us, t_sub_us, t_emit_us, report);
    let f = frame(typ, seq, t_cap_us, t_sub_us, t_emit_us, report);
    let s = f + tail;
    let rlen = report.len() as u8;
    let n: int = 35 + report.len() as int;
    lemma_body_layout(typ, seq, t_cap_us, t_sub_us, t_emit_us, report);
    assert(f.len() == n);
    assert(s.subrange(0, n) =~= f);
    assert(s.subrange(2, 33 + report.len() as int) =~= body);
    assert forall|k: int| 0 <= k < body.len() implies s[2 + k] == body[k] by {
        assert(s.subrange(2, 33 + report.len() as int)[k] == s[2 + k]);
    }
    assert(s.subrange(4, 8) =~= le_bytes32(seq)) by {
        assert forall|k: int| 0 <= k < 4 implies s[4 + k] == body.subrange(2, 6)[k] by {
            assert(s[2 + (2 + k)] == body[2 + k]);
        }
    }
    assert(s.subrange(8, 16) =~= le_bytes64(t_cap_us as u64)) by {
        assert forall|k: int| 0 <= k < 8 implies s[8 + k] == body.subrange(6, 14)[k] by {
            assert(s[2 + (6 + k)] == body[6 + k]);
        }
    }
    assert(s.subrange(16, 24) =~= le_bytes64(t_sub_us as u64)) by {
        assert forall|k: int| 0 <= k < 8 implies s[16 + k] == body.subrange(14, 22)[k] by {
            assert(s[2 + (14 + k)] == body[14 + k]);
        }
    }
    assert(s.subrange(24, 32) =~= le_bytes64(t_emit_us as u64)) by {
        assert forall|k: int| 0 <= k < 8 implies s[24 + k] == body.subrange(22, 30)[k] by {
            assert(s[2 + (22 + k)] == body[22 + k]);
        }
    }
    assert(s.subrange(33 + report.len() as int, n) =~= le_bytes16(crc16(body)));
    assert(s[0] == MAGIC0 && s[1] == MAGIC1);
    assert(s[2] == VERSION && s[3] == typ);
    assert(s[32] == rlen);
    assert(frame_len(s[32]) == n);
    assert(crc_body(s) =~= body);
    lemma_fields_at(s, 4, le_bytes32(seq));
    lemma_fields_at(s, 8, le_bytes64(t_cap_us as u64));
    lemma_fields_at(s, 16, le_bytes64(t_sub_us as u64));
    lemma_fields_at(s, 24, le_bytes64(t_emit_us as u64));
    lemma_fields_at(s, 33 + report.len() as int, le_bytes16(crc16(body)));
    lemma_le16(crc16(body));
    lemma_le32(seq);
    lemma_le64(t_cap_us);
    lemma_le64(t_sub_us);
    lemma_le64(t_emit_us);
    assert(crc_wire(s) == crc16(body));
    assert(s.subrange(33, 33 + s[OFF_RLEN as int]) =~= report);
    let rec = framed_record(typ, seq, t_cap_us, t_sub_us, t_emit_us, report);
    assert(decode(s) == Some(rec));
    assert(step(s) == Step::Emit(rec, n as nat)) by {
        reveal(step);
    }
    assert(s.skip(n as int) =~= tail);
}

/// The fields of one record as the firmware frames it.
pub struct FrameFields {
    pub typ: u8,
    pub seq: u32,
    pub t_cap_us: i64,
    pub t_sub_us: i64,
    pub t_emit_us: i64,
    pub report: Seq<u8>,
}

/// The frame of one record's fields.
pub open spec fn frame_of(f: FrameFields) -> Seq<u8> {
    frame(f.typ, f.seq, f.t_cap_us, f.t_sub_us, f.t_emit_us, f.report)
}

/// The record one frame stands for.
pub open spec fn record_of(f: FrameFields) -> RecordView {
    framed_record(f.typ, f.seq, f.t_cap_us, f.t_sub_us, f.t_emit_us, f.report)
}

/// The frames of several records, one after another.
pub open spec fn frames_of(fs: Seq<FrameFields>) -> Seq<u8>
    decreases fs.len(),
{
    if fs.len() == 0 {
        Seq::empty()
    } else {
        frame_of(fs[0]) + frames_of(fs.skip(1))
    }
}

/// The records several frames stand for, in order.
pub open spec fn records_of(fs: Seq<FrameFields>) -> Seq<RecordView> {
    fs.map_values(|f: FrameFields| record_of(f))
}

/// Every frame is a tap or a beacon with a report within the limit.
pub open spec fn frames_valid(fs: Seq<FrameFields>) -> bool {
    forall|i: int|
        0 <= i < fs.len() ==> (#[trigger] fs[i].typ == TYPE_TAP || fs[i].typ == TYPE_SYNC)
            && fs[i].report.len() <= MAX_REPORT
}

/// A stream of firmware frames decodes to exactly their records, in order,
/// with nothing rejected and nothing left over.
pub proof fn lemma_frames_decode(fs: Seq<FrameFields>)
    requires
        frames_valid(fs),
    ensures
        scan(frames_of(fs)) == (ScanOut {
            records: records_of(fs),
            crc_errors: 0,
            rest: Seq::<u8>::empty(),
        }),
    decreases fs.len(),
{
    if fs.len() == 0 {
        assert(step(Seq::<u8>::empty()) is Wait) by {
            reveal(step);
        }
        assert(records_of(fs) =~= Seq::<RecordView>::empty());
    } else {
        let f = fs[0];
        let rest = fs.skip(1);
        assert(frames_valid(rest)) by {
            assert forall|i: int| 0 <= i < rest.len() implies (#[trigger] rest[i].typ == TYPE_TAP
                || rest[i].typ == TYPE_SYNC) && rest[i].report.len() <= MAX_REPORT by {
                assert(rest[i] == fs[i + 1]);
            }
        }
        lemma_frames_decode(rest);
        assert(f.typ == TYPE_TAP || f.typ == TYPE_SYNC);
        lemma_frame_roundtrip(f.typ, f.seq, f.t_cap_us, f.t_sub_us, f.t_emit_us, f.report, frames_of(rest));
        assert(records_of(fs) =~= seq![record_of(f)] + records_of(rest));
    }
}

/// However a stream of firmware frames is split into two pushes, the
/// records that come out are exactly the frames' records, in order, with
/// nothing rejected and nothing kept.
pub proof fn lemma_frames_decode_split(fs: Seq<FrameFields>, a: Seq<u8>, b: Seq<u8>)
    requires
        frames_valid(fs),
        a + b == frames_of(fs),
    ensures
        ({
            let first = scan(a);
            let second = scan(first.rest + b);
            &&& first.records + second.records == records_of(fs)
            &&& first.crc_errors == 0
            &&& second.crc_errors == 0
            &&& second.rest.len() == 0
        }),
{
    lemma_frames_decode(fs);
    lemma_scan_split(a, b);
}

/// Feeding the register two bytes that hold its own value, high byte first,
/// clears it.
proof fn lemma_feed_own_value(c: u16)
    ensures
        crc_byte(crc_byte(c, (c >> 8u16) as u8), (c & 0xffu16) as u8) == 0,
{
    let lo: u16 = c & 0xff;
    assert(c ^ ((((c >> 8u16) as u8) as u16) << 8u16) == lo) by (bit_vector)
        requires
            lo == c & 0xff,
    ;
    assert(lo < 256) by (bit_vector)
        requires
            lo == c & 0xff,
    ;
    assert(crc_rounds(lo, 8) == crc_shift(crc_shift(crc_shift(crc_shift(crc_shift(crc_shift(
        crc_shift(crc_shift(lo))))))))) by {
        reveal_with_fuel(crc_rounds, 9);
    }
    assert(crc_shift(crc_shift(crc_shift(crc_shift(crc_shift(crc_shift(crc_shift(crc_shift(lo))))))))
        == lo << 8u16) by (bit_vector)
        requires
            lo < 256,
    ;
    let hi8: u16 = lo << 8u16;
    assert(hi8 ^ ((((c & 0xffu16) as u8) as u16) << 8u16) == 0) by (bit_vector)
        requires
            lo == c & 0xff,
            hi8 == lo << 8u16,
    ;
    assert(crc_rounds(0, 8) == crc_shift(crc_shift(crc_shift(crc_shift(crc_shift(crc_shift(
        crc_shift(crc_shift(0u16))))))))) by {
        reveal_with_fuel(crc_rounds, 9);
    }
    assert(crc_shift(crc_shift(crc_shift(crc_shift(crc_shift(crc_shift(crc_shift(crc_shift(0u16))))))))
        == 0) by (bit_vector);
}

/// The CRC of the data followed by its own CRC, high byte first, is zero.
pub proof fn lemma_crc_residue(data: Seq<u8>)
    ensures
        ({
            let c = crc16(data);
            crc16(data + seq![(c >> 8u16) as u8, (c & 0xffu16) as u8]) == 0
        }),
{
    let c = crc16(data);
    let s = data + seq![(c >> 8u16) as u8, (c & 0xffu16) as u8];
    let t = data + seq![(c >> 8u16) as u8];
    assert(s.drop_last() =~= t);
    assert(t.drop_last() =~= data);
    assert(t.last() == (c >> 8u16) as u8);
    assert(s.last() == (c & 0xffu16) as u8);
    assert(crc16(t) == crc_byte(c, (c >> 8u16) as u8));
    assert(crc16(s) == crc_byte(crc16(t), (c & 0xffu16) as u8));
    lemma_feed_own_value(c);
}

/// One register shift distributes over the exclusive or of three values.
proof fn lemma_shift_xor3(x: u16, y: u16, z: u16)
    ensures
        crc_shift(x) ^ crc_shift(y) ^ crc_shift(z) == crc_shift(x ^ y ^ z),
{
    assert(crc_shift(x) ^ crc_shift(y) ^ crc_shift(z) == crc_shift(x ^ y ^ z)) by (bit_vector);
}

/// Register shifts distribute over the exclusive or of three values.
proof fn lemma_rounds_xor3(x: u16, y: u16, z: u16, k: nat)
    ensures
        crc_rounds(x, k) ^ crc_rounds(y, k) ^ crc_rounds(z, k) == crc_rounds(x ^ y ^ z, k),
    decreases k,
{
    if k > 0 {
        lemma_rounds_xor3(x, y, z, (k - 1) as nat);
        lemma_shift_xor3(
            crc_rounds(x, (k - 1) as nat),
            crc_rounds(y, (k - 1) as nat),
            crc_rounds(z, (k - 1) as nat),
        );
    }
}

/// Byte by byte exclusive or of three sequences of one length.
pub open spec fn xor3(a: Seq<u8>, b: Seq<u8>, c: Seq<u8>) -> Seq<u8> {
    Seq::new(a.len(), |i: int| a[i] ^ b[i] ^ c[i])
}

/// For data of one length the CRC is affine over exclusive or: the CRCs of
/// three messages combine as the CRC of their combination.
pub proof fn lemma_crc_affine(a: Seq<u8>, b: Seq<u8>, c: Seq<u8>)
    requires
        a.len() == b.len(),
        b.len() == c.len(),
    ensures
        crc16(a) ^ crc16(b) ^ crc16(c) == crc16(xor3(a, b, c)),
    decreases a.len(),
{
    if a.len() == 0 {
        assert(0xFFFFu16 ^ 0xFFFFu16 ^ 0xFFFFu16 == 0xFFFFu16) by (bit_vector);
    } else {
        let x = xor3(a, b, c);
        lemma_crc_affine(a.drop_last(), b.drop_last(), c.drop_last());
        assert(x.drop_last() =~= xor3(a.drop_last(), b.drop_last(), c.drop_last()));
        let (ra, rb, rc) = (crc16(a.drop_last()), crc16(b.drop_last()), crc16(c.drop_last()));
        let (p, q, r) = (a.last(), b.last(), c.last());
        assert(x.last() == p ^ q ^ r);
        let u: u16 = ra ^ ((p as u16) << 8u16);
        let v: u16 = rb ^ ((q as u16) << 8u16);
        let w: u16 = rc ^ ((r as u16) << 8u16);
        assert(u ^ v ^ w == (ra ^ rb ^ rc) ^ (((p ^ q ^ r) as u16) << 8u16)) by (bit_vector)
            requires
                u == ra ^ ((p as u16) << 8u16),
                v == rb ^ ((q as u16) << 8u16),
                w == rc ^ ((r as u16) << 8u16),
        ;
        lemma_rounds_xor3(u, v, w, 8);
    }
}

} // verus!
