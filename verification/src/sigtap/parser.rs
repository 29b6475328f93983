use vstd::prelude::*;
use vstd::slice::slice_subrange;
use vstd::slice::slice_to_vec;

use super::record::{Record, Sync, Tap, records_view};
use super::wire::{
    crc16_ccitt, lemma_step_moves, report_fits, crc_body, crc_wire, rd_i64, rd_u16, rd_u32, scan, step, RecordView, ScanOut, Step, HEADER_LEN,
    MAGIC0, MAGIC1, MAX_FRAME, MAX_REPORT, OFF_REPORT, OFF_RLEN, OFF_SEQ, OFF_TYPE, OFF_T_CAP,
    OFF_T_EMIT, OFF_T_SUB, OFF_VERSION, TYPE_SYNC, TYPE_TAP, VERSION,
};

verus! {

/// Appends `data` to `v`, byte by byte.
pub fn append_bytes(v: &mut Vec<u8>, data: &[u8])
    ensures
        final(v)@ == old(v)@ + data@,
{
    let mut k: usize = 0;
    while k < data.len()
        invariant
            k <= data@.len(),
            v@ == old(v)@ + data@.take(k as int),
        decreases data@.len() - k,
    {
        v.push(data[k]);
        assert(data@.take(k + 1) =~= data@.take(k as int).push(data@[k as int]));
        k = k + 1;
    }
    assert(data@.take(data@.len() as int) =~= data@);
}

/// Scanning never keeps more than one record's worth of bytes, counts at
/// most one error per byte scanned, takes at least 35 bytes (header and CRC)
/// per record, and yields only reports within the firmware's limit.
pub proof fn lemma_scan_bounds(s: Seq<u8>)
    ensures
        scan(s).rest.len() < MAX_FRAME,
        scan(s).crc_errors <= s.len(),
        scan(s).rest.len() <= s.len(),
        scan(s).records.len() * 35 <= s.len(),
        forall|k: int| 0 <= k < scan(s).records.len() ==> report_fits(#[trigger] scan(s).records[k]),
    decreases s.len(),
{
    lemma_step_moves(s);
    match step(s) {
        Step::Wait => {},
        Step::Skip => lemma_scan_bounds(s.skip(1)),
        Step::Corrupt => lemma_scan_bounds(s.skip(1)),
        Step::Emit(rec, len) => {
            lemma_scan_bounds(s.skip(len as int));
            assert(len >= 35 && report_fits(rec)) by {
                reveal(step);
            }
            let r = scan(s.skip(len as int));
            assert(scan(s).records == seq![rec] + r.records);
            assert forall|k: int| 0 <= k < scan(s).records.len() implies report_fits(
                #[trigger] scan(s).records[k],
            ) by {
                if k > 0 {
                    assert(scan(s).records[k] == r.records[k - 1]);
                }
            }
        },
    }
}

/// Scanning at offset `i` after a step that moves by `k` bytes continues at
/// offset `i + k`.
pub proof fn lemma_scan_advance(full: Seq<u8>, i: int, k: int)
    requires
        0 <= i < full.len(),
        match step(full.skip(i)) {
            Step::Skip | Step::Corrupt => k == 1,
            Step::Emit(_, len) => k == len,
            Step::Wait => false,
        },
        i + k <= full.len(),
    ensures
        full.skip(i).skip(k) == full.skip(i + k),
        scan(full.skip(i)) == match step(full.skip(i)) {
            Step::Corrupt => {
                let r = scan(full.skip(i + k));
                ScanOut { records: r.records, crc_errors: r.crc_errors + 1, rest: r.rest }
            },
            Step::Emit(rec, _) => {
                let r = scan(full.skip(i + k));
                ScanOut { records: seq![rec] + r.records, crc_errors: r.crc_errors, rest: r.rest }
            },
            _ => scan(full.skip(i + k)),
        },
{
    assert(full.skip(i).skip(k) =~= full.skip(i + k));
}

/// Streaming, resynchronising record parser.
pub struct Parser {
    buf: Vec<u8>,
    /// Records whose CRC failed (corruption / false magic that still framed).
    pub crc_errors: u64,
}

impl Parser {
    /// The bytes received but not yet consumed by a complete record.
    pub closed spec fn pending(&self) -> Seq<u8> {
        self.buf@
    }

    /// The number of frames rejected so far: the public `crc_errors`.
    pub closed spec fn errors(&self) -> u64 {
        self.crc_errors
    }

    /// The number of frames rejected so far, as `errors` states it (the same
    /// value as the public `crc_errors`).
    pub fn error_count(&self) -> (n: u64)
        ensures
            n == self.errors(),
    {
        self.crc_errors
    }

    pub fn new() -> (p: Self)
        ensures
            p.pending() == Seq::<u8>::empty(),
            p.errors() == 0,
    {
        Parser { buf: Vec::with_capacity(512), crc_errors: 0 }
    }

    /// Feeds freshly read bytes; appends every complete record to `out`.
    ///
    /// The bytes scanned are the kept tail followed by `data`; records come
    /// out in stream order, rejected frames are counted, and the tail that
    /// could still start a record is kept for the next call.
    pub fn push(&mut self, data: &[u8], out: &mut Vec<Record>)
        requires
            old(self).errors() + old(self).pending().len() + data@.len() <= u64::MAX,
        ensures
            records_view(final(out)@) == records_view(old(out)@) + scan(
                old(self).pending() + data@,
            ).records,
            final(self).errors() == old(self).errors() + scan(
                old(self).pending() + data@,
            ).crc_errors,
            final(self).pending() == scan(old(self).pending() + data@).rest,
            final(self).pending().len() < MAX_FRAME,
            (final(out)@.len() - old(out)@.len()) * 35 <= old(self).pending().len() + data@.len(),
            forall|k: int|
                old(out)@.len() <= k < final(out)@.len() ==> report_fits(
                    #[trigger] records_view(final(out)@)[k],
                ),
    {
        append_bytes(&mut self.buf, data);
        let ghost full = self.buf@;
        let ghost out0 = records_view(out@);
        let ghost errs0 = self.crc_errors;
        proof {
            lemma_scan_bounds(full);
        }
        let n = self.buf.len();
        let mut i: usize = 0;
        let ghost mut acc: Seq<RecordView> = Seq::empty();
        proof {
            assert(full.skip(0) =~= full);
            assert(acc + scan(full).records =~= scan(full).records);
            assert(records_view(out@) =~= out0 + acc);
        }
        loop
            invariant
                self.buf@ == full,
                n == full.len(),
                i <= n,
                full == old(self).pending() + data@,
                errs0 == old(self).crc_errors,
                out0 == records_view(old(out)@),
                scan(full).crc_errors <= full.len(),
                errs0 + full.len() <= u64::MAX,
                records_view(out@) == out0 + acc,
                scan(full).records == acc + scan(full.skip(i as int)).records,
                scan(full).rest == scan(full.skip(i as int)).rest,
                self.crc_errors + scan(full.skip(i as int)).crc_errors == errs0 + scan(
                    full,
                ).crc_errors,
            ensures
                step(full.skip(i as int)) is Wait,
                i <= n,
                self.buf@ == full,
                records_view(out@) == out0 + acc,
                scan(full).records == acc + scan(full.skip(i as int)).records,
                scan(full).rest == scan(full.skip(i as int)).rest,
                self.crc_errors + scan(full.skip(i as int)).crc_errors == errs0 + scan(
                    full,
                ).crc_errors,
            decreases n - i,
        {
            let ghost s = full.skip(i as int);
            if n - i < 2 {
                assert(step(s) is Wait) by {
                    reveal(step);
                }
                break;
            }
            if !(self.buf[i] == MAGIC0 && self.buf[i + 1] == MAGIC1) {
                proof {
                    assert(step(s) is Skip) by {
                        reveal(step);
                    }
                    lemma_scan_advance(full, i as int, 1);
                }
                i = i + 1;
                continue;
            }
            if n - i < HEADER_LEN {
                assert(step(s) is Wait) by {
                    reveal(step);
                }
                break;
            }
            let rlen = self.buf[i + OFF_RLEN] as usize;
            if rlen > MAX_REPORT {
                proof {
                    assert(step(s) is Skip) by {
                        reveal(step);
                    }
                    lemma_scan_advance(full, i as int, 1);
                }
                i = i + 1;
                continue;
            }
            let total = OFF_REPORT + rlen + 2;
            if n - i < total {
                assert(step(s) is Wait) by {
                    reveal(step);
                }
                break;
            }
            let body = slice_subrange(self.buf.as_slice(), i + OFF_VERSION, i + OFF_REPORT + rlen);
            assert(body@ =~= crc_body(s));
            let crc_calc = crc16_ccitt(body);
            let crc_wire_v = rd_u16(self.buf.as_slice(), i + OFF_REPORT + rlen);
            assert(crc_wire_v == crc_wire(s));
            if self.buf[i + OFF_VERSION] != VERSION || crc_calc != crc_wire_v {
                proof {
                    assert(step(s) is Corrupt) by {
                        reveal(step);
                    }
                    lemma_scan_advance(full, i as int, 1);
                }
                self.crc_errors = self.crc_errors + 1;
                i = i + 1;
                continue;
            }
            let seq = rd_u32(self.buf.as_slice(), i + OFF_SEQ);
            let typ = self.buf[i + OFF_TYPE];
            let rec;
            if typ == TYPE_TAP {
                let t_cap_us = rd_i64(self.buf.as_slice(), i + OFF_T_CAP);
                let t_sub_us = rd_i64(self.buf.as_slice(), i + OFF_T_SUB);
                let t_emit_us = rd_i64(self.buf.as_slice(), i + OFF_T_EMIT);
                let rep = slice_subrange(self.buf.as_slice(), i + OFF_REPORT, i + OFF_REPORT + rlen);
                let report = slice_to_vec(rep);
                rec = Record::Tap(Tap { seq, t_cap_us, t_sub_us, t_emit_us, report });
                assert(report@ =~= s.subrange(OFF_REPORT as int, OFF_REPORT + s[OFF_RLEN as int]));
            } else if typ == TYPE_SYNC {
                let t_emit_us = rd_i64(self.buf.as_slice(), i + OFF_T_EMIT);
                rec = Record::Sync(Sync { seq, t_emit_us });
            } else {
                proof {
                    assert(step(s) is Skip) by {
                        reveal(step);
                    }
                    lemma_scan_advance(full, i as int, 1);
                }
                i = i + 1;
                continue;
            }
            assert(step(s) == Step::Emit(rec@, total as nat)) by {
                reveal(step);
            }
            let ghost before = out@;
            out.push(rec);
            proof {
                assert(records_view(out@) =~= records_view(before).push(rec@));
                lemma_scan_advance(full, i as int, total as int);
                let r1 = scan(full.skip(i + total));
                assert(acc.push(rec@) + r1.records =~= acc + (seq![rec@] + r1.records));
                acc = acc.push(rec@);
            }
            i = i + total;
        }
        let rest = self.buf.split_off(i);
        self.buf = rest;
        proof {
            let r = scan(full.skip(i as int));
            assert(r.records =~= Seq::<RecordView>::empty());
            assert(acc + r.records =~= acc);
        }
    }
}

impl Default for Parser {
    fn default() -> (p: Self)
        ensures
            p.pending() == Seq::<u8>::empty(),
            p.errors() == 0,
    {
        Parser::new()
    }
}

} // verus!
