use vstd::prelude::*;
use vstd::slice::slice_to_vec;
use std::collections::VecDeque;

use crate::sigtap::record::{Record, Tap};
use super::clock::ClockModel;
use super::report::{reports_agree, reports_match};

verus! {

/// Most reports waiting on either side before the oldest is given up.
pub const QUEUE_CAP: usize = 16384;

/// How far ahead the matcher looks for a report that went missing on one side.
pub const LOOKAHEAD: usize = 32;

/// How many raw reports of each side are kept for the diagnostic.
pub const SAMPLE_CAP: usize = 12;

/// A keyboard report as the host's HID layer delivered it.
pub struct HidEvent {
    pub report: Vec<u8>,
    /// Host nanoseconds of the delivery (kernel timestamp).
    pub host_ts_ns: i64,
}

/// How starting the HID capture went.
pub enum Startup {
    /// Capturing from this many matching devices.
    Ready(usize),
    /// The capture could not start.
    Error(String),
}

/// A record from the serial line, with the host time at which it arrived.
pub struct SerialEvent {
    pub rec: Record,
    /// Host nanoseconds when the chunk carrying this record was read.
    pub host_recv_ns: i64,
}

/// The report bytes of each tap.
pub open spec fn tap_reports(ts: Seq<Tap>) -> Seq<Seq<u8>> {
    ts.map_values(|t: Tap| t.report@)
}

/// The report bytes of each HID event.
pub open spec fn hid_reports(hs: Seq<HidEvent>) -> Seq<Seq<u8>> {
    hs.map_values(|h: HidEvent| h.report@)
}

/// The first position in `j..k` whose report pairs with `target`.
pub open spec fn first_agreeing(rs: Seq<Seq<u8>>, target: Seq<u8>, j: int, k: int) -> Option<int>
    decreases k - j,
{
    if j >= k {
        None
    } else if reports_agree(rs[j], target) {
        Some(j)
    } else {
        first_agreeing(rs, target, j + 1, k)
    }
}

/// `n`, but no more than the look-ahead.
pub open spec fn within_lookahead(n: nat) -> int {
    if n < LOOKAHEAD {
        n as int
    } else {
        LOOKAHEAD as int
    }
}

/// What the matcher does with the two queues' fronts.
pub enum Move {
    /// Nothing more can be decided until more reports arrive.
    Stop,
    /// The fronts pair up.
    Pair,
    /// Give up this many taps: the HID front reappears among the taps there.
    DropTaps(int),
    /// Give up this many HID reports: the tap front reappears among them there.
    DropHids(int),
    /// Give up one of each: no pairing within the look-ahead on either side.
    DropBoth,
}

/// The matcher's decision for taps `ts` and HID reports `hs` (report bytes).
/// Equal fronts pair up; otherwise the nearest later report that pairs with
/// the other side's front decides which side lost reports (the HID side when
/// both are as near); with none in sight, one of each is dropped once both
/// queues hold a full look-ahead, and otherwise the matcher waits.
pub open spec fn next_move(ts: Seq<Seq<u8>>, hs: Seq<Seq<u8>>) -> Move {
    if ts.len() == 0 || hs.len() == 0 {
        Move::Stop
    } else if reports_agree(ts[0], hs[0]) {
        Move::Pair
    } else {
        let hj = first_agreeing(hs, ts[0], 1, within_lookahead(hs.len()));
        let ti = first_agreeing(ts, hs[0], 1, within_lookahead(ts.len()));
        match (hj, ti) {
            (Some(j), Some(i)) => if j <= i {
                Move::DropHids(j)
            } else {
                Move::DropTaps(i)
            },
            (Some(j), None) => Move::DropHids(j),
            (None, Some(i)) => Move::DropTaps(i),
            (None, None) => if ts.len() >= LOOKAHEAD && hs.len() >= LOOKAHEAD {
                Move::DropBoth
            } else {
                Move::Stop
            },
        }
    }
}

/// A found position lies in the searched range.
pub proof fn lemma_first_agreeing_range(rs: Seq<Seq<u8>>, target: Seq<u8>, j: int, k: int)
    ensures
        match first_agreeing(rs, target, j, k) {
            Some(x) => j <= x < k && reports_agree(rs[x], target) && (forall|y: int|
                j <= y < x ==> !reports_agree(#[trigger] rs[y], target)),
            None => forall|y: int| j <= y < k ==> !reports_agree(#[trigger] rs[y], target),
        },
    decreases k - j,
{
    if j < k {
        lemma_first_agreeing_range(rs, target, j + 1, k);
    }
}

/// Every move that is not a stop takes at least one report off each queue it
/// names, and no more than the queue holds.
pub proof fn lemma_next_move_bounds(ts: Seq<Seq<u8>>, hs: Seq<Seq<u8>>)
    ensures
        match next_move(ts, hs) {
            Move::Stop => true,
            Move::Pair => ts.len() >= 1 && hs.len() >= 1,
            Move::DropTaps(i) => 1 <= i < ts.len(),
            Move::DropHids(j) => 1 <= j < hs.len(),
            Move::DropBoth => ts.len() >= 1 && hs.len() >= 1,
        },
{
    if ts.len() > 0 && hs.len() > 0 {
        lemma_first_agreeing_range(hs, ts[0], 1, within_lookahead(hs.len()));
        lemma_first_agreeing_range(ts, hs[0], 1, within_lookahead(ts.len()));
    }
}

/// What correlating two queues gives: the pairs in order, what is left
/// waiting on each side, and how many reports each side gave up.
pub struct Correlation {
    pub pairs: Seq<(Tap, HidEvent)>,
    pub taps: Seq<Tap>,
    pub hids: Seq<HidEvent>,
    pub tap_drops: nat,
    pub hid_drops: nat,
}

/// The matcher run on `ts` and `hs` until it stops.
pub open spec fn correlation(ts: Seq<Tap>, hs: Seq<HidEvent>) -> Correlation
    decreases ts.len() + hs.len(),
{
    proof {
        lemma_next_move_bounds(tap_reports(ts), hid_reports(hs));
    }
    match next_move(tap_reports(ts), hid_reports(hs)) {
        Move::Stop => Correlation { pairs: Seq::empty(), taps: ts, hids: hs, tap_drops: 0, hid_drops: 0 },
        Move::Pair => {
            let r = correlation(ts.skip(1), hs.skip(1));
            Correlation { pairs: seq![(ts[0], hs[0])] + r.pairs, ..r }
        },
        Move::DropTaps(i) => {
            let r = correlation(ts.skip(i), hs);
            Correlation { tap_drops: r.tap_drops + i as nat, ..r }
        },
        Move::DropHids(j) => {
            let r = correlation(ts, hs.skip(j));
            Correlation { hid_drops: r.hid_drops + j as nat, ..r }
        },
        Move::DropBoth => {
            let r = correlation(ts.skip(1), hs.skip(1));
            Correlation { tap_drops: r.tap_drops + 1, hid_drops: r.hid_drops + 1, ..r }
        },
    }
}

/// The matcher's state, as its contracts see it.
pub struct SessionView {
    pub clock: ClockModel,
    pub taps: Seq<Tap>,
    pub hids: Seq<HidEvent>,
    pub matched: u64,
    pub tap_unmatched: u64,
    pub hid_unmatched: u64,
    pub first_seq: Option<u32>,
    pub last_seq: u32,
    pub recs: u64,
    pub sample_taps: Seq<Seq<u8>>,
    pub sample_hids: Seq<Seq<u8>>,
    /// Taps received so far.
    pub taps_in: nat,
    /// HID reports received so far.
    pub hids_in: nat,
}

/// One measurement run: the clock beacons, the taps and HID reports waiting
/// to be paired, and the counts of what paired, what was given up and what
/// arrived on the serial line.
pub struct Session {
    clock: ClockModel,
    taps: VecDeque<Tap>,
    hids: VecDeque<HidEvent>,
    matched: u64,
    tap_unmatched: u64,
    hid_unmatched: u64,
    first_seq: Option<u32>,
    last_seq: u32,
    recs: u64,
    sample_taps: Vec<Vec<u8>>,
    sample_hids: Vec<Vec<u8>>,
    taps_in: Ghost<nat>,
    hids_in: Ghost<nat>,
}

impl View for Session {
    type V = SessionView;

    closed spec fn view(&self) -> SessionView {
        SessionView {
            clock: self.clock,
            taps: self.taps@,
            hids: self.hids@,
            matched: self.matched,
            tap_unmatched: self.tap_unmatched,
            hid_unmatched: self.hid_unmatched,
            first_seq: self.first_seq,
            last_seq: self.last_seq,
            recs: self.recs,
            sample_taps: self.sample_taps@.map_values(|r: Vec<u8>| r@),
            sample_hids: self.sample_hids@.map_values(|r: Vec<u8>| r@),
            taps_in: self.taps_in@,
            hids_in: self.hids_in@,
        }
    }
}

/// The sequence-number bookkeeping after a record numbered `seq`.
pub open spec fn tracked_first(v: SessionView, seq: u32) -> Option<u32> {
    match v.first_seq {
        Some(f) => Some(f),
        None => Some(seq),
    }
}

/// `q` with `x` appended; when it already holds `QUEUE_CAP` items its oldest
/// is given up first.
pub open spec fn enqueue<T>(q: Seq<T>, x: T) -> Seq<T> {
    if q.len() >= QUEUE_CAP {
        q.skip(1).push(x)
    } else {
        q.push(x)
    }
}

/// One more give-up when the queue was full.
pub open spec fn overflow_count(q_len: nat, n: u64) -> int {
    if q_len >= QUEUE_CAP {
        n + 1
    } else {
        n as int
    }
}

/// `s` with `r` appended while it holds fewer than `SAMPLE_CAP` reports.
pub open spec fn sampled(s: Seq<Seq<u8>>, r: Seq<u8>) -> Seq<Seq<u8>> {
    if s.len() < SAMPLE_CAP {
        s.push(r)
    } else {
        s
    }
}

/// Records lost on the serial line: the span of sequence numbers seen (modulo
/// 2^32, both ends counted) less the records received, never below zero.
pub open spec fn lost_of(v: SessionView) -> nat {
    match v.first_seq {
        Some(first) => {
            let span = ((v.last_seq - first) % 0x1_0000_0000) + 1;
            if span > v.recs {
                (span - v.recs) as nat
            } else {
                0
            }
        },
        None => 0,
    }
}

impl Session {
    /// Every tap received is paired, given up or still waiting, and so is
    /// every HID report received; taps are among the serial records.
    pub open spec fn wf(&self) -> bool {
        let v = self@;
        &&& v.matched + v.tap_unmatched + v.taps.len() == v.taps_in
        &&& v.taps_in <= v.recs
        &&& v.matched + v.hid_unmatched + v.hids.len() == v.hids_in
        &&& v.hid_unmatched + v.hids.len() <= u64::MAX
        &&& v.taps.len() <= QUEUE_CAP
        &&& v.hids.len() <= QUEUE_CAP
        &&& v.sample_taps.len() <= SAMPLE_CAP
        &&& v.sample_hids.len() <= SAMPLE_CAP
    }

    /// A fresh run: nothing received, the clock history empty with its
    /// default limits.
    pub fn new() -> (s: Session)
        ensures
            s.wf(),
            s@.taps.len() == 0,
            s@.hids.len() == 0,
            s@.matched == 0,
            s@.tap_unmatched == 0,
            s@.hid_unmatched == 0,
            s@.first_seq is None,
            s@.last_seq == 0,
            s@.recs == 0,
            s@.sample_taps.len() == 0,
            s@.sample_hids.len() == 0,
            s@.taps_in == 0,
            s@.hids_in == 0,
            !s@.clock.has_base(),
            s@.clock.xs().len() == 0,
            s@.clock.cap() == super::clock::DEFAULT_HISTORY,
            s@.clock.window() == super::clock::DEFAULT_OFFSET_WINDOW,
    {
        let s = Session {
            clock: ClockModel::new(),
            taps: VecDeque::new(),
            hids: VecDeque::new(),
            matched: 0,
            tap_unmatched: 0,
            hid_unmatched: 0,
            first_seq: None,
            last_seq: 0,
            recs: 0,
            sample_taps: Vec::new(),
            sample_hids: Vec::new(),
            taps_in: Ghost(0),
            hids_in: Ghost(0),
        };
        assert(s@.sample_taps =~= Seq::<Seq<u8>>::empty());
        assert(s@.sample_hids =~= Seq::<Seq<u8>>::empty());
        s
    }

    fn track_seq(&mut self, seq: u32)
        requires
            old(self).recs < u64::MAX,
        ensures
            final(self)@ == (SessionView {
                first_seq: tracked_first(old(self)@, seq),
                last_seq: seq,
                recs: (old(self)@.recs + 1) as u64,
                ..old(self)@
            }),
    {
        if self.first_seq.is_none() {
            self.first_seq = Some(seq);
        }
        self.last_seq = seq;
        self.recs = self.recs + 1;
    }

    /// Whether [`Session::on_serial`] can take this event: the record count
    /// has room, and a beacon's distances from the clock base fit in `i64`.
    pub open spec fn takes_serial(&self, ev: &SerialEvent) -> bool {
        &&& self@.recs < u64::MAX
        &&& match ev.rec {
            Record::Sync(s) => self@.clock.accepts_spec(s.t_emit_us, ev.host_recv_ns),
            Record::Tap(_) => true,
        }
    }

    /// Checks [`Session::takes_serial`].
    pub fn can_take_serial(&self, ev: &SerialEvent) -> (r: bool)
        ensures
            r == self.takes_serial(ev),
    {
        if self.recs == u64::MAX {
            return false;
        }
        match &ev.rec {
            Record::Sync(s) => self.clock.accepts(s.t_emit_us, ev.host_recv_ns),
            Record::Tap(_) => true,
        }
    }

    /// Takes a record from the serial line. Every record advances the
    /// sequence bookkeeping; a beacon goes into the clock history; a tap is
    /// queued for pairing (the oldest tap given up if the queue is full) and
    /// sampled while there are fewer than `SAMPLE_CAP` samples.
    pub fn on_serial(&mut self, ev: SerialEvent)
        requires
            old(self).wf(),
            old(self).takes_serial(&ev),
        ensures
            final(self).wf(),
            match ev.rec {
                Record::Sync(s) => {
                    &&& final(self)@.clock.is_after_add(old(self)@.clock, s.t_emit_us, ev.host_recv_ns)
                    &&& final(self)@ == (SessionView {
                        clock: final(self)@.clock,
                        first_seq: tracked_first(old(self)@, s.seq),
                        last_seq: s.seq,
                        recs: (old(self)@.recs + 1) as u64,
                        ..old(self)@
                    })
                },
                Record::Tap(t) => final(self)@ == (SessionView {
                    taps: enqueue(old(self)@.taps, t),
                    tap_unmatched: overflow_count(old(self)@.taps.len(), old(self)@.tap_unmatched) as u64,
                    sample_taps: sampled(old(self)@.sample_taps, t.report@),
                    first_seq: tracked_first(old(self)@, t.seq),
                    last_seq: t.seq,
                    recs: (old(self)@.recs + 1) as u64,
                    taps_in: old(self)@.taps_in + 1,
                    ..old(self)@
                }),
            },
    {
        let SerialEvent { rec, host_recv_ns } = ev;
        match rec {
            Record::Sync(s) => {
                self.track_seq(s.seq);
                self.clock.add(s.t_emit_us, host_recv_ns);
            },
            Record::Tap(t) => {
                self.track_seq(t.seq);
                let ghost before = self@;
                if self.sample_taps.len() < SAMPLE_CAP {
                    self.sample_taps.push(slice_to_vec(t.report.as_slice()));
                    assert(self@.sample_taps =~= sampled(before.sample_taps, t.report@));
                }
                if self.taps.len() >= QUEUE_CAP {
                    self.taps.pop_front();
                    self.tap_unmatched = self.tap_unmatched + 1;
                }
                self.taps.push_back(t);
                self.taps_in = Ghost(self.taps_in@ + 1);
                assert(self@.taps =~= enqueue(before.taps, t));
            },
        }
    }

    /// Whether [`Session::on_hid`] can take another report: the given-up
    /// count has room for every report still waiting.
    pub open spec fn takes_hid(&self) -> bool {
        self@.hid_unmatched + self@.hids.len() < u64::MAX
    }

    /// Checks [`Session::takes_hid`].
    pub fn can_take_hid(&self) -> (r: bool)
        requires
            self.wf(),
        ensures
            r == self.takes_hid(),
    {
        let q = self.hids.len() as u64;
        let total = self.hid_unmatched as u128 + q as u128;
        total < u64::MAX as u128
    }

    /// Takes a report from the host's HID layer: it is sampled while there
    /// are fewer than `SAMPLE_CAP` samples and queued for pairing (the oldest
    /// given up if the queue is full).
    pub fn on_hid(&mut self, ev: HidEvent)
        requires
            old(self).wf(),
            old(self).takes_hid(),
        ensures
            final(self).wf(),
            final(self)@ == (SessionView {
                hids: enqueue(old(self)@.hids, ev),
                hid_unmatched: overflow_count(old(self)@.hids.len(), old(self)@.hid_unmatched) as u64,
                sample_hids: sampled(old(self)@.sample_hids, ev.report@),
                hids_in: old(self)@.hids_in + 1,
                ..old(self)@
            }),
    {
        let ghost before = self@;
        if self.sample_hids.len() < SAMPLE_CAP {
            self.sample_hids.push(slice_to_vec(ev.report.as_slice()));
            assert(self@.sample_hids =~= sampled(before.sample_hids, ev.report@));
        }
        if self.hids.len() >= QUEUE_CAP {
            self.hids.pop_front();
            self.hid_unmatched = self.hid_unmatched + 1;
        }
        self.hids.push_back(ev);
        self.hids_in = Ghost(self.hids_in@ + 1);
        assert(self@.hids =~= enqueue(before.hids, ev));
    }

    /// Reports paired so far.
    pub fn matched(&self) -> (n: u64)
        ensures
            n == self@.matched,
    {
        self.matched
    }

    /// Taps given up so far.
    pub fn tap_unmatched(&self) -> (n: u64)
        ensures
            n == self@.tap_unmatched,
    {
        self.tap_unmatched
    }

    /// HID reports given up so far.
    pub fn hid_unmatched(&self) -> (n: u64)
        ensures
            n == self@.hid_unmatched,
    {
        self.hid_unmatched
    }

    /// Records received on the serial line.
    pub fn records(&self) -> (n: u64)
        ensures
            n == self@.recs,
    {
        self.recs
    }

    /// Taps waiting to be paired.
    pub fn queued_taps(&self) -> (n: usize)
        ensures
            n == self@.taps.len(),
    {
        self.taps.len()
    }

    /// HID reports waiting to be paired.
    pub fn queued_hids(&self) -> (n: usize)
        ensures
            n == self@.hids.len(),
    {
        self.hids.len()
    }

    /// The clock-beacon history.
    pub fn clock(&self) -> (c: &ClockModel)
        ensures
            *c == self@.clock,
    {
        &self.clock
    }

    /// The first tap reports, kept for the diagnostic.
    pub fn sample_taps(&self) -> (s: &Vec<Vec<u8>>)
        ensures
            s@.map_values(|r: Vec<u8>| r@) == self@.sample_taps,
    {
        &self.sample_taps
    }

    /// The first HID reports, kept for the diagnostic.
    pub fn sample_hids(&self) -> (s: &Vec<Vec<u8>>)
        ensures
            s@.map_values(|r: Vec<u8>| r@) == self@.sample_hids,
    {
        &self.sample_hids
    }

    /// Records lost on the serial line, from the gaps in the sequence numbers.
    pub fn lost_records(&self) -> (n: u64)
        ensures
            n == lost_of(self@),
    {
        match self.first_seq {
            Some(first) => {
                let span: u64 = self.last_seq.wrapping_sub(first) as u64 + 1;
                span.saturating_sub(self.recs)
            },
            None => 0,
        }
    }

    /// The first position in `1..k` of the HID queue whose report pairs with
    /// `target`.
    fn find_hid(&self, target: &[u8], k: usize) -> (r: Option<usize>)
        requires
            k <= self@.hids.len(),
        ensures
            r == (match first_agreeing(hid_reports(self@.hids), target@, 1, k as int) {
                Some(x) => Some(x as usize),
                None => None::<usize>,
            }),
    {
        let ghost rs = hid_reports(self@.hids);
        let mut j: usize = 1;
        while j < k
            invariant
                1 <= j,
                k <= self@.hids.len(),
                rs == hid_reports(self@.hids),
                first_agreeing(rs, target@, 1, k as int) == first_agreeing(rs, target@, j as int, k as int),
            decreases k - j,
        {
            assert(rs[j as int] == self@.hids[j as int].report@);
            if reports_match(self.hids[j].report.as_slice(), target) {
                return Some(j);
            }
            j = j + 1;
        }
        None
    }

    /// The first position in `1..k` of the tap queue whose report pairs with
    /// `target`.
    fn find_tap(&self, target: &[u8], k: usize) -> (r: Option<usize>)
        requires
            k <= self@.taps.len(),
        ensures
            r == (match first_agreeing(tap_reports(self@.taps), target@, 1, k as int) {
                Some(x) => Some(x as usize),
                None => None::<usize>,
            }),
    {
        let ghost rs = tap_reports(self@.taps);
        let mut j: usize = 1;
        while j < k
            invariant
                1 <= j,
                k <= self@.taps.len(),
                rs == tap_reports(self@.taps),
                first_agreeing(rs, target@, 1, k as int) == first_agreeing(rs, target@, j as int, k as int),
            decreases k - j,
        {
            assert(rs[j as int] == self@.taps[j as int].report@);
            if reports_match(self.taps[j].report.as_slice(), target) {
                return Some(j);
            }
            j = j + 1;
        }
        None
    }

    /// The matcher's decision for the current queues.
    fn decide(&self) -> (m: (u8, usize))
        ensures
            match next_move(tap_reports(self@.taps), hid_reports(self@.hids)) {
                Move::Stop => m.0 == 0,
                Move::Pair => m.0 == 1,
                Move::DropTaps(i) => m.0 == 2 && m.1 == i,
                Move::DropHids(j) => m.0 == 3 && m.1 == j,
                Move::DropBoth => m.0 == 4,
            },
    {
        let ghost ts = tap_reports(self@.taps);
        let ghost hs = hid_reports(self@.hids);
        if self.taps.len() == 0 || self.hids.len() == 0 {
            return (0, 0);
        }
        let t0 = self.taps[0].report.as_slice();
        let h0 = self.hids[0].report.as_slice();
        assert(ts[0] == t0@);
        assert(hs[0] == h0@);
        if reports_match(t0, h0) {
            return (1, 0);
        }
        let hk = if self.hids.len() < LOOKAHEAD { self.hids.len() } else { LOOKAHEAD };
        let tk = if self.taps.len() < LOOKAHEAD { self.taps.len() } else { LOOKAHEAD };
        let hj = self.find_hid(t0, hk);
        let ti = self.find_tap(h0, tk);
        proof {
            lemma_first_agreeing_range(hs, ts[0], 1, hk as int);
            lemma_first_agreeing_range(ts, hs[0], 1, tk as int);
        }
        match (hj, ti) {
            (Some(j), Some(i)) => if j <= i {
                (3, j)
            } else {
                (2, i)
            },
            (Some(j), None) => (3, j),
            (None, Some(i)) => (2, i),
            (None, None) => if self.taps.len() >= LOOKAHEAD && self.hids.len() >= LOOKAHEAD {
                (4, 0)
            } else {
                (0, 0)
            },
        }
    }

    /// Gives up the oldest `n` taps.
    fn drop_taps(&mut self, n: usize)
        requires
            old(self).wf(),
            n <= old(self)@.taps.len(),
        ensures
            final(self).wf(),
            final(self)@ == (SessionView {
                taps: old(self)@.taps.skip(n as int),
                tap_unmatched: (old(self)@.tap_unmatched + n) as u64,
                ..old(self)@
            }),
    {
        let ghost v0 = self@;
        let mut k: usize = 0;
        assert(v0.taps.skip(0) =~= v0.taps);
        assert(v0.hids.skip(0) =~= v0.hids);
        while k < n
            invariant
                k <= n,
                n <= v0.taps.len(),
                v0.matched + v0.tap_unmatched + v0.taps.len() <= v0.recs,
                self@ == (SessionView {
                    taps: v0.taps.skip(k as int),
                    tap_unmatched: (v0.tap_unmatched + k) as u64,
                    ..v0
                }),
            decreases n - k,
        {
            self.taps.pop_front();
            self.tap_unmatched = self.tap_unmatched + 1;
            assert(v0.taps.skip(k as int).subrange(1, v0.taps.skip(k as int).len() as int) =~= v0.taps.skip(k + 1));
            k = k + 1;
        }
    }

    /// Gives up the oldest `n` HID reports.
    fn drop_hids(&mut self, n: usize)
        requires
            old(self).wf(),
            n <= old(self)@.hids.len(),
        ensures
            final(self).wf(),
            final(self)@ == (SessionView {
                hids: old(self)@.hids.skip(n as int),
                hid_unmatched: (old(self)@.hid_unmatched + n) as u64,
                ..old(self)@
            }),
    {
        let ghost v0 = self@;
        let mut k: usize = 0;
        assert(v0.taps.skip(0) =~= v0.taps);
        assert(v0.hids.skip(0) =~= v0.hids);
        while k < n
            invariant
                k <= n,
                n <= v0.hids.len(),
                v0.hid_unmatched + v0.hids.len() <= u64::MAX,
                self@ == (SessionView {
                    hids: v0.hids.skip(k as int),
                    hid_unmatched: (v0.hid_unmatched + k) as u64,
                    ..v0
                }),
            decreases n - k,
        {
            self.hids.pop_front();
            self.hid_unmatched = self.hid_unmatched + 1;
            assert(v0.hids.skip(k as int).subrange(1, v0.hids.skip(k as int).len() as int) =~= v0.hids.skip(k + 1));
            k = k + 1;
        }
    }

    /// Pairs taps with HID reports until nothing more can be decided (see
    /// [`next_move`]), and hands back the pairs in order. Given-up reports
    /// are counted on their side; what cannot be decided yet stays queued.
    pub fn correlate(&mut self) -> (pairs: Vec<(Tap, HidEvent)>)
        requires
            old(self).wf(),
        ensures
            final(self).wf(),
            forall|k: int|
                0 <= k < pairs@.len() ==> reports_agree(
                    (#[trigger] pairs@[k]).0.report@,
                    pairs@[k].1.report@,
                ),
            ({
                let c = correlation(old(self)@.taps, old(self)@.hids);
                &&& pairs@ == c.pairs
                &&& final(self)@ == (SessionView {
                    taps: c.taps,
                    hids: c.hids,
                    matched: (old(self)@.matched + c.pairs.len()) as u64,
                    tap_unmatched: (old(self)@.tap_unmatched + c.tap_drops) as u64,
                    hid_unmatched: (old(self)@.hid_unmatched + c.hid_drops) as u64,
                    ..old(self)@
                })
            }),
    {
        let ghost v0 = self@;
        let ghost c0 = correlation(v0.taps, v0.hids);
        proof {
            super::laws::lemma_pairs_agree(v0.taps, v0.hids);
        }
        let mut out: Vec<(Tap, HidEvent)> = Vec::new();
        loop
            invariant
                self.wf(),
                ({
                    let c = correlation(self@.taps, self@.hids);
                    &&& c0.pairs == out@ + c.pairs
                    &&& c0.taps == c.taps
                    &&& c0.hids == c.hids
                    &&& c0.tap_drops == (self@.tap_unmatched - v0.tap_unmatched) + c.tap_drops
                    &&& c0.hid_drops == (self@.hid_unmatched - v0.hid_unmatched) + c.hid_drops
                }),
                self@.matched == v0.matched + out@.len(),
                self@ == (SessionView {
                    taps: self@.taps,
                    hids: self@.hids,
                    matched: self@.matched,
                    tap_unmatched: self@.tap_unmatched,
                    hid_unmatched: self@.hid_unmatched,
                    ..v0
                }),
                self@.tap_unmatched >= v0.tap_unmatched,
                self@.hid_unmatched >= v0.hid_unmatched,
            ensures
                out@ == c0.pairs,
                self@.taps == c0.taps,
                self@.hids == c0.hids,
                self@.tap_unmatched == v0.tap_unmatched + c0.tap_drops,
                self@.hid_unmatched == v0.hid_unmatched + c0.hid_drops,
            decreases self@.taps.len() + self@.hids.len(),
        {
            let ghost ts = self@.taps;
            let ghost hs = self@.hids;
            proof {
                lemma_next_move_bounds(tap_reports(ts), hid_reports(hs));
            }
            let (kind, n) = self.decide();
            if kind == 0 {
                let ghost c = correlation(ts, hs);
                assert(c.pairs =~= Seq::<(Tap, HidEvent)>::empty());
                assert(c.taps == ts && c.hids == hs && c.tap_drops == 0 && c.hid_drops == 0);
                assert(c0.pairs =~= out@);
                break;
            } else if kind == 1 {
                let t = self.taps.pop_front().unwrap();
                let h = self.hids.pop_front().unwrap();
                self.matched = self.matched + 1;
                out.push((t, h));
                assert(ts.subrange(1, ts.len() as int) =~= ts.skip(1));
                assert(hs.subrange(1, hs.len() as int) =~= hs.skip(1));
            } else if kind == 2 {
                self.drop_taps(n);
            } else if kind == 3 {
                self.drop_hids(n);
            } else {
                self.drop_taps(1);
                self.drop_hids(1);
            }
        }
        out
    }
}

} // verus!
