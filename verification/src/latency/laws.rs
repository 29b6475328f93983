use vstd::prelude::*;

use crate::sigtap::record::Tap;
use super::report::reports_agree;
use super::session::{
    correlation, first_agreeing, hid_reports, lemma_first_agreeing_range, lemma_next_move_bounds,
    next_move, tap_reports, within_lookahead, Correlation, HidEvent, Move, LOOKAHEAD,
};

verus! {

/// Every pair the matcher produces is a tap and a HID report whose bytes
/// agree.
pub proof fn lemma_pairs_agree(ts: Seq<Tap>, hs: Seq<HidEvent>)
    ensures
        forall|k: int|
            0 <= k < correlation(ts, hs).pairs.len() ==> reports_agree(
                (#[trigger] correlation(ts, hs).pairs[k]).0.report@,
                correlation(ts, hs).pairs[k].1.report@,
            ),
    decreases ts.len() + hs.len(),
{
    lemma_next_move_bounds(tap_reports(ts), hid_reports(hs));
    let c = correlation(ts, hs);
    match next_move(tap_reports(ts), hid_reports(hs)) {
        Move::Stop => {},
        Move::Pair => {
            lemma_pairs_agree(ts.skip(1), hs.skip(1));
            let r = correlation(ts.skip(1), hs.skip(1));
            assert(tap_reports(ts)[0] == ts[0].report@);
            assert(hid_reports(hs)[0] == hs[0].report@);
            assert forall|k: int| 0 <= k < c.pairs.len() implies reports_agree(
                (#[trigger] c.pairs[k]).0.report@,
                c.pairs[k].1.report@,
            ) by {
                if k > 0 {
                    assert(c.pairs[k] == r.pairs[k - 1]);
                }
            }
        },
        Move::DropTaps(i) => {
            lemma_pairs_agree(ts.skip(i), hs);
            assert(c.pairs == correlation(ts.skip(i), hs).pairs);
        },
        Move::DropHids(j) => {
            lemma_pairs_agree(ts, hs.skip(j));
            assert(c.pairs == correlation(ts, hs.skip(j)).pairs);
        },
        Move::DropBoth => {
            lemma_pairs_agree(ts.skip(1), hs.skip(1));
            assert(c.pairs == correlation(ts.skip(1), hs.skip(1)).pairs);
        },
    }
}

/// Nothing is lost or made up: every tap is paired, given up or still
/// waiting, and so is every HID report; what still waits is the newest part
/// of each queue.
pub proof fn lemma_correlation_conserves(ts: Seq<Tap>, hs: Seq<HidEvent>)
    ensures
        ({
            let c = correlation(ts, hs);
            &&& c.pairs.len() + c.tap_drops + c.taps.len() == ts.len()
            &&& c.pairs.len() + c.hid_drops + c.hids.len() == hs.len()
            &&& c.taps == ts.skip(ts.len() - c.taps.len())
            &&& c.hids == hs.skip(hs.len() - c.hids.len())
        }),
    decreases ts.len() + hs.len(),
{
    lemma_next_move_bounds(tap_reports(ts), hid_reports(hs));
    match next_move(tap_reports(ts), hid_reports(hs)) {
        Move::Stop => {
            assert(ts.skip(0) =~= ts);
            assert(hs.skip(0) =~= hs);
        },
        Move::Pair => {
            lemma_correlation_conserves(ts.skip(1), hs.skip(1));
            let r = correlation(ts.skip(1), hs.skip(1));
            assert(ts.skip(1).skip(ts.skip(1).len() - r.taps.len()) =~= ts.skip(ts.len() - r.taps.len()));
            assert(hs.skip(1).skip(hs.skip(1).len() - r.hids.len()) =~= hs.skip(hs.len() - r.hids.len()));
        },
        Move::DropTaps(i) => {
            lemma_correlation_conserves(ts.skip(i), hs);
            let r = correlation(ts.skip(i), hs);
            assert(ts.skip(i).skip(ts.skip(i).len() - r.taps.len()) =~= ts.skip(ts.len() - r.taps.len()));
        },
        Move::DropHids(j) => {
            lemma_correlation_conserves(ts, hs.skip(j));
            let r = correlation(ts, hs.skip(j));
            assert(hs.skip(j).skip(hs.skip(j).len() - r.hids.len()) =~= hs.skip(hs.len() - r.hids.len()));
        },
        Move::DropBoth => {
            lemma_correlation_conserves(ts.skip(1), hs.skip(1));
            let r = correlation(ts.skip(1), hs.skip(1));
            assert(ts.skip(1).skip(ts.skip(1).len() - r.taps.len()) =~= ts.skip(ts.len() - r.taps.len()));
            assert(hs.skip(1).skip(hs.skip(1).len() - r.hids.len()) =~= hs.skip(hs.len() - r.hids.len()));
        },
    }
}

/// When both paths saw the same reports in the same order, every tap pairs
/// with the HID report at the same position and nothing is given up.
pub proof fn lemma_lossless_pairs_all(ts: Seq<Tap>, hs: Seq<HidEvent>)
    requires
        tap_reports(ts) == hid_reports(hs),
    ensures
        ({
            let c = correlation(ts, hs);
            &&& c.pairs.len() == ts.len()
            &&& c.tap_drops == 0
            &&& c.hid_drops == 0
            &&& c.taps.len() == 0
            &&& c.hids.len() == 0
            &&& forall|k: int| 0 <= k < ts.len() ==> #[trigger] c.pairs[k] == (ts[k], hs[k])
        }),
    decreases ts.len(),
{
    let c = correlation(ts, hs);
    assert(ts.len() == tap_reports(ts).len());
    assert(hs.len() == hid_reports(hs).len());
    if ts.len() > 0 {
        assert(tap_reports(ts)[0] == ts[0].report@);
        assert(hid_reports(hs)[0] == hs[0].report@);
        assert(reports_agree(ts[0].report@, hs[0].report@));
        assert(tap_reports(ts.skip(1)) =~= tap_reports(ts).skip(1));
        assert(hid_reports(hs.skip(1)) =~= hid_reports(hs).skip(1));
        lemma_lossless_pairs_all(ts.skip(1), hs.skip(1));
        let r = correlation(ts.skip(1), hs.skip(1));
        assert forall|k: int| 0 <= k < ts.len() implies #[trigger] c.pairs[k] == (ts[k], hs[k]) by {
            if k > 0 {
                assert(c.pairs[k] == r.pairs[k - 1]);
            }
        }
    }
}

/// Pairing two reports does not depend on which side each came from.
pub proof fn lemma_reports_agree_symmetric(a: Seq<u8>, b: Seq<u8>)
    ensures
        reports_agree(a, b) == reports_agree(b, a),
{
}

/// The matcher runs until nothing more can be decided: on what it leaves
/// waiting it would stop at once, so a second run right after pairs nothing.
pub proof fn lemma_correlation_settles(ts: Seq<Tap>, hs: Seq<HidEvent>)
    ensures
        ({
            let c = correlation(ts, hs);
            &&& next_move(tap_reports(c.taps), hid_reports(c.hids)) is Stop
            &&& correlation(c.taps, c.hids).pairs.len() == 0
            &&& correlation(c.taps, c.hids).taps == c.taps
            &&& correlation(c.taps, c.hids).hids == c.hids
        }),
    decreases ts.len() + hs.len(),
{
    lemma_next_move_bounds(tap_reports(ts), hid_reports(hs));
    match next_move(tap_reports(ts), hid_reports(hs)) {
        Move::Stop => {},
        Move::Pair => lemma_correlation_settles(ts.skip(1), hs.skip(1)),
        Move::DropTaps(i) => lemma_correlation_settles(ts.skip(i), hs),
        Move::DropHids(j) => lemma_correlation_settles(ts, hs.skip(j)),
        Move::DropBoth => lemma_correlation_settles(ts.skip(1), hs.skip(1)),
    }
    let c = correlation(ts, hs);
    assert(correlation(c.taps, c.hids).pairs =~= Seq::<(Tap, HidEvent)>::empty());
}

/// Fronts that agree pair up first; the rest is matched after them.
pub proof fn lemma_fronts_pair(ts: Seq<Tap>, hs: Seq<HidEvent>)
    requires
        ts.len() > 0,
        hs.len() > 0,
        reports_agree(ts[0].report@, hs[0].report@),
    ensures
        ({
            let r = correlation(ts.skip(1), hs.skip(1));
            correlation(ts, hs) == (Correlation { pairs: seq![(ts[0], hs[0])] + r.pairs, ..r })
        }),
{
    assert(tap_reports(ts)[0] == ts[0].report@);
    assert(hid_reports(hs)[0] == hs[0].report@);
}

/// A lost tap is resynced by the nearest forward match: when the fronts
/// differ and the tap front reappears among the HID reports at `j` (within
/// the look-ahead, and not earlier), while the HID front does not reappear
/// among the taps before `j`, the `j` HID reports in front of it are given
/// up and matching goes on from there.
pub proof fn lemma_resync_drops_hids(ts: Seq<Tap>, hs: Seq<HidEvent>, j: int)
    requires
        ts.len() > 0,
        hs.len() > 0,
        !reports_agree(ts[0].report@, hs[0].report@),
        1 <= j < hs.len(),
        j < LOOKAHEAD,
        reports_agree(hs[j].report@, ts[0].report@),
        forall|y: int| 1 <= y < j ==> !reports_agree(#[trigger] hs[y].report@, ts[0].report@),
        forall|x: int| 1 <= x < j && x < ts.len() ==> !reports_agree(#[trigger] ts[x].report@, hs[0].report@),
    ensures
        ({
            let r = correlation(ts, hs.skip(j));
            correlation(ts, hs) == (Correlation { hid_drops: r.hid_drops + j as nat, ..r })
        }),
{
    let tr = tap_reports(ts);
    let hr = hid_reports(hs);
    assert(tr[0] == ts[0].report@);
    assert(hr[0] == hs[0].report@);
    let hk = within_lookahead(hr.len());
    let tk = within_lookahead(tr.len());
    lemma_first_agreeing_range(hr, tr[0], 1, hk);
    lemma_first_agreeing_range(tr, hr[0], 1, tk);
    assert(hr[j] == hs[j].report@);
    match first_agreeing(hr, tr[0], 1, hk) {
        Some(x) => {
            if x < j {
                assert(hr[x] == hs[x].report@);
            }
        },
        None => {},
    }
    match first_agreeing(tr, hr[0], 1, tk) {
        Some(x) => {
            if x < j {
                assert(tr[x] == ts[x].report@);
            }
        },
        None => {},
    }
    assert(next_move(tr, hr) == Move::DropHids(j));
}

/// A lost HID report is resynced by the nearest forward match: when the
/// fronts differ and the HID front reappears among the taps at `i` (within
/// the look-ahead, and not earlier), while the tap front does not reappear
/// among the HID reports at or before `i`, the `i` taps in front of it are
/// given up and matching goes on from there.
pub proof fn lemma_resync_drops_taps(ts: Seq<Tap>, hs: Seq<HidEvent>, i: int)
    requires
        ts.len() > 0,
        hs.len() > 0,
        !reports_agree(ts[0].report@, hs[0].report@),
        1 <= i < ts.len(),
        i < LOOKAHEAD,
        reports_agree(ts[i].report@, hs[0].report@),
        forall|x: int| 1 <= x < i ==> !reports_agree(#[trigger] ts[x].report@, hs[0].report@),
        forall|y: int| 1 <= y <= i && y < hs.len() ==> !reports_agree(#[trigger] hs[y].report@, ts[0].report@),
    ensures
        ({
            let r = correlation(ts.skip(i), hs);
            correlation(ts, hs) == (Correlation { tap_drops: r.tap_drops + i as nat, ..r })
        }),
{
    let tr = tap_reports(ts);
    let hr = hid_reports(hs);
    assert(tr[0] == ts[0].report@);
    assert(hr[0] == hs[0].report@);
    let hk = within_lookahead(hr.len());
    let tk = within_lookahead(tr.len());
    lemma_first_agreeing_range(hr, tr[0], 1, hk);
    lemma_first_agreeing_range(tr, hr[0], 1, tk);
    assert(tr[i] == ts[i].report@);
    match first_agreeing(tr, hr[0], 1, tk) {
        Some(x) => {
            if x < i {
                assert(tr[x] == ts[x].report@);
            }
        },
        None => {},
    }
    match first_agreeing(hr, tr[0], 1, hk) {
        Some(x) => {
            assert(hr[x] == hs[x].report@);
        },
        None => {},
    }
    assert(next_move(tr, hr) == Move::DropTaps(i));
}

/// With differing fronts that reappear on neither side within the
/// look-ahead, one report of each side is given up once both queues hold a
/// full look-ahead; before that the matcher waits and changes nothing.
pub proof fn lemma_no_match_in_sight(ts: Seq<Tap>, hs: Seq<HidEvent>)
    requires
        ts.len() > 0,
        hs.len() > 0,
        !reports_agree(ts[0].report@, hs[0].report@),
        forall|y: int|
            1 <= y < hs.len() && y < LOOKAHEAD ==> !reports_agree(#[trigger] hs[y].report@, ts[0].report@),
        forall|x: int|
            1 <= x < ts.len() && x < LOOKAHEAD ==> !reports_agree(#[trigger] ts[x].report@, hs[0].report@),
    ensures
        ts.len() >= LOOKAHEAD && hs.len() >= LOOKAHEAD ==> ({
            let r = correlation(ts.skip(1), hs.skip(1));
            correlation(ts, hs) == (Correlation {
                tap_drops: r.tap_drops + 1,
                hid_drops: r.hid_drops + 1,
                ..r
            })
        }),
        !(ts.len() >= LOOKAHEAD && hs.len() >= LOOKAHEAD) ==> correlation(ts, hs) == (Correlation {
            pairs: Seq::empty(),
            taps: ts,
            hids: hs,
            tap_drops: 0,
            hid_drops: 0,
        }),
{
    let tr = tap_reports(ts);
    let hr = hid_reports(hs);
    assert(tr[0] == ts[0].report@);
    assert(hr[0] == hs[0].report@);
    let hk = within_lookahead(hr.len());
    let tk = within_lookahead(tr.len());
    lemma_first_agreeing_range(hr, tr[0], 1, hk);
    lemma_first_agreeing_range(tr, hr[0], 1, tk);
    match first_agreeing(hr, tr[0], 1, hk) {
        Some(x) => {
            assert(hr[x] == hs[x].report@);
        },
        None => {},
    }
    match first_agreeing(tr, hr[0], 1, tk) {
        Some(x) => {
            assert(tr[x] == ts[x].report@);
        },
        None => {},
    }
}

} // verus!
