use vstd::prelude::*;

verus! {

/// Beacons kept for the rate estimate by default.
pub const DEFAULT_HISTORY: usize = 4096;

/// Most recent beacons that the offset estimate looks at by default.
pub const DEFAULT_OFFSET_WINDOW: usize = 32;

/// The last `h` items of `s` (all of them if there are fewer).
pub open spec fn keep_last(s: Seq<i64>, h: nat) -> Seq<i64> {
    if s.len() > h {
        s.skip(s.len() - h)
    } else {
        s
    }
}

/// Whether `a - b` is a value of `i64`.
pub open spec fn fits_i64(a: i64, b: i64) -> bool {
    i64::MIN <= a - b <= i64::MAX
}

/// The clock-beacon history that aligns the firmware clock (µs) to the host
/// clock (ns). The first beacon is the base; each beacon is kept as its
/// distance from the base on both clocks, and only the most recent `history`
/// beacons are kept. The rate and offset fits over it are floating point and
/// live with the application.
pub struct ClockModel {
    base_fw_us: i64,
    base_host_ns: i64,
    have_base: bool,
    pts: Vec<(i64, i64)>,
    history: usize,
    offset_window: usize,
}

impl ClockModel {
    #[verifier::type_invariant]
    spec fn well_formed(self) -> bool {
        &&& self.pts@.len() <= self.history
        &&& !self.have_base ==> self.pts@.len() == 0
    }

    /// Whether a base beacon has been seen.
    pub closed spec fn has_base(self) -> bool {
        self.have_base
    }

    /// The base beacon's firmware time.
    pub closed spec fn base_fw(self) -> i64 {
        self.base_fw_us
    }

    /// The base beacon's host time.
    pub closed spec fn base_host(self) -> i64 {
        self.base_host_ns
    }

    /// Firmware-clock distances of the kept beacons from the base, oldest first.
    pub closed spec fn xs(self) -> Seq<i64> {
        self.pts@.map_values(|p: (i64, i64)| p.0)
    }

    /// Host-clock distances of the kept beacons from the base, oldest first.
    pub closed spec fn ys(self) -> Seq<i64> {
        self.pts@.map_values(|p: (i64, i64)| p.1)
    }

    /// How many beacons are kept at most.
    pub closed spec fn cap(self) -> nat {
        self.history as nat
    }

    /// How many recent beacons the offset estimate uses.
    pub closed spec fn window(self) -> nat {
        self.offset_window as nat
    }

    /// An empty history with the default limits (4096 beacons, offset over
    /// the last 32).
    pub fn new() -> (m: ClockModel)
        ensures
            !m.has_base(),
            m.xs().len() == 0,
            m.ys().len() == 0,
            m.cap() == DEFAULT_HISTORY,
            m.window() == DEFAULT_OFFSET_WINDOW,
    {
        Self::with_params(DEFAULT_HISTORY, DEFAULT_OFFSET_WINDOW)
    }

    /// An empty history with the given limits.
    pub fn with_params(history: usize, offset_window: usize) -> (m: ClockModel)
        ensures
            !m.has_base(),
            m.xs().len() == 0,
            m.ys().len() == 0,
            m.cap() == history,
            m.window() == offset_window,
    {
        ClockModel {
            base_fw_us: 0,
            base_host_ns: 0,
            have_base: false,
            pts: Vec::new(),
            history,
            offset_window,
        }
    }

    /// The base a beacon at (`fw_us`, `host_ns`) would be measured from.
    pub open spec fn base_for(self, fw_us: i64, host_ns: i64) -> (i64, i64) {
        if self.has_base() {
            (self.base_fw(), self.base_host())
        } else {
            (fw_us, host_ns)
        }
    }

    /// Whether a beacon's distances from the base are values of `i64`.
    pub open spec fn accepts_spec(self, fw_us: i64, host_ns: i64) -> bool {
        let b = self.base_for(fw_us, host_ns);
        fits_i64(fw_us, b.0) && fits_i64(host_ns, b.1)
    }

    /// `self` is `before` with the beacon (`fw_us`, `host_ns`) added: the base
    /// is set if there was none, the beacon's distances from the base are
    /// appended, and only the last `cap` beacons are kept.
    pub open spec fn is_after_add(self, before: ClockModel, fw_us: i64, host_ns: i64) -> bool {
        let b = before.base_for(fw_us, host_ns);
        &&& self.has_base()
        &&& (self.base_fw(), self.base_host()) == b
        &&& self.xs() == keep_last(before.xs().push((fw_us - b.0) as i64), before.cap())
        &&& self.ys() == keep_last(before.ys().push((host_ns - b.1) as i64), before.cap())
        &&& self.cap() == before.cap()
        &&& self.window() == before.window()
    }

    /// Whether [`ClockModel::add`] can take this beacon without overflow.
    pub fn accepts(&self, fw_us: i64, host_ns: i64) -> (r: bool)
        ensures
            r == self.accepts_spec(fw_us, host_ns),
    {
        if !self.have_base {
            return true;
        }
        fw_us.checked_sub(self.base_fw_us).is_some() && host_ns.checked_sub(
            self.base_host_ns,
        ).is_some()
    }

    /// Records a clock beacon: its firmware emit time and the host time at
    /// which it arrived. The first beacon becomes the base; past the limit the
    /// oldest beacons are dropped.
    pub fn add(&mut self, fw_us: i64, host_ns: i64)
        requires
            old(self).accepts_spec(fw_us, host_ns),
        ensures
            final(self).is_after_add(*old(self), fw_us, host_ns),
            final(self).xs().len() <= final(self).cap(),
    {
        proof {
            use_type_invariant(&*self);
        }
        if !self.have_base {
            self.base_fw_us = fw_us;
            self.base_host_ns = host_ns;
            self.have_base = true;
        }
        let x = fw_us - self.base_fw_us;
        let y = host_ns - self.base_host_ns;
        let ghost xs1 = self.xs().push(x);
        let ghost ys1 = self.ys().push(y);
        let mut pts: Vec<(i64, i64)> = Vec::new();
        std::mem::swap(&mut pts, &mut self.pts);
        if pts.len() >= self.history {
            if self.history == 0 {
                assert(self.xs() =~= keep_last(xs1, 0));
                assert(self.ys() =~= keep_last(ys1, 0));
                return;
            }
            pts.remove(0);
        }
        pts.push((x, y));
        self.pts = pts;
        assert(self.xs() =~= keep_last(xs1, self.history as nat));
        assert(self.ys() =~= keep_last(ys1, self.history as nat));
    }

    /// How many beacons are kept: never more than the limit, and the same on
    /// both clocks.
    pub fn points(&self) -> (n: usize)
        ensures
            n == self.xs().len(),
            n == self.ys().len(),
            n <= self.cap(),
            !self.has_base() ==> n == 0,
    {
        proof {
            use_type_invariant(self);
        }
        self.pts.len()
    }

    /// The base beacon (firmware µs, host ns), once there is one.
    pub fn base(&self) -> (b: Option<(i64, i64)>)
        ensures
            b == (if self.has_base() {
                Some((self.base_fw(), self.base_host()))
            } else {
                None
            }),
    {
        if self.have_base {
            Some((self.base_fw_us, self.base_host_ns))
        } else {
            None
        }
    }

    /// The kept beacons as (firmware µs, host ns) distances from the base,
    /// oldest first.
    pub fn deltas(&self) -> (d: &[(i64, i64)])
        ensures
            d@.map_values(|p: (i64, i64)| p.0) == self.xs(),
            d@.map_values(|p: (i64, i64)| p.1) == self.ys(),
    {
        self.pts.as_slice()
    }

    /// The positions of the beacons that the offset estimate uses: the last
    /// `offset_window` of them, or all if there are fewer.
    pub fn offset_range(&self) -> (r: (usize, usize))
        ensures
            r.1 == self.xs().len(),
            r.0 == (if self.xs().len() > self.window() {
                self.xs().len() - self.window()
            } else {
                0
            }),
    {
        let n = self.pts.len();
        (n.saturating_sub(self.offset_window), n)
    }

    /// A firmware time's distance from the base, if there is a base and the
    /// distance is a value of `i64`.
    pub fn fw_delta(&self, fw_us: i64) -> (d: Option<i64>)
        ensures
            d == (if self.has_base() && fits_i64(fw_us, self.base_fw()) {
                Some((fw_us - self.base_fw()) as i64)
            } else {
                None
            }),
    {
        if !self.have_base {
            return None;
        }
        fw_us.checked_sub(self.base_fw_us)
    }
}

impl Default for ClockModel {
    fn default() -> (m: ClockModel)
        ensures
            !m.has_base(),
            m.xs().len() == 0,
            m.cap() == DEFAULT_HISTORY,
            m.window() == DEFAULT_OFFSET_WINDOW,
    {
        Self::new()
    }
}

/// How many of `n` beacons a history of limit `cap` keeps.
pub open spec fn kept(n: nat, cap: nat) -> nat {
    if n < cap {
        n
    } else {
        cap
    }
}

/// One beacon more keeps one more, up to the limit.
pub proof fn lemma_add_keeps(before: ClockModel, after: ClockModel, fw_us: i64, host_ns: i64, n: nat)
    requires
        after.is_after_add(before, fw_us, host_ns),
        before.xs().len() == kept(n, before.cap()),
    ensures
        after.xs().len() == kept(n + 1, after.cap()),
{
}

/// Starting from an empty history, adding `beacons` one after another (the
/// model after each add is the next in `ms`) keeps `min(N, cap)` of the `N`
/// beacons: the oldest leave first and the history never passes its limit.
pub proof fn lemma_points_after_adds(ms: Seq<ClockModel>, beacons: Seq<(i64, i64)>)
    requires
        ms.len() == beacons.len() + 1,
        ms[0].xs().len() == 0,
        forall|i: int|
            0 <= i < beacons.len() ==> #[trigger] ms[i + 1].is_after_add(
                ms[i],
                beacons[i].0,
                beacons[i].1,
            ),
    ensures
        ms.last().xs().len() == kept(beacons.len(), ms[0].cap()),
        ms.last().cap() == ms[0].cap(),
    decreases beacons.len(),
{
    if beacons.len() > 0 {
        let k = beacons.len() - 1;
        let ms2 = ms.drop_last();
        let b2 = beacons.drop_last();
        assert forall|i: int| 0 <= i < b2.len() implies #[trigger] ms2[i + 1].is_after_add(
            ms2[i],
            b2[i].0,
            b2[i].1,
        ) by {
            assert(ms[i + 1].is_after_add(ms[i], beacons[i].0, beacons[i].1));
        }
        lemma_points_after_adds(ms2, b2);
        assert(ms[k + 1].is_after_add(ms[k], beacons[k].0, beacons[k].1));
        lemma_add_keeps(ms[k], ms[k + 1], beacons[k].0, beacons[k].1, k as nat);
    }
}

} // verus!
