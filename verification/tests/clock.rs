use makcu_rs::latency::clock::{ClockModel, DEFAULT_HISTORY, DEFAULT_OFFSET_WINDOW};
use makcu_rs::latency::timebase::{mach_to_ns, Timebase};

/// Least-squares rate over the kept beacons, as the meter computes it.
fn slope(m: &ClockModel) -> Option<f64> {
    let d = m.deltas();
    let n = d.len();
    if n < 2 {
        return None;
    }
    let xbar = d.iter().map(|p| p.0 as f64).sum::<f64>() / n as f64;
    let ybar = d.iter().map(|p| p.1 as f64).sum::<f64>() / n as f64;
    let mut sxx = 0.0;
    let mut sxy = 0.0;
    for p in d {
        let dxc = p.0 as f64 - xbar;
        sxx += dxc * dxc;
        sxy += dxc * (p.1 as f64 - ybar);
    }
    if sxx <= 0.0 {
        return None;
    }
    Some(sxy / sxx)
}

/// Median offset over the recent beacons, as the meter computes it.
fn map(m: &ClockModel, fw_us: i64) -> Option<f64> {
    let s = slope(m)?;
    let d = m.deltas();
    let (start, end) = m.offset_range();
    let mut res: Vec<f64> = d[start..end].iter().map(|p| p.1 as f64 - s * p.0 as f64).collect();
    res.sort_by(|a, b| a.partial_cmp(b).unwrap());
    let k = res.len();
    let c = if k == 0 {
        0.0
    } else if k % 2 == 1 {
        res[k / 2]
    } else {
        0.5 * (res[k / 2 - 1] + res[k / 2])
    };
    let (_, base_host) = m.base()?;
    let dx = m.fw_delta(fw_us)? as f64;
    Some(base_host as f64 + s * dx + c)
}

#[test]
fn recovers_slope_and_offset_with_noise() {
    let a_true = 1000.04_f64;
    let b_true = 5_000_000.0_f64;
    let mut m = ClockModel::new();
    let mut seed = 12345u64;
    let mut noise = || {
        seed = seed.wrapping_mul(6364136223846793005).wrapping_add(1442695040888963407);
        ((seed >> 33) as f64 / (1u64 << 31) as f64 - 1.0) * 100_000.0
    };
    for k in 0..1200i64 {
        let fw = 1_000_000 + k * 50_000;
        let host = (a_true * fw as f64 + b_true + noise()).round() as i64;
        m.add(fw, host);
    }
    let s = slope(&m).unwrap();
    assert!((s - a_true).abs() < 0.02, "slope {} off", s);

    let mut worst = 0.0_f64;
    for j in 0..40i64 {
        let fw_test = 1_000_000 + 1199 * 50_000 - j * 1_000;
        let host_mapped = map(&m, fw_test).unwrap();
        let host_truth = a_true * fw_test as f64 + b_true;
        worst = worst.max((host_mapped - host_truth).abs());
    }
    assert!(worst < 100_000.0, "worst near-recent map error {} ns", worst);
}

#[test]
fn unaligned_returns_none() {
    let m = ClockModel::new();
    assert!(map(&m, 123).is_none());
    let mut m2 = ClockModel::new();
    m2.add(1000, 1_000_000);
    assert!(map(&m2, 1000).is_none());
}

#[test]
fn history_is_bounded() {
    let mut m = ClockModel::with_params(100, 16);
    for k in 0..1000i64 {
        m.add(k * 1000, k * 1_000_000);
    }
    assert!(m.points() <= 100);
    let s = slope(&m).unwrap();
    assert!((s - 1000.0).abs() < 1.0);
}

#[test]
fn first_beacon_is_the_base() {
    let mut m = ClockModel::new();
    assert_eq!(m.base(), None);
    assert_eq!(m.points(), 0);
    m.add(-5, 40);
    m.add(10, 100);
    assert_eq!(m.base(), Some((-5, 40)));
    assert_eq!(m.deltas(), &[(0, 0), (15, 60)][..]);
    assert_eq!(m.fw_delta(20), Some(25));
}

#[test]
fn oldest_beacons_leave_first() {
    let mut m = ClockModel::with_params(3, 2);
    for k in 0..5i64 {
        m.add(k, 10 * k);
    }
    assert_eq!(m.points(), 3);
    assert_eq!(m.deltas(), &[(2, 20), (3, 30), (4, 40)][..]);
    assert_eq!(m.offset_range(), (1, 3));
}

#[test]
fn zero_history_keeps_only_the_base() {
    let mut m = ClockModel::with_params(0, 4);
    m.add(7, 8);
    assert_eq!(m.points(), 0);
    assert_eq!(m.base(), Some((7, 8)));
    assert_eq!(m.offset_range(), (0, 0));
}

#[test]
fn default_limits() {
    let m = ClockModel::default();
    assert_eq!(DEFAULT_HISTORY, 4096);
    assert_eq!(DEFAULT_OFFSET_WINDOW, 32);
    assert_eq!(m.points(), 0);
}

#[test]
fn overflowing_distance_is_refused() {
    let mut m = ClockModel::new();
    m.add(i64::MIN, 0);
    assert!(!m.accepts(1, 0));
    assert!(m.accepts(-1, 5));
    assert_eq!(m.fw_delta(i64::MAX), None);
}

#[test]
fn timebase_falls_back_to_one_to_one() {
    let tb = Timebase::from_raw(0, 3);
    assert_eq!(mach_to_ns(12345, &tb), 12345);
    let tb = Timebase::from_raw(125, 3);
    assert_eq!(mach_to_ns(24, &tb), 1000);
    assert_eq!(mach_to_ns(u64::MAX, &Timebase::from_raw(1, 1)), -1);
}

#[test]
fn points_after_n_beacons_is_min_of_n_and_the_limit() {
    for h in [0usize, 1, 5] {
        let mut m = ClockModel::with_params(h, 2);
        for n in 1..=8i64 {
            m.add(n, 2 * n);
            assert_eq!(m.points(), (n as usize).min(h));
        }
    }
}
