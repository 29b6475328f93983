use makcu_rs::latency::clock::ClockModel;
use makcu_rs::latency::session::{HidEvent, SerialEvent, Session, Startup};
use makcu_rs::sigtap::record::{Record, Sync as SyncRec, Tap};

const A: f64 = 1000.04;
const B: f64 = 7_000_000.0;

fn report_for(k: u32) -> Vec<u8> {
    vec![((k >> 8) & 0xff) as u8, (k & 0xff) as u8, 0x04, 0, 0, 0, 0, 0]
}

fn host_of(fw_us: i64) -> i64 {
    (A * fw_us as f64 + B) as i64
}

/// Least-squares rate over the kept beacons, as the meter computes it.
fn slope(m: &ClockModel) -> Option<f64> {
    let d = m.deltas();
    let n = d.len();
    if n < 2 {
        return None;
    }
    let xbar = d.iter().map(|p| p.0 as f64).sum::<f64>() / n as f64;
    let ybar = d.iter().map(|p| p.1 as f64).sum::<f64>() / n as f64;
    let mut sxx = 0.0;
    let mut sxy = 0.0;
    for p in d {
        let dxc = p.0 as f64 - xbar;
        sxx += dxc * dxc;
        sxy += dxc * (p.1 as f64 - ybar);
    }
    if sxx <= 0.0 {
        return None;
    }
    Some(sxy / sxx)
}

/// Median offset over the recent beacons, as the meter computes it.
fn map(m: &ClockModel, fw_us: i64) -> Option<f64> {
    let s = slope(m)?;
    let d = m.deltas();
    let (start, end) = m.offset_range();
    let mut res: Vec<f64> = d[start..end].iter().map(|p| p.1 as f64 - s * p.0 as f64).collect();
    res.sort_by(|a, b| a.partial_cmp(b).unwrap());
    let k = res.len();
    let c = if k == 0 {
        0.0
    } else if k % 2 == 1 {
        res[k / 2]
    } else {
        0.5 * (res[k / 2 - 1] + res[k / 2])
    };
    let (_, base_host) = m.base()?;
    let dx = m.fw_delta(fw_us)? as f64;
    Some(base_host as f64 + s * dx + c)
}

fn mean(v: &[f64]) -> f64 {
    v.iter().sum::<f64>() / v.len() as f64
}

fn stddev(v: &[f64]) -> f64 {
    let m = mean(v);
    (v.iter().map(|x| (x - m) * (x - m)).sum::<f64>() / (v.len() as f64 - 1.0)).sqrt()
}

#[test]
fn end_to_end_recovers_injected_latencies() {
    let mut sess = Session::new();
    let internal_us: i64 = 250;
    let e2e_true_us: i64 = 1800;
    let mut seq: u32 = 1;
    let mut jit: u64 = 99;
    let mut sync_jitter = || {
        jit = jit.wrapping_mul(2862933555777941757).wrapping_add(3037000493);
        ((jit >> 40) as i64 % 4001) - 2000
    };
    let mut fw_internal: Vec<f64> = Vec::new();
    let mut e2e: Vec<f64> = Vec::new();
    let mut transport: Vec<f64> = Vec::new();

    let n = 200u32;
    for k in 0..n {
        let fw_cap = 1_000_000 + (k as i64) * 8_000;
        if k % 6 == 0 {
            sess.on_serial(SerialEvent {
                rec: Record::Sync(SyncRec { seq, t_emit_us: fw_cap }),
                host_recv_ns: host_of(fw_cap) + sync_jitter(),
            });
            seq += 1;
        }
        sess.on_hid(HidEvent { report: report_for(k), host_ts_ns: host_of(fw_cap) + e2e_true_us * 1000 });
        sess.on_serial(SerialEvent {
            rec: Record::Tap(Tap {
                seq,
                t_cap_us: fw_cap,
                t_sub_us: fw_cap + internal_us,
                t_emit_us: fw_cap + 900,
                report: report_for(k),
            }),
            host_recv_ns: host_of(fw_cap + 900) + 30_000,
        });
        seq += 1;
        for (t, h) in sess.correlate() {
            let fw = (t.t_sub_us - t.t_cap_us) as f64;
            fw_internal.push(fw);
            if let Some(host_cap) = map(sess.clock(), t.t_cap_us) {
                let e = (h.host_ts_ns as f64 - host_cap) / 1000.0;
                e2e.push(e);
                transport.push(e - fw);
            }
        }
    }

    assert_eq!(sess.matched(), n as u64, "every report matched");
    assert_eq!(sess.tap_unmatched(), 0);
    assert_eq!(sess.hid_unmatched(), 0);

    assert!((mean(&fw_internal) - 250.0).abs() < 1e-6, "fw mean {}", mean(&fw_internal));
    assert!(stddev(&fw_internal) < 1e-6, "fw jitter {}", stddev(&fw_internal));

    assert!(e2e.len() >= (n as usize) - 6, "mapped {} of {}", e2e.len(), n);
    assert!((mean(&e2e) - 1800.0).abs() < 20.0, "e2e mean {}", mean(&e2e));
    assert!(stddev(&e2e) < 20.0, "e2e jitter {}", stddev(&e2e));
    assert!((mean(&transport) - 1550.0).abs() < 20.0, "transport mean {}", mean(&transport));

    assert_eq!(sess.lost_records(), 0, "no seq gaps");
}

#[test]
fn recovers_from_a_dropped_hid_report() {
    let mut sess = Session::new();
    let n = 30u32;
    let mut seq = 1u32;
    for k in 0..n {
        let fw_cap = 1_000_000 + (k as i64) * 8_000;
        if k % 4 == 0 {
            sess.on_serial(SerialEvent {
                rec: Record::Sync(SyncRec { seq, t_emit_us: fw_cap }),
                host_recv_ns: host_of(fw_cap),
            });
            seq += 1;
        }
        if k != 15 {
            sess.on_hid(HidEvent { report: report_for(k), host_ts_ns: host_of(fw_cap) + 1_800_000 });
        }
        sess.on_serial(SerialEvent {
            rec: Record::Tap(Tap {
                seq,
                t_cap_us: fw_cap,
                t_sub_us: fw_cap + 250,
                t_emit_us: fw_cap + 900,
                report: report_for(k),
            }),
            host_recv_ns: host_of(fw_cap + 900),
        });
        seq += 1;
        sess.correlate();
    }
    assert_eq!(sess.matched(), (n - 1) as u64, "all but the dropped one match");
    assert_eq!(sess.tap_unmatched(), 1, "the orphaned tap is dropped");
}

fn tap(seq: u32, report: Vec<u8>) -> Record {
    Record::Tap(Tap { seq, t_cap_us: 0, t_sub_us: 0, t_emit_us: 0, report })
}

#[test]
fn pairs_come_back_in_order_with_their_reports() {
    let mut sess = Session::new();
    for k in 0..3u32 {
        sess.on_serial(SerialEvent { rec: tap(k, report_for(k)), host_recv_ns: 0 });
        sess.on_hid(HidEvent { report: report_for(k), host_ts_ns: k as i64 });
    }
    let pairs = sess.correlate();
    assert_eq!(pairs.len(), 3);
    for (k, (t, h)) in pairs.iter().enumerate() {
        assert_eq!(t.seq, k as u32);
        assert_eq!(h.host_ts_ns, k as i64);
        assert_eq!(t.report, h.report);
    }
    assert_eq!(sess.queued_taps(), 0);
    assert_eq!(sess.queued_hids(), 0);
    assert!(sess.correlate().is_empty());
}

#[test]
fn report_id_byte_on_one_side_still_pairs() {
    let mut sess = Session::new();
    let mut with_id = vec![1u8];
    with_id.extend_from_slice(&report_for(3));
    sess.on_serial(SerialEvent { rec: tap(1, report_for(3)), host_recv_ns: 0 });
    sess.on_hid(HidEvent { report: with_id, host_ts_ns: 0 });
    assert_eq!(sess.correlate().len(), 1);
}

#[test]
fn a_lost_tap_drops_the_orphaned_hid_report() {
    let mut sess = Session::new();
    for k in 0..5u32 {
        if k != 2 {
            sess.on_serial(SerialEvent { rec: tap(k, report_for(k)), host_recv_ns: 0 });
        }
        sess.on_hid(HidEvent { report: report_for(k), host_ts_ns: 0 });
    }
    let pairs = sess.correlate();
    assert_eq!(pairs.len(), 4);
    assert_eq!(sess.hid_unmatched(), 1);
    assert_eq!(sess.tap_unmatched(), 0);
}

#[test]
fn unrelated_fronts_wait_for_more_context() {
    let mut sess = Session::new();
    sess.on_serial(SerialEvent { rec: tap(1, vec![1, 2, 3]), host_recv_ns: 0 });
    sess.on_hid(HidEvent { report: vec![9, 9, 9], host_ts_ns: 0 });
    assert!(sess.correlate().is_empty());
    assert!(sess.correlate().is_empty());
    assert_eq!(sess.queued_taps(), 1);
    assert_eq!(sess.queued_hids(), 1);
    assert_eq!(sess.tap_unmatched() + sess.hid_unmatched(), 0);
}

#[test]
fn with_a_full_lookahead_and_no_match_one_of_each_is_dropped() {
    let mut sess = Session::new();
    for k in 0..32u32 {
        sess.on_serial(SerialEvent { rec: tap(k, vec![1, k as u8]), host_recv_ns: 0 });
        sess.on_hid(HidEvent { report: vec![2, k as u8], host_ts_ns: 0 });
    }
    let pairs = sess.correlate();
    assert!(pairs.is_empty());
    assert_eq!(sess.tap_unmatched(), 1);
    assert_eq!(sess.hid_unmatched(), 1);
    assert_eq!(sess.queued_taps(), 31);
    assert_eq!(sess.queued_hids(), 31);
}

#[test]
fn lost_records_counts_sequence_gaps() {
    let mut sess = Session::new();
    assert_eq!(sess.lost_records(), 0);
    sess.on_serial(SerialEvent { rec: Record::Sync(SyncRec { seq: 10, t_emit_us: 0 }), host_recv_ns: 0 });
    sess.on_serial(SerialEvent { rec: Record::Sync(SyncRec { seq: 14, t_emit_us: 1 }), host_recv_ns: 1 });
    assert_eq!(sess.records(), 2);
    assert_eq!(sess.lost_records(), 3);
}

#[test]
fn lost_records_spans_the_wrap_of_the_sequence_number() {
    let mut sess = Session::new();
    sess.on_serial(SerialEvent { rec: tap(u32::MAX, vec![]), host_recv_ns: 0 });
    sess.on_serial(SerialEvent { rec: tap(1, vec![]), host_recv_ns: 0 });
    assert_eq!(sess.lost_records(), 1);
}

#[test]
fn samples_keep_the_first_twelve_reports_of_each_side() {
    let mut sess = Session::new();
    for k in 0..20u32 {
        sess.on_serial(SerialEvent { rec: tap(k, vec![k as u8]), host_recv_ns: 0 });
        sess.on_hid(HidEvent { report: vec![100 + k as u8], host_ts_ns: 0 });
    }
    assert_eq!(sess.sample_taps().len(), 12);
    assert_eq!(sess.sample_hids().len(), 12);
    assert_eq!(sess.sample_taps()[11], vec![11u8]);
    assert_eq!(sess.sample_hids()[0], vec![100u8]);
}

#[test]
fn beacons_feed_the_clock() {
    let mut sess = Session::new();
    sess.on_serial(SerialEvent { rec: Record::Sync(SyncRec { seq: 1, t_emit_us: 500 }), host_recv_ns: 9_000 });
    sess.on_serial(SerialEvent { rec: Record::Sync(SyncRec { seq: 2, t_emit_us: 700 }), host_recv_ns: 9_500 });
    assert_eq!(sess.clock().base(), Some((500, 9_000)));
    assert_eq!(sess.clock().deltas(), &[(0, 0), (200, 500)][..]);
}

#[test]
fn startup_values_carry_their_payload() {
    match Startup::Ready(2) {
        Startup::Ready(n) => assert_eq!(n, 2),
        Startup::Error(_) => panic!(),
    }
    match Startup::Error("x".to_string()) {
        Startup::Error(e) => assert_eq!(e, "x"),
        Startup::Ready(_) => panic!(),
    }
}
