use makcu_rs::sigtap::parser::Parser;
use makcu_rs::sigtap::record::{Record, Sync, Tap};
use makcu_rs::sigtap::wire::{
    crc16_ccitt, rd_i64, rd_u16, rd_u32, MAGIC0, MAGIC1, OFF_VERSION, TYPE_SYNC, TYPE_TAP, VERSION,
};

/// Builds a wire record exactly as the firmware would.
fn frame(typ: u8, seq: u32, t_cap: i64, t_sub: i64, t_emit: i64, report: &[u8]) -> Vec<u8> {
    let mut b = vec![MAGIC0, MAGIC1, VERSION, typ];
    b.extend_from_slice(&seq.to_le_bytes());
    b.extend_from_slice(&t_cap.to_le_bytes());
    b.extend_from_slice(&t_sub.to_le_bytes());
    b.extend_from_slice(&t_emit.to_le_bytes());
    b.push(report.len() as u8);
    b.extend_from_slice(report);
    let crc = crc16_ccitt(&b[OFF_VERSION..]);
    b.extend_from_slice(&crc.to_le_bytes());
    b
}

#[test]
fn parse_one_tap() {
    let kb = [0u8, 0, 0x04, 0, 0, 0, 0, 0];
    let bytes = frame(TYPE_TAP, 7, 1_000_000, 1_000_250, 1_005_000, &kb);
    let mut p = Parser::new();
    let mut out = Vec::new();
    p.push(&bytes, &mut out);
    assert_eq!(out.len(), 1);
    match &out[0] {
        Record::Tap(t) => {
            assert_eq!(t.seq, 7);
            assert_eq!(t.t_cap_us, 1_000_000);
            assert_eq!(t.t_sub_us, 1_000_250);
            assert_eq!(t.report, kb);
        }
        _ => panic!("expected tap"),
    }
    assert_eq!(p.crc_errors, 0);
}

#[test]
fn parse_sync() {
    let bytes = frame(TYPE_SYNC, 42, 0, 0, 9_999_999, &[]);
    let mut p = Parser::new();
    let mut out = Vec::new();
    p.push(&bytes, &mut out);
    assert_eq!(out.len(), 1);
    assert_eq!(out[0], Record::Sync(Sync { seq: 42, t_emit_us: 9_999_999 }));
}

#[test]
fn resync_past_garbage_and_ascii() {
    let mut stream = b"km.version() = V1\n".to_vec();
    stream.push(0xAA);
    stream.extend_from_slice(&frame(TYPE_TAP, 1, 5, 6, 7, &[0, 0, 4, 0, 0, 0, 0, 0]));
    let mut p = Parser::new();
    let mut out = Vec::new();
    p.push(&stream, &mut out);
    assert_eq!(out.len(), 1);
    if let Record::Tap(t) = &out[0] {
        assert_eq!(t.seq, 1);
    } else {
        panic!();
    }
}

#[test]
fn split_across_pushes() {
    let bytes = frame(TYPE_TAP, 99, 100, 200, 300, &[1, 2, 3, 4, 5, 6, 7, 8]);
    let mut p = Parser::new();
    let mut out = Vec::new();
    for &b in &bytes {
        p.push(&[b], &mut out);
    }
    assert_eq!(out.len(), 1);
    if let Record::Tap(t) = &out[0] {
        assert_eq!(t.seq, 99);
        assert_eq!(t.report, vec![1, 2, 3, 4, 5, 6, 7, 8]);
    } else {
        panic!();
    }
}

#[test]
fn corrupt_crc_is_rejected_and_recovers() {
    let mut bytes = frame(TYPE_TAP, 5, 1, 2, 3, &[0, 0, 4, 0, 0, 0, 0, 0]);
    let last = bytes.len() - 1;
    bytes[last] ^= 0xFF;
    let good = frame(TYPE_TAP, 6, 1, 2, 3, &[0, 0, 5, 0, 0, 0, 0, 0]);
    bytes.extend_from_slice(&good);
    let mut p = Parser::new();
    let mut out = Vec::new();
    p.push(&bytes, &mut out);
    assert_eq!(out.len(), 1, "only the good record survives");
    assert!(p.crc_errors >= 1);
    if let Record::Tap(t) = &out[0] {
        assert_eq!(t.seq, 6);
    } else {
        panic!();
    }
}

#[test]
fn crc_matches_firmware_vector() {
    assert_eq!(crc16_ccitt(b"123456789"), 0x29B1);
}

#[test]
fn crc_of_nothing_is_the_initial_value() {
    assert_eq!(crc16_ccitt(&[]), 0xFFFF);
}

#[test]
fn little_endian_reads() {
    let b = [0x34u8, 0x12, 0x78, 0x56, 0xFF, 0xFF, 0xFF, 0xFF, 0xFF, 0xFF, 0xFF, 0xFF];
    assert_eq!(rd_u16(&b, 0), 0x1234);
    assert_eq!(rd_u32(&b, 0), 0x5678_1234);
    assert_eq!(rd_i64(&b, 4), -1);
    let t: i64 = -1_234_567_890_123;
    let tb = t.to_le_bytes();
    assert_eq!(rd_i64(&tb, 0), t);
}

#[test]
fn negative_and_large_timestamps_round_trip() {
    let bytes = frame(TYPE_TAP, u32::MAX, i64::MIN, -1, i64::MAX, &[9; 64]);
    let mut p = Parser::new();
    let mut out = Vec::new();
    p.push(&bytes, &mut out);
    assert_eq!(
        out,
        vec![Record::Tap(Tap {
            seq: u32::MAX,
            t_cap_us: i64::MIN,
            t_sub_us: -1,
            t_emit_us: i64::MAX,
            report: vec![9; 64],
        })]
    );
    assert_eq!(p.crc_errors, 0);
}

#[test]
fn oversized_report_length_is_skipped() {
    let mut bad = frame(TYPE_TAP, 1, 1, 2, 3, &[0; 8]);
    bad[32] = 65;
    let mut stream = bad;
    stream.extend_from_slice(&frame(TYPE_SYNC, 2, 0, 0, 10, &[]));
    let mut p = Parser::new();
    let mut out = Vec::new();
    p.push(&stream, &mut out);
    assert_eq!(out, vec![Record::Sync(Sync { seq: 2, t_emit_us: 10 })]);
    assert_eq!(p.crc_errors, 0);
}

#[test]
fn unknown_type_with_good_crc_is_skipped() {
    let mut stream = frame(7, 3, 0, 0, 0, &[]);
    stream.extend_from_slice(&frame(TYPE_SYNC, 4, 0, 0, 11, &[]));
    let mut p = Parser::new();
    let mut out = Vec::new();
    p.push(&stream, &mut out);
    assert_eq!(out, vec![Record::Sync(Sync { seq: 4, t_emit_us: 11 })]);
}

#[test]
fn records_in_pieces_equal_records_at_once() {
    let mut stream = b"noise".to_vec();
    for k in 0..5u32 {
        stream.extend_from_slice(&frame(TYPE_TAP, k, k as i64, k as i64 + 1, 2, &[k as u8; 3]));
        stream.extend_from_slice(&frame(TYPE_SYNC, 100 + k, 0, 0, k as i64, &[]));
    }
    let mut whole = Parser::new();
    let mut a = Vec::new();
    whole.push(&stream, &mut a);
    let mut pieces = Parser::new();
    let mut b = Vec::new();
    for chunk in stream.chunks(7) {
        pieces.push(chunk, &mut b);
    }
    assert_eq!(a.len(), 10);
    assert_eq!(a, b);
    assert_eq!(whole.crc_errors, pieces.crc_errors);
}

#[test]
fn record_seq_reads_either_kind() {
    let t = Record::Tap(Tap { seq: 5, t_cap_us: 0, t_sub_us: 0, t_emit_us: 0, report: vec![] });
    let s = Record::Sync(Sync { seq: 8, t_emit_us: 0 });
    assert_eq!(t.seq(), 5);
    assert_eq!(s.seq(), 8);
}

#[test]
fn crc_of_data_and_its_own_crc_is_zero() {
    for data in [&b""[..], b"123456789", b"\x00\xff\xaa\x55"] {
        let c = crc16_ccitt(data);
        let mut d = data.to_vec();
        d.push((c >> 8) as u8);
        d.push(c as u8);
        assert_eq!(crc16_ccitt(&d), 0);
    }
}

#[test]
fn crc_is_affine_for_equal_lengths() {
    let a = b"abcdefgh";
    let b = b"12345678";
    let c = b"\x00\x01\x02\x03\xfc\xfd\xfe\xff";
    let x: Vec<u8> = (0..8).map(|i| a[i] ^ b[i] ^ c[i]).collect();
    assert_eq!(crc16_ccitt(a) ^ crc16_ccitt(b) ^ crc16_ccitt(c), crc16_ccitt(&x));
}

#[test]
fn records_are_bounded_by_bytes_and_reports_by_the_limit() {
    let mut stream = Vec::new();
    for k in 0..4u32 {
        stream.extend_from_slice(&frame(TYPE_TAP, k, 0, 0, 0, &[]));
    }
    stream.extend_from_slice(&frame(TYPE_TAP, 9, 0, 0, 0, &[7; 64]));
    let mut p = Parser::new();
    let mut out = Vec::new();
    p.push(&stream, &mut out);
    assert_eq!(out.len(), 5);
    assert!(out.len() * 35 <= stream.len());
    assert_eq!(stream.len(), 4 * 35 + 99);
    for r in &out {
        if let Record::Tap(t) = r {
            assert!(t.report.len() <= 64);
        }
    }
    assert_eq!(p.error_count(), 0);
    assert_eq!(p.error_count(), p.crc_errors);
}
