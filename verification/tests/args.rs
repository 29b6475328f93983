use makcu_rs::latency::args::{parse_args, parse_u16, parse_unsigned, same_text, Args, ParsedArgs};
use makcu_rs::latency::launch::{hex4, required_ids, startup_outcome};
use makcu_rs::latency::ports::{autodetect_ch34x, PortInfo};
use makcu_rs::latency::report::{hex, reports_match};
use makcu_rs::latency::session::Startup;

fn argv(words: &[&str]) -> Vec<String> {
    words.iter().map(|w| w.to_string()).collect()
}

fn run_args(words: &[&str]) -> Args {
    match parse_args(&argv(words)) {
        Ok(ParsedArgs::Run(a)) => a,
        Ok(ParsedArgs::Help) => panic!("help"),
        Err(e) => panic!("error {e}"),
    }
}

fn err_of(words: &[&str]) -> String {
    match parse_args(&argv(words)) {
        Err(e) => e,
        _ => panic!("expected an error"),
    }
}

#[test]
fn ids_in_hex_or_decimal() {
    assert_eq!(parse_u16("0x1A86"), Some(0x1A86));
    assert_eq!(parse_u16("0X1a86"), Some(0x1A86));
    assert_eq!(parse_u16("6790"), Some(6790));
    assert_eq!(parse_u16("  0x05ac \n"), Some(0x05AC));
    assert_eq!(parse_u16("+12"), Some(12));
    assert_eq!(parse_u16("0x+ff"), Some(255));
    assert_eq!(parse_u16("65535"), Some(65535));
}

#[test]
fn bad_ids_are_refused() {
    assert_eq!(parse_u16("65536"), None);
    assert_eq!(parse_u16("0x10000"), None);
    assert_eq!(parse_u16("0x"), None);
    assert_eq!(parse_u16(""), None);
    assert_eq!(parse_u16("   "), None);
    assert_eq!(parse_u16("12a"), None);
    assert_eq!(parse_u16("-1"), None);
    assert_eq!(parse_u16("+"), None);
    assert_eq!(parse_u16("0x1 2"), None);
}

#[test]
fn unsigned_parse_bounds() {
    assert_eq!(parse_unsigned("4294967295", 10, 0xffff_ffff), Some(4294967295));
    assert_eq!(parse_unsigned("4294967296", 10, 0xffff_ffff), None);
    assert_eq!(parse_unsigned("18446744073709551615", 10, u64::MAX), Some(u64::MAX));
    assert_eq!(parse_unsigned("18446744073709551616", 10, u64::MAX), None);
    assert_eq!(parse_unsigned("fF", 16, 0xffff), Some(255));
    assert_eq!(parse_unsigned("fF", 10, 0xffff), None);
    assert_eq!(parse_unsigned(" 1", 10, 0xffff), None);
}

#[test]
fn defaults_without_arguments() {
    let a = run_args(&[]);
    assert_eq!(a.seconds, 30);
    assert_eq!(a.baud, 4_000_000);
    assert_eq!(a.vid, None);
    assert_eq!(a.pid, None);
    assert_eq!(a.serial, None);
    assert_eq!(a.csv, None);
    assert!(!a.seize && !a.list && !a.list_serial && !a.debug);
}

#[test]
fn every_option_is_read() {
    let a = run_args(&[
        "--vid", "0x1A86", "--pid", "21972", "--serial", "/dev/cu.x", "--baud", "115200", "--seconds",
        "0", "--seize", "--csv", "out.csv", "--debug", "--list", "--list-serial",
    ]);
    assert_eq!(a.vid, Some(0x1A86));
    assert_eq!(a.pid, Some(21972));
    assert_eq!(a.serial.as_deref(), Some("/dev/cu.x"));
    assert_eq!(a.baud, 115200);
    assert_eq!(a.seconds, 0);
    assert!(a.seize && a.debug && a.list && a.list_serial);
    assert_eq!(a.csv.as_deref(), Some("out.csv"));
}

#[test]
fn help_stops_the_reading() {
    assert!(matches!(parse_args(&argv(&["-h", "--bogus"])), Ok(ParsedArgs::Help)));
    assert!(matches!(parse_args(&argv(&["--seize", "--help"])), Ok(ParsedArgs::Help)));
}

#[test]
fn argument_errors_carry_their_message() {
    assert_eq!(err_of(&["--vid"]), "--vid needs a value");
    assert_eq!(err_of(&["--pid"]), "--pid needs a value");
    assert_eq!(err_of(&["--serial"]), "--serial needs a value");
    assert_eq!(err_of(&["--csv"]), "--csv needs a value");
    assert_eq!(err_of(&["--seconds"]), "--seconds needs a value");
    assert_eq!(err_of(&["--baud"]), "--baud needs a value");
    assert_eq!(err_of(&["--vid", "zz"]), "bad --vid zz");
    assert_eq!(err_of(&["--pid", "70000"]), "bad --pid 70000");
    assert_eq!(err_of(&["--seconds", "-3"]), "bad --seconds -3");
    assert_eq!(err_of(&["--baud", "4294967296"]), "bad --baud 4294967296");
    assert_eq!(err_of(&["--fast"]), "unknown argument: --fast");
    assert_eq!(err_of(&["--list", "x"]), "unknown argument: x");
}

#[test]
fn the_last_occurrence_wins() {
    let a = run_args(&["--baud", "1", "--baud", "2"]);
    assert_eq!(a.baud, 2);
}

#[test]
fn text_comparison() {
    assert!(same_text("--vid", "--vid"));
    assert!(!same_text("--vid", "--vi"));
    assert!(!same_text("--vid", "--pid"));
    assert!(same_text("", ""));
}

#[test]
fn hex_is_lower_case_two_digits_per_byte() {
    assert_eq!(hex(&[0x00, 0x0f, 0xa0, 0xff]), "000fa0ff");
    assert_eq!(hex(&[]), "");
    assert_eq!(hex4(0x1a86), "1a86");
    assert_eq!(hex4(5), "0005");
}

#[test]
fn reports_pair_up_with_or_without_an_id_byte() {
    assert!(reports_match(&[1, 2, 3], &[1, 2, 3]));
    assert!(reports_match(&[9, 1, 2, 3], &[1, 2, 3]));
    assert!(reports_match(&[1, 2, 3], &[7, 1, 2, 3]));
    assert!(!reports_match(&[1, 2, 3], &[1, 2, 4]));
    assert!(!reports_match(&[9, 9, 1, 2, 3], &[1, 2, 3]));
    assert!(!reports_match(&[1, 2, 3, 9], &[1, 2, 3]));
    assert!(reports_match(&[], &[]));
}

#[test]
fn ids_are_required_vendor_first() {
    let mut a = run_args(&[]);
    assert_eq!(required_ids(&a).unwrap_err(), "missing --vid (use --list to find it)");
    a.vid = Some(1);
    assert_eq!(required_ids(&a).unwrap_err(), "missing --pid (use --list to find it)");
    a.pid = Some(2);
    assert_eq!(required_ids(&a).unwrap(), (1, 2));
}

#[test]
fn capture_start_decides_the_run() {
    assert_eq!(startup_outcome(1, 2, Startup::Ready(3)), Ok(3));
    assert_eq!(
        startup_outcome(0x1a86, 0x55d3, Startup::Ready(0)).unwrap_err(),
        "no HID device matched 1a86:55d3 — is LEFT plugged in? (try --list)"
    );
    assert_eq!(startup_outcome(1, 2, Startup::Error("denied".to_string())).unwrap_err(), "denied");
}

#[test]
fn first_ch34x_bridge_is_picked() {
    let ports = vec![
        PortInfo { name: "/dev/a".to_string(), usb_vid: None },
        PortInfo { name: "/dev/b".to_string(), usb_vid: Some(0x0403) },
        PortInfo { name: "/dev/c".to_string(), usb_vid: Some(0x1A86) },
        PortInfo { name: "/dev/d".to_string(), usb_vid: Some(0x1A86) },
    ];
    assert_eq!(autodetect_ch34x(&ports).as_deref(), Some("/dev/c"));
    assert_eq!(autodetect_ch34x(&ports[..2].iter().map(|p| PortInfo { name: p.name.clone(), usb_vid: p.usb_vid }).collect()), None);
}

#[test]
fn written_ids_read_back() {
    for n in [0u16, 1, 9, 10, 255, 4096, 0x1A86, 65535] {
        assert_eq!(parse_u16(&n.to_string()), Some(n));
        assert_eq!(parse_u16(&format!("0x{n:x}")), Some(n));
    }
}
