use makcu_rs::km::batch::Batch;
use makcu_rs::km::buttons::{MouseButton, MouseButtonStates};
use makcu_rs::km::command;
use makcu_rs::km::dump::{hex_dump, text_dump};
use makcu_rs::km::error::MakcuError;
use makcu_rs::km::link::{has_payload, mouse_raw, Inbound, Link, SentLog};
use makcu_rs::km::ports::{autodetect_port, choose_port, contains_text};
use makcu_rs::km::text::{int_text, parse_u32_bytes};

#[test]
fn button_mask_round_trip() {
    for mask in 0u8..32 {
        assert_eq!(MouseButtonStates::from_mask(mask).to_mask(), mask);
    }
    let s = MouseButtonStates::from_mask(0b1110_0101);
    assert!(s.left && !s.right && s.middle && !s.side1 && !s.side2);
    assert_eq!(s.to_mask(), 0b0000_0101);
    assert_eq!(MouseButtonStates::default().to_mask(), 0);
    let all = MouseButtonStates { left: true, right: true, middle: true, side1: true, side2: true };
    assert_eq!(all.to_mask(), 31);
}

#[test]
fn mouse_commands() {
    assert_eq!(command::move_rel(-5, 12), "km.move(-5,12)");
    assert_eq!(command::move_rel(i32::MIN, 0), "km.move(-2147483648,0)");
    assert_eq!(command::move_rel_advanced(1, 2, 3, None), "km.move(1,2,3)");
    assert_eq!(command::move_rel_advanced(1, 2, 3, Some((4, 5, 6, 7))), "km.move(1,2,3,4,5,6,7)");
    assert_eq!(command::move_abs(100, 200), "km.moveto(100,200)");
    assert_eq!(command::move_abs_advanced(1, 2, 8, Some((-1, -2, -3, -4))), "km.moveto(1,2,8,-1,-2,-3,-4)");
    assert_eq!(command::silent_click(3, 4), "km.silent(3,4)");
    assert_eq!(command::wheel(-1), "km.wheel(-1)");
    assert_eq!(command::pan(2), "km.pan(2)");
    assert_eq!(command::tilt(0), "km.tilt(0)");
    assert_eq!(command::mouse_raw(3, 1, -1, 0, 2, -2), "km.mo(3,1,-1,0,2,-2)");
    assert_eq!(command::get_pos(), "km.getpos()");
}

#[test]
fn button_commands() {
    assert_eq!(command::button(MouseButton::Left, true), "km.left(1)");
    assert_eq!(command::button(MouseButton::Side2, false), "km.side2(0)");
    assert_eq!(command::named_button("middle", true), "km.middle(1)");
    assert_eq!(command::btn_name(MouseButton::Side1), "side1");
    assert_eq!(command::mouse_btn_lock_name(MouseButton::Side1), "ms1");
    assert_eq!(command::click_scheduled(1, Some(3), Some(50)), "km.click(1,3,50)");
    assert_eq!(command::click_scheduled(2, Some(3), None), "km.click(2,3)");
    assert_eq!(command::click_scheduled(2, None, Some(9)), "km.click(2)");
    assert_eq!(command::turbo(1, Some(40)), "km.turbo(1,40)");
    assert_eq!(command::turbo(1, None), "km.turbo(1)");
    assert_eq!(command::turbo_disable_all(), "km.turbo(0)");
    assert_eq!(command::turbo_get(), "km.turbo()");
}

#[test]
fn lock_and_catch_commands() {
    assert_eq!(command::lock("mx+", true), "km.lock_mx+(1)");
    assert_eq!(command::lock("ms2", false), "km.lock_ms2(0)");
    assert_eq!(command::get_lock("mw"), "km.lock_mw()");
    assert_eq!(command::catch_button(MouseButton::Right, 1), "km.catch_mr(1)");
    assert_eq!(command::get_catch_button(MouseButton::Middle), "km.catch_mm()");
}

#[test]
fn remap_and_stream_commands() {
    assert_eq!(command::remap_button(1, 2), "km.remap_button(1,2)");
    assert_eq!(command::remap_button_reset(), "km.remap_button(0)");
    assert_eq!(command::remap_axis(true, false, true), "km.remap_axis(1,0,1)");
    assert_eq!(command::remap_axis_reset(), "km.remap_axis(0)");
    assert_eq!(command::invert_x(true), "km.invert_x(1)");
    assert_eq!(command::invert_y(false), "km.invert_y(0)");
    assert_eq!(command::swap_xy(true), "km.swap_xy(1)");
    assert_eq!(command::buttons_stream(1, Some(10)), "km.buttons(1,10)");
    assert_eq!(command::axis_stream(2, None), "km.axis(2)");
    assert_eq!(command::mouse_stream(0, Some(0)), "km.mouse(0,0)");
    assert_eq!(command::keyboard_stream(1, Some(100)), "km.keyboard(1,100)");
}

#[test]
fn keyboard_commands() {
    assert_eq!(command::key_down("'a'"), "km.down('a')");
    assert_eq!(command::key_up("4"), "km.up(4)");
    assert_eq!(command::key_press("'a'", Some(50), Some(10)), "km.press('a',50,10)");
    assert_eq!(command::key_press("'a'", Some(50), None), "km.press('a',50)");
    assert_eq!(command::key_press("'a'", None, Some(10)), "km.press('a')");
    assert_eq!(command::type_string(r#"say "hi" \o/"#), r#"km.string("say \"hi\" \\o/")"#);
    assert_eq!(command::keyboard_init(), "km.init()");
    assert_eq!(command::is_key_down("'shift'"), "km.isdown('shift')");
    assert_eq!(command::set_key_disabled("'f1'", false), "km.disable('f1',0)");
    assert_eq!(command::mask_key("'capslock'", true), "km.mask('capslock',1)");
    assert_eq!(command::remap_key("'a'", "'b'"), "km.remap('a','b')");
    assert_eq!(command::disable_keys(&["'f1'", "'alt'", "'win'"]).as_deref(), Some("km.disable('f1','alt','win')"));
    assert_eq!(command::disable_keys(&[]), None);
    assert_eq!(command::get_disabled_keys(), "km.disable()");
}

#[test]
fn system_commands() {
    assert_eq!(command::set_serial(""), "km.serial(0)");
    assert_eq!(command::set_serial("ab'c"), r"km.serial('ab\'c')");
    assert_eq!(command::reset_serial(), "km.serial(0)");
    assert_eq!(command::log_level(3), "km.log(3)");
    assert_eq!(command::set_baud(4_000_000), "km.baud(4000000)");
    assert_eq!(command::bypass(2), "km.bypass(2)");
    assert_eq!(command::auto_release(500), "km.release(500)");
    assert_eq!(command::echo(false), "km.echo(0)");
    assert_eq!(command::high_speed(true), "km.hs(1)");
    assert_eq!(command::led(1, 0), "km.led(1,0)");
    assert_eq!(command::led_flash(2, 3, 100), "km.led(2,3,100)");
    assert_eq!(command::screen(1920, 1080), "km.screen(1920,1080)");
    assert_eq!(command::help(), "km.help()");
    assert_eq!(command::info(), "km.info()");
    assert_eq!(command::version(), "km.version()");
    assert_eq!(command::device_type(), "km.device()");
    assert_eq!(command::fault(), "km.fault()");
    assert_eq!(command::reboot(), "km.reboot()");
    assert_eq!(command::get_serial(), "km.serial()");
    assert_eq!(command::get_log_level(), "km.log()");
    assert_eq!(command::get_echo(), "km.echo()");
    assert_eq!(command::get_baud(), "km.baud()");
    assert_eq!(command::get_bypass(), "km.bypass()");
    assert_eq!(command::get_high_speed(), "km.hs()");
    assert_eq!(command::get_led(), "km.led()");
    assert_eq!(command::get_auto_release(), "km.release()");
    assert_eq!(command::get_screen(), "km.screen()");
    assert_eq!(command::pan_get(), "km.pan()");
    assert_eq!(command::tilt_get(), "km.tilt()");
    assert_eq!(command::get_remap_button(), "km.remap_button()");
    assert_eq!(command::get_remap_axis(), "km.remap_axis()");
    assert_eq!(command::get_invert_x(), "km.invert_x()");
    assert_eq!(command::get_invert_y(), "km.invert_y()");
    assert_eq!(command::get_swap_xy(), "km.swap_xy()");
}

#[test]
fn batch_collects_lines() {
    let dev = 7u8;
    let b = Batch::new(&dev)
        .move_rel(1, -1)
        .click(MouseButton::Left)
        .press(MouseButton::Right)
        .release(MouseButton::Right)
        .wheel(2)
        .key_press("'a'");
    assert_eq!(
        b.text(),
        "km.move(1,-1)\r\nkm.left()\r\nkm.right(1)\r\nkm.right(0)\r\nkm.wheel(2)\r\nkm.press('a')\r\n"
    );
    assert_eq!(*b.dev(), 7);
    let b2 = Batch::new(&dev).move_abs(5, 6).pan(1).tilt(-1).mouse_raw(1, 2, 3, 4, 5, 6).key_down("4").key_up("4");
    assert_eq!(
        b2.text(),
        "km.moveto(5,6)\r\nkm.pan(1)\r\nkm.tilt(-1)\r\nkm.mo(1,2,3,4,5,6)\r\nkm.down(4)\r\nkm.up(4)\r\n"
    );
}

#[test]
fn decimal_text() {
    assert_eq!(int_text(0), "0");
    assert_eq!(int_text(-42), "-42");
    assert_eq!(int_text(i64::MIN), "-9223372036854775808");
    assert_eq!(parse_u32_bytes(b"4294967295"), Some(u32::MAX));
    assert_eq!(parse_u32_bytes(b"4294967296"), None);
    assert_eq!(parse_u32_bytes(b"+7"), Some(7));
    assert_eq!(parse_u32_bytes(b""), None);
    assert_eq!(parse_u32_bytes(b"1a"), None);
}

fn stream_text(e: &Inbound<u8>) -> Option<Vec<u8>> {
    match e {
        Inbound::Stream(t) => Some(t.clone()),
        _ => None,
    }
}

#[test]
fn frames_carry_crlf_and_ids() {
    let mut link: Link<u8> = Link::new();
    let mut log = SentLog::new();
    assert_eq!(link.frame_ff(&mut log, b"km.move(1,2)"), b"km.move(1,2)\r\n".to_vec());
    let (id1, f1) = link.frame_tracked(&mut log, b"km.version()", 1);
    assert_eq!(id1, 1);
    assert_eq!(f1, b"km.version()#1\r\n".to_vec());
    let (id2, f2) = link.frame_tracked(&mut log, b"km.baud()", 2);
    assert_eq!(id2, 2);
    assert_eq!(f2, b"km.baud()#2\r\n".to_vec());
    assert_eq!(link.waiting(), 2);
}

#[test]
fn tagged_reply_reaches_its_waiter() {
    let mut link: Link<u8> = Link::new();
    let mut log = SentLog::new();
    let (a, _) = link.frame_tracked(&mut log, b"km.version()", 10);
    let (_b, _) = link.frame_tracked(&mut log, b"km.device()", 20);
    let events = link.on_bytes(&log, format!("km.version()#{a}:V3.2\r\n").as_bytes());
    assert_eq!(events.len(), 1);
    match &events[0] {
        Inbound::Reply(p, t) => {
            assert_eq!(*p, 10);
            assert_eq!(t, b"V3.2");
        }
        _ => panic!("expected a reply"),
    }
    assert_eq!(link.waiting(), 1);
}

#[test]
fn echo_is_dropped_and_next_line_answers() {
    let mut link: Link<u8> = Link::new();
    let mut log = SentLog::new();
    let _ = link.frame_tracked(&mut log, b"km.buttons(1,10)", 5);
    let events = link.on_bytes(&log, b">>> km.buttons(raw,10)\r\n1\r\n");
    assert_eq!(events.len(), 1);
    match &events[0] {
        Inbound::Reply(p, t) => {
            assert_eq!(*p, 5);
            assert_eq!(t, b"1");
        }
        _ => panic!("expected a reply"),
    }
    assert_eq!(link.waiting(), 0);
}

#[test]
fn lines_without_waiters_are_streamed_and_split_lines_wait() {
    let mut link: Link<u8> = Link::new();
    let mut log = SentLog::new();
    let e1 = link.on_bytes(&log, b"keyboard: a\r\nkeyb");
    assert_eq!(e1.len(), 1);
    assert_eq!(stream_text(&e1[0]), Some(b"keyboard: a".to_vec()));
    assert_eq!(link.buffered(), 4);
    let e2 = link.on_bytes(&log, b"oard: b\n\r\n");
    assert_eq!(e2.len(), 1);
    assert_eq!(stream_text(&e2[0]), Some(b"keyboard: b".to_vec()));
    assert_eq!(link.buffered(), 0);
}

#[test]
fn button_byte_and_binary_frames() {
    let mut link: Link<u8> = Link::new();
    let mut log = SentLog::new();
    let e = link.on_bytes(&log, &[0x05]);
    match &e[0] {
        Inbound::Buttons(s) => assert_eq!(s.to_mask(), 5),
        _ => panic!("expected buttons"),
    }
    let mut line = b"km.buttons".to_vec();
    line.push(0x03);
    line.extend_from_slice(b"\r\n");
    let e = link.on_bytes(&log, &line);
    match &e[0] {
        Inbound::Buttons(s) => assert!(s.left && s.right && !s.middle),
        _ => panic!("expected buttons"),
    }
    let mut m = b"km.mouse".to_vec();
    m.extend_from_slice(&[0x01, 0xFF, 0x00, 0x10, 0xAB, 0x20, 0x7F, 0x80]);
    m.push(b'\n');
    let e = link.on_bytes(&log, &m);
    assert_eq!(stream_text(&e[0]), Some(b"mouse_raw:[01, FF, 00, 10, AB, 20, 7F, 80]".to_vec()));
}

#[test]
fn cancel_and_close_hand_waiters_back() {
    let mut link: Link<u8> = Link::new();
    let mut log = SentLog::new();
    let (a, _) = link.frame_tracked(&mut log, b"km.a()", 1);
    let (_b, _) = link.frame_tracked(&mut log, b"km.b()", 2);
    let (_c, _) = link.frame_tracked(&mut log, b"km.c()", 3);
    assert_eq!(link.cancel(a), Some(1));
    assert_eq!(link.cancel(a), None);
    let _ = link.on_bytes(&log, b"partial");
    assert_eq!(link.close(), vec![2, 3]);
    assert_eq!(link.waiting(), 0);
    assert_eq!(link.buffered(), 0);
}

#[test]
fn reply_for_an_unknown_id_is_dropped() {
    let mut link: Link<u8> = Link::new();
    let mut log = SentLog::new();
    let _ = link.frame_tracked(&mut log, b"km.version()", 1);
    let events = link.on_bytes(&log, b"km.version()#99:V1\r\n");
    assert!(events.is_empty());
    assert_eq!(link.waiting(), 1);
}

#[test]
fn raw_mouse_text() {
    assert_eq!(mouse_raw(&[0x0A, 0x00]), b"mouse_raw:[0A, 00]".to_vec());
    assert_eq!(mouse_raw(&[]), b"mouse_raw:[]".to_vec());
}

#[test]
fn raw_dumps() {
    assert_eq!(hex_dump(&[0x00, 0xAB, 0x7F]), b"00 AB 7F ".to_vec());
    assert_eq!(text_dump(b"ok\r\n\x01~"), b"ok\\r\\n\\x01~".to_vec());
    assert_eq!(text_dump(&[0x80, b' ']), b"\\x80 ".to_vec());
}

#[test]
fn errors_keep_their_detail() {
    match MakcuError::Timeout(4) {
        MakcuError::Timeout(id) => assert_eq!(id, 4),
        _ => panic!(),
    }
    let e = MakcuError::Connection("Not connected".to_string());
    assert!(format!("{e:?}").contains("Not connected"));
    assert!(matches!(MakcuError::Command("x".into()), MakcuError::Command(_)));
}

#[test]
fn only_zero_bytes_are_no_payload() {
    assert!(!has_payload(&[]));
    assert!(!has_payload(&[0, 0, 0]));
    assert!(has_payload(&[0, 0, 1]));
}

#[test]
fn likely_device_port_is_picked() {
    assert!(contains_text("/dev/ttyACM0", "ACM"));
    assert!(!contains_text("/dev/ttyS0", "acm"));
    assert!(contains_text("abc", ""));
    assert!(!contains_text("ab", "abc"));
    let ports = vec!["/dev/ttyS0".to_string(), "/dev/ttyACM0".to_string(), "/dev/cu.usbmodem1".to_string()];
    assert_eq!(autodetect_port(&ports).as_deref(), Some("/dev/ttyACM0"));
    let plain = vec!["COM1".to_string(), "COM7".to_string()];
    assert_eq!(autodetect_port(&plain).as_deref(), Some("COM1"));
    assert_eq!(autodetect_port(&Vec::new()), None);
    let upper = vec!["x".to_string(), "/dev/CU.USBSERIAL-1".to_string()];
    assert_eq!(autodetect_port(&upper).as_deref(), Some("/dev/CU.USBSERIAL-1"));
    let lowered: Vec<String> = upper.iter().map(|p| p.to_lowercase()).collect();
    assert_eq!(choose_port(&upper, &lowered).as_deref(), Some("/dev/CU.USBSERIAL-1"));
}

#[test]
fn cancel_right_after_registering_restores_the_waiting_list() {
    let mut link: Link<u8> = Link::new();
    let mut log = SentLog::new();
    let _ = link.frame_tracked(&mut log, b"km.a()", 1);
    let (b, _) = link.frame_tracked(&mut log, b"km.b()", 2);
    assert_eq!(link.cancel(b), Some(2));
    assert_eq!(link.waiting(), 1);
    let e = link.on_bytes(&log, b"reply\r\n");
    match &e[0] {
        Inbound::Reply(p, t) => {
            assert_eq!(*p, 1);
            assert_eq!(t, b"reply");
        }
        _ => panic!("expected a reply"),
    }
}

fn summary(events: &[Inbound<u8>]) -> Vec<String> {
    events
        .iter()
        .map(|e| match e {
            Inbound::Buttons(s) => format!("b{}", s.to_mask()),
            Inbound::Stream(t) => format!("s{}", String::from_utf8_lossy(t)),
            Inbound::Reply(p, t) => format!("r{}:{}", p, String::from_utf8_lossy(t)),
        })
        .collect()
}

#[test]
fn reads_split_anywhere_give_the_same_events() {
    let text: &[u8] = b"km.version()#1:V1\r\n>>> km.axis(raw,5)\r\nhello\r\nkeyboard: a\r\npart";
    let mut whole: Link<u8> = Link::new();
    let mut log = SentLog::new();
    let _ = whole.frame_tracked(&mut log, b"km.version()", 7);
    let _ = whole.frame_tracked(&mut log, b"km.axis(1,5)", 8);
    let all = summary(&whole.on_bytes(&log, text));
    for cut in 2..text.len() - 1 {
        let mut split: Link<u8> = Link::new();
        let mut log = SentLog::new();
        let _ = split.frame_tracked(&mut log, b"km.version()", 7);
        let _ = split.frame_tracked(&mut log, b"km.axis(1,5)", 8);
        let mut ev = summary(&split.on_bytes(&log, &text[..cut]));
        ev.extend(summary(&split.on_bytes(&log, &text[cut..])));
        assert_eq!(ev, all, "cut at {cut}");
        assert_eq!(split.buffered(), whole.buffered());
        assert_eq!(split.waiting(), whole.waiting());
    }
    assert_eq!(all, vec!["r7:V1".to_string(), "r8:hello".to_string(), "skeyboard: a".to_string()]);
}

#[test]
fn the_echo_filter_forgets_old_commands() {
    let mut link: Link<u8> = Link::new();
    let mut log = SentLog::new();
    let _ = link.frame_ff(&mut log, b"km.x()");
    for k in 0..32u8 {
        let _ = link.frame_ff(&mut log, format!("km.y({k})").as_bytes());
    }
    let _ = link.frame_tracked(&mut log, b"km.z()", 3);
    let e = link.on_bytes(&log, b"km.x()\r\n");
    assert_eq!(summary(&e), vec!["r3:km.x()".to_string()]);
}

#[test]
fn with_nothing_waiting_every_line_is_streamed() {
    let mut link: Link<u8> = Link::new();
    let log = SentLog::new();
    let e = link.on_bytes(&log, b"x#5:y\n");
    assert_eq!(summary(&e), vec!["sx#5:y".to_string()]);
    let e = link.on_bytes(&log, b">>> km.version()\r\n");
    assert_eq!(summary(&e), vec!["s>>> km.version()".to_string()]);
}

#[test]
fn one_log_filters_echoes_for_every_link() {
    let mut log = SentLog::new();
    let a: Link<u8> = Link::new();
    let mut b: Link<u8> = Link::new();
    let _ = a.frame_ff(&mut log, b"km.move(1,2)");
    let _ = b.frame_tracked(&mut log, b"km.version()", 4);
    assert_eq!(log.len(), 2);
    assert!(b.on_bytes(&log, b"km.move(1,2)\r\n").is_empty());
    assert_eq!(summary(&b.on_bytes(&log, b"V1\r\n")), vec!["r4:V1".to_string()]);
}
