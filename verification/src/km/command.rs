use vstd::prelude::*;
use vstd::string::StrSliceExecFns;
use vstd::string::StringExecFns;

use super::buttons::MouseButton;
use super::text::{call, call0, call1, call2, call3, call_n, dec_int, flag, flag_text, int_text, texts};

verus! {

/// The command name of a button.
pub open spec fn button_name(b: MouseButton) -> Seq<char> {
    match b {
        MouseButton::Left => "left"@,
        MouseButton::Right => "right"@,
        MouseButton::Middle => "middle"@,
        MouseButton::Side1 => "side1"@,
        MouseButton::Side2 => "side2"@,
    }
}

/// The suffix that names a button in the lock and catch commands.
pub open spec fn button_lock_name(b: MouseButton) -> Seq<char> {
    match b {
        MouseButton::Left => "ml"@,
        MouseButton::Right => "mr"@,
        MouseButton::Middle => "mm"@,
        MouseButton::Side1 => "ms1"@,
        MouseButton::Side2 => "ms2"@,
    }
}

/// The command name of a button.
pub fn btn_name(b: MouseButton) -> (s: &'static str)
    ensures
        s@ == button_name(b),
{
    match b {
        MouseButton::Left => "left",
        MouseButton::Right => "right",
        MouseButton::Middle => "middle",
        MouseButton::Side1 => "side1",
        MouseButton::Side2 => "side2",
    }
}

/// The suffix that names a button in the lock and catch commands.
pub fn mouse_btn_lock_name(b: MouseButton) -> (s: &'static str)
    ensures
        s@ == button_lock_name(b),
{
    match b {
        MouseButton::Left => "ml",
        MouseButton::Right => "mr",
        MouseButton::Middle => "mm",
        MouseButton::Side1 => "ms1",
        MouseButton::Side2 => "ms2",
    }
}

/// Text of an argument given as a number.
pub open spec fn num(i: int) -> Seq<char> {
    dec_int(i)
}

/// Arguments of a command with a required value and an optional one.
pub open spec fn opt_args(first: Seq<char>, second: Option<u32>) -> Seq<Seq<char>> {
    match second {
        Some(p) => seq![first, num(p as int)],
        None => seq![first],
    }
}

fn opt_call(name: &str, first: String, second: Option<u32>) -> (s: String)
    ensures
        s@ == call(name@, opt_args(first@, second)),
{
    match second {
        Some(p) => call2(name, first, int_text(p as i64)),
        None => call1(name, first),
    }
}

/// `name` followed by `suffix`.
fn concat(name: &str, suffix: &str) -> (s: String)
    ensures
        s@ == name@ + suffix@,
{
    let mut s = String::from_str(name);
    s.append(suffix);
    s
}

/// A backslash, and a quote character escaped by a backslash.
pub open spec fn escape_char(c: char, quote: char) -> Seq<char> {
    if c == '\\' && quote == '"' {
        seq!['\\', '\\']
    } else if c == quote {
        seq!['\\', quote]
    } else {
        seq![c]
    }
}

/// `s` with every `quote` preceded by a backslash; for double quotes,
/// backslashes are doubled as well.
pub open spec fn escape(s: Seq<char>, quote: char) -> Seq<char>
    decreases s.len(),
{
    if s.len() == 0 {
        Seq::empty()
    } else {
        escape(s.drop_last(), quote) + escape_char(s.last(), quote)
    }
}

fn escape_text(text: &str, quote: char) -> (s: String)
    requires
        quote == '"' || quote == '\'',
    ensures
        s@ == escape(text@, quote),
{
    let n = text.unicode_len();
    let mut s = String::new();
    let mut i: usize = 0;
    while i < n
        invariant
            n == text@.len(),
            i <= n,
            quote == '"' || quote == '\'',
            s@ == escape(text@.take(i as int), quote),
        decreases n - i,
    {
        proof {
            reveal_strlit("\\\\");
            reveal_strlit("\\\"");
            reveal_strlit("\\'");
        }
        let c = text.get_char(i);
        let ghost before = s@;
        if c == '\\' && quote == '"' {
            s.append("\\\\");
        } else if c == quote {
            if quote == '"' {
                s.append("\\\"");
            } else {
                s.append("\\'");
            }
        } else {
            s.append(text.substring_char(i, i + 1));
        }
        assert(text@.take(i + 1).drop_last() =~= text@.take(i as int));
        assert(text@.take(i + 1).last() == c);
        assert(s@ =~= before + escape_char(c, quote));
        assert(s@ =~= escape(text@.take(i + 1), quote));
        i = i + 1;
    }
    assert(text@.take(n as int) =~= text@);
    s
}

fn key_text(key: &str) -> (s: String)
    ensures
        s@ == key@,
{
    String::from_str(key)
}

/// `km.<button>(1)` to press, `(0)` to release.
pub fn button(btn: MouseButton, down: bool) -> (c: String)
    ensures
        c@ == call(button_name(btn), seq![flag(down)]),
{
    call1(btn_name(btn), flag_text(down))
}

/// `km.<name>(1)` to press, `(0)` to release, for a button given by name.
pub fn named_button(name: &str, down: bool) -> (c: String)
    ensures
        c@ == call(name@, seq![flag(down)]),
{
    call1(name, flag_text(down))
}

/// `km.lock_<axis or button>(1)` to lock, `(0)` to unlock.
pub fn lock(short: &str, on: bool) -> (c: String)
    ensures
        c@ == call("lock_"@ + short@, seq![flag(on)]),
{
    let name = concat("lock_", short);
    call1(name.as_str(), flag_text(on))
}

/// `km.lock_<axis or button>()`: query a lock.
pub fn get_lock(short: &str) -> (c: String)
    ensures
        c@ == call("lock_"@ + short@, seq![]),
{
    let name = concat("lock_", short);
    call0(name.as_str())
}

/// `km.move(dx,dy)`: relative move.
pub fn move_rel(dx: i32, dy: i32) -> (c: String)
    ensures
        c@ == call("move"@, seq![num(dx as int), num(dy as int)]),
{
    call2("move", int_text(dx as i64), int_text(dy as i64))
}

/// Arguments of a segmented move, with the Bézier control points when given.
pub open spec fn path_args(a: i32, b: i32, segments: u32, bezier: Option<(i32, i32, i32, i32)>) -> Seq<Seq<char>> {
    match bezier {
        Some((cx1, cy1, cx2, cy2)) => seq![
            num(a as int),
            num(b as int),
            num(segments as int),
            num(cx1 as int),
            num(cy1 as int),
            num(cx2 as int),
            num(cy2 as int),
        ],
        None => seq![num(a as int), num(b as int), num(segments as int)],
    }
}

fn path_call(name: &str, a: i32, b: i32, segments: u32, bezier: Option<(i32, i32, i32, i32)>) -> (c: String)
    ensures
        c@ == call(name@, path_args(a, b, segments, bezier)),
{
    match bezier {
        Some((cx1, cy1, cx2, cy2)) => {
            let mut v: Vec<String> = Vec::new();
            v.push(int_text(a as i64));
            v.push(int_text(b as i64));
            v.push(int_text(segments as i64));
            v.push(int_text(cx1 as i64));
            v.push(int_text(cy1 as i64));
            v.push(int_text(cx2 as i64));
            v.push(int_text(cy2 as i64));
            assert(texts(v@) =~= path_args(a, b, segments, bezier));
            call_n(name, v)
        },
        None => call3(name, int_text(a as i64), int_text(b as i64), int_text(segments as i64)),
    }
}

/// `km.move(dx,dy,segments[,cx1,cy1,cx2,cy2])`: relative move in segments, with optional cubic Bézier control points.
pub fn move_rel_advanced(dx: i32, dy: i32, segments: u32, bezier: Option<(i32, i32, i32, i32)>) -> (c: String)
    ensures
        c@ == call("move"@, path_args(dx, dy, segments, bezier)),
{
    path_call("move", dx, dy, segments, bezier)
}

/// `km.moveto(x,y)`: move to an absolute screen position.
pub fn move_abs(x: i32, y: i32) -> (c: String)
    ensures
        c@ == call("moveto"@, seq![num(x as int), num(y as int)]),
{
    call2("moveto", int_text(x as i64), int_text(y as i64))
}

/// `km.moveto(x,y,segments[,cx1,cy1,cx2,cy2])`.
pub fn move_abs_advanced(x: i32, y: i32, segments: u32, bezier: Option<(i32, i32, i32, i32)>) -> (c: String)
    ensures
        c@ == call("moveto"@, path_args(x, y, segments, bezier)),
{
    path_call("moveto", x, y, segments, bezier)
}

/// `km.silent(x,y)`: move, then a silent left click.
pub fn silent_click(x: i32, y: i32) -> (c: String)
    ensures
        c@ == call("silent"@, seq![num(x as int), num(y as int)]),
{
    call2("silent", int_text(x as i64), int_text(y as i64))
}

/// Arguments of a scheduled click: the count only with it, the delay only
/// after a count.
pub open spec fn click_args(button: u8, count: Option<u32>, delay_ms: Option<u32>) -> Seq<Seq<char>> {
    match (count, delay_ms) {
        (Some(c), Some(d)) => seq![num(button as int), num(c as int), num(d as int)],
        (Some(c), None) => seq![num(button as int), num(c as int)],
        _ => seq![num(button as int)],
    }
}

/// `km.click(button[,count[,delay_ms]])`.
pub fn click_scheduled(button: u8, count: Option<u32>, delay_ms: Option<u32>) -> (c: String)
    ensures
        c@ == call("click"@, click_args(button, count, delay_ms)),
{
    match (count, delay_ms) {
        (Some(c), Some(d)) => call3("click", int_text(button as i64), int_text(c as i64), int_text(d as i64)),
        (Some(c), None) => call2("click", int_text(button as i64), int_text(c as i64)),
        _ => call1("click", int_text(button as i64)),
    }
}

/// `km.turbo(button[,delay_ms])`.
pub fn turbo(button: u8, delay_ms: Option<u32>) -> (c: String)
    ensures
        c@ == call("turbo"@, opt_args(num(button as int), delay_ms)),
{
    opt_call("turbo", int_text(button as i64), delay_ms)
}

/// `km.turbo(0)`: turbo off on every button.
pub fn turbo_disable_all() -> (c: String)
    ensures
        c@ == call("turbo"@, seq![num(0)]),
{
    call1("turbo", int_text(0))
}

/// `km.wheel(delta)`.
pub fn wheel(delta: i32) -> (c: String)
    ensures
        c@ == call("wheel"@, seq![num(delta as int)]),
{
    call1("wheel", int_text(delta as i64))
}

/// `km.pan(steps)`: horizontal scroll.
pub fn pan(steps: i32) -> (c: String)
    ensures
        c@ == call("pan"@, seq![num(steps as int)]),
{
    call1("pan", int_text(steps as i64))
}

/// `km.tilt(steps)`: z-axis scroll.
pub fn tilt(steps: i32) -> (c: String)
    ensures
        c@ == call("tilt"@, seq![num(steps as int)]),
{
    call1("tilt", int_text(steps as i64))
}

/// `km.mo(buttons,x,y,wheel,pan,tilt)`: a whole mouse frame.
pub fn mouse_raw(buttons: u8, x: i32, y: i32, wheel: i32, pan: i32, tilt: i32) -> (c: String)
    ensures
        c@ == call("mo"@, seq![num(buttons as int), num(x as int), num(y as int), num(wheel as int), num(pan as int), num(tilt as int)]),
{
    let mut v: Vec<String> = Vec::new();
    v.push(int_text(buttons as i64));
    v.push(int_text(x as i64));
    v.push(int_text(y as i64));
    v.push(int_text(wheel as i64));
    v.push(int_text(pan as i64));
    v.push(int_text(tilt as i64));
    assert(texts(v@) =~= seq![num(buttons as int), num(x as int), num(y as int), num(wheel as int), num(pan as int), num(tilt as int)]);
    call_n("mo", v)
}

/// `km.catch_<button>(mode)`.
pub fn catch_button(btn: MouseButton, mode: u8) -> (c: String)
    ensures
        c@ == call("catch_"@ + button_lock_name(btn), seq![num(mode as int)]),
{
    let name = concat("catch_", mouse_btn_lock_name(btn));
    call1(name.as_str(), int_text(mode as i64))
}

/// `km.catch_<button>()`.
pub fn get_catch_button(btn: MouseButton) -> (c: String)
    ensures
        c@ == call("catch_"@ + button_lock_name(btn), seq![]),
{
    let name = concat("catch_", mouse_btn_lock_name(btn));
    call0(name.as_str())
}

/// `km.remap_button(src,dst)`.
pub fn remap_button(src: u8, dst: u8) -> (c: String)
    ensures
        c@ == call("remap_button"@, seq![num(src as int), num(dst as int)]),
{
    call2("remap_button", int_text(src as i64), int_text(dst as i64))
}

/// `km.remap_button(0)`: clear every button remap.
pub fn remap_button_reset() -> (c: String)
    ensures
        c@ == call("remap_button"@, seq![num(0)]),
{
    call1("remap_button", int_text(0))
}

/// `km.remap_axis(invert_x,invert_y,swap_xy)` with each flag as 1 or 0.
pub fn remap_axis(invert_x: bool, invert_y: bool, swap_xy: bool) -> (c: String)
    ensures
        c@ == call("remap_axis"@, seq![flag(invert_x), flag(invert_y), flag(swap_xy)]),
{
    call3("remap_axis", flag_text(invert_x), flag_text(invert_y), flag_text(swap_xy))
}

/// `km.remap_axis(0)`: clear every axis remap.
pub fn remap_axis_reset() -> (c: String)
    ensures
        c@ == call("remap_axis"@, seq![num(0)]),
{
    call1("remap_axis", int_text(0))
}

/// `km.invert_x(1|0)`.
pub fn invert_x(enable: bool) -> (c: String)
    ensures
        c@ == call("invert_x"@, seq![flag(enable)]),
{
    call1("invert_x", flag_text(enable))
}

/// `km.invert_y(1|0)`.
pub fn invert_y(enable: bool) -> (c: String)
    ensures
        c@ == call("invert_y"@, seq![flag(enable)]),
{
    call1("invert_y", flag_text(enable))
}

/// `km.swap_xy(1|0)`.
pub fn swap_xy(enable: bool) -> (c: String)
    ensures
        c@ == call("swap_xy"@, seq![flag(enable)]),
{
    call1("swap_xy", flag_text(enable))
}

/// `km.buttons(mode[,period])`: configure button streaming.
pub fn buttons_stream(mode: u8, period: Option<u32>) -> (c: String)
    ensures
        c@ == call("buttons"@, opt_args(num(mode as int), period)),
{
    opt_call("buttons", int_text(mode as i64), period)
}

/// `km.axis(mode[,period])`: configure axis streaming.
pub fn axis_stream(mode: u8, period: Option<u32>) -> (c: String)
    ensures
        c@ == call("axis"@, opt_args(num(mode as int), period)),
{
    opt_call("axis", int_text(mode as i64), period)
}

/// `km.mouse(mode[,period])`: configure mouse frame streaming.
pub fn mouse_stream(mode: u8, period: Option<u32>) -> (c: String)
    ensures
        c@ == call("mouse"@, opt_args(num(mode as int), period)),
{
    opt_call("mouse", int_text(mode as i64), period)
}

/// `km.keyboard(mode[,period])`: configure keyboard streaming.
pub fn keyboard_stream(mode: u8, period: Option<u32>) -> (c: String)
    ensures
        c@ == call("keyboard"@, opt_args(num(mode as int), period)),
{
    opt_call("keyboard", int_text(mode as i64), period)
}

/// `km.down(key)`.
pub fn key_down(key: &str) -> (c: String)
    ensures
        c@ == call("down"@, seq![key@]),
{
    call1("down", key_text(key))
}

/// `km.up(key)`.
pub fn key_up(key: &str) -> (c: String)
    ensures
        c@ == call("up"@, seq![key@]),
{
    call1("up", key_text(key))
}

/// Arguments of a key press: the random range only after a hold time.
pub open spec fn press_args(key: Seq<char>, hold_ms: Option<u32>, rand_ms: Option<u32>) -> Seq<Seq<char>> {
    match (hold_ms, rand_ms) {
        (Some(h), Some(r)) => seq![key, num(h as int), num(r as int)],
        (Some(h), None) => seq![key, num(h as int)],
        _ => seq![key],
    }
}

/// `km.press(key[,hold_ms[,rand_ms]])`.
pub fn key_press(key: &str, hold_ms: Option<u32>, rand_ms: Option<u32>) -> (c: String)
    ensures
        c@ == call("press"@, press_args(key@, hold_ms, rand_ms)),
{
    match (hold_ms, rand_ms) {
        (Some(h), Some(r)) => call3("press", key_text(key), int_text(h as i64), int_text(r as i64)),
        (Some(h), None) => call2("press", key_text(key), int_text(h as i64)),
        _ => call1("press", key_text(key)),
    }
}

/// `km.string("<text>")` with backslashes and double quotes escaped.
pub fn type_string(text: &str) -> (c: String)
    ensures
        c@ == call("string"@, seq!["\""@ + escape(text@, '"') + "\""@]),
{
    let mut arg = String::from_str("\"");
    let esc = escape_text(text, '"');
    arg.append(esc.as_str());
    arg.append("\"");
    call1("string", arg)
}

/// `km.init()`: release every key and clear keyboard state.
pub fn keyboard_init() -> (c: String)
    ensures
        c@ == call("init"@, seq![]),
{
    call0("init")
}

/// `km.isdown(key)`.
pub fn is_key_down(key: &str) -> (c: String)
    ensures
        c@ == call("isdown"@, seq![key@]),
{
    call1("isdown", key_text(key))
}

/// `km.disable(key,1|0)`.
pub fn set_key_disabled(key: &str, disabled: bool) -> (c: String)
    ensures
        c@ == call("disable"@, seq![key@, flag(disabled)]),
{
    call2("disable", key_text(key), flag_text(disabled))
}

/// `km.mask(key,1|0)`.
pub fn mask_key(key: &str, enable: bool) -> (c: String)
    ensures
        c@ == call("mask"@, seq![key@, flag(enable)]),
{
    call2("mask", key_text(key), flag_text(enable))
}

/// `km.remap(source,target)`.
pub fn remap_key(source: &str, target: &str) -> (c: String)
    ensures
        c@ == call("remap"@, seq![source@, target@]),
{
    call2("remap", key_text(source), key_text(target))
}

/// The views of a list of key names.
pub open spec fn key_texts(keys: Seq<&str>) -> Seq<Seq<char>> {
    keys.map_values(|k: &str| k@)
}

/// `km.disable(k1,k2,...)`: block the given keys; no command for no keys.
pub fn disable_keys(keys: &[&str]) -> (c: Option<String>)
    ensures
        keys@.len() == 0 ==> c is None,
        keys@.len() > 0 ==> (c matches Some(s) && s@ == call("disable"@, key_texts(keys@))),
{
    if keys.len() == 0 {
        return None;
    }
    let mut v: Vec<String> = Vec::new();
    let mut k: usize = 0;
    while k < keys.len()
        invariant
            k <= keys@.len(),
            texts(v@) =~= key_texts(keys@.take(k as int)),
        decreases keys@.len() - k,
    {
        let ghost before = v@;
        let t = key_text(keys[k]);
        v.push(t);
        assert(keys@.take(k + 1) =~= keys@.take(k as int).push(keys@[k as int]));
        assert(texts(v@) =~= texts(before).push(t@));
        k = k + 1;
    }
    assert(keys@.take(keys@.len() as int) =~= keys@);
    Some(call_n("disable", v))
}

/// The argument of `km.serial`: `0` for an empty serial, else the serial
/// quoted in single quotes with its single quotes escaped.
pub open spec fn serial_arg(v: Seq<char>) -> Seq<char> {
    if v.len() == 0 {
        "0"@
    } else {
        "'"@ + escape(v, '\'') + "'"@
    }
}

/// `km.serial(<serial>)`, see [`serial_arg`].
pub fn set_serial(v: &str) -> (c: String)
    ensures
        c@ == call("serial"@, seq![serial_arg(v@)]),
{
    if v.is_empty() {
        call1("serial", String::from_str("0"))
    } else {
        let mut arg = String::from_str("'");
        let esc = escape_text(v, '\'');
        arg.append(esc.as_str());
        arg.append("'");
        call1("serial", arg)
    }
}

/// `km.serial(0)`: back to the default serial.
pub fn reset_serial() -> (c: String)
    ensures
        c@ == call("serial"@, seq![num(0)]),
{
    call1("serial", int_text(0))
}

/// `km.log(level)`.
pub fn log_level(level: u8) -> (c: String)
    ensures
        c@ == call("log"@, seq![num(level as int)]),
{
    call1("log", int_text(level as i64))
}

/// `km.baud(rate)`.
pub fn set_baud(rate: u32) -> (c: String)
    ensures
        c@ == call("baud"@, seq![num(rate as int)]),
{
    call1("baud", int_text(rate as i64))
}

/// `km.bypass(mode)`.
pub fn bypass(mode: u8) -> (c: String)
    ensures
        c@ == call("bypass"@, seq![num(mode as int)]),
{
    call1("bypass", int_text(mode as i64))
}

/// `km.release(timer_ms)`.
pub fn auto_release(timer_ms: u32) -> (c: String)
    ensures
        c@ == call("release"@, seq![num(timer_ms as int)]),
{
    call1("release", int_text(timer_ms as i64))
}

/// `km.echo(1|0)`.
pub fn echo(enable: bool) -> (c: String)
    ensures
        c@ == call("echo"@, seq![flag(enable)]),
{
    call1("echo", flag_text(enable))
}

/// `km.hs(1|0)`.
pub fn high_speed(enable: bool) -> (c: String)
    ensures
        c@ == call("hs"@, seq![flag(enable)]),
{
    call1("hs", flag_text(enable))
}

/// `km.led(target,mode)`.
pub fn led(target: u8, mode: u8) -> (c: String)
    ensures
        c@ == call("led"@, seq![num(target as int), num(mode as int)]),
{
    call2("led", int_text(target as i64), int_text(mode as i64))
}

/// `km.led(target,times,delay_ms)`.
pub fn led_flash(target: u8, times: u32, delay_ms: u32) -> (c: String)
    ensures
        c@ == call("led"@, seq![num(target as int), num(times as int), num(delay_ms as int)]),
{
    call3("led", int_text(target as i64), int_text(times as i64), int_text(delay_ms as i64))
}

/// `km.screen(width,height)`.
pub fn screen(width: u32, height: u32) -> (c: String)
    ensures
        c@ == call("screen"@, seq![num(width as int), num(height as int)]),
{
    call2("screen", int_text(width as i64), int_text(height as i64))
}

/// `km.getpos()`.
pub fn get_pos() -> (c: String)
    ensures
        c@ == call("getpos"@, seq![]),
{
    call0("getpos")
}

/// `km.turbo()`.
pub fn turbo_get() -> (c: String)
    ensures
        c@ == call("turbo"@, seq![]),
{
    call0("turbo")
}

/// `km.pan()`.
pub fn pan_get() -> (c: String)
    ensures
        c@ == call("pan"@, seq![]),
{
    call0("pan")
}

/// `km.tilt()`.
pub fn tilt_get() -> (c: String)
    ensures
        c@ == call("tilt"@, seq![]),
{
    call0("tilt")
}

/// `km.remap_button()`.
pub fn get_remap_button() -> (c: String)
    ensures
        c@ == call("remap_button"@, seq![]),
{
    call0("remap_button")
}

/// `km.remap_axis()`.
pub fn get_remap_axis() -> (c: String)
    ensures
        c@ == call("remap_axis"@, seq![]),
{
    call0("remap_axis")
}

/// `km.invert_x()`.
pub fn get_invert_x() -> (c: String)
    ensures
        c@ == call("invert_x"@, seq![]),
{
    call0("invert_x")
}

/// `km.invert_y()`.
pub fn get_invert_y() -> (c: String)
    ensures
        c@ == call("invert_y"@, seq![]),
{
    call0("invert_y")
}

/// `km.swap_xy()`.
pub fn get_swap_xy() -> (c: String)
    ensures
        c@ == call("swap_xy"@, seq![]),
{
    call0("swap_xy")
}

/// `km.disable()`.
pub fn get_disabled_keys() -> (c: String)
    ensures
        c@ == call("disable"@, seq![]),
{
    call0("disable")
}

/// `km.help()`.
pub fn help() -> (c: String)
    ensures
        c@ == call("help"@, seq![]),
{
    call0("help")
}

/// `km.info()`.
pub fn info() -> (c: String)
    ensures
        c@ == call("info"@, seq![]),
{
    call0("info")
}

/// `km.version()`.
pub fn version() -> (c: String)
    ensures
        c@ == call("version"@, seq![]),
{
    call0("version")
}

/// `km.device()`.
pub fn device_type() -> (c: String)
    ensures
        c@ == call("device"@, seq![]),
{
    call0("device")
}

/// `km.fault()`.
pub fn fault() -> (c: String)
    ensures
        c@ == call("fault"@, seq![]),
{
    call0("fault")
}

/// `km.reboot()`.
pub fn reboot() -> (c: String)
    ensures
        c@ == call("reboot"@, seq![]),
{
    call0("reboot")
}

/// `km.serial()`.
pub fn get_serial() -> (c: String)
    ensures
        c@ == call("serial"@, seq![]),
{
    call0("serial")
}

/// `km.log()`.
pub fn get_log_level() -> (c: String)
    ensures
        c@ == call("log"@, seq![]),
{
    call0("log")
}

/// `km.echo()`.
pub fn get_echo() -> (c: String)
    ensures
        c@ == call("echo"@, seq![]),
{
    call0("echo")
}

/// `km.baud()`.
pub fn get_baud() -> (c: String)
    ensures
        c@ == call("baud"@, seq![]),
{
    call0("baud")
}

/// `km.bypass()`.
pub fn get_bypass() -> (c: String)
    ensures
        c@ == call("bypass"@, seq![]),
{
    call0("bypass")
}

/// `km.hs()`.
pub fn get_high_speed() -> (c: String)
    ensures
        c@ == call("hs"@, seq![]),
{
    call0("hs")
}

/// `km.led()`.
pub fn get_led() -> (c: String)
    ensures
        c@ == call("led"@, seq![]),
{
    call0("led")
}

/// `km.release()`.
pub fn get_auto_release() -> (c: String)
    ensures
        c@ == call("release"@, seq![]),
{
    call0("release")
}

/// `km.screen()`.
pub fn get_screen() -> (c: String)
    ensures
        c@ == call("screen"@, seq![]),
{
    call0("screen")
}

} // verus!
