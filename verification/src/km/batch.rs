use vstd::prelude::*;
use vstd::string::StringExecFns;

use super::buttons::MouseButton;
use super::command;
use super::command::button_name;
use super::command::num;
use super::text::{call, flag};

verus! {

/// The line terminator of every command.
pub const CRLF: &'static str = "\r\n";

/// Several commands collected into one write, each on its own line.
pub struct Batch<'a, D> {
    dev: &'a D,
    buf: String,
}

impl<'a, D> Batch<'a, D> {
    /// The commands collected so far.
    pub closed spec fn text_view(&self) -> Seq<char> {
        self.buf@
    }

    /// The device the batch will be sent to.
    pub closed spec fn device(&self) -> &'a D {
        self.dev
    }

    /// An empty batch for `dev`.
    pub fn new(dev: &'a D) -> (b: Self)
        ensures
            b.text_view() == Seq::<char>::empty(),
            b.device() == dev,
    {
        Batch { dev, buf: String::new() }
    }

    /// The commands collected so far, one per line.
    pub fn text(&self) -> (s: &str)
        ensures
            s@ == self.text_view(),
    {
        self.buf.as_str()
    }

    /// The device the batch will be sent to.
    pub fn dev(&self) -> (d: &'a D)
        ensures
            d == self.device(),
    {
        self.dev
    }

    fn line(self, cmd: String) -> (b: Self)
        ensures
            b.text_view() == self.text_view() + cmd@ + "\r\n"@,
            b.device() == self.device(),
    {
        let Batch { dev, mut buf } = self;
        buf.append(cmd.as_str());
        buf.append(CRLF);
        Batch { dev, buf }
    }

    /// Adds `km.move(dx,dy)`.
    pub fn move_rel(self, dx: i32, dy: i32) -> (b: Self)
        ensures
            b.text_view() == self.text_view() + call("move"@, seq![num(dx as int), num(dy as int)]) + "\r\n"@,
            b.device() == self.device(),
    {
        self.line(command::move_rel(dx, dy))
    }

    /// Adds `km.<button>()`.
    pub fn click(self, btn: MouseButton) -> (b: Self)
        ensures
            b.text_view() == self.text_view() + call(button_name(btn), seq![]) + "\r\n"@,
            b.device() == self.device(),
    {
        self.line(super::text::call0(command::btn_name(btn)))
    }

    /// Adds `km.<button>(1)`.
    pub fn press(self, btn: MouseButton) -> (b: Self)
        ensures
            b.text_view() == self.text_view() + call(button_name(btn), seq![flag(true)]) + "\r\n"@,
            b.device() == self.device(),
    {
        self.line(command::button(btn, true))
    }

    /// Adds `km.<button>(0)`.
    pub fn release(self, btn: MouseButton) -> (b: Self)
        ensures
            b.text_view() == self.text_view() + call(button_name(btn), seq![flag(false)]) + "\r\n"@,
            b.device() == self.device(),
    {
        self.line(command::button(btn, false))
    }

    /// Adds `km.wheel(d)`.
    pub fn wheel(self, d: i32) -> (b: Self)
        ensures
            b.text_view() == self.text_view() + call("wheel"@, seq![num(d as int)]) + "\r\n"@,
            b.device() == self.device(),
    {
        self.line(command::wheel(d))
    }

    /// Adds `km.moveto(x,y)`.
    pub fn move_abs(self, x: i32, y: i32) -> (b: Self)
        ensures
            b.text_view() == self.text_view() + call("moveto"@, seq![num(x as int), num(y as int)]) + "\r\n"@,
            b.device() == self.device(),
    {
        self.line(command::move_abs(x, y))
    }

    /// Adds `km.pan(steps)`.
    pub fn pan(self, steps: i32) -> (b: Self)
        ensures
            b.text_view() == self.text_view() + call("pan"@, seq![num(steps as int)]) + "\r\n"@,
            b.device() == self.device(),
    {
        self.line(command::pan(steps))
    }

    /// Adds `km.tilt(steps)`.
    pub fn tilt(self, steps: i32) -> (b: Self)
        ensures
            b.text_view() == self.text_view() + call("tilt"@, seq![num(steps as int)]) + "\r\n"@,
            b.device() == self.device(),
    {
        self.line(command::tilt(steps))
    }

    /// Adds `km.mo(buttons,x,y,whl,pan,tilt)`.
    pub fn mouse_raw(self, buttons: u8, x: i32, y: i32, whl: i32, pan: i32, tilt: i32) -> (b: Self)
        ensures
            b.text_view() == self.text_view() + call("mo"@, seq![num(buttons as int), num(x as int), num(y as int), num(whl as int), num(pan as int), num(tilt as int)]) + "\r\n"@,
            b.device() == self.device(),
    {
        self.line(command::mouse_raw(buttons, x, y, whl, pan, tilt))
    }

    /// Adds `km.down(key)`.
    pub fn key_down(self, key: &str) -> (b: Self)
        ensures
            b.text_view() == self.text_view() + call("down"@, seq![key@]) + "\r\n"@,
            b.device() == self.device(),
    {
        self.line(command::key_down(key))
    }

    /// Adds `km.up(key)`.
    pub fn key_up(self, key: &str) -> (b: Self)
        ensures
            b.text_view() == self.text_view() + call("up"@, seq![key@]) + "\r\n"@,
            b.device() == self.device(),
    {
        self.line(command::key_up(key))
    }

    /// Adds `km.press(key)`.
    pub fn key_press(self, key: &str) -> (b: Self)
        ensures
            b.text_view() == self.text_view() + call("press"@, seq![key@]) + "\r\n"@,
            b.device() == self.device(),
    {
        self.line(command::key_press(key, None, None))
    }

}

} // verus!
