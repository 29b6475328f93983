use vstd::prelude::*;
use vstd::string::StringExecFns;

use super::args::Args;
use super::report::{hex, hex_text};
use super::session::Startup;

verus! {

/// The vendor and product IDs a run needs, or the message for the one that
/// is missing (the vendor ID is asked for first).
pub fn required_ids(args: &Args) -> (r: Result<(u16, u16), String>)
    ensures
        match (args.vid, args.pid) {
            (Some(v), Some(p)) => r == Ok::<(u16, u16), String>((v, p)),
            (None, _) => r is Err && r->Err_0@ == "missing --vid (use --list to find it)"@,
            (Some(_), None) => r is Err && r->Err_0@ == "missing --pid (use --list to find it)"@,
        },
{
    let vid = match args.vid {
        Some(v) => v,
        None => return Err(String::from_str("missing --vid (use --list to find it)")),
    };
    let pid = match args.pid {
        Some(p) => p,
        None => return Err(String::from_str("missing --pid (use --list to find it)")),
    };
    Ok((vid, pid))
}

/// The two bytes of `v`, high first.
pub open spec fn be_bytes(v: u16) -> Seq<u8> {
    seq![(v / 256) as u8, (v % 256) as u8]
}

/// `v` as four lower-case hex digits.
pub fn hex4(v: u16) -> (s: String)
    ensures
        s@ == hex_text(be_bytes(v)),
{
    let bytes: [u8; 2] = [(v / 256) as u8, (v % 256) as u8];
    assert(bytes@ =~= be_bytes(v));
    hex(&bytes)
}

/// The message for a capture that found no device: the IDs as `vvvv:pppp`.
pub open spec fn no_device_message(vid: u16, pid: u16) -> Seq<char> {
    "no HID device matched "@ + hex_text(be_bytes(vid)) + ":"@ + hex_text(be_bytes(pid))
        + " — is LEFT plugged in? (try --list)"@
}

/// How the HID capture's start decides the run: capturing from at least one
/// device goes on with that count; none matching, or a start error, ends the
/// run with its message.
pub fn startup_outcome(vid: u16, pid: u16, started: Startup) -> (r: Result<usize, String>)
    ensures
        match started {
            Startup::Ready(n) => if n == 0 {
                r is Err && r->Err_0@ == no_device_message(vid, pid)
            } else {
                r == Ok::<usize, String>(n)
            },
            Startup::Error(e) => r is Err && r->Err_0@ == e@,
        },
{
    match started {
        Startup::Ready(n) => {
            if n == 0 {
                let mut s = String::from_str("no HID device matched ");
                let v = hex4(vid);
                let p = hex4(pid);
                s.append(v.as_str());
                s.append(":");
                s.append(p.as_str());
                s.append(" — is LEFT plugged in? (try --list)");
                Err(s)
            } else {
                Ok(n)
            }
        },
        Startup::Error(e) => Err(e),
    }
}

} // verus!
