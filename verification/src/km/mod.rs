//! The `km.*` command protocol: command text, button states, the host side
//! of the serial exchange (framing, replies, streamed data), raw dumps, and
//! the choice of a likely device port.

pub mod batch;
pub mod buttons;
pub mod command;
pub mod dump;
pub mod error;
pub mod laws;
pub mod link;
pub mod ports;
pub mod text;
