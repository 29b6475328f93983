//! The keyboard-latency meter's logic: pairing the firmware's report taps
//! with the host's HID reports, the beacon history that aligns the two
//! clocks, the host timebase, and the command line.
pub mod args;
pub mod clock;
pub mod report;
pub mod session;
pub mod timebase;
pub mod laws;
pub mod ports;
pub mod launch;
