//! Host-side library for MAKCU devices: the `km.*` command protocol spoken
//! over a serial link, and the SIGTAP timestamp records used to measure the
//! keyboard firmware's latency.
pub mod sigtap;
pub mod km;
pub mod latency;
