use vstd::prelude::*;

verus! {

/// The different kinds of failure a device exchange can end in.
#[derive(Debug)]
pub enum MakcuError {
    /// A connection error occurred.
    Connection(String),
    /// A command failed or returned an error.
    Command(String),
    /// The tracked command with this id got no reply in time.
    Timeout(u32),
}

pub type MakcuResult<T> = Result<T, MakcuError>;

} // verus!
