//! SIGTAP wire records: framed `AA 55` + body + CRC16, carried on the
//! firmware's debug serial next to unrelated bytes.
pub mod laws;
pub mod parser;
pub mod record;
pub mod wire;
