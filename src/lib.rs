//! Decoding of ELPIS telemetry: length-framed sub-messages whose payload
//! signals are laid out by a schema and read bit by bit.

pub mod bits;
pub mod decode;
pub mod maps;
pub mod schema;
