//! Binary codec for a CQL-style native protocol: decoding of typed result
//! columns and encoding of client request frames.

pub mod column;
pub mod endian;
pub mod layout;
pub mod reader;
pub mod reading;
pub mod request;
pub mod roundtrip;
pub mod text;
pub mod timestamp;
pub mod writing;
