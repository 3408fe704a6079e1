//! Incremental parser for NMEA 0183 GPS sentences: framing, checksum,
//! classification and typed field decoding, one character at a time.

pub mod values;
pub mod field_reader;
pub mod sentences;
pub mod nmea;
pub mod ix;
