//! Voice codes for produce-traceability labels: a four-digit spoken
//! confirmation code derived from a GTIN, a lot code and a pack date.
//!
//! The code is a reflected, table-driven 16-bit CRC with polynomial 0xA001
//! over the GTIN, the lot and the two-digit year, month and day, taken
//! modulo 10000.

pub mod crc_table;
pub mod laws;
pub mod voicecode;

pub use crc_table::create_crc_lut;
pub use voicecode::HashVoiceCode;
