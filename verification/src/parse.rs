//! Byte-exact decoders for the on-disk structures: both-endian integers,
//! timestamps, directory records and volume descriptors.

pub mod both_endian;
pub mod date_time;
pub mod directory_entry;
pub mod volume_descriptor;
