//! Typed block records and their wire-format parsers.

pub mod fileformat;
pub mod osmformat;
