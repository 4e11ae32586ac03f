//! Fixed-point civil time: instants and durations counted in ticks of 100 ns,
//! with conversions to ISO 8601 text and to POSIX time structures.

pub mod ascii;
pub mod calendar_iso8601;
pub mod decimal;
pub mod div_mod;
pub mod duration;
pub mod duration_text;
pub mod fmtutil;
pub mod format_iso8601;
pub mod instant;
pub mod order;
pub mod posix;
pub mod tick;
