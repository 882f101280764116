//! Verified duration handling for a small Steam idling tool.
//!
//! The library parses compact duration strings such as `"1h20m4d"` into a
//! total number of seconds (saturating at `u64::MAX`), and renders a second
//! count back into its canonical compact form via a day/hour/minute/second
//! breakdown.

pub mod arith;
pub mod digits;
pub mod human;
pub mod parse;
