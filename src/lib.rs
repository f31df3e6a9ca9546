//! Strings of fixed maximum length that live in a byte array and can be
//! copied freely.
//!
//! A `tstr<N>` is an array of exactly `N` bytes whose first byte holds the
//! length of the string; the following bytes hold its UTF-8 content, so it
//! can hold any string of up to `N - 1` bytes.  `N` may not exceed 256,
//! which is why the type is meant to be used through the aliases
//! [str4] through [str256].
#![allow(non_camel_case_types)]

pub mod encoding;
pub mod fixed;
mod ladder;
pub mod compare;
pub mod laws;

pub use fixed::tstr;

use vstd::prelude::*;

verus! {

/// Holds up to 3 bytes.
pub type str4 = tstr<4>;

/// Holds up to 7 bytes.
pub type str8 = tstr<8>;

/// Holds up to 11 bytes.
pub type str12 = tstr<12>;

/// Holds up to 15 bytes.
pub type str16 = tstr<16>;

/// Holds up to 23 bytes.
pub type str24 = tstr<24>;

/// Holds up to 31 bytes.
pub type str32 = tstr<32>;

/// Holds up to 47 bytes.
pub type str48 = tstr<48>;

/// Holds up to 63 bytes.
pub type str64 = tstr<64>;

/// Holds up to 95 bytes.
pub type str96 = tstr<96>;

/// Holds up to 127 bytes.
pub type str128 = tstr<128>;

/// Holds up to 191 bytes.
pub type str192 = tstr<192>;

/// Holds up to 255 bytes.
pub type str256 = tstr<256>;

} // verus!
