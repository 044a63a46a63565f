//! Exact, arbitrary-precision decimal amounts tied to an asset id.
//!
//! No floats anywhere: an amount is a sign, a coefficient and a scale, parsed
//! from and printed to one byte-exact grammar.

use vstd::prelude::*;


pub mod amount;
pub mod asset;
pub mod error;
pub mod integer;
pub mod laws;
pub mod limit_laws;
pub mod numeral;

verus! {

/// Largest allowed scale (number of fraction digits) of an `Amount`.
pub const MAX_SCALE: u8 = 38;

/// Largest allowed count of significant decimal digits in an `Amount`'s coefficient.
pub const MAX_DIGITS: usize = 128;

/// Largest allowed byte length of an `AssetId`.
pub const MAX_ASSET_ID_LEN: usize = 128;

/// Largest allowed byte length of a text passed to `Amount::parse`.
pub const MAX_INPUT_LEN: usize = 192;

} // verus!
