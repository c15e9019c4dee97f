//! A decoder for forensic report documents: a vendor-specific, deeply nested
//! XML format is read into a typed tree of models, fields and values.
//!
//! The document is first read into tokens ([`xml`]); the decoders
//! ([`models`]) then run over the tokens through a cursor ([`reader`]). Each
//! decoder is proved against a function that says, for every token stream,
//! what the decoder returns and where it leaves the cursor. [`laws`],
//! [`required`] and [`truncation`] hold theorems about those functions.

use vstd::prelude::*;

pub mod error;
pub mod laws;
pub mod models;
pub mod reader;
pub mod required;
pub mod report;
pub mod text;
pub mod truncation;
pub mod utils;
pub mod xml;

verus! {

/// Adds two numbers.
pub fn add(left: u64, right: u64) -> (sum: u64)
    requires
        left + right <= u64::MAX,
    ensures
        sum == left + right,
{
    left + right
}

} // verus!
