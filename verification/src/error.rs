//! The error kinds a render can surface. Every failure aborts the render;
//! nothing is partially produced.

use vstd::prelude::*;

verus! {

#[derive(Debug, Clone, PartialEq, Eq)]
pub enum Error {
    /// A colour or gradient literal was not recognised.
    InvalidColor,
    /// A gradient literal did not hold exactly two comma-separated colours.
    InvalidGradient,
    /// The requested output format is not in the accepted list.
    UnsupportedFormat,
    /// The QR encoder could not fit the payload.
    EncodeFailed,
}

} // verus!
