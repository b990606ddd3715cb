use vstd::prelude::*;

verus! {

/// Errors surfaced by the inpainting routines.
#[derive(Clone, Debug, PartialEq, Eq, Structural)]
pub enum Error {
    /// Casting between sample representations failed.
    CastFailed,
    /// No image data was provided.
    NoData,
    /// Image and mask spatial dimensions disagree.
    DimensionMismatch,
    /// A caller-provided buffer does not match its declared dimensions.
    Shape,
    /// The narrow-band queue emptied while unresolved pixels remained.
    HeapDoesNotContainData,
}

impl Error {
    /// A short description of the error.
    pub fn message(&self) -> (r: &'static str)
    {
        match self {
            Error::CastFailed => "casting from types failed",
            Error::NoData => "no image data have been provided",
            Error::DimensionMismatch => "dimensions between image and mask don't match",
            Error::Shape => "buffer does not match the declared dimensions",
            Error::HeapDoesNotContainData => "heap pop failed as it does not contain data",
        }
    }
}

pub type Result<T> = core::result::Result<T, Error>;

} // verus!
