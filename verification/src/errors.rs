//! Failure taxonomy of a generation run.

use vstd::prelude::*;

verus! {

/// A condition that aborts a whole run.
#[derive(Debug)]
pub enum BatchError {
    /// The photo region has a non-positive extent.
    Configuration,
    /// The template raster could not be decoded.
    Template(String),
    /// The source folder holds no image file at all.
    NoInput,
    /// Every item of the run failed, so there is nothing to archive.
    AllItemsFailed,
    /// The archive could not be assembled.
    Archive(String),
}

/// A condition that fails one item of a run; the run itself carries on.
#[derive(Debug)]
pub enum ItemError {
    /// The source file could not be decoded as an image.
    Decode(String),
    /// The composite could not be encoded as a JPEG.
    Encode(String),
}

impl ItemError {
    /// The reason recorded in the run's failure list.
    pub fn reason(self) -> (r: String)
        ensures
            self matches ItemError::Decode(m) ==> r == m,
            self matches ItemError::Encode(m) ==> r == m,
    {
        match self {
            ItemError::Decode(m) => m,
            ItemError::Encode(m) => m,
        }
    }
}

} // verus!
