//! Batch generation of composite photo products.
//!
//! A reusable template image carries two rectangular regions: a photo slot
//! and an optional caption slot.  For every photograph in a source folder the
//! pipeline resizes the photo to fit the photo slot, centers it there on a
//! fresh copy of the template, marks the caption slot with the sequence
//! number taken from the file name, encodes the result as JPEG, and finally
//! packs every produced output into one zip archive.

pub mod archive;
pub mod batch;
pub mod compose;
pub mod errors;
pub mod files;
pub mod geometry;
pub mod numbering;
pub mod raster;
pub mod resize;
