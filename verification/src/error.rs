//! Errors raised while processing FITS header elements.

use vstd::prelude::*;

verus! {

/// An enumeration of errors that could occur when processing a FITS header element.
#[derive(Debug)]
pub enum FitsHeaderError {
    /// Indicates an unexpected length of bytes was encountered during processing.
    InvalidLength {
        /// The number of bytes expected by the operation.
        expected: usize,
        /// The number of bytes found by the operation.
        found: usize,
        /// The objective of the operation.
        intent: String,
    },
    /// Indicates invalid bytes were encountered during processing.
    DeserializationError {
        /// The bytes that were found by the operation.
        found: Vec<u8>,
        /// The objective of the operation.
        intent: String,
    },
}

} // verus!
