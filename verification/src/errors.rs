//! Error taxonomy: fatal startup checks, recoverable I/O failures wrapped
//! by call site, corruption, and image-decode failures.

use vstd::prelude::*;

verus! {

/// Failures of the versioned store.
#[derive(Debug)]
pub enum DatabaseError {
    /// The backing store failed while serving a lookup or mutation.
    Accessing(sled::Error),
    /// The backing store failed while opening or migrating.
    Initalizing(sled::Error),
    /// The backing store failed while recording an image.
    Recording(sled::Error),
    /// The store holds bytes that no run of this code writes: a hash-index
    /// entry pointing at a missing record, a malformed counter, or a
    /// record that does not decode.
    Corrupted,
    /// The store was written by a process with a different pointer width;
    /// its layout cannot be read safely. The store must not be used.
    PointerWidthMismatch,
    /// The store's schema version is newer than this code understands;
    /// there is no downgrade path. The store must not be used.
    UnsupportedVersion,
}

/// Any failure the engine can report to its caller.
#[derive(Debug)]
pub enum EngineError {
    /// The versioned store failed.
    Database(DatabaseError),
    /// The supplied bytes are not a decodable image.
    UnsupportedImageFormat(image::error::ImageError),
}

impl From<DatabaseError> for EngineError {
    /// Store failures pass through unchanged.
    fn from(e: DatabaseError) -> (r: Self) {
        EngineError::Database(e)
    }
}

impl vstd::std_specs::convert::FromSpecImpl<DatabaseError> for EngineError {
    open spec fn obeys_from_spec() -> bool {
        true
    }

    open spec fn from_spec(e: DatabaseError) -> Self {
        EngineError::Database(e)
    }
}

} // verus!
