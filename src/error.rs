//! The two kinds of failure a sync request can end in.
use vstd::prelude::*;

verus! {

/// Why no snapshot was produced.
#[derive(Debug)]
pub enum AppError {
    /// The requested user does not exist; the message says what was missing.
    NotFound(String),
    /// Storage, conversion or serialization failed.
    Internal,
}

/// A failure reported by the storage backend.
#[derive(Debug, Clone, Copy, PartialEq, Eq)]
pub struct StoreFault;

} // verus!
