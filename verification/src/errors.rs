//! Failure taxonomy of the store. A lookup that finds nothing is not an
//! error (it is an absent result); lock poisoning belongs to the host
//! process that owns the lock, not to the store itself.

use vstd::prelude::*;

verus! {

/// Why a mutating store operation was refused.
#[derive(Clone, Copy, Debug, PartialEq, Eq, Structural)]
pub enum StoreError {
    /// An insert would reuse an existing run id.
    DuplicateKey,
    /// A log line names a run id that no stored run carries.
    ReferentialViolation,
    /// The store cannot take another row (the assigned-id space is spent).
    Storage,
}

impl StoreError {
    /// What `describe` returns, variant by variant.
    pub open spec fn describe_spec(self) -> Seq<char> {
        match self {
            StoreError::DuplicateKey => "duplicate key"@,
            StoreError::ReferentialViolation => "referential integrity violation"@,
            StoreError::Storage => "storage exhausted"@,
        }
    }

    /// Errors cross the host boundary as opaque human-readable text.
    pub fn describe(&self) -> (r: &'static str)
        ensures
            r@ == self.describe_spec(),
    {
        match self {
            StoreError::DuplicateKey => "duplicate key",
            StoreError::ReferentialViolation => "referential integrity violation",
            StoreError::Storage => "storage exhausted",
        }
    }
}

} // verus!
