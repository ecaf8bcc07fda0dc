//! The failure kinds a write to the store can surface. Reads never fail;
//! absence is reported as `None` by the operation itself.

use vstd::prelude::*;

verus! {

/// A storage failure: the constraint of the store that a write would break.
#[derive(Clone, Copy, Debug, PartialEq, Eq, Structural)]
pub enum StorageError {
    /// A table's surrogate keys are used up: no row can be inserted.
    KeyspaceExhausted,
    /// The composite primary key of the association table is already taken.
    UniqueViolation,
    /// An association names a quote or a tag that is not in the store.
    ForeignKeyViolation,
}

} // verus!
