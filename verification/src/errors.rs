use vstd::prelude::*;

verus! {

/// Every way an operation on a record store can fail. A failure aborts the
/// whole operation: no partial mutation is ever persisted.
#[derive(Clone, Copy, Debug, PartialEq, Eq, Structural)]
pub enum MyError {
    /// The caller is not the stored authority of the record store.
    InvalidAuthority,
    /// A record store already exists for this owner; initialization happens
    /// exactly once per owner.
    AlreadyInitialized,
    /// The fixed-size store already holds `MAX_INTERACTIONS` entries.
    CapacityExceeded,
    /// The owner identity does not admit a valid derived address.
    AddressDerivation,
}

} // verus!
