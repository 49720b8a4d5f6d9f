use vstd::prelude::*;

verus! {

/// The address of a resource (a kind of token or badge) on the ledger,
/// identified by a number.
#[derive(Clone, Copy, Debug, PartialEq, Eq, Hash, Structural)]
pub struct ResourceAddress {
    pub id: u128,
}

/// The address of a component (a deployed blueprint instance) on the
/// ledger, identified by a number.
#[derive(Clone, Copy, Debug, PartialEq, Eq, Hash, Structural)]
pub struct ComponentAddress {
    pub id: u128,
}

} // verus!
