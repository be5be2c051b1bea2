//! The token itself.
use vstd::prelude::*;

verus! {

/// A 1SatOrdinal token: a non-fungible token that is stored on-chain in transactions.
///
/// The actions that can be taken on a token are the inscription that defines and
/// creates it and assigns it to an initial address, further inscriptions that update
/// its data and may move it to a new address, and transfers that hand control to a
/// new address. Each action but the first must descend directly from an earlier one.
///
/// The token's state is not modelled yet: the struct holds nothing.
#[derive(Debug, Clone)]
pub struct Ordinal {}

} // verus!
