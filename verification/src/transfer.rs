//! Transfers of control.
use crate::chain::Outpoint;
use bitcoinsv::bitcoin::Address;
use vstd::prelude::*;

verus! {

/// A transfer of control of a token from one address to another.
///
/// Note that this is not necessarily the latest transfer of the token. No scan
/// produces a transfer.
#[derive(Debug, Clone)]
pub struct OrdinalTransfer {
    /// The identifier of the transfer: the output that carries it.
    pub id: Outpoint,
    /// The identifier of the previous transfer or inscription.
    pub prev_id: Outpoint,
    /// The address to which the token has been assigned.
    pub new_address: Address,
}

} // verus!
