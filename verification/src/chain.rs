//! The parts of a transaction that inscription scanning reads: the transaction's
//! hash and, for each output, its value and its undecoded locking script.
use bitcoinsv::bitcoin::{Address, Tx};
use vstd::prelude::*;

verus! {

/// A decoded transaction, as the codec hands it over. Nothing inside it is visible
/// to the verifier; [`tx_id`] and [`tx_outputs`] name what scanning reads of it.
#[verifier::external_type_specification]
#[verifier::external_body]
pub struct ExTx(Tx);

/// A pay-to-public-key-hash address, as the codec defines it. The library carries
/// such values and never looks inside one.
#[verifier::external_type_specification]
#[verifier::external_body]
pub struct ExAddress(Address);

/// `Address` derives `Clone`; the clone of the struct that holds one goes through it.
/// Nothing is stated of the copy.
pub assume_specification[ <Address as Clone>::clone ](address: &Address) -> (copy: Address);

/// The 32 bytes of the transaction's hash, in the codec's internal byte order.
pub uninterp spec fn tx_id(tx: Tx) -> Seq<u8>;

/// The transaction's outputs in index order, each as its value in satoshis and the
/// raw bytes of its locking script.
pub uninterp spec fn tx_outputs(tx: Tx) -> Seq<(u64, Seq<u8>)>;

/// The hash that identifies a transaction.
#[derive(Clone, Copy, Debug, PartialEq, Eq)]
pub struct TxHash {
    pub raw: [u8; 32],
}

impl View for TxHash {
    type V = Seq<u8>;

    open spec fn view(&self) -> Seq<u8> {
        self.raw@
    }
}

/// A reference to one output of one transaction.
#[derive(Clone, Copy, Debug, PartialEq, Eq)]
pub struct Outpoint {
    pub tx_hash: TxHash,
    pub index: u32,
}

impl View for Outpoint {
    type V = (Seq<u8>, u32);

    open spec fn view(&self) -> (Seq<u8>, u32) {
        (self.tx_hash@, self.index)
    }
}

/// One transaction output: the value it carries, in satoshis, and its locking
/// script, not yet decoded.
#[derive(Clone, Debug, PartialEq, Eq)]
pub struct TxOutput {
    pub value: u64,
    pub script: Vec<u8>,
}

impl View for TxOutput {
    type V = (u64, Seq<u8>);

    open spec fn view(&self) -> (u64, Seq<u8>) {
        (self.value, self.script@)
    }
}

/// The views of a list of outputs, in order.
pub open spec fn outputs_view(outputs: Seq<TxOutput>) -> Seq<(u64, Seq<u8>)> {
    Seq::new(outputs.len(), |i: int| outputs[i]@)
}

/// Calls `Tx::hash`, which serialises the transaction and hashes the bytes twice
/// with SHA-256. The result is taken to be a function of the transaction alone,
/// named [`tx_id`]; nothing is claimed of its value.
#[verifier::external_body]
pub(crate) fn tx_hash(tx: &Tx) -> (hash: TxHash)
    ensures
        hash@ == tx_id(*tx),
{
    TxHash { raw: tx.hash().raw }
}

/// Reads the length of the public field `outputs` of `Tx`: the number of outputs.
#[verifier::external_body]
pub(crate) fn tx_output_count(tx: &Tx) -> (n: usize)
    ensures
        n == tx_outputs(*tx).len(),
{
    tx.outputs.len()
}

/// Reads the public field `outputs` of `Tx` and copies each output's `value` and the
/// raw bytes of its `script` into the library's own output type, in order.
#[verifier::external_body]
pub(crate) fn tx_output_list(tx: &Tx) -> (outputs: Vec<TxOutput>)
    ensures
        outputs_view(outputs@) == tx_outputs(*tx),
{
    tx.outputs.iter().map(|o| TxOutput { value: o.value, script: o.script.raw.to_vec() }).collect()
}

} // verus!
