//! Inscriptions, and the scan of outputs and transactions for them.
use crate::chain::{
    outputs_view, tx_hash, tx_id, tx_output_count, tx_output_list, tx_outputs, Outpoint, TxHash,
    TxOutput,
};
use crate::envelope::{
    bytes_map, complete, envelope_at, fields_of, find_envelope, found_in, lemma_envelope_is_found,
    lemma_found_is_complete, lemma_no_marker_no_envelope, marker_at, run, with_field, Fields,
};
use crate::result::OrdinalResult;
use crate::script::{decode_script, ops_view, script_ops, OpView, ScriptOp};
use bitcoinsv::bitcoin::{Address, Tx};
use std::collections::BTreeMap;
use vstd::prelude::*;

verus! {

/// An inscription is token data stored on-chain. It defines a token and assigns its
/// initial control address, or updates a token and its control address.
///
/// This struct holds the data of a single inscription, none of the earlier or later
/// actions of the token. An inscription is carried by a transaction output whose
/// value is one satoshi.
#[derive(Debug, Clone)]
pub struct OrdinalInscription {
    /// The identifier of the inscription: the output that carries it.
    pub id: Outpoint,
    /// The inscription or transfer that this one updates. Finding it takes the chain
    /// of earlier transactions, so a scan leaves it `None`.
    pub prev_id: Option<Outpoint>,
    /// The address that the token is assigned to. A scan leaves it `None`.
    pub new_address: Option<Address>,
    /// True only where it is certain that this inscription creates a token. False
    /// says nothing either way; a scan leaves it false.
    pub must_be_creation: bool,
    /// The fields with an odd key.
    pub creation_data: BTreeMap<i64, Vec<u8>>,
    /// The fields with an even key. Key 0 holds the body.
    pub metadata: BTreeMap<i64, Vec<u8>>,
}

/// The mathematical value of an [`OrdinalInscription`].
pub struct InscriptionView {
    pub id: (Seq<u8>, u32),
    pub prev_id: Option<(Seq<u8>, u32)>,
    pub new_address: Option<Address>,
    pub must_be_creation: bool,
    pub creation_data: Map<i64, Seq<u8>>,
    pub metadata: Map<i64, Seq<u8>>,
}

impl View for OrdinalInscription {
    type V = InscriptionView;

    open spec fn view(&self) -> InscriptionView {
        InscriptionView {
            id: self.id@,
            prev_id: match self.prev_id {
                Some(p) => Some(p@),
                None => None,
            },
            new_address: self.new_address,
            must_be_creation: self.must_be_creation,
            creation_data: bytes_map(self.creation_data@),
            metadata: bytes_map(self.metadata@),
        }
    }
}

/// The views of a list of inscriptions, in order.
pub open spec fn inscriptions_view(list: Seq<OrdinalInscription>) -> Seq<InscriptionView> {
    Seq::new(list.len(), |i: int| list[i]@)
}

/// The record that a scan makes of an envelope with fields `f`, found in output
/// `index` of the transaction with hash `hash`.
pub open spec fn inscription_of(hash: Seq<u8>, index: u32, f: Fields) -> InscriptionView {
    InscriptionView {
        id: (hash, index),
        prev_id: None,
        new_address: None,
        must_be_creation: false,
        creation_data: f.creation,
        metadata: f.metadata,
    }
}

/// The inscription in an output with the given operations and value: none unless the
/// value is exactly one satoshi, else that of the first envelope that closes.
pub open spec fn inscription_in(ops: Seq<OpView>, hash: Seq<u8>, index: u32, value: u64) -> Option<
    InscriptionView,
> {
    if value != 1 {
        None
    } else {
        match found_in(ops) {
            Some(f) => Some(inscription_of(hash, index, f)),
            None => None,
        }
    }
}

/// The inscription in an output whose script is not yet decoded. A script that does
/// not decode holds none.
pub open spec fn inscription_in_output(out: (u64, Seq<u8>), hash: Seq<u8>, index: u32) -> Option<
    InscriptionView,
> {
    if out.0 != 1 {
        None
    } else {
        match script_ops(out.1) {
            Some(ops) => inscription_in(ops, hash, index, out.0),
            None => None,
        }
    }
}

/// The inscriptions in the first `n` outputs, in the order of the outputs.
pub open spec fn inscriptions_in(hash: Seq<u8>, outs: Seq<(u64, Seq<u8>)>, n: nat) -> Seq<
    InscriptionView,
>
    decreases n,
{
    if n == 0 {
        Seq::empty()
    } else {
        let before = inscriptions_in(hash, outs, (n - 1) as nat);
        match inscription_in_output(outs[n - 1], hash, (n - 1) as u32) {
            Some(rec) => before.push(rec),
            None => before,
        }
    }
}

/// The record's fields are those of a complete envelope: odd keys among the creation
/// data, even keys among the metadata, the body under key 0.
pub open spec fn well_formed(rec: InscriptionView) -> bool {
    complete(Fields { creation: rec.creation_data, metadata: rec.metadata })
}

/// `r` is what a scan of `tx` returns: success, with the inscriptions of all outputs
/// in the order of the outputs.
pub open spec fn is_scan_of(tx: Tx, r: OrdinalResult<Vec<OrdinalInscription>>) -> bool {
    r matches Ok(list) && inscriptions_view(list@) == inscriptions_in(
        tx_id(tx),
        tx_outputs(tx),
        tx_outputs(tx).len(),
    )
}

/// The list holds, in strictly increasing order of output index, exactly the records
/// of those among the first `n` outputs that hold an inscription when scanned alone.
pub open spec fn follows_outputs(
    list: Seq<InscriptionView>,
    hash: Seq<u8>,
    outs: Seq<(u64, Seq<u8>)>,
    n: nat,
) -> bool {
    &&& forall|a: int, b: int|
        0 <= a < b < list.len() ==> (#[trigger] list[a]).id.1 < (#[trigger] list[b]).id.1
    &&& forall|a: int|
        0 <= a < list.len() ==> {
            &&& (#[trigger] list[a]).id.1 < n
            &&& inscription_in_output(outs[list[a].id.1 as int], hash, list[a].id.1) == Some(
                list[a],
            )
        }
    &&& forall|i: int|
        0 <= i < n && inscription_in_output(#[trigger] outs[i], hash, i as u32) is Some
            ==> exists|a: int| 0 <= a < list.len() && (#[trigger] list[a]).id.1 == i
}

/// A record that a scan makes is well formed, and carries the hash and the index
/// that the scan was given.
pub proof fn lemma_record_of_output(out: (u64, Seq<u8>), hash: Seq<u8>, index: u32)
    ensures
        inscription_in_output(out, hash, index) matches Some(rec) ==> {
            &&& rec.id == (hash, index)
            &&& rec.prev_id is None
            &&& rec.new_address is None
            &&& !rec.must_be_creation
            &&& well_formed(rec)
            &&& out.0 == 1
        },
{
    if out.0 == 1 {
        if let Some(ops) = script_ops(out.1) {
            lemma_found_is_complete(ops);
        }
    }
}

/// The result of a scan lists the outputs that hold an inscription, each once and in
/// strictly increasing order of index, and every record in it is the one that a scan
/// of its output alone gives.
pub proof fn lemma_scan_follows_outputs(hash: Seq<u8>, outs: Seq<(u64, Seq<u8>)>, n: nat)
    requires
        n <= outs.len() <= u32::MAX,
    ensures
        follows_outputs(inscriptions_in(hash, outs, n), hash, outs, n),
    decreases n,
{
    if n > 0 {
        let m = (n - 1) as nat;
        let before = inscriptions_in(hash, outs, m);
        let list = inscriptions_in(hash, outs, n);
        lemma_scan_follows_outputs(hash, outs, m);
        lemma_record_of_output(outs[m as int], hash, m as u32);
        match inscription_in_output(outs[m as int], hash, m as u32) {
            Some(rec) => {
                assert(list == before.push(rec));
                assert(forall|a: int| 0 <= a < before.len() ==> list[a] == before[a]);
                assert(list[before.len() as int] == rec);
                assert forall|i: int|
                    0 <= i < n && inscription_in_output(#[trigger] outs[i], hash, i as u32) is Some
                implies exists|a: int| 0 <= a < list.len() && (#[trigger] list[a]).id.1 == i by {
                    if i < m {
                        let a = choose|a: int| 0 <= a < before.len() && (#[trigger] before[a]).id.1 == i;
                        assert(list[a].id.1 == i);
                    } else {
                        assert(list[before.len() as int].id.1 == i);
                    }
                }
            },
            None => {},
        }
    }
}

/// Every record in the result of a scan is well formed.
pub proof fn lemma_scan_records_well_formed(hash: Seq<u8>, outs: Seq<(u64, Seq<u8>)>, n: nat)
    requires
        n <= outs.len() <= u32::MAX,
    ensures
        forall|a: int|
            0 <= a < inscriptions_in(hash, outs, n).len() ==> well_formed(
                #[trigger] inscriptions_in(hash, outs, n)[a],
            ),
{
    let list = inscriptions_in(hash, outs, n);
    lemma_scan_follows_outputs(hash, outs, n);
    assert forall|a: int| 0 <= a < list.len() implies well_formed(#[trigger] list[a]) by {
        lemma_record_of_output(outs[list[a].id.1 as int], hash, list[a].id.1);
    }
}

/// Outputs of which none carries exactly one satoshi hold no inscription.
pub proof fn lemma_no_one_satoshi_no_inscription(hash: Seq<u8>, outs: Seq<(u64, Seq<u8>)>, n: nat)
    requires
        n <= outs.len(),
        forall|i: int| 0 <= i < n ==> (#[trigger] outs[i]).0 != 1,
    ensures
        inscriptions_in(hash, outs, n) == Seq::<InscriptionView>::empty(),
    decreases n,
{
    if n > 0 {
        lemma_no_one_satoshi_no_inscription(hash, outs, (n - 1) as nat);
        assert(outs[n - 1].0 != 1);
    }
}

/// Operations in which no marker stands hold no inscription, whatever the output's
/// value.
pub proof fn lemma_no_marker_no_inscription(
    ops: Seq<OpView>,
    hash: Seq<u8>,
    index: u32,
    value: u64,
)
    requires
        forall|i: int| !marker_at(ops, i),
    ensures
        inscription_in(ops, hash, index, value) is None,
{
    lemma_no_marker_no_envelope(ops);
}

/// An output of one satoshi with a well-formed envelope, begun where the scanner is
/// in its initial state, holds an inscription: its identifier is the transaction's
/// hash with the output's index, and its fields are the envelope's pairs, sorted by
/// the parity of their keys, and the body under key 0.
pub proof fn lemma_envelope_is_inscribed(
    ops: Seq<OpView>,
    start: nat,
    pairs: Seq<(i64, Seq<u8>)>,
    body: Seq<u8>,
    hash: Seq<u8>,
    index: u32,
)
    requires
        envelope_at(ops, start as int, pairs, body),
        run(ops, start) is Initial,
    ensures
        inscription_in(ops, hash, index, 1) == Some(
            inscription_of(hash, index, with_field(fields_of(pairs, pairs.len()), 0, body)),
        ),
{
    lemma_envelope_is_found(ops, start, pairs, body);
}

/// Two scans of one transaction succeed with equal lists of records.
pub proof fn lemma_scan_repeats(
    tx: Tx,
    first: OrdinalResult<Vec<OrdinalInscription>>,
    second: OrdinalResult<Vec<OrdinalInscription>>,
)
    requires
        is_scan_of(tx, first),
        is_scan_of(tx, second),
    ensures
        first is Ok,
        second is Ok,
        inscriptions_view(first->Ok_0@) == inscriptions_view(second->Ok_0@),
{
}

impl OrdinalInscription {
    /// Scans a transaction for inscriptions.
    ///
    /// A transaction can hold several inscriptions, one per output at most. The result
    /// lists them in the order of their outputs, and is empty where there is none, so
    /// the function also serves for detection. An output whose script does not decode,
    /// or holds no complete envelope, is passed over; neither is an error.
    ///
    /// Inscriptions are judged within the transaction alone: whether one is valid in
    /// the token's history takes the chain back to the inscription that created it.
    pub fn scan_tx(tx: &Tx) -> (r: OrdinalResult<Vec<Self>>)
        requires
            tx_outputs(*tx).len() <= u32::MAX,
        ensures
            is_scan_of(*tx, r),
            r matches Ok(list) && follows_outputs(
                inscriptions_view(list@),
                tx_id(*tx),
                tx_outputs(*tx),
                tx_outputs(*tx).len(),
            ),
            r matches Ok(list) && forall|a: int|
                0 <= a < list@.len() ==> well_formed(#[trigger] list@[a]@),
    {
        let hash = tx_hash(tx);
        let outputs = tx_output_list(tx);
        assert(outputs_view(outputs@).len() == outputs@.len());
        Ok(Self::scan_outputs(&outputs, &hash))
    }

    /// Scans a transaction of any size: `None` where it has more outputs than a 32-bit
    /// index can number, else what [`OrdinalInscription::scan_tx`] returns.
    pub fn scan_tx_checked(tx: &Tx) -> (r: Option<OrdinalResult<Vec<Self>>>)
        ensures
            r is Some <==> tx_outputs(*tx).len() <= u32::MAX,
            r matches Some(scanned) ==> is_scan_of(*tx, scanned),
    {
        if tx_output_count(tx) > u32::MAX as usize {
            None
        } else {
            Some(Self::scan_tx(tx))
        }
    }

    /// Scans the outputs of the transaction with hash `tx_id`, given in index order.
    pub fn scan_outputs(outputs: &Vec<TxOutput>, tx_id: &TxHash) -> (list: Vec<Self>)
        requires
            outputs@.len() <= u32::MAX,
        ensures
            inscriptions_view(list@) == inscriptions_in(
                tx_id@,
                outputs_view(outputs@),
                outputs@.len(),
            ),
            follows_outputs(
                inscriptions_view(list@),
                tx_id@,
                outputs_view(outputs@),
                outputs@.len(),
            ),
            forall|a: int| 0 <= a < list@.len() ==> well_formed(#[trigger] list@[a]@),
    {
        let ghost outs = outputs_view(outputs@);
        let mut list: Vec<Self> = Vec::new();
        let mut index: u32 = 0;
        let mut i: usize = 0;
        while i < outputs.len()
            invariant
                i <= outputs.len(),
                outputs@.len() <= u32::MAX,
                index == i,
                outs == outputs_view(outputs@),
                inscriptions_view(list@) == inscriptions_in(tx_id@, outs, i as nat),
            decreases outputs.len() - i,
        {
            let ghost before = inscriptions_view(list@);
            match Self::scan_raw_output(&outputs[i], tx_id, index) {
                Some(found) => {
                    list.push(found);
                    assert(inscriptions_view(list@) =~= before.push(found@));
                },
                None => {},
            }
            i += 1;
            index += 1;
        }
        proof {
            lemma_scan_follows_outputs(tx_id@, outs, outs.len());
            lemma_scan_records_well_formed(tx_id@, outs, outs.len());
            assert forall|a: int| 0 <= a < list@.len() implies well_formed(
                #[trigger] list@[a]@,
            ) by {
                assert(inscriptions_view(list@)[a] == list@[a]@);
            }
        }
        list
    }

    /// Scans one output whose script is not yet decoded. The script is decoded only
    /// where the output's value is exactly one satoshi.
    pub fn scan_raw_output(txo: &TxOutput, tx_id: &TxHash, index: u32) -> (r: Option<Self>)
        ensures
            match r {
                Some(found) => inscription_in_output(txo@, tx_id@, index) == Some(found@),
                None => inscription_in_output(txo@, tx_id@, index) is None,
            },
            txo.value != 1 ==> r is None,
            r matches Some(found) ==> well_formed(found@),
    {
        if txo.value != 1 {
            None
        } else {
            match decode_script(&txo.script) {
                Some(ops) => Self::scan_output(&ops, tx_id, index, txo.value),
                None => None,
            }
        }
    }

    /// Scans the operations of one output's script for an inscription.
    ///
    /// There is one where the output's value is exactly one satoshi and the operations
    /// hold a complete envelope; the first envelope that closes is the one reported.
    pub fn scan_output(ops: &Vec<ScriptOp>, tx_id: &TxHash, index: u32, value: u64) -> (r: Option<
        Self,
    >)
        ensures
            match r {
                Some(found) => inscription_in(ops_view(ops@), tx_id@, index, value) == Some(found@),
                None => inscription_in(ops_view(ops@), tx_id@, index, value) is None,
            },
            value != 1 ==> r is None,
            r matches Some(found) ==> well_formed(found@),
    {
        proof {
            lemma_found_is_complete(ops_view(ops@));
        }
        if value != 1 {
            None
        } else {
            match find_envelope(ops) {
                Some(f) => Some(
                    OrdinalInscription {
                        id: Outpoint { tx_hash: *tx_id, index },
                        prev_id: None,
                        new_address: None,
                        must_be_creation: false,
                        creation_data: f.creation,
                        metadata: f.metadata,
                    },
                ),
                None => None,
            }
        }
    }
}

} // verus!
