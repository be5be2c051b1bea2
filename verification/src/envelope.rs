//! The envelope scanner: a state machine over the operations of one script.
//!
//! An envelope opens with a push of logical false, `OP_IF` and a push of the three
//! bytes `"ord"`. Fields follow, each a small-number push for the key and a data push
//! for the value. The field with key 0 is the body and comes last; `OP_ENDIF` closes
//! the envelope. An operation that does not fit sends the machine back to its initial
//! state, and the operation is not looked at again.
use crate::script::{ops_view, OpView, ScriptOp};
use std::collections::BTreeMap;
use vstd::prelude::*;

verus! {

broadcast use vstd::std_specs::btree::group_btree_axioms;

/// The fields of an envelope as mathematical maps from key to value.
pub struct Fields {
    /// The fields with an odd key.
    pub creation: Map<i64, Seq<u8>>,
    /// The fields with an even key, the body under key 0 among them.
    pub metadata: Map<i64, Seq<u8>>,
}

/// The state of the scan, as a mathematical value.
pub enum Scan {
    /// Looking for a push of logical false.
    Initial,
    /// Logical false was pushed; `OP_IF` must follow.
    FalseSeen,
    /// `OP_IF` followed; a push of `"ord"` must follow.
    IfSeen,
    /// Inside the envelope, before a key.
    InEnvelope(Fields),
    /// A key was read; its value must follow.
    GotKey(i64, Fields),
    /// The body was read; `OP_ENDIF` must follow.
    GotBody(Fields),
    /// The envelope was closed. Nothing that follows changes this state.
    Found(Fields),
}

/// The three bytes that mark an envelope: `"ord"` in ASCII.
pub open spec fn is_ord(d: Seq<u8>) -> bool {
    d.len() == 3 && d[0] == 0x6f && d[1] == 0x72 && d[2] == 0x64
}

/// The operation pushes exactly the bytes `"ord"`.
pub open spec fn pushes_ord(op: OpView) -> bool {
    op.pushed matches Some(d) && is_ord(d)
}

/// The key that the operation pushes, where it is a push of a small number.
pub open spec fn key_of(op: OpView) -> Option<i64> {
    if op.is_push {
        op.small_num
    } else {
        None
    }
}

/// The value that the operation pushes, where it is a data push.
pub open spec fn value_of(op: OpView) -> Option<Seq<u8>> {
    if op.is_push {
        op.pushed
    } else {
        None
    }
}

/// No field at all.
pub open spec fn no_fields() -> Fields {
    Fields { creation: Map::empty(), metadata: Map::empty() }
}

/// The fields with one more: an even key goes to the metadata, an odd key to the
/// creation data. A later value for a key replaces an earlier one.
pub open spec fn with_field(f: Fields, key: i64, value: Seq<u8>) -> Fields {
    if key % 2 == 0 {
        Fields { creation: f.creation, metadata: f.metadata.insert(key, value) }
    } else {
        Fields { creation: f.creation.insert(key, value), metadata: f.metadata }
    }
}

/// From the initial state a push of logical false leads on; anything else is passed
/// over.
pub open spec fn step_initial(op: OpView) -> Scan {
    if op.is_false {
        Scan::FalseSeen
    } else {
        Scan::Initial
    }
}

/// After logical false, `OP_IF` leads on; anything else sends the machine back.
pub open spec fn step_false_seen(op: OpView) -> Scan {
    if op.is_if {
        Scan::IfSeen
    } else {
        Scan::Initial
    }
}

/// After `OP_IF`, a push of `"ord"` opens an envelope without fields; anything else
/// sends the machine back.
pub open spec fn step_if_seen(op: OpView) -> Scan {
    if pushes_ord(op) {
        Scan::InEnvelope(no_fields())
    } else {
        Scan::Initial
    }
}

/// Inside the envelope, a push of a small number is the next key; anything else
/// sends the machine back and the fields are lost.
pub open spec fn step_in_envelope(f: Fields, op: OpView) -> Scan {
    match key_of(op) {
        Some(key) => Scan::GotKey(key, f),
        None => Scan::Initial,
    }
}

/// After a key, a data push is its value. The value of key 0 is the body, after which
/// the envelope must close; after any other the next key follows. Anything but a
/// data push sends the machine back and the fields are lost.
pub open spec fn step_got_key(key: i64, f: Fields, op: OpView) -> Scan {
    match value_of(op) {
        Some(value) => if key == 0 {
            Scan::GotBody(with_field(f, key, value))
        } else {
            Scan::InEnvelope(with_field(f, key, value))
        },
        None => Scan::Initial,
    }
}

/// After the body, `OP_ENDIF` closes the envelope; anything else sends the machine
/// back and the fields are lost.
pub open spec fn step_got_body(f: Fields, op: OpView) -> Scan {
    if op.is_endif {
        Scan::Found(f)
    } else {
        Scan::Initial
    }
}

/// The state that follows `s` when `op` is read.
pub open spec fn step(s: Scan, op: OpView) -> Scan {
    match s {
        Scan::Initial => step_initial(op),
        Scan::FalseSeen => step_false_seen(op),
        Scan::IfSeen => step_if_seen(op),
        Scan::InEnvelope(f) => step_in_envelope(f, op),
        Scan::GotKey(key, f) => step_got_key(key, f, op),
        Scan::GotBody(f) => step_got_body(f, op),
        Scan::Found(f) => Scan::Found(f),
    }
}

/// The state after the first `n` operations of `ops`, started in the initial state.
pub open spec fn run(ops: Seq<OpView>, n: nat) -> Scan
    decreases n,
{
    if n == 0 {
        Scan::Initial
    } else {
        step(run(ops, (n - 1) as nat), ops[n - 1])
    }
}

/// The fields of the first envelope that closes in `ops`, if one does.
pub open spec fn found_in(ops: Seq<OpView>) -> Option<Fields> {
    match run(ops, ops.len()) {
        Scan::Found(f) => Some(f),
        _ => None,
    }
}

/// Once an envelope has closed, the operations that follow change nothing.
pub proof fn lemma_found_stays(ops: Seq<OpView>, i: nat, n: nat)
    requires
        i <= n,
        run(ops, i) is Found,
    ensures
        run(ops, n) == run(ops, i),
    decreases n,
{
    if i < n {
        lemma_found_stays(ops, i, (n - 1) as nat);
    }
}

/// Reading one more operation is one step of the machine.
pub proof fn lemma_run_step(ops: Seq<OpView>, n: nat)
    ensures
        run(ops, n + 1) == step(run(ops, n), ops[n as int]),
{
    assert(run(ops, (n + 1) as nat) == step(run(ops, n), ops[n + 1 - 1]));
}

/// The marker of an envelope stands at `i`: a push of logical false, `OP_IF` and a
/// push of `"ord"`, one after the other.
pub open spec fn marker_at(ops: Seq<OpView>, i: int) -> bool {
    &&& 0 <= i
    &&& i + 2 < ops.len()
    &&& ops[i].is_false
    &&& ops[i + 1].is_if
    &&& pushes_ord(ops[i + 2])
}

/// What the state after `n` operations tells of the operations read so far.
pub open spec fn marker_seen(ops: Seq<OpView>, n: nat) -> bool {
    match run(ops, n) {
        Scan::Initial => true,
        Scan::FalseSeen => n >= 1 && ops[n - 1].is_false,
        Scan::IfSeen => n >= 2 && ops[n - 2].is_false && ops[n - 1].is_if,
        _ => exists|i: int| marker_at(ops, i) && i + 3 <= n,
    }
}

/// The machine is past the marker only where it has read one.
pub proof fn lemma_marker_seen(ops: Seq<OpView>, n: nat)
    requires
        n <= ops.len(),
    ensures
        marker_seen(ops, n),
    decreases n,
{
    if n > 0 {
        let m = (n - 1) as nat;
        lemma_marker_seen(ops, m);
        lemma_run_step(ops, m);
        let op = ops[m as int];
        match run(ops, m) {
            Scan::Initial => {},
            Scan::FalseSeen => {},
            Scan::IfSeen => {
                if pushes_ord(op) {
                    assert(marker_at(ops, n - 3));
                }
            },
            _ => {
                let i = choose|i: int| marker_at(ops, i) && i + 3 <= m;
                assert(marker_at(ops, i) && i + 3 <= n);
            },
        }
    }
}

/// A script in which no marker stands holds no envelope.
pub proof fn lemma_no_marker_no_envelope(ops: Seq<OpView>)
    requires
        forall|i: int| !marker_at(ops, i),
    ensures
        found_in(ops) is None,
{
    lemma_marker_seen(ops, ops.len());
}

/// The fields stand where their keys send them: odd keys among the creation data,
/// even keys among the metadata.
pub open spec fn sorted_by_parity(f: Fields) -> bool {
    &&& forall|k: i64| f.creation.contains_key(k) ==> k % 2 != 0
    &&& forall|k: i64| f.metadata.contains_key(k) ==> k % 2 == 0
}

/// The fields of a complete envelope: sorted by parity, the body under key 0.
pub open spec fn complete(f: Fields) -> bool {
    sorted_by_parity(f) && f.metadata.contains_key(0)
}

/// What holds of the fields that a state carries.
pub open spec fn fields_in_order(s: Scan) -> bool {
    match s {
        Scan::InEnvelope(f) => sorted_by_parity(f),
        Scan::GotKey(_, f) => sorted_by_parity(f),
        Scan::GotBody(f) => complete(f),
        Scan::Found(f) => complete(f),
        _ => true,
    }
}

/// One step keeps the fields in order.
pub proof fn lemma_step_keeps_order(s: Scan, op: OpView)
    requires
        fields_in_order(s),
    ensures
        fields_in_order(step(s, op)),
{
}

/// Whatever was read, the fields are in order.
pub proof fn lemma_run_keeps_order(ops: Seq<OpView>, n: nat)
    ensures
        fields_in_order(run(ops, n)),
    decreases n,
{
    if n > 0 {
        lemma_run_keeps_order(ops, (n - 1) as nat);
        lemma_run_step(ops, (n - 1) as nat);
        lemma_step_keeps_order(run(ops, (n - 1) as nat), ops[n - 1]);
    }
}

/// The fields of an envelope that was found are complete.
pub proof fn lemma_found_is_complete(ops: Seq<OpView>)
    ensures
        found_in(ops) matches Some(f) ==> complete(f),
{
    lemma_run_keeps_order(ops, ops.len());
}

/// The fields that the first `n` of the pairs make, each key with its value, a later
/// pair replacing an earlier one with the same key.
pub open spec fn fields_of(pairs: Seq<(i64, Seq<u8>)>, n: nat) -> Fields
    decreases n,
{
    if n == 0 {
        no_fields()
    } else {
        with_field(fields_of(pairs, (n - 1) as nat), pairs[n - 1].0, pairs[n - 1].1)
    }
}

/// One of the first `n` pairs has the key `k`.
pub open spec fn has_key(pairs: Seq<(i64, Seq<u8>)>, n: nat, k: i64) -> bool {
    exists|j: int| 0 <= j < n && (#[trigger] pairs[j]).0 == k
}

/// Pair `j` is the last of the first `n` pairs with its key.
pub open spec fn is_last(pairs: Seq<(i64, Seq<u8>)>, n: nat, j: int) -> bool {
    &&& 0 <= j < n
    &&& forall|l: int| j < l < n ==> (#[trigger] pairs[l]).0 != pairs[j].0
}

/// The value that the fields hold for `k`, looked up where the parity of `k` puts it.
pub open spec fn field_value(f: Fields, k: i64) -> Seq<u8> {
    if k % 2 == 0 {
        f.metadata[k]
    } else {
        f.creation[k]
    }
}

/// The fields hold exactly the keys of the first `n` pairs, the odd ones among the
/// creation data and the even ones among the metadata, each with the value of the
/// last pair that has the key.
pub open spec fn fields_match_pairs(f: Fields, pairs: Seq<(i64, Seq<u8>)>, n: nat) -> bool {
    &&& forall|k: i64| #[trigger]
        f.creation.contains_key(k) <==> (k % 2 != 0 && has_key(pairs, n, k))
    &&& forall|k: i64| #[trigger]
        f.metadata.contains_key(k) <==> (k % 2 == 0 && has_key(pairs, n, k))
    &&& forall|j: int| #[trigger]
        is_last(pairs, n, j) ==> field_value(f, pairs[j].0) == pairs[j].1
}

/// The fields made of a list of pairs are the pairs, split by the parity of their
/// keys, a later pair replacing an earlier one with the same key.
pub proof fn lemma_fields_of_pairs(pairs: Seq<(i64, Seq<u8>)>, n: nat)
    requires
        n <= pairs.len(),
    ensures
        fields_match_pairs(fields_of(pairs, n), pairs, n),
    decreases n,
{
    let f = fields_of(pairs, n);
    if n == 0 {
        assert(forall|k: i64| !has_key(pairs, n, k));
    } else {
        let m = (n - 1) as nat;
        let g = fields_of(pairs, m);
        let key = pairs[m as int].0;
        let value = pairs[m as int].1;
        lemma_fields_of_pairs(pairs, m);
        assert(f == with_field(g, key, value));
        assert forall|k: i64| has_key(pairs, n, k) <==> (has_key(pairs, m, k) || k == key) by {
            if has_key(pairs, m, k) {
                let j = choose|j: int| 0 <= j < m && (#[trigger] pairs[j]).0 == k;
                assert(0 <= j < n && pairs[j].0 == k);
            }
            if k == key {
                assert(pairs[m as int].0 == k);
            }
        }
        assert forall|j: int| #[trigger] is_last(pairs, n, j) implies field_value(f, pairs[j].0)
            == pairs[j].1 by {
            if j < m {
                assert(pairs[m as int].0 != pairs[j].0);
                assert(is_last(pairs, m, j));
            }
        }
    }
}

/// A well-formed envelope stands at `start`: the marker, then each pair as a push of
/// its key, which is not 0, and a push of its value, then a push of key 0, a push of
/// the body and `OP_ENDIF`.
pub open spec fn envelope_at(
    ops: Seq<OpView>,
    start: int,
    pairs: Seq<(i64, Seq<u8>)>,
    body: Seq<u8>,
) -> bool {
    let end = start + 3 + 2 * pairs.len();
    &&& marker_at(ops, start)
    &&& end + 3 <= ops.len()
    &&& forall|j: int|
        0 <= j < pairs.len() ==> {
            &&& (#[trigger] pairs[j]).0 != 0
            &&& key_of(ops[start + 3 + 2 * j]) == Some(pairs[j].0)
            &&& value_of(ops[start + 4 + 2 * j]) == Some(pairs[j].1)
        }
    &&& key_of(ops[end]) == Some(0i64)
    &&& value_of(ops[end + 1]) == Some(body)
    &&& ops[end + 2].is_endif
}

/// After the marker and the first `j` pairs the machine is inside the envelope and
/// holds the fields of those pairs.
pub proof fn lemma_envelope_pairs_read(
    ops: Seq<OpView>,
    start: nat,
    pairs: Seq<(i64, Seq<u8>)>,
    body: Seq<u8>,
    j: nat,
)
    requires
        envelope_at(ops, start as int, pairs, body),
        run(ops, start) is Initial,
        j <= pairs.len(),
    ensures
        run(ops, start + 3 + 2 * j) == Scan::InEnvelope(fields_of(pairs, j)),
    decreases j,
{
    if j == 0 {
        lemma_run_step(ops, start);
        lemma_run_step(ops, start + 1);
        lemma_run_step(ops, start + 2);
    } else {
        let i = (j - 1) as nat;
        lemma_envelope_pairs_read(ops, start, pairs, body, i);
        let at = start + 3 + 2 * i;
        assert(pairs[i as int].0 != 0);
        lemma_run_step(ops, at);
        lemma_run_step(ops, at + 1);
        assert(at + 2 == start + 3 + 2 * j);
    }
}

/// A well-formed envelope that begins where the machine is in its initial state is
/// found, whatever follows it, and its fields are those of its pairs and its body.
pub proof fn lemma_envelope_is_found(
    ops: Seq<OpView>,
    start: nat,
    pairs: Seq<(i64, Seq<u8>)>,
    body: Seq<u8>,
)
    requires
        envelope_at(ops, start as int, pairs, body),
        run(ops, start) is Initial,
    ensures
        found_in(ops) == Some(with_field(fields_of(pairs, pairs.len()), 0, body)),
{
    let end = start + 3 + 2 * pairs.len();
    lemma_envelope_pairs_read(ops, start, pairs, body, pairs.len());
    lemma_run_step(ops, end);
    lemma_run_step(ops, end + 1);
    lemma_run_step(ops, end + 2);
    lemma_found_stays(ops, end + 3, ops.len());
}

/// The field maps of an envelope under construction.
#[derive(Clone, Debug)]
pub struct FieldMaps {
    /// The fields with an odd key.
    pub creation: BTreeMap<i64, Vec<u8>>,
    /// The fields with an even key.
    pub metadata: BTreeMap<i64, Vec<u8>>,
}

/// A map of byte strings as a mathematical map of byte sequences.
pub open spec fn bytes_map(m: Map<i64, Vec<u8>>) -> Map<i64, Seq<u8>> {
    Map::new(|k: i64| m.contains_key(k), |k: i64| m[k]@)
}

impl View for FieldMaps {
    type V = Fields;

    open spec fn view(&self) -> Fields {
        Fields { creation: bytes_map(self.creation@), metadata: bytes_map(self.metadata@) }
    }
}

/// The state of the scan. The fields read so far travel with the states inside an
/// envelope, so a step back to the initial state drops them.
#[derive(Clone, Debug)]
pub enum ScanState {
    /// Looking for a push of logical false.
    Initial,
    /// Logical false was pushed; `OP_IF` must follow.
    FalseSeen,
    /// `OP_IF` followed; a push of `"ord"` must follow.
    IfSeen,
    /// Inside the envelope, before a key.
    InEnvelope(FieldMaps),
    /// A key was read; its value must follow.
    GotKey(i64, FieldMaps),
    /// The body was read; `OP_ENDIF` must follow.
    GotBody(FieldMaps),
    /// The envelope was closed.
    Found(FieldMaps),
}

impl View for ScanState {
    type V = Scan;

    open spec fn view(&self) -> Scan {
        match self {
            ScanState::Initial => Scan::Initial,
            ScanState::FalseSeen => Scan::FalseSeen,
            ScanState::IfSeen => Scan::IfSeen,
            ScanState::InEnvelope(f) => Scan::InEnvelope(f@),
            ScanState::GotKey(key, f) => Scan::GotKey(*key, f@),
            ScanState::GotBody(f) => Scan::GotBody(f@),
            ScanState::Found(f) => Scan::Found(f@),
        }
    }
}

/// Whether `d` holds exactly the bytes `"ord"`.
pub fn holds_ord(d: &Vec<u8>) -> (yes: bool)
    ensures
        yes == is_ord(d@),
{
    d.len() == 3 && d[0] == 0x6f && d[1] == 0x72 && d[2] == 0x64
}

/// A copy of `d`.
fn copy_bytes(d: &Vec<u8>) -> (c: Vec<u8>)
    ensures
        c@ == d@,
{
    let mut c: Vec<u8> = Vec::new();
    let mut i: usize = 0;
    while i < d.len()
        invariant
            i <= d.len(),
            c@ == d@.subrange(0, i as int),
        decreases d.len() - i,
    {
        c.push(d[i]);
        i += 1;
    }
    assert(d@.subrange(0, d.len() as int) =~= d@);
    c
}

impl FieldMaps {
    /// No field at all.
    pub fn new() -> (f: FieldMaps)
        ensures
            f@ == no_fields(),
    {
        let f = FieldMaps { creation: BTreeMap::new(), metadata: BTreeMap::new() };
        assert(f@.creation =~= Map::empty());
        assert(f@.metadata =~= Map::empty());
        f
    }

    /// Stores `value` under `key`: among the metadata where the key is even, among
    /// the creation data where it is odd.
    pub fn put(self, key: i64, value: &Vec<u8>) -> (f: FieldMaps)
        ensures
            f@ == with_field(self@, key, value@),
    {
        let mut f = self;
        let v = copy_bytes(value);
        if key % 2 == 0 {
            f.metadata.insert(key, v);
            assert(f@.metadata =~= self@.metadata.insert(key, value@));
        } else {
            f.creation.insert(key, v);
            assert(f@.creation =~= self@.creation.insert(key, value@));
        }
        f
    }
}

impl ScanState {
    /// From the initial state: a push of logical false may open an envelope.
    pub fn from_initial(op: &ScriptOp) -> (next: ScanState)
        ensures
            next@ == step_initial(op@),
    {
        if op.is_false {
            ScanState::FalseSeen
        } else {
            ScanState::Initial
        }
    }

    /// After logical false: only `OP_IF` goes on.
    pub fn from_false_seen(op: &ScriptOp) -> (next: ScanState)
        ensures
            next@ == step_false_seen(op@),
    {
        if op.is_if {
            ScanState::IfSeen
        } else {
            ScanState::Initial
        }
    }

    /// After `OP_IF`: only a push of `"ord"` goes on, into an envelope without fields.
    pub fn from_if_seen(op: &ScriptOp) -> (next: ScanState)
        ensures
            next@ == step_if_seen(op@),
    {
        match &op.pushed {
            Some(d) => {
                if holds_ord(d) {
                    ScanState::InEnvelope(FieldMaps::new())
                } else {
                    ScanState::Initial
                }
            },
            None => ScanState::Initial,
        }
    }

    /// Inside the envelope: only a push of a small number goes on, as the next key.
    pub fn from_in_envelope(f: FieldMaps, op: &ScriptOp) -> (next: ScanState)
        ensures
            next@ == step_in_envelope(f@, op@),
    {
        if op.is_push {
            match op.small_num {
                Some(key) => ScanState::GotKey(key, f),
                None => ScanState::Initial,
            }
        } else {
            ScanState::Initial
        }
    }

    /// After a key: only a data push goes on, as the key's value. The value of key 0
    /// is the body and ends the fields.
    pub fn from_got_key(key: i64, f: FieldMaps, op: &ScriptOp) -> (next: ScanState)
        ensures
            next@ == step_got_key(key, f@, op@),
    {
        if op.is_push {
            match &op.pushed {
                Some(d) => {
                    let g = f.put(key, d);
                    if key == 0 {
                        ScanState::GotBody(g)
                    } else {
                        ScanState::InEnvelope(g)
                    }
                },
                None => ScanState::Initial,
            }
        } else {
            ScanState::Initial
        }
    }

    /// After the body: only `OP_ENDIF` goes on, and closes the envelope.
    pub fn from_got_body(f: FieldMaps, op: &ScriptOp) -> (next: ScanState)
        ensures
            next@ == step_got_body(f@, op@),
    {
        if op.is_endif {
            ScanState::Found(f)
        } else {
            ScanState::Initial
        }
    }

    /// Reads one operation.
    pub fn step(self, op: &ScriptOp) -> (next: ScanState)
        ensures
            next@ == step(self@, op@),
    {
        match self {
            ScanState::Initial => Self::from_initial(op),
            ScanState::FalseSeen => Self::from_false_seen(op),
            ScanState::IfSeen => Self::from_if_seen(op),
            ScanState::InEnvelope(f) => Self::from_in_envelope(f, op),
            ScanState::GotKey(key, f) => Self::from_got_key(key, f, op),
            ScanState::GotBody(f) => Self::from_got_body(f, op),
            ScanState::Found(f) => ScanState::Found(f),
        }
    }
}

/// Scans the operations of one script for an envelope and returns the fields of the
/// first one that closes.
pub fn find_envelope(ops: &Vec<ScriptOp>) -> (r: Option<FieldMaps>)
    ensures
        match r {
            Some(f) => found_in(ops_view(ops@)) == Some(f@),
            None => found_in(ops_view(ops@)) is None,
        },
{
    let ghost view = ops_view(ops@);
    let mut state = ScanState::Initial;
    let mut i: usize = 0;
    while i < ops.len()
        invariant
            i <= ops.len(),
            view == ops_view(ops@),
            state@ == run(view, i as nat),
            !(state@ is Found),
        decreases ops.len() - i,
    {
        state = state.step(&ops[i]);
        i += 1;
        if let ScanState::Found(f) = state {
            proof {
                lemma_found_stays(view, i as nat, view.len());
            }
            return Some(f);
        }
    }
    None
}

} // verus!
