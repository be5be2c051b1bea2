use one_sat_ordinals::envelope::{find_envelope, holds_ord, FieldMaps, ScanState};
use one_sat_ordinals::script::decode_script;
use one_sat_ordinals::{
    Ordinal, OrdinalError, OrdinalInscription, OrdinalResult, OrdinalTransfer, Outpoint, ScriptOp,
    TxHash,
};
use std::collections::BTreeMap;

fn op_false() -> ScriptOp {
    ScriptOp {
        is_false: true,
        is_if: false,
        is_endif: false,
        is_push: true,
        pushed: Some(vec![0]),
        small_num: Some(0),
    }
}

fn op_other() -> ScriptOp {
    ScriptOp {
        is_false: false,
        is_if: false,
        is_endif: false,
        is_push: false,
        pushed: None,
        small_num: None,
    }
}

fn op_if() -> ScriptOp {
    ScriptOp { is_if: true, ..op_other() }
}

fn op_endif() -> ScriptOp {
    ScriptOp { is_endif: true, ..op_other() }
}

fn op_num(n: i64) -> ScriptOp {
    ScriptOp { is_push: true, pushed: Some(vec![n as u8]), small_num: Some(n), ..op_other() }
}

fn op_data(d: &[u8]) -> ScriptOp {
    ScriptOp { is_push: true, pushed: Some(d.to_vec()), small_num: None, ..op_other() }
}

fn marker() -> Vec<ScriptOp> {
    vec![op_false(), op_if(), op_data(b"ord")]
}

fn envelope(fields: &[(i64, &[u8])], body: &[u8]) -> Vec<ScriptOp> {
    let mut ops = marker();
    for (k, v) in fields {
        ops.push(op_num(*k));
        ops.push(op_data(v));
    }
    ops.push(op_false());
    ops.push(op_data(body));
    ops.push(op_endif());
    ops
}

fn hash() -> TxHash {
    TxHash { raw: [0xab; 32] }
}

fn map_of(entries: &[(i64, &[u8])]) -> BTreeMap<i64, Vec<u8>> {
    entries.iter().map(|(k, v)| (*k, v.to_vec())).collect()
}

#[test]
fn scan_output_needs_a_value_of_exactly_one() {
    let ops = envelope(&[(1, b"text/plain")], b"hello");
    for value in [0u64, 2, 3, 1000, u64::MAX] {
        assert!(OrdinalInscription::scan_output(&ops, &hash(), 0, value).is_none());
    }
    assert!(OrdinalInscription::scan_output(&ops, &hash(), 0, 1).is_some());
}

#[test]
fn scan_output_without_marker_finds_nothing() {
    let no_marker: Vec<Vec<ScriptOp>> = vec![
        vec![],
        vec![op_other(), op_other()],
        vec![op_false()],
        vec![op_false(), op_if()],
        vec![op_false(), op_if(), op_data(b"or")],
        vec![op_false(), op_if(), op_data(b"ordi"), op_false(), op_data(b"x"), op_endif()],
        vec![op_false(), op_if(), op_data(b"orb"), op_false(), op_data(b"x"), op_endif()],
        vec![op_false(), op_if(), op_data(b"Ord"), op_false(), op_data(b"x"), op_endif()],
        vec![op_false(), op_other(), op_if(), op_data(b"ord"), op_false(), op_data(b"x"), op_endif()],
        vec![op_if(), op_data(b"ord"), op_false(), op_data(b"x"), op_endif()],
        vec![op_false(), op_if(), op_endif()],
        vec![op_num(1), op_data(b"a"), op_false(), op_data(b"x"), op_endif()],
    ];
    for ops in no_marker {
        assert!(OrdinalInscription::scan_output(&ops, &hash(), 0, 1).is_none());
    }
}

#[test]
fn scan_output_reads_a_well_formed_envelope() {
    let ops = envelope(
        &[(1, b"text/plain"), (2, b"two"), (3, b"three"), (16, b"sixteen"), (-1, b"minus")],
        b"body",
    );
    let found = OrdinalInscription::scan_output(&ops, &hash(), 7, 1).unwrap();
    assert_eq!(found.id, Outpoint { tx_hash: hash(), index: 7 });
    assert!(found.prev_id.is_none());
    assert!(found.new_address.is_none());
    assert!(!found.must_be_creation);
    assert_eq!(
        found.creation_data,
        map_of(&[(1, b"text/plain"), (3, b"three"), (-1, b"minus")])
    );
    assert_eq!(found.metadata, map_of(&[(0, b"body"), (2, b"two"), (16, b"sixteen")]));
}

#[test]
fn scan_output_reads_an_envelope_with_only_a_body() {
    let ops = envelope(&[], b"");
    let found = OrdinalInscription::scan_output(&ops, &hash(), 0, 1).unwrap();
    assert!(found.creation_data.is_empty());
    assert_eq!(found.metadata, map_of(&[(0, b"")]));
}

#[test]
fn scan_output_lets_a_later_value_replace_an_earlier_one() {
    let ops = envelope(&[(1, b"first"), (1, b"second"), (4, b"a"), (4, b"b")], b"body");
    let found = OrdinalInscription::scan_output(&ops, &hash(), 0, 1).unwrap();
    assert_eq!(found.creation_data, map_of(&[(1, b"second")]));
    assert_eq!(found.metadata, map_of(&[(0, b"body"), (4, b"b")]));
}

#[test]
fn scan_output_takes_a_number_push_as_a_value() {
    let mut ops = marker();
    ops.push(op_num(5));
    ops.push(op_num(9));
    ops.push(op_false());
    ops.push(op_false());
    ops.push(op_endif());
    let found = OrdinalInscription::scan_output(&ops, &hash(), 0, 1).unwrap();
    assert_eq!(found.creation_data, map_of(&[(5, &[9u8])]));
    assert_eq!(found.metadata, map_of(&[(0, &[0u8])]));
}

#[test]
fn scan_output_recovers_after_a_failed_attempt() {
    let mut ops = vec![op_other(), op_false(), op_if(), op_data(b"nope")];
    ops.extend(marker());
    ops.push(op_num(1));
    ops.push(op_data(b"dropped"));
    ops.push(op_num(2));
    ops.push(op_endif());
    ops.extend(envelope(&[(3, b"kept")], b"body"));
    ops.push(op_other());
    let found = OrdinalInscription::scan_output(&ops, &hash(), 2, 1).unwrap();
    assert_eq!(found.creation_data, map_of(&[(3, b"kept")]));
    assert_eq!(found.metadata, map_of(&[(0, b"body")]));
}

#[test]
fn scan_output_reports_only_the_first_envelope() {
    let mut ops = envelope(&[(1, b"one")], b"first");
    ops.extend(envelope(&[(3, b"three")], b"second"));
    let found = OrdinalInscription::scan_output(&ops, &hash(), 0, 1).unwrap();
    assert_eq!(found.creation_data, map_of(&[(1, b"one")]));
    assert_eq!(found.metadata, map_of(&[(0, b"first")]));
}

#[test]
fn scan_output_does_not_look_again_at_the_operation_that_reset_it() {
    // the second push of false ends the first attempt and starts no new one
    let mut ops = vec![op_false()];
    ops.extend(envelope(&[], b"body"));
    assert!(OrdinalInscription::scan_output(&ops, &hash(), 0, 1).is_none());
    // with one more operation in between the marker is seen
    let mut ops = vec![op_false(), op_other()];
    ops.extend(envelope(&[], b"body"));
    assert!(OrdinalInscription::scan_output(&ops, &hash(), 0, 1).is_some());
}

#[test]
fn scan_output_rejects_envelopes_that_do_not_close() {
    let mut unfinished = envelope(&[(1, b"a")], b"body");
    unfinished.pop();
    for cut in 0..=unfinished.len() {
        let ops = unfinished[..cut].to_vec();
        assert!(OrdinalInscription::scan_output(&ops, &hash(), 0, 1).is_none());
    }
    let mut wrong_close = unfinished.clone();
    wrong_close.push(op_other());
    assert!(OrdinalInscription::scan_output(&wrong_close, &hash(), 0, 1).is_none());
    let mut key_not_number = marker();
    key_not_number.push(op_data(b"123456789"));
    key_not_number.push(op_data(b"v"));
    key_not_number.push(op_false());
    key_not_number.push(op_data(b"body"));
    key_not_number.push(op_endif());
    assert!(OrdinalInscription::scan_output(&key_not_number, &hash(), 0, 1).is_none());
    let mut value_not_push = marker();
    value_not_push.push(op_num(1));
    value_not_push.push(op_if());
    value_not_push.push(op_false());
    value_not_push.push(op_data(b"body"));
    value_not_push.push(op_endif());
    assert!(OrdinalInscription::scan_output(&value_not_push, &hash(), 0, 1).is_none());
}

#[test]
fn find_envelope_agrees_with_stepping_by_hand() {
    let ops = envelope(&[(1, b"a")], b"b");
    let mut state = ScanState::Initial;
    for op in &ops {
        state = state.step(op);
    }
    let by_hand = match state {
        ScanState::Found(f) => f,
        _ => panic!("the envelope was not found"),
    };
    let found = find_envelope(&ops).unwrap();
    assert_eq!(found.creation, by_hand.creation);
    assert_eq!(found.metadata, by_hand.metadata);
    assert!(matches!(ScanState::FalseSeen.step(&op_false()), ScanState::Initial));
    assert!(matches!(ScanState::Initial.step(&op_false()), ScanState::FalseSeen));
    assert!(matches!(ScanState::FalseSeen.step(&op_if()), ScanState::IfSeen));
    assert!(matches!(ScanState::IfSeen.step(&op_data(b"ord")), ScanState::InEnvelope(_)));
}

#[test]
fn field_maps_route_keys_by_parity() {
    let f = FieldMaps::new()
        .put(0, &b"zero".to_vec())
        .put(1, &b"one".to_vec())
        .put(-2, &b"minus two".to_vec())
        .put(-3, &b"minus three".to_vec())
        .put(i64::MAX, &b"max".to_vec())
        .put(i64::MIN, &b"min".to_vec());
    assert_eq!(
        f.creation,
        map_of(&[(1, b"one"), (-3, b"minus three"), (i64::MAX, b"max")])
    );
    assert_eq!(
        f.metadata,
        map_of(&[(0, b"zero"), (-2, b"minus two"), (i64::MIN, b"min")])
    );
}

#[test]
fn holds_ord_matches_exactly_three_bytes() {
    assert!(holds_ord(&b"ord".to_vec()));
    assert!(!holds_ord(&b"or".to_vec()));
    assert!(!holds_ord(&b"ordi".to_vec()));
    assert!(!holds_ord(&b"ORD".to_vec()));
    assert!(!holds_ord(&Vec::new()));
}

#[test]
fn decode_script_reads_operations() {
    // OP_0 OP_IF "ord" OP_1 "a" OP_0 "bc" OP_ENDIF OP_DUP OP_1NEGATE
    let script = vec![
        0x00, 0x63, 0x03, 0x6f, 0x72, 0x64, 0x51, 0x01, 0x61, 0x00, 0x02, 0x62, 0x63, 0x68, 0x76,
        0x4f,
    ];
    let ops = decode_script(&script).unwrap();
    assert_eq!(ops.len(), 10);
    assert_eq!(ops[0], op_false());
    assert_eq!(ops[1], op_if());
    assert_eq!(
        ops[2],
        ScriptOp {
            is_push: true,
            pushed: Some(b"ord".to_vec()),
            small_num: Some(0x64726f),
            ..op_other()
        }
    );
    assert_eq!(ops[3], op_num(1));
    assert_eq!(
        ops[4],
        ScriptOp { is_push: true, pushed: Some(b"a".to_vec()), small_num: Some(0x61), ..op_other() }
    );
    assert_eq!(ops[5], op_false());
    assert_eq!(ops[7], op_endif());
    assert_eq!(ops[8], op_other());
    assert_eq!(
        ops[9],
        ScriptOp { is_push: true, pushed: Some(vec![0xff]), small_num: Some(-1), ..op_other() }
    );
    let found = OrdinalInscription::scan_output(&ops, &hash(), 0, 1).unwrap();
    assert_eq!(found.creation_data, map_of(&[(1, b"a")]));
    assert_eq!(found.metadata, map_of(&[(0, b"bc")]));
}

#[test]
fn decode_script_refuses_malformed_bytes() {
    assert!(decode_script(&vec![0x05, 0x01]).is_none());
    assert!(decode_script(&vec![0x4c]).is_none());
    assert!(decode_script(&vec![0x4d, 0x01]).is_none());
    assert!(decode_script(&vec![0xba]).is_none());
    assert_eq!(decode_script(&Vec::new()), Some(Vec::new()));
}

#[test]
fn bad_argument_reads_as_text() {
    let e = OrdinalError::BadArgument("not hex".to_string());
    assert_eq!(e.to_string(), "Bad argument: not hex");
    assert_eq!(OrdinalError::BadArgument(String::new()).to_string(), "Bad argument: ");
    let r: OrdinalResult<u8> = Err(e);
    assert!(matches!(r, Err(OrdinalError::BadArgument(_))));
}

#[test]
fn transfers_and_tokens_can_be_held() {
    let id = Outpoint { tx_hash: hash(), index: 1 };
    let prev = Outpoint { tx_hash: TxHash { raw: [1; 32] }, index: 0 };
    assert_ne!(id, prev);
    assert_eq!(id.clone(), id);
    let token = Ordinal {};
    assert_eq!(format!("{:?}", token.clone()), "Ordinal");
    let none: Option<OrdinalTransfer> = None;
    assert!(none.is_none());
}

#[test]
fn each_state_steps_as_described() {
    assert!(matches!(ScanState::from_initial(&op_other()), ScanState::Initial));
    assert!(matches!(ScanState::from_initial(&op_if()), ScanState::Initial));
    assert!(matches!(ScanState::from_initial(&op_false()), ScanState::FalseSeen));
    assert!(matches!(ScanState::from_false_seen(&op_if()), ScanState::IfSeen));
    assert!(matches!(ScanState::from_false_seen(&op_false()), ScanState::Initial));
    assert!(matches!(ScanState::from_if_seen(&op_data(b"ord")), ScanState::InEnvelope(_)));
    assert!(matches!(ScanState::from_if_seen(&op_data(b"dro")), ScanState::Initial));
    assert!(matches!(ScanState::from_if_seen(&op_endif()), ScanState::Initial));
    match ScanState::from_in_envelope(FieldMaps::new(), &op_num(7)) {
        ScanState::GotKey(7, f) => assert!(f.creation.is_empty() && f.metadata.is_empty()),
        _ => panic!("a small number is a key"),
    }
    assert!(matches!(
        ScanState::from_in_envelope(FieldMaps::new(), &op_data(b"123456789")),
        ScanState::Initial
    ));
    assert!(matches!(ScanState::from_in_envelope(FieldMaps::new(), &op_if()), ScanState::Initial));
    match ScanState::from_got_key(7, FieldMaps::new(), &op_data(b"seven")) {
        ScanState::InEnvelope(f) => {
            assert_eq!(f.creation, map_of(&[(7, b"seven")]));
            assert!(f.metadata.is_empty());
        }
        _ => panic!("a value of a key other than 0 leads back into the envelope"),
    }
    match ScanState::from_got_key(0, FieldMaps::new(), &op_data(b"body")) {
        ScanState::GotBody(f) => {
            assert_eq!(f.metadata, map_of(&[(0, b"body")]));
            assert!(f.creation.is_empty());
        }
        _ => panic!("the value of key 0 is the body"),
    }
    assert!(matches!(
        ScanState::from_got_key(1, FieldMaps::new(), &op_endif()),
        ScanState::Initial
    ));
    assert!(matches!(ScanState::from_got_body(FieldMaps::new(), &op_endif()), ScanState::Found(_)));
    assert!(matches!(ScanState::from_got_body(FieldMaps::new(), &op_false()), ScanState::Initial));
    assert!(matches!(
        ScanState::Found(FieldMaps::new()).step(&op_false()),
        ScanState::Found(_)
    ));
}

#[test]
fn an_operation_that_claims_a_push_without_bytes_is_no_value() {
    let odd = ScriptOp { is_push: true, pushed: None, small_num: None, ..op_other() };
    assert!(matches!(ScanState::from_got_key(1, FieldMaps::new(), &odd), ScanState::Initial));
    let not_push = ScriptOp { is_push: false, pushed: Some(vec![1]), small_num: Some(1), ..op_other() };
    assert!(matches!(ScanState::from_in_envelope(FieldMaps::new(), &not_push), ScanState::Initial));
    assert!(matches!(ScanState::from_got_key(1, FieldMaps::new(), &not_push), ScanState::Initial));
}
