//! Script operations, reduced to what envelope detection asks of them.
use bitcoinsv::bitcoin::{Operation, Script};
use vstd::prelude::*;

verus! {

/// What the scanner asks of one decoded script operation.
#[derive(Clone, Debug, PartialEq, Eq)]
pub struct ScriptOp {
    /// The operation pushes logical false (`OP_0` or its alias `OP_FALSE`).
    pub is_false: bool,
    /// The operation is `OP_IF`.
    pub is_if: bool,
    /// The operation is `OP_ENDIF`.
    pub is_endif: bool,
    /// The operation pushes data onto the stack.
    pub is_push: bool,
    /// The bytes that the operation pushes, if it pushes any.
    pub pushed: Option<Vec<u8>>,
    /// The number that the operation pushes, if it pushes one that fits in an `i64`.
    pub small_num: Option<i64>,
}

/// The mathematical value of a [`ScriptOp`].
pub struct OpView {
    pub is_false: bool,
    pub is_if: bool,
    pub is_endif: bool,
    pub is_push: bool,
    pub pushed: Option<Seq<u8>>,
    pub small_num: Option<i64>,
}

impl View for ScriptOp {
    type V = OpView;

    open spec fn view(&self) -> OpView {
        OpView {
            is_false: self.is_false,
            is_if: self.is_if,
            is_endif: self.is_endif,
            is_push: self.is_push,
            pushed: match self.pushed {
                Some(d) => Some(d@),
                None => None,
            },
            small_num: self.small_num,
        }
    }
}

/// The views of a list of operations, in order.
pub open spec fn ops_view(ops: Seq<ScriptOp>) -> Seq<OpView> {
    Seq::new(ops.len(), |i: int| ops[i]@)
}

/// The longest script that is handed to the decoder. The decoder counts nested
/// `OP_IF`s in a 32-bit signed integer, one per byte at most.
pub const MAX_SCRIPT_LEN: usize = 0x7fff_ffff;

/// What the codec's script decoder makes of a script's raw bytes: the operations in
/// order, or `None` where the bytes do not decode.
pub uninterp spec fn decoded_ops(script: Seq<u8>) -> Option<Seq<OpView>>;

/// The operations of a script as the scanner sees them. A script longer than
/// [`MAX_SCRIPT_LEN`] counts as one that does not decode.
pub open spec fn script_ops(script: Seq<u8>) -> Option<Seq<OpView>> {
    if script.len() > MAX_SCRIPT_LEN {
        None
    } else {
        decoded_ops(script)
    }
}

/// Calls `Script::operations`, which decodes the raw bytes into operations and drops
/// what trails an `OP_RETURN`, and copies out of each operation the answers of
/// `Operation::eq_alias` against `OP_FALSE`, of `==` against `OP_IF` and `OP_ENDIF`, of
/// `is_data_push`, `data_pushed` and `small_num_pushed`. A decoding error gives `None`.
/// The result is taken to be a function of the bytes alone, named [`decoded_ops`];
/// nothing is claimed of its value.
#[verifier::external_body]
fn decode_ops(script: &Vec<u8>) -> (ops: Option<Vec<ScriptOp>>)
    requires
        script@.len() <= MAX_SCRIPT_LEN,
    ensures
        match ops {
            Some(v) => decoded_ops(script@) == Some(ops_view(v@)),
            None => decoded_ops(script@) is None,
        },
{
    let ops = Script::from(script.clone()).operations().ok()?;
    Some(ops.iter().map(|op| ScriptOp {
        is_false: op.eq_alias(&Operation::OP_FALSE),
        is_if: *op == Operation::OP_IF,
        is_endif: *op == Operation::OP_ENDIF,
        is_push: op.is_data_push(),
        pushed: op.data_pushed().map(|d| d.to_vec()),
        small_num: op.small_num_pushed(),
    }).collect())
}

/// Decodes a script into the operations that the scanner reads.
pub fn decode_script(script: &Vec<u8>) -> (ops: Option<Vec<ScriptOp>>)
    ensures
        match ops {
            Some(v) => script_ops(script@) == Some(ops_view(v@)),
            None => script_ops(script@) is None,
        },
{
    if script.len() > MAX_SCRIPT_LEN {
        None
    } else {
        decode_ops(script)
    }
}

} // verus!
