//! Detection of single-satoshi ordinal inscriptions in the locking scripts of
//! transaction outputs.
pub mod chain;
pub mod envelope;
pub mod inscribe;
pub mod onesat;
pub mod result;
pub mod script;
pub mod transfer;

pub use chain::{Outpoint, TxHash, TxOutput};
pub use inscribe::OrdinalInscription;
pub use onesat::Ordinal;
pub use result::{OrdinalError, OrdinalResult};
pub use script::ScriptOp;
pub use transfer::OrdinalTransfer;
