//! The validator state machine of a UTXO-style confidential-asset ledger:
//! canonical encodings, labelled commitments, key sets, block assembly and the
//! validate-then-apply protocol, each stated and proved with Verus.
pub mod commit;
pub mod error;
pub mod key_set;
pub mod state;
pub mod txn;
pub mod validator;

pub use commit::{Commitment, CommitmentBuilder, Digest};
pub use error::ValidationError;
pub use key_set::{
    KeyOrder, KeySet, OrderByInputs, OrderByOutputs, ProverKeySet, ProvingKey, SizedKey,
    TransactionVerifyingKey, VerifierKeySet,
};
pub use state::{
    BlockCommitment, LedgerCommitmentOpening, LedgerStateCommitment, MerkleCommitment,
    MerkleFrontier, RecordMerkleCommitment, RecordMerkleFrontier, RecordMerkleHistory,
    MERKLE_HEIGHT, RECORD_ROOT_HISTORY_SIZE,
};
pub use txn::{
    Block, ElaboratedBlock, ElaboratedTransaction, ElaboratedTransactionHash, NodeValue, NoteKind, Nullifier,
    RecordCommitment, SetMerkleProof, TransactionNote,
};
pub use validator::{NullifierCheck, RecordTreeUpdate, ValidatorState};
