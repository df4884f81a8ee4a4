//! The validator's error taxonomy.
use vstd::prelude::*;

use crate::commit::Digest;

verus! {

/// Why a block, or a transaction offered to a block, was rejected.
///
/// A failed batch verification keeps only the rendering of the verifier's
/// error, so that every variant can be sent across processes; a clone of it
/// is `Failed`, the stand-in for an error that cannot be copied.
#[derive(Debug, PartialEq, Eq)]
pub enum ValidationError {
    NullifierAlreadyExists { nullifier: Digest },
    BadNullifierProof {},
    MissingNullifierProof {},
    ConflictingNullifiers {},
    Failed {},
    BadMerkleLength {},
    BadMerkleLeaf {},
    BadMerkleRoot {},
    BadMerklePath {},
    CryptoError { err: String },
    UnsupportedTransferSize { num_inputs: usize, num_outputs: usize },
    UnsupportedFreezeSize { num_inputs: usize },
}

/// What cloning an error gives: the verifier's error cannot be cloned, so a
/// `CryptoError` becomes `Failed`; every other error is kept as it is.
pub open spec fn cloned_error(e: ValidationError) -> ValidationError {
    match e {
        ValidationError::CryptoError { .. } => ValidationError::Failed {  },
        _ => e,
    }
}

impl Clone for ValidationError {
    fn clone(&self) -> (r: ValidationError)
        ensures
            r == cloned_error(*self),
    {
        match self {
            ValidationError::NullifierAlreadyExists { nullifier } => ValidationError::NullifierAlreadyExists { nullifier: *nullifier },
            ValidationError::BadNullifierProof {  } => ValidationError::BadNullifierProof {  },
            ValidationError::MissingNullifierProof {  } => ValidationError::MissingNullifierProof {  },
            ValidationError::ConflictingNullifiers {  } => ValidationError::ConflictingNullifiers {  },
            ValidationError::Failed {  } => ValidationError::Failed {  },
            ValidationError::BadMerkleLength {  } => ValidationError::BadMerkleLength {  },
            ValidationError::BadMerkleLeaf {  } => ValidationError::BadMerkleLeaf {  },
            ValidationError::BadMerkleRoot {  } => ValidationError::BadMerkleRoot {  },
            ValidationError::BadMerklePath {  } => ValidationError::BadMerklePath {  },
            ValidationError::CryptoError { .. } => ValidationError::Failed {  },
            ValidationError::UnsupportedTransferSize { num_inputs, num_outputs } => ValidationError::UnsupportedTransferSize { num_inputs: *num_inputs, num_outputs: *num_outputs },
            ValidationError::UnsupportedFreezeSize { num_inputs } => ValidationError::UnsupportedFreezeSize { num_inputs: *num_inputs },
        }
    }
}

} // verus!
