//! The validator: a composite state with a commitment, a read-only validation
//! of blocks, and an atomic apply step whose every failure precedes its first
//! change of state.
use vstd::prelude::*;

use crate::commit::keccak256;
use crate::error::ValidationError;
use crate::key_set::{verifier_keys_encoding, TransactionVerifyingKey, VerifierKeySet};
use crate::state::{
    frontier_encoding, history_encoding, opening_encoding, rmt_encoding, BlockCommitment,
    FrontierView, LedgerCommitmentOpening, LedgerStateCommitment, MerkleCommitment,
    RecordMerkleCommitment, RecordMerkleFrontier, RecordMerkleHistory, RECORD_ROOT_HISTORY_SIZE,
};
use crate::txn::{
    block_commitment, contains_digest, proof_vecs_view, proofs_view, Block, NodeValue, NoteKind, NoteView,
    Nullifier, RecordCommitment, SetMerkleProof,
};

verus! {

/// What checking one non-membership proof against the current nullifier-set
/// root reported: the nullifier is absent, it is present, or the proof is
/// malformed or does not match the root.
#[derive(Clone, Copy, Debug, PartialEq, Eq, Structural)]
pub enum NullifierCheck {
    Absent,
    Present,
    Malformed,
}

/// The record tree after restoring it from the state's commitment and
/// frontier and appending a block's output commitments in order.
#[derive(Debug)]
pub struct RecordTreeUpdate {
    pub commitment: MerkleCommitment,
    pub frontier: RecordMerkleFrontier,
}

/// The eight fields that a state commits to, as mathematical values.
pub struct StateView {
    pub prev_commit_time: u64,
    pub prev_state: Option<Seq<u8>>,
    /// The canonical bytes of the verifier key set.
    pub verif_crs: Seq<u8>,
    pub xfr_sizes: Seq<(usize, usize)>,
    pub freeze_sizes: Seq<(usize, usize)>,
    pub record_merkle_commitment: MerkleCommitment,
    pub record_merkle_frontier: FrontierView,
    pub past_record_merkle_roots: Seq<NodeValue>,
    pub nullifiers_root: NodeValue,
    pub prev_block: Seq<u8>,
}

/// The state commitment of a state.
pub open spec fn state_commitment(v: StateView) -> Seq<u8> {
    keccak256(
        opening_encoding(
            v.prev_commit_time,
            v.prev_state,
            keccak256(verifier_keys_encoding(v.verif_crs)),
            keccak256(rmt_encoding(v.record_merkle_commitment)),
            keccak256(frontier_encoding(v.record_merkle_frontier)),
            keccak256(history_encoding(v.past_record_merkle_roots)),
            v.nullifiers_root.bytes(),
            v.prev_block,
        ),
    )
}

/// The concatenation of a sequence of sequences.
pub open spec fn flat<A>(s: Seq<Seq<A>>) -> Seq<A>
    decreases s.len(),
{
    if s.len() == 0 {
        Seq::empty()
    } else {
        flat(s.drop_last()) + s.last()
    }
}

pub proof fn lemma_flat_push<A>(s: Seq<Seq<A>>, x: Seq<A>)
    ensures
        flat(s.push(x)) == flat(s) + x,
{
    assert(s.push(x).drop_last() =~= s);
}

/// Whether each note has exactly one proof per nullifier.
pub open spec fn shape_ok(txns: Seq<NoteView>, pfs: Seq<Seq<Seq<u8>>>) -> bool {
    pfs.len() == txns.len() && forall|t: int|
        0 <= t < txns.len() ==> (#[trigger] pfs[t]).len() == txns[t].nullifiers.len()
}

/// The check reported for the `k`-th nullifier of the `t`-th note; a check
/// that is missing counts as malformed.
pub open spec fn check_at(checks: Seq<Seq<NullifierCheck>>, t: int, k: int) -> NullifierCheck {
    if 0 <= t < checks.len() && 0 <= k < checks[t].len() {
        checks[t][k]
    } else {
        NullifierCheck::Malformed
    }
}

/// The nullifiers of the `t`-th note, each with its check.
pub open spec fn note_pairs(txns: Seq<NoteView>, checks: Seq<Seq<NullifierCheck>>, t: int) -> Seq<(Nullifier, NullifierCheck)> {
    Seq::new(txns[t].nullifiers.len(), |k: int| (txns[t].nullifiers[k], check_at(checks, t, k)))
}

/// Every nullifier of the block with its check, in block order.
pub open spec fn block_pairs(txns: Seq<NoteView>, checks: Seq<Seq<NullifierCheck>>) -> Seq<(Nullifier, NullifierCheck)> {
    flat(Seq::new(txns.len(), |t: int| note_pairs(txns, checks, t)))
}

pub open spec fn firsts(p: Seq<(Nullifier, NullifierCheck)>) -> Seq<Nullifier> {
    p.map_values(|x: (Nullifier, NullifierCheck)| x.0)
}

/// The first nullifier error from position `i` on: a nullifier seen earlier in
/// the block, or one whose proof is malformed, or one already in the set.
pub open spec fn scan_from(p: Seq<(Nullifier, NullifierCheck)>, i: int) -> Option<ValidationError>
    decreases p.len() - i,
{
    if i < 0 || i >= p.len() {
        None
    } else if firsts(p).subrange(0, i).contains(p[i].0) {
        Some(ValidationError::NullifierAlreadyExists { nullifier: p[i].0 })
    } else {
        match p[i].1 {
            NullifierCheck::Malformed => Some(ValidationError::BadNullifierProof {  }),
            NullifierCheck::Present => Some(ValidationError::NullifierAlreadyExists { nullifier: p[i].0 }),
            NullifierCheck::Absent => scan_from(p, i + 1),
        }
    }
}

/// The first error of a sequence, from position `i` on.
pub open spec fn first_error_from(errs: Seq<Option<ValidationError>>, i: int) -> Option<ValidationError>
    decreases errs.len() - i,
{
    if i < 0 || i >= errs.len() {
        None
    } else if errs[i] is Some {
        errs[i]
    } else {
        first_error_from(errs, i + 1)
    }
}

/// Why no verifying key fits a note, if none does.
pub open spec fn note_key_error(v: StateView, n: NoteView) -> Option<ValidationError> {
    let num_inputs = n.nullifiers.len() as usize;
    let num_outputs = n.outputs.len() as usize;
    match n.kind {
        NoteKind::Mint => None,
        NoteKind::Transfer => if v.xfr_sizes.contains((num_inputs, num_outputs)) {
            None
        } else {
            Some(ValidationError::UnsupportedTransferSize { num_inputs, num_outputs })
        },
        NoteKind::Freeze => if v.freeze_sizes.contains((num_inputs, num_outputs)) {
            None
        } else {
            Some(ValidationError::UnsupportedFreezeSize { num_inputs })
        },
    }
}

/// Whether a record-tree root is the current one or one of the remembered ones.
pub open spec fn root_known(v: StateView, root: NodeValue) -> bool {
    root == v.record_merkle_commitment.root_value || v.past_record_merkle_roots.contains(root)
}

pub open spec fn note_root_error(v: StateView, n: NoteView) -> Option<ValidationError> {
    if root_known(v, n.merkle_root) {
        None
    } else {
        Some(ValidationError::BadMerkleRoot {  })
    }
}

pub open spec fn key_errors(v: StateView, txns: Seq<NoteView>) -> Seq<Option<ValidationError>> {
    txns.map_values(|n: NoteView| note_key_error(v, n))
}

pub open spec fn root_errors(v: StateView, txns: Seq<NoteView>) -> Seq<Option<ValidationError>> {
    txns.map_values(|n: NoteView| note_root_error(v, n))
}

/// The outcome of validating a block: the first error in this order, or none.
/// 1. a note whose proofs do not match its nullifiers one for one;
/// 2. the first nullifier, in block order, seen earlier in the block, or whose
///    proof is malformed, or that is already in the set;
/// 3. the first note for whose size there is no verifying key;
/// 4. the first note made against a root that is neither current nor remembered;
/// 5. for a non-empty block, a failed batch verification.
pub open spec fn validation_result(
    v: StateView,
    txns: Seq<NoteView>,
    pfs: Seq<Seq<Seq<u8>>>,
    checks: Seq<Seq<NullifierCheck>>,
    verification: Result<(), String>,
) -> Option<ValidationError> {
    if !shape_ok(txns, pfs) {
        Some(ValidationError::MissingNullifierProof {  })
    } else if scan_from(block_pairs(txns, checks), 0) is Some {
        scan_from(block_pairs(txns, checks), 0)
    } else if first_error_from(key_errors(v, txns), 0) is Some {
        first_error_from(key_errors(v, txns), 0)
    } else if first_error_from(root_errors(v, txns), 0) is Some {
        first_error_from(root_errors(v, txns), 0)
    } else if txns.len() > 0 && verification is Err {
        Some(ValidationError::CryptoError { err: verification->Err_0 })
    } else {
        None
    }
}

/// The number of output commitments of a block.
pub open spec fn outputs_count(txns: Seq<NoteView>) -> nat
    decreases txns.len(),
{
    if txns.len() == 0 {
        0
    } else {
        outputs_count(txns.drop_last()) + txns.last().outputs.len()
    }
}

/// The outcome of applying a block: a validation error, or a failure of the
/// nullifier insert, of restoring the record tree, or a leaf count that does
/// not match the outputs appended.
pub open spec fn apply_error(
    v: StateView,
    txns: Seq<NoteView>,
    pfs: Seq<Seq<Seq<u8>>>,
    checks: Seq<Seq<NullifierCheck>>,
    verification: Result<(), String>,
    new_root: Option<NodeValue>,
    records: Option<MerkleCommitment>,
) -> Option<ValidationError> {
    if validation_result(v, txns, pfs, checks, verification) is Some {
        validation_result(v, txns, pfs, checks, verification)
    } else if new_root is None {
        Some(ValidationError::BadNullifierProof {  })
    } else if records is None {
        Some(ValidationError::BadMerklePath {  })
    } else if records->Some_0.num_leaves != v.record_merkle_commitment.num_leaves + outputs_count(txns) {
        Some(ValidationError::BadMerkleLength {  })
    } else {
        None
    }
}

/// The root history after a block: the root before it in front, the oldest
/// dropped when the queue is full.
pub open spec fn next_history(h: Seq<NodeValue>, root: NodeValue) -> Seq<NodeValue> {
    seq![root] + if h.len() >= RECORD_ROOT_HISTORY_SIZE {
        h.drop_last()
    } else {
        h
    }
}

/// The state after applying a block.
pub open spec fn applied_state(
    v: StateView,
    now: u64,
    txns: Seq<NoteView>,
    new_root: NodeValue,
    commitment: MerkleCommitment,
    frontier: FrontierView,
) -> StateView {
    StateView {
        prev_commit_time: now,
        prev_state: Some(state_commitment(v)),
        verif_crs: v.verif_crs,
        xfr_sizes: v.xfr_sizes,
        freeze_sizes: v.freeze_sizes,
        record_merkle_commitment: commitment,
        record_merkle_frontier: frontier,
        past_record_merkle_roots: next_history(
            v.past_record_merkle_roots,
            v.record_merkle_commitment.root_value,
        ),
        nullifiers_root: new_root,
        prev_block: block_commitment(txns),
    }
}

/// The positions assigned to a block's outputs: contiguous from the leaf count
/// before the block.
pub open spec fn new_uids(v: StateView, txns: Seq<NoteView>) -> Seq<u64> {
    Seq::new(outputs_count(txns), |i: int| (v.record_merkle_commitment.num_leaves + i) as u64)
}

/// The composite state of the validator.
#[derive(Debug)]
pub struct ValidatorState {
    pub prev_commit_time: u64,
    pub prev_state: Option<LedgerStateCommitment>,
    pub verif_crs: VerifierKeySet,
    pub record_merkle_commitment: MerkleCommitment,
    pub record_merkle_frontier: RecordMerkleFrontier,
    pub past_record_merkle_roots: RecordMerkleHistory,
    pub nullifiers_root: NodeValue,
    pub prev_block: BlockCommitment,
}

impl View for ValidatorState {
    type V = StateView;

    open spec fn view(&self) -> StateView {
        StateView {
            prev_commit_time: self.prev_commit_time,
            prev_state: crate::state::opt_bytes(self.prev_state),
            verif_crs: self.verif_crs.encoding(),
            xfr_sizes: self.verif_crs.xfr.sizes(),
            freeze_sizes: self.verif_crs.freeze.sizes(),
            record_merkle_commitment: self.record_merkle_commitment,
            record_merkle_frontier: self.record_merkle_frontier.0@,
            past_record_merkle_roots: self.past_record_merkle_roots.0@,
            nullifiers_root: self.nullifiers_root,
            prev_block: self.prev_block.0.bytes(),
        }
    }
}

impl ValidatorState {
    pub open spec fn wf(&self) -> bool {
        &&& self.verif_crs.wf()
        &&& self.past_record_merkle_roots.0@.len() <= RECORD_ROOT_HISTORY_SIZE
    }

    /// The genesis state: time zero, no previous state, no remembered roots,
    /// the record tree given by its commitment and frontier, the root of the
    /// empty nullifier set, and the commitment of the empty block.
    pub fn new(
        verif_crs: VerifierKeySet,
        record_merkle_commitment: MerkleCommitment,
        record_merkle_frontier: RecordMerkleFrontier,
        empty_nullifiers_root: NodeValue,
    ) -> (r: ValidatorState)
        requires
            verif_crs.wf(),
        ensures
            r.wf(),
            r@.prev_commit_time == 0,
            r@.prev_state is None,
            r.verif_crs == verif_crs,
            r@.record_merkle_commitment == record_merkle_commitment,
            r@.record_merkle_frontier == record_merkle_frontier.0@,
            r@.past_record_merkle_roots == Seq::<NodeValue>::empty(),
            r@.nullifiers_root == empty_nullifiers_root,
            r@.prev_block == block_commitment(Seq::empty()),
    {
        let empty = Block::empty();
        ValidatorState {
            prev_commit_time: 0,
            prev_state: None,
            verif_crs,
            record_merkle_commitment,
            record_merkle_frontier,
            past_record_merkle_roots: RecordMerkleHistory(std::collections::VecDeque::new()),
            nullifiers_root: empty_nullifiers_root,
            prev_block: BlockCommitment(empty.commit()),
        }
    }

    /// The state commitment: a digest of the eight fields, labelled, in order.
    pub fn commit(&self) -> (r: LedgerStateCommitment)
        ensures
            r.0.bytes() == state_commitment(self@),
    {
        let opening = LedgerCommitmentOpening {
            prev_commit_time: self.prev_commit_time,
            prev_state: self.prev_state,
            verif_crs: self.verif_crs.commit(),
            record_merkle_commitment: RecordMerkleCommitment(self.record_merkle_commitment).commit(),
            record_merkle_frontier: self.record_merkle_frontier.commit(),
            past_record_merkle_roots: self.past_record_merkle_roots.commit(),
            nullifiers: self.nullifiers_root,
            prev_block: self.prev_block.0,
        };
        opening.commit()
    }
}

impl Clone for ValidatorState {
    fn clone(&self) -> (r: ValidatorState)
        ensures
            r@ == self@,
            self.wf() ==> r.wf(),
    {
        ValidatorState {
            prev_commit_time: self.prev_commit_time,
            prev_state: self.prev_state,
            verif_crs: self.verif_crs.clone_keys(),
            record_merkle_commitment: self.record_merkle_commitment,
            record_merkle_frontier: self.record_merkle_frontier.clone(),
            past_record_merkle_roots: self.past_record_merkle_roots.clone(),
            nullifiers_root: self.nullifiers_root,
            prev_block: self.prev_block,
        }
    }
}

/// The checks of each note, as sequences.
pub open spec fn checks_view(c: Seq<Vec<NullifierCheck>>) -> Seq<Seq<NullifierCheck>> {
    c.map_values(|v: Vec<NullifierCheck>| v@)
}

/// Whether `k` is a verifying key that fits the note `n` under the key set `crs`.
pub open spec fn key_fits(crs: &VerifierKeySet, n: NoteView, k: TransactionVerifyingKey) -> bool {
    let size = (n.nullifiers.len() as usize, n.outputs.len() as usize);
    match n.kind {
        NoteKind::Mint => k == crs.mint,
        NoteKind::Transfer => exists|i: int|
            0 <= i < crs.xfr.keys().len() && crs.xfr.keys()[i] == k && #[trigger] crs.xfr.sizes()[i] == size,
        NoteKind::Freeze => exists|i: int|
            0 <= i < crs.freeze.keys().len() && crs.freeze.keys()[i] == k && #[trigger] crs.freeze.sizes()[i] == size,
    }
}

/// Whether each note has exactly one proof per nullifier.
pub fn shape_matches(txns: &Block, pfs: &Vec<Vec<SetMerkleProof>>) -> (r: bool)
    ensures
        r == shape_ok(txns@, proof_vecs_view(pfs@)),
{
    if pfs.len() != txns.0.len() {
        return false;
    }
    let mut t: usize = 0;
    while t < pfs.len()
        invariant
            0 <= t <= pfs@.len(),
            pfs@.len() == txns@.len(),
            forall|j: int| 0 <= j < t ==> (#[trigger] proof_vecs_view(pfs@)[j]).len() == txns@[j].nullifiers.len(),
        decreases pfs@.len() - t,
    {
        if pfs[t].len() != txns.0[t].nullifiers.len() {
            assert(proof_vecs_view(pfs@)[t as int].len() != txns@[t as int].nullifiers.len());
            return false;
        }
        t = t + 1;
    }
    true
}

/// Every nullifier of the block with its check, in block order.
pub fn collect_pairs(txns: &Block, checks: &Vec<Vec<NullifierCheck>>) -> (r: Vec<(Nullifier, NullifierCheck)>)
    ensures
        r@ == block_pairs(txns@, checks_view(checks@)),
{
    let ghost cv = checks_view(checks@);
    let ghost all = Seq::new(txns@.len(), |t: int| note_pairs(txns@, cv, t));
    let mut r: Vec<(Nullifier, NullifierCheck)> = Vec::new();
    let mut t: usize = 0;
    while t < txns.0.len()
        invariant
            0 <= t <= txns@.len(),
            cv == checks_view(checks@),
            all == Seq::new(txns@.len(), |t: int| note_pairs(txns@, cv, t)),
            r@ == flat(all.subrange(0, t as int)),
        decreases txns@.len() - t,
    {
        let ns = &txns.0[t].nullifiers;
        let ghost start = r@;
        let mut k: usize = 0;
        while k < ns.len()
            invariant
                0 <= k <= ns@.len(),
                0 <= t < txns@.len(),
                ns@ == txns@[t as int].nullifiers,
                cv == checks_view(checks@),
                r@ == start + note_pairs(txns@, cv, t as int).subrange(0, k as int),
            decreases ns@.len() - k,
        {
            let c = if t < checks.len() && k < checks[t].len() {
                checks[t][k]
            } else {
                NullifierCheck::Malformed
            };
            r.push((ns[k], c));
            assert(note_pairs(txns@, cv, t as int).subrange(0, k + 1) =~= note_pairs(txns@, cv, t as int).subrange(0, k as int).push((ns@[k as int], c)));
            k = k + 1;
        }
        proof {
            assert(note_pairs(txns@, cv, t as int).subrange(0, ns@.len() as int) =~= note_pairs(txns@, cv, t as int));
            lemma_flat_push(all.subrange(0, t as int), all[t as int]);
            assert(all.subrange(0, t + 1) =~= all.subrange(0, t as int).push(all[t as int]));
        }
        t = t + 1;
    }
    assert(all.subrange(0, txns@.len() as int) =~= all);
    r
}

/// The first nullifier error of a block's pairs, if any.
pub fn scan_pairs(p: &Vec<(Nullifier, NullifierCheck)>) -> (r: Option<ValidationError>)
    ensures
        r == scan_from(p@, 0),
{
    let mut seen: Vec<Nullifier> = Vec::new();
    let mut i: usize = 0;
    while i < p.len()
        invariant
            0 <= i <= p@.len(),
            seen@ == firsts(p@).subrange(0, i as int),
            scan_from(p@, 0) == scan_from(p@, i as int),
        decreases p@.len() - i,
    {
        let (n, c) = p[i];
        if contains_digest(seen.as_slice(), &n) {
            return Some(ValidationError::NullifierAlreadyExists { nullifier: n });
        }
        match c {
            NullifierCheck::Malformed => {
                return Some(ValidationError::BadNullifierProof {  });
            },
            NullifierCheck::Present => {
                return Some(ValidationError::NullifierAlreadyExists { nullifier: n });
            },
            NullifierCheck::Absent => {},
        }
        seen.push(n);
        assert(firsts(p@).subrange(0, i + 1) =~= firsts(p@).subrange(0, i as int).push(n));
        i = i + 1;
    }
    None
}

impl ValidatorState {
    /// The verifying key for each note of the block, in order: the mint key,
    /// or the transfer or freeze key of exactly the note's arity. Fails with
    /// the first note for which there is none.
    pub fn verifying_keys(&self, txns: &Block) -> (r: Result<Vec<&TransactionVerifyingKey>, ValidationError>)
        requires
            self.wf(),
        ensures
            r.is_err() == (first_error_from(key_errors(self@, txns@), 0) is Some),
            r.is_err() ==> r == Err::<Vec<&TransactionVerifyingKey>, ValidationError>(first_error_from(key_errors(self@, txns@), 0)->Some_0),
            r.is_ok() ==> r.unwrap()@.len() == txns@.len(),
            r.is_ok() ==> forall|t: int| 0 <= t < txns@.len() ==> key_fits(&self.verif_crs, txns@[t], *#[trigger] r.unwrap()@[t]),
    {
        let ghost errs = key_errors(self@, txns@);
        let mut keys: Vec<&TransactionVerifyingKey> = Vec::new();
        let mut t: usize = 0;
        while t < txns.0.len()
            invariant
                0 <= t <= txns@.len(),
                self.wf(),
                errs == key_errors(self@, txns@),
                first_error_from(errs, 0) == first_error_from(errs, t as int),
                forall|j: int| 0 <= j < t ==> errs[j] is None,
                keys@.len() == t,
                forall|j: int| 0 <= j < t ==> key_fits(&self.verif_crs, txns@[j], *#[trigger] keys@[j]),
            decreases txns@.len() - t,
        {
            let note = &txns.0[t];
            let num_inputs = note.nullifiers.len();
            let num_outputs = note.output_commitments.len();
            assert(errs[t as int] == note_key_error(self@, txns@[t as int]));
            match note.kind {
                NoteKind::Mint => {
                    keys.push(&self.verif_crs.mint);
                },
                NoteKind::Transfer => {
                    match self.verif_crs.xfr.key_for_size(num_inputs, num_outputs) {
                        Some(k) => {
                            keys.push(k);
                        },
                        None => {
                            return Err(ValidationError::UnsupportedTransferSize { num_inputs, num_outputs });
                        },
                    }
                },
                NoteKind::Freeze => {
                    match self.verif_crs.freeze.key_for_size(num_inputs, num_outputs) {
                        Some(k) => {
                            keys.push(k);
                        },
                        None => {
                            return Err(ValidationError::UnsupportedFreezeSize { num_inputs });
                        },
                    }
                },
            }
            t = t + 1;
        }
        Ok(keys)
    }

    /// The record-tree root of each note of the block, in order, when each is
    /// the current root or a remembered one; otherwise `BadMerkleRoot`.
    pub fn merkle_roots(&self, txns: &Block) -> (r: Result<Vec<NodeValue>, ValidationError>)
        ensures
            r.is_err() == (first_error_from(root_errors(self@, txns@), 0) is Some),
            r.is_err() ==> r == Err::<Vec<NodeValue>, ValidationError>(ValidationError::BadMerkleRoot {  }),
            r.is_err() ==> first_error_from(root_errors(self@, txns@), 0) == Some(ValidationError::BadMerkleRoot {  }),
            r.is_ok() ==> r.unwrap()@ == txns@.map_values(|n: NoteView| n.merkle_root),
    {
        let ghost errs = root_errors(self@, txns@);
        let mut roots: Vec<NodeValue> = Vec::new();
        let mut t: usize = 0;
        while t < txns.0.len()
            invariant
                0 <= t <= txns@.len(),
                errs == root_errors(self@, txns@),
                first_error_from(errs, 0) == first_error_from(errs, t as int),
                forall|j: int| 0 <= j < t ==> errs[j] is None,
                roots@ == txns@.subrange(0, t as int).map_values(|n: NoteView| n.merkle_root),
            decreases txns@.len() - t,
        {
            let root = txns.0[t].merkle_root;
            assert(errs[t as int] == note_root_error(self@, txns@[t as int]));
            if !(root.same_as(&self.record_merkle_commitment.root_value) || self.past_record_merkle_roots.contains(&root)) {
                return Err(ValidationError::BadMerkleRoot {  });
            }
            roots.push(root);
            assert(txns@.subrange(0, t + 1).map_values(|n: NoteView| n.merkle_root) =~= txns@.subrange(0, t as int).map_values(|n: NoteView| n.merkle_root).push(root));
            t = t + 1;
        }
        assert(txns@.subrange(0, txns@.len() as int) =~= txns@);
        Ok(roots)
    }

    /// Validates a block against this state without changing it. `checks`
    /// holds, for each proof, what checking it against the current nullifier
    /// root reported; `verification` is the outcome of batch-verifying the
    /// notes with the keys and roots that `verifying_keys` and `merkle_roots`
    /// select, at time `now`. Returns the first error in the order of
    /// `validation_result`, or the block and proofs unchanged.
    pub fn validate_block_check(
        &self,
        now: u64,
        txns: Block,
        null_pfs: Vec<Vec<SetMerkleProof>>,
        checks: &Vec<Vec<NullifierCheck>>,
        verification: Result<(), String>,
    ) -> (r: Result<(Block, Vec<Vec<SetMerkleProof>>), ValidationError>)
        requires
            self.wf(),
        ensures
            validation_result(self@, txns@, proof_vecs_view(null_pfs@), checks_view(checks@), verification) is Some ==> r == Err::<(Block, Vec<Vec<SetMerkleProof>>), ValidationError>(validation_result(self@, txns@, proof_vecs_view(null_pfs@), checks_view(checks@), verification)->Some_0),
            validation_result(self@, txns@, proof_vecs_view(null_pfs@), checks_view(checks@), verification) is None ==> r == Ok::<(Block, Vec<Vec<SetMerkleProof>>), ValidationError>((txns, null_pfs)),
    {
        if !shape_matches(&txns, &null_pfs) {
            return Err(ValidationError::MissingNullifierProof {  });
        }
        let pairs = collect_pairs(&txns, checks);
        match scan_pairs(&pairs) {
            Some(e) => {
                return Err(e);
            },
            None => {},
        }
        match self.verifying_keys(&txns) {
            Err(e) => {
                return Err(e);
            },
            Ok(_) => {},
        }
        match self.merkle_roots(&txns) {
            Err(e) => {
                return Err(e);
            },
            Ok(_) => {},
        }
        if txns.0.len() > 0 {
            match verification {
                Err(err) => {
                    return Err(ValidationError::CryptoError { err });
                },
                Ok(()) => {},
            }
        }
        Ok((txns, null_pfs))
    }
}

/// The commitment of a record-tree update, if there is one.
pub open spec fn update_commitment(u: Option<RecordTreeUpdate>) -> Option<MerkleCommitment> {
    match u {
        Some(x) => Some(x.commitment),
        None => None,
    }
}

/// A prefix of a block has no more outputs than the block.
pub proof fn lemma_outputs_count_prefix(s: Seq<NoteView>, t: int)
    requires
        0 <= t <= s.len(),
    ensures
        outputs_count(s.subrange(0, t)) <= outputs_count(s),
    decreases s.len() - t,
{
    if t == s.len() {
        assert(s.subrange(0, t) =~= s);
    } else {
        lemma_outputs_count_prefix(s, t + 1);
        assert(s.subrange(0, t + 1).drop_last() =~= s.subrange(0, t));
    }
}

/// The number of output commitments of a block, when it fits in a `u64`.
pub fn count_outputs(txns: &Block) -> (r: Option<u64>)
    ensures
        r is Some <==> outputs_count(txns@) <= u64::MAX,
        r is Some ==> r->Some_0 == outputs_count(txns@),
{
    let mut total: u64 = 0;
    let mut t: usize = 0;
    while t < txns.0.len()
        invariant
            0 <= t <= txns@.len(),
            total == outputs_count(txns@.subrange(0, t as int)),
        decreases txns@.len() - t,
    {
        assert(txns@.subrange(0, t + 1).drop_last() =~= txns@.subrange(0, t as int));
        match total.checked_add(txns.0[t].output_commitments.len() as u64) {
            Some(x) => {
                total = x;
            },
            None => {
                proof {
                    lemma_outputs_count_prefix(txns@, t + 1);
                }
                return None;
            },
        }
        t = t + 1;
    }
    assert(txns@.subrange(0, txns@.len() as int) =~= txns@);
    Some(total)
}

impl ValidatorState {
    /// Validates a block and applies it. Besides the inputs of
    /// `validate_block_check`, it takes the nullifier-set root after inserting
    /// every (nullifier, proof) pair of the block (`None` if the insert failed)
    /// and the record tree after appending every output commitment in block
    /// order (`None` if the tree could not be restored from this state).
    ///
    /// Every error leaves the state as it was. On success the state moves to
    /// `applied_state`, and the positions of the new outputs are returned: one
    /// per output, contiguous from the leaf count before the block.
    pub fn validate_and_apply(
        &mut self,
        now: u64,
        txns: Block,
        null_pfs: Vec<Vec<SetMerkleProof>>,
        checks: &Vec<Vec<NullifierCheck>>,
        verification: Result<(), String>,
        new_nullifiers_root: Option<NodeValue>,
        new_records: Option<RecordTreeUpdate>,
    ) -> (r: Result<Vec<u64>, ValidationError>)
        requires
            old(self).wf(),
        ensures
            final(self).wf(),
            apply_error(old(self)@, txns@, proof_vecs_view(null_pfs@), checks_view(checks@), verification, new_nullifiers_root, update_commitment(new_records)) is Some ==> r == Err::<Vec<u64>, ValidationError>(apply_error(old(self)@, txns@, proof_vecs_view(null_pfs@), checks_view(checks@), verification, new_nullifiers_root, update_commitment(new_records))->Some_0),
            apply_error(old(self)@, txns@, proof_vecs_view(null_pfs@), checks_view(checks@), verification, new_nullifiers_root, update_commitment(new_records)) is Some ==> *final(self) == *old(self),
            apply_error(old(self)@, txns@, proof_vecs_view(null_pfs@), checks_view(checks@), verification, new_nullifiers_root, update_commitment(new_records)) is None ==> r.is_ok() && r.unwrap()@ == new_uids(old(self)@, txns@),
            apply_error(old(self)@, txns@, proof_vecs_view(null_pfs@), checks_view(checks@), verification, new_nullifiers_root, update_commitment(new_records)) is None ==> final(self)@ == applied_state(old(self)@, now, txns@, new_nullifiers_root->Some_0, new_records->Some_0.commitment, new_records->Some_0.frontier.0@),
    {
        let ghost v = self@;
        let (txns, _null_pfs) = match self.validate_block_check(now, txns, null_pfs, checks, verification) {
            Ok(x) => x,
            Err(e) => {
                return Err(e);
            },
        };
        let new_root = match new_nullifiers_root {
            Some(x) => x,
            None => {
                return Err(ValidationError::BadNullifierProof {  });
            },
        };
        let update = match new_records {
            Some(u) => u,
            None => {
                return Err(ValidationError::BadMerklePath {  });
            },
        };
        let first_uid = self.record_merkle_commitment.num_leaves;
        let total = match count_outputs(&txns) {
            Some(t) => t,
            None => {
                return Err(ValidationError::BadMerkleLength {  });
            },
        };
        match first_uid.checked_add(total) {
            Some(expected) => {
                if expected != update.commitment.num_leaves {
                    return Err(ValidationError::BadMerkleLength {  });
                }
            },
            None => {
                return Err(ValidationError::BadMerkleLength {  });
            },
        }
        // No failure past this point: the state changes only from here on.
        let comm = self.commit();
        let block_comm = txns.commit();
        let mut uids: Vec<u64> = Vec::new();
        let mut i: u64 = 0;
        while i < total
            invariant
                0 <= i <= total,
                first_uid + total <= u64::MAX,
                uids@ == Seq::new(i as nat, |j: int| (first_uid + j) as u64),
            decreases total - i,
        {
            uids.push(first_uid + i);
            assert(Seq::new((i + 1) as nat, |j: int| (first_uid + j) as u64) =~= Seq::new(i as nat, |j: int| (first_uid + j) as u64).push((first_uid + i) as u64));
            i = i + 1;
        }
        let ghost old_history = self.past_record_merkle_roots.0@;
        self.prev_commit_time = now;
        self.prev_block = BlockCommitment(block_comm);
        self.nullifiers_root = new_root;
        if self.past_record_merkle_roots.0.len() >= RECORD_ROOT_HISTORY_SIZE {
            self.past_record_merkle_roots.0.pop_back();
        }
        let old_root = self.record_merkle_commitment.root_value;
        self.past_record_merkle_roots.0.push_front(old_root);
        self.record_merkle_commitment = update.commitment;
        self.record_merkle_frontier = update.frontier;
        self.prev_state = Some(comm);
        assert(self.past_record_merkle_roots.0@ =~= next_history(old_history, old_root));
        assert(uids@ =~= new_uids(v, txns@));
        Ok(uids)
    }

    /// The skeleton of a block proposal: no notes and no proofs.
    pub fn next_block(&self) -> (r: crate::txn::ElaboratedBlock)
        ensures
            r.block@ == Seq::<NoteView>::empty(),
            r.proofs@ == Seq::<Vec<SetMerkleProof>>::empty(),
    {
        crate::txn::ElaboratedBlock::empty()
    }

    /// Whether `block` validates at the next logical time, one past the last
    /// block's; `checks` and `verification` are as for `validate_block_check`.
    pub fn validate_block(
        &self,
        block: &crate::txn::ElaboratedBlock,
        checks: &Vec<Vec<NullifierCheck>>,
        verification: Result<(), String>,
    ) -> (r: bool)
        requires
            self.wf(),
            self.prev_commit_time < u64::MAX,
        ensures
            r == (validation_result(self@, block.block@, proof_vecs_view(block.proofs@), checks_view(checks@), verification) is None),
    {
        let res = self.validate_block_check(
            self.prev_commit_time + 1,
            block.block.clone(),
            crate::txn::copy_proof_vecs(&block.proofs),
            checks,
            verification,
        );
        res.is_ok()
    }

    /// A copy of this state with `block` applied at the next logical time, one
    /// past the last block's; the other arguments are as for
    /// `validate_and_apply`.
    pub fn append(
        &self,
        block: &crate::txn::ElaboratedBlock,
        checks: &Vec<Vec<NullifierCheck>>,
        verification: Result<(), String>,
        new_nullifiers_root: Option<NodeValue>,
        new_records: Option<RecordTreeUpdate>,
    ) -> (r: Result<ValidatorState, ValidationError>)
        requires
            self.wf(),
            self.prev_commit_time < u64::MAX,
        ensures
            apply_error(self@, block.block@, proof_vecs_view(block.proofs@), checks_view(checks@), verification, new_nullifiers_root, update_commitment(new_records)) is Some ==> r == Err::<ValidatorState, ValidationError>(apply_error(self@, block.block@, proof_vecs_view(block.proofs@), checks_view(checks@), verification, new_nullifiers_root, update_commitment(new_records))->Some_0),
            apply_error(self@, block.block@, proof_vecs_view(block.proofs@), checks_view(checks@), verification, new_nullifiers_root, update_commitment(new_records)) is None ==> r.is_ok() && r.unwrap().wf() && r.unwrap()@ == applied_state(self@, (self.prev_commit_time + 1) as u64, block.block@, new_nullifiers_root->Some_0, new_records->Some_0.commitment, new_records->Some_0.frontier.0@),
    {
        let mut state = self.clone();
        let now = state.prev_commit_time + 1;
        match state.validate_and_apply(
            now,
            block.block.clone(),
            crate::txn::copy_proof_vecs(&block.proofs),
            checks,
            verification,
            new_nullifiers_root,
            new_records,
        ) {
            Ok(_) => Ok(state),
            Err(e) => Err(e),
        }
    }

    /// Called by consensus once a block is committed; there is nothing to do.
    pub fn on_commit(&self) {
    }
}

/// The element at position `k` of the `t`-th part stands in the concatenation
/// after all the elements of the earlier parts.
pub proof fn lemma_flat_index<A>(s: Seq<Seq<A>>, t: int, k: int)
    requires
        0 <= t < s.len(),
        0 <= k < s[t].len(),
    ensures
        flat(s.subrange(0, t)).len() + k < flat(s).len(),
        flat(s)[flat(s.subrange(0, t)).len() + k] == s[t][k],
    decreases s.len(),
{
    assert(s.drop_last() =~= s.subrange(0, s.len() - 1));
    if t == s.len() - 1 {
    } else {
        lemma_flat_index(s.drop_last(), t, k);
        assert(s.drop_last().subrange(0, t) =~= s.subrange(0, t));
    }
}

/// The elements of a part stand before those of every later part.
pub proof fn lemma_flat_prefix_grows<A>(s: Seq<Seq<A>>, t1: int, t2: int)
    requires
        0 <= t1 < t2 <= s.len(),
    ensures
        flat(s.subrange(0, t1)).len() + s[t1].len() <= flat(s.subrange(0, t2)).len(),
    decreases t2 - t1,
{
    assert(s.subrange(0, t2).drop_last() =~= s.subrange(0, t2 - 1));
    if t2 - 1 > t1 {
        lemma_flat_prefix_grows(s, t1, t2 - 1);
    }
}

/// A nullifier seen earlier, with no malformed proof before it, ends the scan
/// with `NullifierAlreadyExists`.
pub proof fn lemma_scan_finds_repeat(p: Seq<(Nullifier, NullifierCheck)>, i: int, q: int)
    requires
        0 <= i <= q < p.len(),
        firsts(p).subrange(0, q).contains(p[q].0),
        forall|m: int| i <= m <= q ==> (#[trigger] p[m]).1 != NullifierCheck::Malformed,
    ensures
        scan_from(p, i) matches Some(ValidationError::NullifierAlreadyExists { .. }),
    decreases q - i,
{
    if !firsts(p).subrange(0, i).contains(p[i].0) && p[i].1 == NullifierCheck::Absent {
        if i == q {
        } else {
            lemma_scan_finds_repeat(p, i + 1, q);
        }
    }
}

/// Double spends are rejected: when two notes of a well-shaped block share a
/// nullifier and no proof check is malformed, validation fails with
/// `NullifierAlreadyExists`.
pub proof fn lemma_double_spend_rejected(
    v: StateView,
    txns: Seq<NoteView>,
    pfs: Seq<Seq<Seq<u8>>>,
    checks: Seq<Seq<NullifierCheck>>,
    verification: Result<(), String>,
    i: int,
    j: int,
    a: int,
    b: int,
)
    requires
        shape_ok(txns, pfs),
        0 <= i < j < txns.len(),
        0 <= a < txns[i].nullifiers.len(),
        0 <= b < txns[j].nullifiers.len(),
        txns[i].nullifiers[a] == txns[j].nullifiers[b],
        forall|m: int|
            0 <= m < block_pairs(txns, checks).len() ==> (#[trigger] block_pairs(txns, checks)[m]).1
                != NullifierCheck::Malformed,
    ensures
        validation_result(v, txns, pfs, checks, verification) matches Some(
            ValidationError::NullifierAlreadyExists { .. },
        ),
{
    let all = Seq::new(txns.len(), |t: int| note_pairs(txns, checks, t));
    let p = block_pairs(txns, checks);
    let pi = flat(all.subrange(0, i)).len() + a;
    let pj = flat(all.subrange(0, j)).len() + b;
    lemma_flat_index(all, i, a);
    lemma_flat_index(all, j, b);
    lemma_flat_prefix_grows(all, i, j);
    assert(p[pi].0 == txns[i].nullifiers[a]);
    assert(p[pj].0 == txns[j].nullifiers[b]);
    assert(pi < pj);
    assert(firsts(p).subrange(0, pj)[pi] == p[pi].0);
    lemma_scan_finds_repeat(p, 0, pj);
}

/// The state commitment depends on the eight committed fields alone: two
/// states that agree on them have the same commitment, however else they differ.
pub proof fn lemma_commitment_of_fields(a: StateView, b: StateView)
    requires
        a.prev_commit_time == b.prev_commit_time,
        a.prev_state == b.prev_state,
        a.verif_crs == b.verif_crs,
        a.record_merkle_commitment == b.record_merkle_commitment,
        a.record_merkle_frontier == b.record_merkle_frontier,
        a.past_record_merkle_roots == b.past_record_merkle_roots,
        a.nullifiers_root == b.nullifiers_root,
        a.prev_block == b.prev_block,
    ensures
        state_commitment(a) == state_commitment(b),
{
}

/// The positions returned by a successful apply are strictly increasing and
/// contiguous, starting at the leaf count before the block and ending just
/// below the leaf count after it.
pub proof fn lemma_uids_contiguous(
    v: StateView,
    txns: Seq<NoteView>,
    pfs: Seq<Seq<Seq<u8>>>,
    checks: Seq<Seq<NullifierCheck>>,
    verification: Result<(), String>,
    new_root: Option<NodeValue>,
    records: Option<MerkleCommitment>,
)
    requires
        apply_error(v, txns, pfs, checks, verification, new_root, records) is None,
    ensures
        new_uids(v, txns).len() == outputs_count(txns),
        records->Some_0.num_leaves == v.record_merkle_commitment.num_leaves + new_uids(v, txns).len(),
        forall|k: int|
            0 <= k < new_uids(v, txns).len() ==> #[trigger] new_uids(v, txns)[k]
                == v.record_merkle_commitment.num_leaves + k,
        forall|k: int, l: int|
            0 <= k < l < new_uids(v, txns).len() ==> #[trigger] new_uids(v, txns)[k]
                < #[trigger] new_uids(v, txns)[l],
{
}

/// The root history never holds more than its capacity.
pub proof fn lemma_history_bounded(h: Seq<NodeValue>, root: NodeValue)
    requires
        h.len() <= RECORD_ROOT_HISTORY_SIZE,
    ensures
        next_history(h, root).len() <= RECORD_ROOT_HISTORY_SIZE,
{
}

/// Applying is deterministic: two states with the same view, given the same
/// block and outcomes, fail alike or reach states with the same commitment.
pub proof fn lemma_apply_deterministic(
    a: &ValidatorState,
    b: &ValidatorState,
    now: u64,
    txns: Seq<NoteView>,
    pfs: Seq<Seq<Seq<u8>>>,
    checks: Seq<Seq<NullifierCheck>>,
    verification: Result<(), String>,
    new_root: Option<NodeValue>,
    commitment: MerkleCommitment,
    frontier: FrontierView,
)
    requires
        a@ == b@,
    ensures
        apply_error(a@, txns, pfs, checks, verification, new_root, Some(commitment)) == apply_error(
            b@,
            txns,
            pfs,
            checks,
            verification,
            new_root,
            Some(commitment),
        ),
        state_commitment(applied_state(a@, now, txns, new_root->Some_0, commitment, frontier))
            == state_commitment(applied_state(b@, now, txns, new_root->Some_0, commitment, frontier)),
{
}

/// After an apply, the roots that stay eligible are exactly the new root, the
/// root before the block, and the nine most recent remembered roots; the
/// oldest of a full history is dropped.
pub proof fn lemma_recent_roots_known(
    v: StateView,
    now: u64,
    txns: Seq<NoteView>,
    new_root: NodeValue,
    commitment: MerkleCommitment,
    frontier: FrontierView,
    x: NodeValue,
)
    requires
        v.past_record_merkle_roots.len() <= RECORD_ROOT_HISTORY_SIZE,
    ensures
        root_known(applied_state(v, now, txns, new_root, commitment, frontier), x) <==> (x
            == commitment.root_value || x == v.record_merkle_commitment.root_value || exists|k: int|
            0 <= k < v.past_record_merkle_roots.len() && k < RECORD_ROOT_HISTORY_SIZE - 1
                && #[trigger] v.past_record_merkle_roots[k] == x),
{
    let h = v.past_record_merkle_roots;
    let post = applied_state(v, now, txns, new_root, commitment, frontier);
    let nh = post.past_record_merkle_roots;
    if nh.contains(x) {
        let k = choose|k: int| 0 <= k < nh.len() && nh[k] == x;
        if k > 0 {
            assert(h[k - 1] == x);
        }
    }
    if exists|k: int| 0 <= k < h.len() && k < RECORD_ROOT_HISTORY_SIZE - 1 && #[trigger] h[k] == x {
        let k = choose|k: int| 0 <= k < h.len() && k < RECORD_ROOT_HISTORY_SIZE - 1 && #[trigger] h[k] == x;
        assert(nh[k + 1] == x);
    }
    if x == v.record_merkle_commitment.root_value {
        assert(nh[0] == x);
    }
}

/// Two states are equal when their commitments are.
impl PartialEq for ValidatorState {
    fn eq(&self, other: &ValidatorState) -> (r: bool) {
        let a = self.commit();
        let b = other.commit();
        proof {
            if a.0.bytes() == b.0.bytes() {
                assert forall|i: int| 0 <= i < 32 implies a.0.0[i] == b.0.0[i] by {
                    assert(a.0.0@[i] == b.0.0@[i]);
                }
                assert(a.0.0 =~= b.0.0);
            }
        }
        a.0.same_as(&b.0)
    }
}

impl vstd::std_specs::cmp::PartialEqSpecImpl for ValidatorState {
    open spec fn obeys_eq_spec() -> bool {
        true
    }

    open spec fn eq_spec(&self, other: &ValidatorState) -> bool {
        state_commitment(self@) == state_commitment(other@)
    }
}

/// Every (nullifier, proof) pair of the block, in block order.
pub open spec fn nullifier_proof_seq(txns: Seq<NoteView>, pfs: Seq<Seq<Seq<u8>>>) -> Seq<(Nullifier, Seq<u8>)> {
    flat(Seq::new(txns.len(), |t: int| Seq::new(
        if t < pfs.len() && pfs[t].len() < txns[t].nullifiers.len() { pfs[t].len() } else { txns[t].nullifiers.len() },
        |k: int| (txns[t].nullifiers[k], pfs[t][k]),
    )))
}

/// Every output commitment of the block, in block order and, within a note,
/// in output order.
pub open spec fn block_output_seq(txns: Seq<NoteView>) -> Seq<RecordCommitment> {
    flat(txns.map_values(|n: NoteView| n.outputs))
}

/// The (nullifier, proof) pairs that go to the nullifier-set insert: each
/// nullifier of each note with its proof, in block order. Well-shaped blocks
/// have a proof for every nullifier; a note with fewer proofs contributes only
/// the nullifiers that have one.
pub fn nullifier_proof_pairs(txns: &Block, pfs: &Vec<Vec<SetMerkleProof>>) -> (r: Vec<(Nullifier, SetMerkleProof)>)
    requires
        pfs@.len() == txns@.len(),
    ensures
        r@.map_values(|x: (Nullifier, SetMerkleProof)| (x.0, x.1@)) == nullifier_proof_seq(txns@, proof_vecs_view(pfs@)),
{
    let ghost pv = proof_vecs_view(pfs@);
    let ghost all = Seq::new(txns@.len(), |t: int| Seq::new(
        if t < pv.len() && pv[t].len() < txns@[t].nullifiers.len() { pv[t].len() } else { txns@[t].nullifiers.len() },
        |k: int| (txns@[t].nullifiers[k], pv[t][k]),
    ));
    let mut r: Vec<(Nullifier, SetMerkleProof)> = Vec::new();
    let mut t: usize = 0;
    while t < txns.0.len()
        invariant
            0 <= t <= txns@.len(),
            pfs@.len() == txns@.len(),
            pv == proof_vecs_view(pfs@),
            all == Seq::new(txns@.len(), |t: int| Seq::new(
                if t < pv.len() && pv[t].len() < txns@[t].nullifiers.len() { pv[t].len() } else { txns@[t].nullifiers.len() },
                |k: int| (txns@[t].nullifiers[k], pv[t][k]),
            )),
            r@.map_values(|x: (Nullifier, SetMerkleProof)| (x.0, x.1@)) == flat(all.subrange(0, t as int)),
        decreases txns@.len() - t,
    {
        let ns = &txns.0[t].nullifiers;
        let ps = &pfs[t];
        let n: usize = if ps.len() < ns.len() { ps.len() } else { ns.len() };
        let ghost start = r@.map_values(|x: (Nullifier, SetMerkleProof)| (x.0, x.1@));
        let mut k: usize = 0;
        while k < n
            invariant
                0 <= k <= n,
                0 <= t < txns@.len(),
                n == all[t as int].len(),
                pfs@.len() == txns@.len(),
                n <= ns@.len(),
                n <= ps@.len(),
                ns@ == txns@[t as int].nullifiers,
                ps@ == pfs@[t as int]@,
                pv == proof_vecs_view(pfs@),
                all == Seq::new(txns@.len(), |t: int| Seq::new(
                    if t < pv.len() && pv[t].len() < txns@[t].nullifiers.len() { pv[t].len() } else { txns@[t].nullifiers.len() },
                    |k: int| (txns@[t].nullifiers[k], pv[t][k]),
                )),
                r@.map_values(|x: (Nullifier, SetMerkleProof)| (x.0, x.1@)) == start + all[t as int].subrange(0, k as int),
            decreases n - k,
        {
            let ghost before = r@;
            r.push((ns[k], ps[k].clone()));
            proof {
                assert(pv[t as int] == proofs_view(pfs@[t as int]@));
                assert(proofs_view(ps@)[k as int] == ps@[k as int]@);
                assert(pv[t as int][k as int] == ps@[k as int]@);
                assert(r@.map_values(|x: (Nullifier, SetMerkleProof)| (x.0, x.1@)) =~= before.map_values(|x: (Nullifier, SetMerkleProof)| (x.0, x.1@)).push((ns@[k as int], ps@[k as int]@)));
                assert(all[t as int].subrange(0, k + 1) =~= all[t as int].subrange(0, k as int).push(all[t as int][k as int]));
            }
            k = k + 1;
        }
        proof {
            assert(all[t as int].subrange(0, n as int) =~= all[t as int]);
            lemma_flat_push(all.subrange(0, t as int), all[t as int]);
            assert(all.subrange(0, t + 1) =~= all.subrange(0, t as int).push(all[t as int]));
        }
        t = t + 1;
    }
    assert(all.subrange(0, txns@.len() as int) =~= all);
    r
}

/// The output commitments of the block, in the order they are appended to the
/// record tree.
pub fn block_outputs(txns: &Block) -> (r: Vec<RecordCommitment>)
    ensures
        r@ == block_output_seq(txns@),
{
    let ghost all = txns@.map_values(|n: NoteView| n.outputs);
    let mut r: Vec<RecordCommitment> = Vec::new();
    let mut t: usize = 0;
    while t < txns.0.len()
        invariant
            0 <= t <= txns@.len(),
            all == txns@.map_values(|n: NoteView| n.outputs),
            r@ == flat(all.subrange(0, t as int)),
        decreases txns@.len() - t,
    {
        let os = &txns.0[t].output_commitments;
        let ghost start = r@;
        let mut k: usize = 0;
        while k < os.len()
            invariant
                0 <= k <= os@.len(),
                0 <= t < txns@.len(),
                os@ == all[t as int],
                r@ == start + os@.subrange(0, k as int),
            decreases os@.len() - k,
        {
            r.push(os[k]);
            assert(os@.subrange(0, k + 1) =~= os@.subrange(0, k as int).push(os@[k as int]));
            k = k + 1;
        }
        proof {
            assert(os@.subrange(0, os@.len() as int) =~= os@);
            lemma_flat_push(all.subrange(0, t as int), all[t as int]);
            assert(all.subrange(0, t + 1) =~= all.subrange(0, t as int).push(all[t as int]));
        }
        t = t + 1;
    }
    assert(all.subrange(0, txns@.len() as int) =~= all);
    r
}

/// The position of the `k`-th nullifier of the `t`-th note among a block's pairs.
pub open spec fn pair_index(txns: Seq<NoteView>, checks: Seq<Seq<NullifierCheck>>, t: int, k: int) -> int {
    flat(Seq::new(txns.len(), |u: int| note_pairs(txns, checks, u)).subrange(0, t)).len() + k
}

/// When the first repeated nullifier is at position `q` and every check
/// before it reports an absent nullifier, the scan reports that nullifier.
pub proof fn lemma_scan_first_repeat(p: Seq<(Nullifier, NullifierCheck)>, i: int, q: int)
    requires
        0 <= i <= q < p.len(),
        firsts(p).subrange(0, q).contains(p[q].0),
        forall|m: int| i <= m < q ==> !firsts(p).subrange(0, m).contains(#[trigger] p[m].0),
        forall|m: int| i <= m < q ==> (#[trigger] p[m]).1 == NullifierCheck::Absent,
    ensures
        scan_from(p, i) == Some(ValidationError::NullifierAlreadyExists { nullifier: p[q].0 }),
    decreases q - i,
{
    if i < q {
        assert(p[i].1 == NullifierCheck::Absent);
        assert(!firsts(p).subrange(0, i).contains(p[i].0));
        lemma_scan_first_repeat(p, i + 1, q);
    }
}

/// A double spend is reported by its nullifier: when two notes of a
/// well-shaped block share nullifier `n`, every proof check reports an absent
/// nullifier, and the second use of `n` is the first repeat in block order,
/// both validation and apply fail with `NullifierAlreadyExists { n }`.
pub proof fn lemma_double_spend_names_nullifier(
    v: StateView,
    txns: Seq<NoteView>,
    pfs: Seq<Seq<Seq<u8>>>,
    checks: Seq<Seq<NullifierCheck>>,
    verification: Result<(), String>,
    new_root: Option<NodeValue>,
    records: Option<MerkleCommitment>,
    i: int,
    j: int,
    a: int,
    b: int,
)
    requires
        shape_ok(txns, pfs),
        0 <= i < j < txns.len(),
        0 <= a < txns[i].nullifiers.len(),
        0 <= b < txns[j].nullifiers.len(),
        txns[i].nullifiers[a] == txns[j].nullifiers[b],
        forall|m: int|
            0 <= m < block_pairs(txns, checks).len() ==> (#[trigger] block_pairs(txns, checks)[m]).1
                == NullifierCheck::Absent,
        forall|m: int|
            0 <= m < pair_index(txns, checks, j, b) ==> !firsts(block_pairs(txns, checks)).subrange(
                0,
                m,
            ).contains(#[trigger] block_pairs(txns, checks)[m].0),
    ensures
        validation_result(v, txns, pfs, checks, verification) == Some(
            ValidationError::NullifierAlreadyExists { nullifier: txns[j].nullifiers[b] },
        ),
        apply_error(v, txns, pfs, checks, verification, new_root, records) == Some(
            ValidationError::NullifierAlreadyExists { nullifier: txns[j].nullifiers[b] },
        ),
{
    let all = Seq::new(txns.len(), |t: int| note_pairs(txns, checks, t));
    let p = block_pairs(txns, checks);
    let pi = flat(all.subrange(0, i)).len() + a;
    let pj = flat(all.subrange(0, j)).len() + b;
    lemma_flat_index(all, i, a);
    lemma_flat_index(all, j, b);
    lemma_flat_prefix_grows(all, i, j);
    assert(p[pi].0 == txns[i].nullifiers[a]);
    assert(p[pj].0 == txns[j].nullifiers[b]);
    assert(firsts(p).subrange(0, pj)[pi] == p[pi].0);
    lemma_scan_first_repeat(p, 0, pj);
}

/// The first error of a sequence is the first one that is present.
pub proof fn lemma_first_error_at(errs: Seq<Option<ValidationError>>, i: int, t: int)
    requires
        0 <= i <= t < errs.len(),
        errs[t] is Some,
        forall|u: int| i <= u < t ==> (#[trigger] errs[u]) is None,
    ensures
        first_error_from(errs, i) == errs[t],
    decreases t - i,
{
    if i < t {
        lemma_first_error_at(errs, i + 1, t);
    }
}

/// A transfer with no key of its size is rejected with its size: when the
/// block is well shaped, no nullifier is in error, and every earlier note has
/// a key, validation and apply fail with `UnsupportedTransferSize`.
pub proof fn lemma_unsupported_transfer(
    v: StateView,
    txns: Seq<NoteView>,
    pfs: Seq<Seq<Seq<u8>>>,
    checks: Seq<Seq<NullifierCheck>>,
    verification: Result<(), String>,
    new_root: Option<NodeValue>,
    records: Option<MerkleCommitment>,
    t: int,
)
    requires
        shape_ok(txns, pfs),
        scan_from(block_pairs(txns, checks), 0) is None,
        0 <= t < txns.len(),
        forall|u: int| 0 <= u < t ==> note_key_error(v, #[trigger] txns[u]) is None,
        txns[t].kind == NoteKind::Transfer,
        !v.xfr_sizes.contains((txns[t].nullifiers.len() as usize, txns[t].outputs.len() as usize)),
    ensures
        validation_result(v, txns, pfs, checks, verification) == Some(
            ValidationError::UnsupportedTransferSize {
                num_inputs: txns[t].nullifiers.len() as usize,
                num_outputs: txns[t].outputs.len() as usize,
            },
        ),
        apply_error(v, txns, pfs, checks, verification, new_root, records) == validation_result(
            v,
            txns,
            pfs,
            checks,
            verification,
        ),
{
    let errs = key_errors(v, txns);
    assert forall|u: int| 0 <= u < t implies (#[trigger] errs[u]) is None by {
        assert(errs[u] == note_key_error(v, txns[u]));
    }
    lemma_first_error_at(errs, 0, t);
}

/// Whether the `i`-th state of a sequence follows from the one before by an
/// apply, as far as the root history goes.
pub open spec fn history_step(vs: Seq<StateView>, i: int) -> bool {
    vs[i + 1].past_record_merkle_roots == next_history(
        vs[i].past_record_merkle_roots,
        vs[i].record_merkle_commitment.root_value,
    )
}

/// Each apply moves the root history by one step.
pub proof fn lemma_apply_is_history_step(
    v: StateView,
    now: u64,
    txns: Seq<NoteView>,
    new_root: NodeValue,
    commitment: MerkleCommitment,
    frontier: FrontierView,
)
    ensures
        history_step(seq![v, applied_state(v, now, txns, new_root, commitment, frontier)], 0),
{
}

proof fn lemma_history_window(vs: Seq<StateView>, i: int)
    requires
        0 <= i < vs.len(),
        vs[0].past_record_merkle_roots.len() <= RECORD_ROOT_HISTORY_SIZE,
        forall|u: int| 0 <= u < vs.len() - 1 ==> #[trigger] history_step(vs, u),
    ensures
        vs[i].past_record_merkle_roots.len() == if vs[0].past_record_merkle_roots.len() + i
            < RECORD_ROOT_HISTORY_SIZE {
            vs[0].past_record_merkle_roots.len() + i
        } else {
            RECORD_ROOT_HISTORY_SIZE as int
        },
        forall|m: int|
            0 <= m < i && m < RECORD_ROOT_HISTORY_SIZE ==> #[trigger] vs[i].past_record_merkle_roots[m]
                == vs[i - 1 - m].record_merkle_commitment.root_value,
        forall|m: int|
            i <= m < vs[i].past_record_merkle_roots.len() ==> #[trigger] vs[i].past_record_merkle_roots[m]
                == vs[0].past_record_merkle_roots[m - i],
    decreases i,
{
    if i > 0 {
        lemma_history_window(vs, i - 1);
        assert(history_step(vs, i - 1));
        let old = vs[i - 1].past_record_merkle_roots;
        let new = vs[i].past_record_merkle_roots;
        assert forall|m: int| 0 <= m < i && m < RECORD_ROOT_HISTORY_SIZE implies #[trigger] new[m]
            == vs[i - 1 - m].record_merkle_commitment.root_value by {
            if m > 0 {
                assert(new[m] == old[m - 1]);
            }
        }
        assert forall|m: int| i <= m < new.len() implies #[trigger] new[m]
            == vs[0].past_record_merkle_roots[m - i] by {
            assert(new[m] == old[m - 1]);
        }
    }
}

/// The root window over a chain of applies: from the last state of a chain,
/// the roots of the last eleven states (the current one and ten before it) are
/// known, and once the chain is ten applies long, no other root is; so a root
/// of an older state, unequal to those, is unknown.
pub proof fn lemma_root_window(vs: Seq<StateView>, x: NodeValue)
    requires
        vs.len() > 0,
        vs[0].past_record_merkle_roots.len() <= RECORD_ROOT_HISTORY_SIZE,
        forall|u: int| 0 <= u < vs.len() - 1 ==> #[trigger] history_step(vs, u),
    ensures
        forall|j: int|
            0 <= j < vs.len() && vs.len() - 1 - j <= RECORD_ROOT_HISTORY_SIZE ==> root_known(
                vs.last(),
                #[trigger] vs[j].record_merkle_commitment.root_value,
            ),
        vs.len() - 1 >= RECORD_ROOT_HISTORY_SIZE ==> (root_known(vs.last(), x) <==> exists|j: int|
            vs.len() - 1 - RECORD_ROOT_HISTORY_SIZE <= j < vs.len() && #[trigger] vs[j].record_merkle_commitment.root_value == x),
{
    let k = vs.len() - 1;
    lemma_history_window(vs, k);
    let h = vs[k].past_record_merkle_roots;
    assert forall|j: int|
        0 <= j < vs.len() && vs.len() - 1 - j <= RECORD_ROOT_HISTORY_SIZE implies root_known(
        vs.last(),
        #[trigger] vs[j].record_merkle_commitment.root_value,
    ) by {
        if j < k {
            let m = k - 1 - j;
            assert(h[m] == vs[j].record_merkle_commitment.root_value);
            assert(h.contains(h[m]));
        }
    }
    if k >= RECORD_ROOT_HISTORY_SIZE {
        if root_known(vs.last(), x) {
            if x != vs[k].record_merkle_commitment.root_value {
                let m = choose|m: int| 0 <= m < h.len() && h[m] == x;
                assert(vs[k - 1 - m].record_merkle_commitment.root_value == x);
            }
        }
    }
}

/// For a block of one note that passes the nullifier and key checks, the root
/// check decides: an unknown root fails with `BadMerkleRoot`, and a known root
/// with a successful batch verification validates.
pub proof fn lemma_single_note_root(
    v: StateView,
    n: NoteView,
    pfs: Seq<Seq<Seq<u8>>>,
    checks: Seq<Seq<NullifierCheck>>,
    verification: Result<(), String>,
)
    requires
        shape_ok(seq![n], pfs),
        scan_from(block_pairs(seq![n], checks), 0) is None,
        note_key_error(v, n) is None,
    ensures
        !root_known(v, n.merkle_root) ==> validation_result(v, seq![n], pfs, checks, verification)
            == Some(ValidationError::BadMerkleRoot {  }),
        root_known(v, n.merkle_root) && verification is Ok ==> validation_result(
            v,
            seq![n],
            pfs,
            checks,
            verification,
        ) is None,
{
    let ke = key_errors(v, seq![n]);
    let re = root_errors(v, seq![n]);
    assert(ke[0] == note_key_error(v, n));
    assert(re[0] == note_root_error(v, n));
    assert(first_error_from(ke, 1) is None);
    assert(first_error_from(re, 1) is None);
}

} // verus!
