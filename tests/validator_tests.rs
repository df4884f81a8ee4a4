use zerok_validator::commit::Digest;
use zerok_validator::key_set::Error as KeySetError;
use zerok_validator::txn::serialize_proof_vecs;
use zerok_validator::validator::{block_outputs, nullifier_proof_pairs};
use zerok_validator::{
    Block, ElaboratedBlock, ElaboratedTransaction, KeySet, MerkleCommitment, MerkleFrontier,
    NoteKind, NullifierCheck, OrderByInputs, OrderByOutputs, RecordMerkleFrontier,
    RecordTreeUpdate, SetMerkleProof, TransactionNote, TransactionVerifyingKey, ValidationError,
    ValidatorState, VerifierKeySet, MERKLE_HEIGHT, RECORD_ROOT_HISTORY_SIZE,
};

fn d(b: u8) -> Digest {
    Digest([b; 32])
}

fn xfr_key(i: usize, o: usize) -> TransactionVerifyingKey {
    TransactionVerifyingKey::Transfer { num_inputs: i, num_outputs: o, bytes: vec![i as u8, o as u8] }
}

fn freeze_key(i: usize, o: usize) -> TransactionVerifyingKey {
    TransactionVerifyingKey::Freeze { num_inputs: i, num_outputs: o, bytes: vec![9, i as u8, o as u8] }
}

fn crs_with(xfr: Vec<(usize, usize)>) -> VerifierKeySet {
    VerifierKeySet {
        mint: TransactionVerifyingKey::Mint { bytes: vec![1, 2, 3] },
        xfr: KeySet::new(xfr.into_iter().map(|(i, o)| xfr_key(i, o)).collect()).unwrap(),
        freeze: KeySet::new(vec![freeze_key(2, 2)]).unwrap(),
    }
}

fn empty_root() -> Digest {
    d(0)
}

fn genesis_with(xfr: Vec<(usize, usize)>) -> ValidatorState {
    ValidatorState::new(
        crs_with(xfr),
        MerkleCommitment { height: MERKLE_HEIGHT, num_leaves: 0, root_value: empty_root() },
        RecordMerkleFrontier(MerkleFrontier::Empty { height: MERKLE_HEIGHT }),
        d(0xee),
    )
}

fn genesis() -> ValidatorState {
    genesis_with(vec![(2, 2), (3, 3)])
}

fn note(kind: NoteKind, nulls: Vec<Digest>, outs: Vec<Digest>, root: Digest) -> TransactionNote {
    TransactionNote { kind, nullifiers: nulls, output_commitments: outs, merkle_root: root, body: vec![42] }
}

fn proofs_for(n: &TransactionNote) -> Vec<SetMerkleProof> {
    n.nullifiers.iter().map(|x| SetMerkleProof(x.0.to_vec())).collect()
}

fn absent_checks(block: &Block) -> Vec<Vec<NullifierCheck>> {
    block.0.iter().map(|n| vec![NullifierCheck::Absent; n.nullifiers.len()]).collect()
}

fn update(leaves: u64, root: Digest) -> Option<RecordTreeUpdate> {
    Some(RecordTreeUpdate {
        commitment: MerkleCommitment { height: MERKLE_HEIGHT, num_leaves: leaves, root_value: root },
        frontier: RecordMerkleFrontier(MerkleFrontier::Proof { leaf: root, path: vec![vec![leaves as u8]] }),
    })
}

/// Applies a block of notes whose checks all report absent nullifiers.
fn apply(
    s: &mut ValidatorState,
    notes: Vec<TransactionNote>,
    new_root: Digest,
    leaves: u64,
) -> Result<Vec<u64>, ValidationError> {
    let pfs: Vec<Vec<SetMerkleProof>> = notes.iter().map(proofs_for).collect();
    let block = Block(notes);
    let checks = absent_checks(&block);
    let now = s.prev_commit_time + 1;
    s.validate_and_apply(now, block, pfs, &checks, Ok(()), Some(d(0xaa)), update(leaves, new_root))
}

fn keccak(bytes: &[u8]) -> [u8; 32] {
    <sha3::Keccak256 as sha3::Digest>::digest(bytes).into()
}

#[test]
fn empty_block_commitment_is_keccak_of_its_layout() {
    let mut bytes = b"Block Comm".to_vec();
    bytes.extend_from_slice(b"txns");
    bytes.extend_from_slice(&0u64.to_le_bytes());
    assert_eq!(Block(vec![]).commit().0, keccak(&bytes));
    assert_ne!(Block(vec![]).commit().0, [0u8; 32]);
}

#[test]
fn block_commitment_follows_note_order() {
    let a = note(NoteKind::Mint, vec![d(1)], vec![d(2), d(3)], d(0));
    let b = note(NoteKind::Mint, vec![d(4)], vec![d(5), d(6)], d(0));
    let ab = Block(vec![a.clone(), b.clone()]).commit();
    let ba = Block(vec![b.clone(), a.clone()]).commit();
    assert_ne!(ab, ba);
    let mut bytes = b"Block Comm".to_vec();
    bytes.extend_from_slice(b"txns");
    bytes.extend_from_slice(&2u64.to_le_bytes());
    bytes.extend_from_slice(&a.commit().0);
    bytes.extend_from_slice(&b.commit().0);
    assert_eq!(ab.0, keccak(&bytes));
}

#[test]
fn proof_vectors_encode_canonically() {
    let pss = vec![vec![SetMerkleProof(vec![7, 8])], vec![]];
    let mut want = 2u64.to_le_bytes().to_vec();
    want.extend_from_slice(&1u64.to_le_bytes());
    want.extend_from_slice(&2u64.to_le_bytes());
    want.extend_from_slice(&[7, 8]);
    want.extend_from_slice(&0u64.to_le_bytes());
    assert_eq!(serialize_proof_vecs(&pss), want);
}

#[test]
fn elaborated_block_commitment_covers_proofs() {
    let t = note(NoteKind::Mint, vec![d(1)], vec![d(2), d(3)], d(0));
    let e1 = ElaboratedBlock { block: Block(vec![t.clone()]), proofs: vec![vec![SetMerkleProof(vec![1])]] };
    let e2 = ElaboratedBlock { block: Block(vec![t.clone()]), proofs: vec![vec![SetMerkleProof(vec![2])]] };
    assert_ne!(e1.commit(), e2.commit());
    assert_ne!(e1.commit(), e1.block.commit());
}

#[test]
fn key_set_new_rejects_empty() {
    let r = KeySet::<TransactionVerifyingKey, OrderByInputs>::new(vec![]);
    assert_eq!(r.err(), Some(KeySetError::NoKeys));
}

#[test]
fn key_set_new_reports_first_duplicate() {
    let r = KeySet::<TransactionVerifyingKey, OrderByInputs>::new(vec![
        xfr_key(1, 2),
        xfr_key(3, 3),
        xfr_key(3, 3),
        xfr_key(1, 2),
    ]);
    assert_eq!(r.err(), Some(KeySetError::DuplicateKeys { num_inputs: 3, num_outputs: 3 }));
}

#[test]
fn key_set_holds_keys_in_sort_order() {
    let ks = KeySet::<TransactionVerifyingKey, OrderByInputs>::new(vec![xfr_key(3, 1), xfr_key(1, 5), xfr_key(2, 2)]).unwrap();
    let sizes: Vec<(usize, usize)> = ks.iter().iter().map(|k| match k {
        TransactionVerifyingKey::Transfer { num_inputs, num_outputs, .. } => (*num_inputs, *num_outputs),
        _ => (0, 0),
    }).collect();
    assert_eq!(sizes, vec![(1, 5), (2, 2), (3, 1)]);
    assert_eq!(ks.max_size(), (3, 1));
    let by_out = KeySet::<TransactionVerifyingKey, OrderByOutputs>::new(vec![xfr_key(3, 1), xfr_key(1, 5), xfr_key(2, 2)]).unwrap();
    assert_eq!(by_out.max_size(), (1, 5));
}

#[test]
fn key_for_size_is_exact() {
    let ks = KeySet::<TransactionVerifyingKey, OrderByInputs>::new(vec![xfr_key(2, 2), xfr_key(3, 3)]).unwrap();
    assert_eq!(ks.key_for_size(3, 3), Some(&xfr_key(3, 3)));
    assert_eq!(ks.key_for_size(2, 3), None);
    assert_eq!(ks.exact_fit_key(2, 2), Some(&xfr_key(2, 2)));
}

#[test]
fn best_fit_key_by_inputs() {
    let ks = KeySet::<TransactionVerifyingKey, OrderByInputs>::new(vec![xfr_key(3, 3), xfr_key(1, 5), xfr_key(2, 2)]).unwrap();
    assert_eq!(ks.best_fit_key(2, 3), Ok((3, 3, &xfr_key(3, 3))));
    assert_eq!(ks.best_fit_key(1, 1), Ok((1, 5, &xfr_key(1, 5))));
    assert_eq!(ks.best_fit_key(2, 2), Ok((2, 2, &xfr_key(2, 2))));
    assert_eq!(ks.best_fit_key(4, 0), Err(ks.max_size()));
    assert_eq!(ks.best_fit_key(3, 4), Err((3, 3)));
}

#[test]
fn best_fit_key_by_outputs() {
    let ks = KeySet::<TransactionVerifyingKey, OrderByOutputs>::new(vec![xfr_key(3, 3), xfr_key(1, 5), xfr_key(2, 2)]).unwrap();
    assert_eq!(ks.best_fit_key(0, 4), Ok((1, 5, &xfr_key(1, 5))));
    assert_eq!(ks.best_fit_key(4, 2), Ok((3, 3, &xfr_key(3, 3))));
    assert_eq!(ks.best_fit_key(2, 6), Err(ks.max_size()));
    assert_eq!(ks.max_size(), (1, 5));
}

#[test]
fn add_transaction_round_trip() {
    let t = note(NoteKind::Transfer, vec![d(1), d(2)], vec![d(3), d(4)], d(0));
    let et = ElaboratedTransaction { txn: t.clone(), proofs: proofs_for(&t) };
    let b = ElaboratedBlock::empty().add_transaction_raw(&et).unwrap();
    assert_eq!(b.block.commit(), Block(vec![t.clone()]).commit());
    assert_eq!(b.proofs, vec![proofs_for(&t)]);
}

#[test]
fn add_transaction_rejects_conflicts() {
    let t1 = note(NoteKind::Transfer, vec![d(1), d(2)], vec![d(3)], d(0));
    let t2 = note(NoteKind::Transfer, vec![d(5), d(2)], vec![d(6)], d(0));
    let b = ElaboratedBlock::empty()
        .add_transaction_raw(&ElaboratedTransaction { txn: t1.clone(), proofs: proofs_for(&t1) })
        .unwrap();
    let r = b.add_transaction_raw(&ElaboratedTransaction { txn: t2.clone(), proofs: proofs_for(&t2) });
    assert_eq!(r.err(), Some(ValidationError::ConflictingNullifiers {}));
    let t3 = note(NoteKind::Transfer, vec![d(7), d(7)], vec![d(6)], d(0));
    let r = ElaboratedBlock::empty().add_transaction_raw(&ElaboratedTransaction { txn: t3.clone(), proofs: proofs_for(&t3) });
    assert_eq!(r.err(), Some(ValidationError::ConflictingNullifiers {}));
}

#[test]
fn genesis_commit_stability() {
    let s = genesis();
    let c = s.commit();
    assert_eq!(c, genesis().commit());
    assert_eq!(s.prev_commit_time, 0);
    assert_eq!(s.prev_state, None);
    assert_eq!(s.past_record_merkle_roots.0.len(), 0);
    assert_eq!(s.prev_block.0, Block(vec![]).commit());
    assert_eq!(hex::encode(c.0 .0), "5f39c5e687212805d765af2825bfd6f9784dfd18e52853cad346974622d44000");
}

#[test]
fn single_mint_apply() {
    let mut s = genesis();
    let genesis_commit = s.commit();
    let mint = note(NoteKind::Mint, vec![d(1)], vec![d(2), d(3)], empty_root());
    let block_commit = Block(vec![mint.clone()]).commit();
    let uids = apply(&mut s, vec![mint], d(0x11), 2).unwrap();
    assert_eq!(uids, vec![0, 1]);
    assert_eq!(s.record_merkle_commitment.num_leaves, 2);
    assert_eq!(s.past_record_merkle_roots.0.iter().copied().collect::<Vec<_>>(), vec![empty_root()]);
    assert_eq!(s.prev_block.0, block_commit);
    assert_eq!(s.prev_state, Some(genesis_commit));
    assert_eq!(s.prev_commit_time, 1);
    assert_eq!(s.nullifiers_root, d(0xaa));
}

#[test]
fn double_spend_in_same_block() {
    let mut s = genesis();
    let before = s.commit();
    let n = d(9);
    let t1 = note(NoteKind::Transfer, vec![d(1), n], vec![d(3), d(4)], empty_root());
    let t2 = note(NoteKind::Transfer, vec![n, d(5)], vec![d(6), d(7)], empty_root());
    let r = apply(&mut s, vec![t1, t2], d(0x11), 4);
    assert_eq!(r, Err(ValidationError::NullifierAlreadyExists { nullifier: n }));
    assert_eq!(s.commit(), before);
}

#[test]
fn size_mismatched_transfer() {
    let mut s = genesis_with(vec![(2, 2), (3, 3)]);
    let before = s.commit();
    let t = note(NoteKind::Transfer, vec![d(1), d(2), d(3), d(4)], vec![d(5), d(6), d(7), d(8)], empty_root());
    let r = apply(&mut s, vec![t], d(0x11), 4);
    assert_eq!(r, Err(ValidationError::UnsupportedTransferSize { num_inputs: 4, num_outputs: 4 }));
    assert_eq!(s.commit(), before);
}

#[test]
fn unsupported_freeze_size() {
    let mut s = genesis();
    let t = note(NoteKind::Freeze, vec![d(1), d(2), d(3)], vec![d(5), d(6), d(7)], empty_root());
    assert_eq!(apply(&mut s, vec![t], d(0x11), 3), Err(ValidationError::UnsupportedFreezeSize { num_inputs: 3 }));
}

#[test]
fn stale_root_window() {
    let mut s = genesis();
    let mut roots = vec![empty_root()];
    for k in 1..=11u8 {
        let current = *roots.last().unwrap();
        let mint = note(NoteKind::Mint, vec![d(100 + k)], vec![d(k), d(k)], current);
        let leaves = 2 * k as u64;
        apply(&mut s, vec![mint], d(k), leaves).unwrap();
        roots.push(d(k));
    }
    assert_eq!(s.past_record_merkle_roots.0.len(), RECORD_ROOT_HISTORY_SIZE);
    let stale = note(NoteKind::Mint, vec![d(200)], vec![d(1), d(2)], roots[0]);
    let block = Block(vec![stale.clone()]);
    let checks = absent_checks(&block);
    let r = s.validate_block_check(12, block, vec![proofs_for(&stale)], &checks, Ok(()));
    assert_eq!(r.err(), Some(ValidationError::BadMerkleRoot {}));
    for root in &roots[1..] {
        let fresh = note(NoteKind::Mint, vec![d(201)], vec![d(1), d(2)], *root);
        let block = Block(vec![fresh.clone()]);
        let checks = absent_checks(&block);
        let r = s.validate_block_check(12, block, vec![proofs_for(&fresh)], &checks, Ok(()));
        assert!(r.is_ok());
    }
}

#[test]
fn replay_equivalence() {
    let mut s = genesis();
    let mut other = s.clone();
    let mint = note(NoteKind::Mint, vec![d(1)], vec![d(2), d(3)], empty_root());
    let a = apply(&mut s, vec![mint.clone()], d(0x11), 2).unwrap();
    let b = apply(&mut other, vec![mint], d(0x11), 2).unwrap();
    assert_eq!(a, b);
    assert_eq!(s.commit(), other.commit());
}

#[test]
fn uids_are_contiguous_from_leaf_count() {
    let mut s = genesis();
    apply(&mut s, vec![note(NoteKind::Mint, vec![d(1)], vec![d(2), d(3)], empty_root())], d(0x11), 2).unwrap();
    let t1 = note(NoteKind::Transfer, vec![d(4), d(5)], vec![d(6), d(7)], d(0x11));
    let t2 = note(NoteKind::Transfer, vec![d(8), d(9), d(10)], vec![d(11), d(12), d(13)], empty_root());
    let uids = apply(&mut s, vec![t1, t2], d(0x12), 7).unwrap();
    assert_eq!(uids, vec![2, 3, 4, 5, 6]);
    assert_eq!(s.record_merkle_commitment.num_leaves, 7);
}

#[test]
fn history_never_exceeds_capacity() {
    let mut s = genesis();
    let mut root = empty_root();
    for k in 1..=13u8 {
        let mint = note(NoteKind::Mint, vec![d(100 + k)], vec![d(k), d(k)], root);
        apply(&mut s, vec![mint], d(k), 2 * k as u64).unwrap();
        root = d(k);
        assert!(s.past_record_merkle_roots.0.len() <= RECORD_ROOT_HISTORY_SIZE);
    }
    assert_eq!(s.past_record_merkle_roots.0[0], d(12));
    assert_eq!(s.past_record_merkle_roots.0[9], d(3));
}

#[test]
fn failures_leave_state_unchanged() {
    let mut s = genesis();
    let before = s.commit();
    let mint = note(NoteKind::Mint, vec![d(1)], vec![d(2), d(3)], empty_root());
    let block = Block(vec![mint.clone()]);
    let checks = absent_checks(&block);
    let r = s.validate_and_apply(1, Block(vec![mint.clone()]), vec![proofs_for(&mint)], &checks, Ok(()), None, update(2, d(1)));
    assert_eq!(r, Err(ValidationError::BadNullifierProof {}));
    let r = s.validate_and_apply(1, Block(vec![mint.clone()]), vec![proofs_for(&mint)], &checks, Ok(()), Some(d(1)), None);
    assert_eq!(r, Err(ValidationError::BadMerklePath {}));
    let r = s.validate_and_apply(1, Block(vec![mint.clone()]), vec![proofs_for(&mint)], &checks, Ok(()), Some(d(1)), update(3, d(1)));
    assert_eq!(r, Err(ValidationError::BadMerkleLength {}));
    let r = s.validate_and_apply(1, Block(vec![mint.clone()]), vec![proofs_for(&mint)], &checks, Err("bad proof".to_string()), Some(d(1)), update(2, d(1)));
    assert_eq!(r, Err(ValidationError::CryptoError { err: "bad proof".to_string() }));
    assert_eq!(s.commit(), before);
    assert_eq!(s.prev_commit_time, 0);
}

#[test]
fn proof_shape_and_check_errors() {
    let s = genesis();
    let t = note(NoteKind::Transfer, vec![d(1), d(2)], vec![d(3), d(4)], empty_root());
    let block = Block(vec![t.clone()]);
    let r = s.validate_block_check(1, Block(vec![t.clone()]), vec![vec![SetMerkleProof(vec![1])]], &absent_checks(&block), Ok(()));
    assert_eq!(r.err(), Some(ValidationError::MissingNullifierProof {}));
    let checks = vec![vec![NullifierCheck::Absent, NullifierCheck::Malformed]];
    let r = s.validate_block_check(1, Block(vec![t.clone()]), vec![proofs_for(&t)], &checks, Ok(()));
    assert_eq!(r.err(), Some(ValidationError::BadNullifierProof {}));
    let checks = vec![vec![NullifierCheck::Absent, NullifierCheck::Present]];
    let r = s.validate_block_check(1, Block(vec![t.clone()]), vec![proofs_for(&t)], &checks, Ok(()));
    assert_eq!(r.err(), Some(ValidationError::NullifierAlreadyExists { nullifier: d(2) }));
    let r = s.validate_block_check(1, Block(vec![t.clone()]), vec![proofs_for(&t)], &vec![], Ok(()));
    assert_eq!(r.err(), Some(ValidationError::BadNullifierProof {}));
}

#[test]
fn empty_block_skips_batch_verification() {
    let s = genesis();
    let r = s.validate_block_check(1, Block(vec![]), vec![], &vec![], Err("unused".to_string()));
    assert!(r.is_ok());
}

#[test]
fn keys_and_roots_for_the_verifier() {
    let s = genesis();
    let t = note(NoteKind::Transfer, vec![d(1), d(2)], vec![d(3), d(4)], empty_root());
    let m = note(NoteKind::Mint, vec![d(5)], vec![d(6), d(7)], empty_root());
    let block = Block(vec![t, m]);
    let keys = s.verifying_keys(&block).unwrap();
    assert_eq!(keys, vec![&xfr_key(2, 2), &s.verif_crs.mint]);
    assert_eq!(s.merkle_roots(&block).unwrap(), vec![empty_root(), empty_root()]);
}

#[test]
fn consensus_adapter() {
    let s = genesis();
    let next = s.next_block();
    assert!(next.block.0.is_empty() && next.proofs.is_empty());
    let mint = note(NoteKind::Mint, vec![d(1)], vec![d(2), d(3)], empty_root());
    let eb = ElaboratedBlock { block: Block(vec![mint.clone()]), proofs: vec![proofs_for(&mint)] };
    let checks = absent_checks(&eb.block);
    assert!(s.validate_block(&eb, &checks, Ok(())));
    assert!(!s.validate_block(&eb, &checks, Err("no".to_string())));
    let s2 = s.append(&eb, &checks, Ok(()), Some(d(0xaa)), update(2, d(0x11))).unwrap();
    assert_eq!(s2.prev_commit_time, 1);
    assert_eq!(s2.prev_state, Some(s.commit()));
    assert_eq!(s.prev_commit_time, 0);
    s2.on_commit();
}

#[test]
fn consensus_hashes_are_commitments() {
    let t = note(NoteKind::Mint, vec![d(1)], vec![d(2), d(3)], d(0));
    let et = ElaboratedTransaction { txn: t.clone(), proofs: proofs_for(&t) };
    let eb = ElaboratedBlock { block: Block(vec![t.clone()]), proofs: vec![proofs_for(&t)] };
    assert_eq!(eb.hash(), eb.commit().0);
    assert_eq!(ElaboratedBlock::hash_transaction(&et), et.commit().0);
    assert_eq!(et.etxn_hash().0, et.commit());
    let mut bytes = b"PhaseLock bytes".to_vec();
    bytes.extend_from_slice(&3u64.to_le_bytes());
    bytes.extend_from_slice(&[1, 2, 3]);
    assert_eq!(ElaboratedBlock::hash_bytes(&[1, 2, 3]), keccak(&bytes));
}

#[test]
fn states_compare_by_commitment() {
    let s = genesis();
    let mut t = s.clone();
    assert!(s == t);
    apply(&mut t, vec![note(NoteKind::Mint, vec![d(1)], vec![d(2), d(3)], empty_root())], d(0x11), 2).unwrap();
    assert!(s != t);
}

#[test]
fn clone_turns_crypto_error_into_failed() {
    let e = ValidationError::CryptoError { err: "bad proof".to_string() };
    assert_eq!(e.clone(), ValidationError::Failed {});
    let e = ValidationError::UnsupportedTransferSize { num_inputs: 4, num_outputs: 4 };
    assert_eq!(e.clone(), e);
    let e = ValidationError::NullifierAlreadyExists { nullifier: d(3) };
    assert_eq!(e.clone(), e);
}

#[test]
fn pairs_and_outputs_follow_block_order() {
    let t1 = note(NoteKind::Transfer, vec![d(1), d(2)], vec![d(3), d(4)], d(0));
    let t2 = note(NoteKind::Mint, vec![d(5)], vec![d(6), d(7)], d(0));
    let pfs = vec![proofs_for(&t1), proofs_for(&t2)];
    let block = Block(vec![t1, t2]);
    let pairs = nullifier_proof_pairs(&block, &pfs);
    let want: Vec<(Digest, SetMerkleProof)> =
        vec![d(1), d(2), d(5)].into_iter().map(|n| (n, SetMerkleProof(n.0.to_vec()))).collect();
    assert_eq!(pairs, want);
    assert_eq!(block_outputs(&block), vec![d(3), d(4), d(6), d(7)]);
}
