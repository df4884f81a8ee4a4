//! Transaction notes, blocks, their commitments, and conflict-free block assembly.
use vstd::prelude::*;

use crate::commit::{
    append_bytes, append_u64, commitment_bytes, concat, enc_array, enc_str, enc_u64, enc_var,
    keccak256, lemma_concat_push, CommitmentBuilder, Digest,
};
use crate::error::ValidationError;

verus! {

/// A nullifier: the tag that a spend reveals, unique per spent record.
pub type Nullifier = Digest;

/// A hiding commitment to a record, appended to the record tree on creation.
pub type RecordCommitment = Digest;

/// A node value of the record Merkle tree (in particular, a root).
pub type NodeValue = Digest;

/// The three kinds of transaction note.
#[derive(Clone, Copy, Debug, PartialEq, Eq, Hash, Structural)]
pub enum NoteKind {
    Mint,
    Transfer,
    Freeze,
}

/// A confidential transaction, as far as the validator reads it: its kind, the
/// nullifiers it spends, the record commitments it creates, the record-tree
/// root its proof was made against, and the rest of the note (its proof and
/// auxiliary data) as canonical bytes.
#[derive(Debug, PartialEq, Eq, Hash)]
pub struct TransactionNote {
    pub kind: NoteKind,
    pub nullifiers: Vec<Nullifier>,
    pub output_commitments: Vec<RecordCommitment>,
    pub merkle_root: NodeValue,
    pub body: Vec<u8>,
}

/// The mathematical content of a transaction note.
pub struct NoteView {
    pub kind: NoteKind,
    pub nullifiers: Seq<Nullifier>,
    pub outputs: Seq<RecordCommitment>,
    pub merkle_root: NodeValue,
    pub body: Seq<u8>,
}

impl View for TransactionNote {
    type V = NoteView;

    open spec fn view(&self) -> NoteView {
        NoteView {
            kind: self.kind,
            nullifiers: self.nullifiers@,
            outputs: self.output_commitments@,
            merkle_root: self.merkle_root,
            body: self.body@,
        }
    }
}

/// A copy of a vector of digests.
pub fn copy_digests(v: &Vec<Digest>) -> (r: Vec<Digest>)
    ensures
        r@ == v@,
{
    let r = v.clone();
    assert(r@ =~= v@);
    r
}

impl Clone for TransactionNote {
    fn clone(&self) -> (r: TransactionNote)
        ensures
            r@ == self@,
    {
        TransactionNote {
            kind: self.kind,
            nullifiers: copy_digests(&self.nullifiers),
            output_commitments: copy_digests(&self.output_commitments),
            merkle_root: self.merkle_root,
            body: self.body.clone(),
        }
    }
}

/// The number that stands for a note's kind in its commitment.
pub open spec fn kind_tag(k: NoteKind) -> u64 {
    match k {
        NoteKind::Mint => 0,
        NoteKind::Transfer => 1,
        NoteKind::Freeze => 2,
    }
}

/// The bytes that a note's commitment digests. This layout is the library's
/// own: the cryptosystem's note commitment is not available here, so block
/// commitments do not match those of a ledger that uses it.
pub open spec fn note_encoding(n: NoteView) -> Seq<u8> {
    enc_str("Txn Comm") + enc_str("kind") + enc_u64(kind_tag(n.kind)) + enc_str("nullifiers")
        + enc_array(commitment_bytes(n.nullifiers)) + enc_str("outputs") + enc_array(
        commitment_bytes(n.outputs),
    ) + enc_str("merkle_root") + n.merkle_root.bytes() + enc_str("body") + enc_var(n.body)
}

/// The commitment of a note.
pub open spec fn note_commitment(n: NoteView) -> Seq<u8> {
    keccak256(note_encoding(n))
}

impl TransactionNote {
    /// The nullifiers this note spends.
    pub fn nullifiers(&self) -> (r: &Vec<Nullifier>)
        ensures
            r@ == self@.nullifiers,
    {
        &self.nullifiers
    }

    /// The record commitments this note creates.
    pub fn output_commitments(&self) -> (r: &Vec<RecordCommitment>)
        ensures
            r@ == self@.outputs,
    {
        &self.output_commitments
    }

    /// The commitment of this note.
    pub fn commit(&self) -> (r: Digest)
        ensures
            r.bytes() == note_commitment(self@),
    {
        let tag: u64 = match self.kind {
            NoteKind::Mint => 0,
            NoteKind::Transfer => 1,
            NoteKind::Freeze => 2,
        };
        CommitmentBuilder::new("Txn Comm").u64_field("kind", tag).array_field(
            "nullifiers",
            self.nullifiers.as_slice(),
        ).array_field("outputs", self.output_commitments.as_slice()).field(
            "merkle_root",
            &self.merkle_root,
        ).var_size_field("body", self.body.as_slice()).finalize()
    }
}

/// A non-membership proof for one nullifier in the nullifier set, as canonical bytes.
#[derive(Debug, PartialEq, Eq, Hash)]
pub struct SetMerkleProof(pub Vec<u8>);

impl View for SetMerkleProof {
    type V = Seq<u8>;

    open spec fn view(&self) -> Seq<u8> {
        self.0@
    }
}

impl Clone for SetMerkleProof {
    fn clone(&self) -> (r: SetMerkleProof)
        ensures
            r@ == self@,
    {
        SetMerkleProof(self.0.clone())
    }
}

/// The bytes of each proof of a sequence.
pub open spec fn proofs_view(ps: Seq<SetMerkleProof>) -> Seq<Seq<u8>> {
    ps.map_values(|p: SetMerkleProof| p@)
}

/// The bytes of each proof of each vector of a sequence.
pub open spec fn proof_vecs_view(pss: Seq<Vec<SetMerkleProof>>) -> Seq<Seq<Seq<u8>>> {
    pss.map_values(|ps: Vec<SetMerkleProof>| proofs_view(ps@))
}

/// Canonical encoding of a vector of proofs: its length, then each proof with
/// its own length.
pub open spec fn enc_proofs(ps: Seq<Seq<u8>>) -> Seq<u8> {
    enc_u64(ps.len() as u64) + concat(ps.map_values(|p: Seq<u8>| enc_var(p)))
}

/// Canonical encoding of a vector of proof vectors.
pub open spec fn enc_proof_vecs(pss: Seq<Seq<Seq<u8>>>) -> Seq<u8> {
    enc_u64(pss.len() as u64) + concat(pss.map_values(|ps: Seq<Seq<u8>>| enc_proofs(ps)))
}

/// A copy of a vector of proofs.
pub fn copy_proofs(v: &Vec<SetMerkleProof>) -> (r: Vec<SetMerkleProof>)
    ensures
        proofs_view(r@) == proofs_view(v@),
{
    let mut r: Vec<SetMerkleProof> = Vec::new();
    let mut i: usize = 0;
    while i < v.len()
        invariant
            0 <= i <= v@.len(),
            r@.len() == i,
            forall|j: int| 0 <= j < i ==> r@[j]@ == v@[j]@,
        decreases v@.len() - i,
    {
        r.push(v[i].clone());
        i = i + 1;
    }
    assert(proofs_view(r@) =~= proofs_view(v@));
    r
}

/// A copy of a vector of proof vectors.
pub fn copy_proof_vecs(v: &Vec<Vec<SetMerkleProof>>) -> (r: Vec<Vec<SetMerkleProof>>)
    ensures
        proof_vecs_view(r@) == proof_vecs_view(v@),
{
    let mut r: Vec<Vec<SetMerkleProof>> = Vec::new();
    let mut i: usize = 0;
    while i < v.len()
        invariant
            0 <= i <= v@.len(),
            r@.len() == i,
            forall|j: int| 0 <= j < i ==> proofs_view(r@[j]@) == proofs_view(v@[j]@),
        decreases v@.len() - i,
    {
        r.push(copy_proofs(&v[i]));
        i = i + 1;
    }
    assert(proof_vecs_view(r@) =~= proof_vecs_view(v@));
    r
}

/// Appends the canonical encoding of a vector of proofs.
pub fn append_proofs(buf: &mut Vec<u8>, ps: &Vec<SetMerkleProof>)
    ensures
        final(buf)@ == old(buf)@ + enc_proofs(proofs_view(ps@)),
{
    append_u64(buf, ps.len() as u64);
    let ghost start = buf@;
    let mut i: usize = 0;
    while i < ps.len()
        invariant
            0 <= i <= ps@.len(),
            buf@ == start + concat(
                proofs_view(ps@.subrange(0, i as int)).map_values(|p: Seq<u8>| enc_var(p)),
            ),
        decreases ps@.len() - i,
    {
        append_u64(buf, ps[i].0.len() as u64);
        append_bytes(buf, ps[i].0.as_slice());
        proof {
            let s = proofs_view(ps@.subrange(0, i as int)).map_values(|p: Seq<u8>| enc_var(p));
            lemma_concat_push(s, enc_var(ps@[i as int]@));
            assert(proofs_view(ps@.subrange(0, i + 1)).map_values(|p: Seq<u8>| enc_var(p))
                =~= s.push(enc_var(ps@[i as int]@)));
        }
        i = i + 1;
    }
    assert(ps@.subrange(0, ps@.len() as int) =~= ps@);
}

/// The canonical encoding of a vector of proof vectors.
pub fn serialize_proof_vecs(pss: &Vec<Vec<SetMerkleProof>>) -> (r: Vec<u8>)
    ensures
        r@ == enc_proof_vecs(proof_vecs_view(pss@)),
{
    let mut buf: Vec<u8> = Vec::new();
    append_u64(&mut buf, pss.len() as u64);
    let ghost start = buf@;
    let mut i: usize = 0;
    while i < pss.len()
        invariant
            0 <= i <= pss@.len(),
            buf@ == start + concat(
                proof_vecs_view(pss@.subrange(0, i as int)).map_values(
                    |ps: Seq<Seq<u8>>| enc_proofs(ps),
                ),
            ),
        decreases pss@.len() - i,
    {
        append_proofs(&mut buf, &pss[i]);
        proof {
            let s = proof_vecs_view(pss@.subrange(0, i as int)).map_values(
                |ps: Seq<Seq<u8>>| enc_proofs(ps),
            );
            lemma_concat_push(s, enc_proofs(proofs_view(pss@[i as int]@)));
            assert(proof_vecs_view(pss@.subrange(0, i + 1)).map_values(
                |ps: Seq<Seq<u8>>| enc_proofs(ps),
            ) =~= s.push(enc_proofs(proofs_view(pss@[i as int]@))));
        }
        i = i + 1;
    }
    assert(pss@.subrange(0, pss@.len() as int) =~= pss@);
    assert(buf@ =~= enc_u64(pss@.len() as u64) + concat(
        proof_vecs_view(pss@).map_values(|ps: Seq<Seq<u8>>| enc_proofs(ps)),
    ));
    buf
}

/// A transaction note with one non-membership proof per input nullifier.
#[derive(Debug, PartialEq, Eq, Hash)]
pub struct ElaboratedTransaction {
    pub txn: TransactionNote,
    pub proofs: Vec<SetMerkleProof>,
}

/// An ordered sequence of transaction notes.
#[derive(Debug, PartialEq, Eq, Hash)]
pub struct Block(pub Vec<TransactionNote>);

impl View for Block {
    type V = Seq<NoteView>;

    open spec fn view(&self) -> Seq<NoteView> {
        self.0@.map_values(|n: TransactionNote| n@)
    }
}

/// A block with the non-membership proofs of each transaction's nullifiers.
#[derive(Debug, PartialEq, Eq, Hash)]
pub struct ElaboratedBlock {
    pub block: Block,
    pub proofs: Vec<Vec<SetMerkleProof>>,
}

/// The bytes that a block's commitment digests: the domain, then the array of
/// the notes' commitments in block order.
pub open spec fn block_encoding(b: Seq<NoteView>) -> Seq<u8> {
    enc_str("Block Comm") + enc_str("txns") + enc_array(
        b.map_values(|n: NoteView| note_commitment(n)),
    )
}

/// The commitment of a block.
pub open spec fn block_commitment(b: Seq<NoteView>) -> Seq<u8> {
    keccak256(block_encoding(b))
}

/// The bytes that the commitment of an elaborated block digests.
pub open spec fn elaborated_block_encoding(b: Seq<NoteView>, pss: Seq<Seq<Seq<u8>>>) -> Seq<u8> {
    enc_str("ElaboratedBlock") + enc_str("Block contents") + block_commitment(b) + enc_str(
        "Block proofs",
    ) + enc_var(enc_proof_vecs(pss))
}

/// The bytes that the commitment of an elaborated transaction digests.
pub open spec fn elaborated_txn_encoding(n: NoteView, ps: Seq<Seq<u8>>) -> Seq<u8> {
    enc_str("ElaboratedTransaction") + enc_str("Txn contents") + note_commitment(n) + enc_str(
        "Txn proofs",
    ) + enc_var(enc_proofs(ps))
}

/// Whether `n` is spent by some note of `b`.
pub open spec fn spent_in(b: Seq<NoteView>, n: Nullifier) -> bool {
    exists|i: int, j: int|
        0 <= i < b.len() && 0 <= j < b[i].nullifiers.len() && #[trigger] b[i].nullifiers[j] == n
}

/// Whether a note with nullifiers `ns` conflicts with the block `b`: one of
/// its nullifiers is spent in `b`, or appears twice in `ns`.
pub open spec fn conflicts(b: Seq<NoteView>, ns: Seq<Nullifier>) -> bool {
    exists|k: int|
        0 <= k < ns.len() && (spent_in(b, #[trigger] ns[k]) || ns.subrange(0, k).contains(ns[k]))
}

/// Whether `v` holds `n`.
pub fn contains_digest(v: &[Digest], n: &Digest) -> (r: bool)
    ensures
        r == v@.contains(*n),
{
    let mut i: usize = 0;
    while i < v.len()
        invariant
            0 <= i <= v@.len(),
            forall|j: int| 0 <= j < i ==> v@[j] != *n,
        decreases v@.len() - i,
    {
        if v[i].same_as(n) {
            assert(v@[i as int] == *n);
            return true;
        }
        i = i + 1;
    }
    false
}

impl Block {
    /// The empty block.
    pub fn empty() -> (r: Block)
        ensures
            r@ == Seq::<NoteView>::empty(),
    {
        let r = Block(Vec::new());
        assert(r@ =~= Seq::<NoteView>::empty());
        r
    }

    /// Whether some note of this block spends `n`.
    pub fn spends(&self, n: &Nullifier) -> (r: bool)
        ensures
            r == spent_in(self@, *n),
    {
        let mut i: usize = 0;
        while i < self.0.len()
            invariant
                0 <= i <= self@.len(),
                forall|a: int, j: int|
                    0 <= a < i && 0 <= j < self@[a].nullifiers.len() ==> #[trigger] self@[a].nullifiers[j]
                        != *n,
            decreases self@.len() - i,
        {
            if contains_digest(self.0[i].nullifiers.as_slice(), n) {
                let ghost j = choose|j: int|
                    0 <= j < self@[i as int].nullifiers.len() && self@[i as int].nullifiers[j]
                        == *n;
                assert(self@[i as int].nullifiers[j] == *n);
                return true;
            }
            i = i + 1;
        }
        false
    }

    /// The commitment of this block: the domain "Block Comm" and the array
    /// "txns" of the notes' commitments, in block order.
    pub fn commit(&self) -> (r: Digest)
        ensures
            r.bytes() == block_commitment(self@),
    {
        let mut cs: Vec<Digest> = Vec::new();
        let mut i: usize = 0;
        while i < self.0.len()
            invariant
                0 <= i <= self@.len(),
                cs@.len() == i,
                forall|j: int| 0 <= j < i ==> #[trigger] cs@[j].bytes() == note_commitment(self@[j]),
            decreases self@.len() - i,
        {
            cs.push(self.0[i].commit());
            i = i + 1;
        }
        assert(commitment_bytes(cs@) =~= self@.map_values(|n: NoteView| note_commitment(n)));
        CommitmentBuilder::new("Block Comm").array_field("txns", cs.as_slice()).finalize()
    }
}

impl Clone for Block {
    fn clone(&self) -> (r: Block)
        ensures
            r@ == self@,
    {
        let mut v: Vec<TransactionNote> = Vec::new();
        let mut i: usize = 0;
        while i < self.0.len()
            invariant
                0 <= i <= self@.len(),
                v@.len() == i,
                forall|j: int| 0 <= j < i ==> #[trigger] v@[j]@ == self@[j],
            decreases self@.len() - i,
        {
            v.push(self.0[i].clone());
            i = i + 1;
        }
        let r = Block(v);
        assert(r@ =~= self@);
        r
    }
}

impl Clone for ElaboratedTransaction {
    fn clone(&self) -> (r: ElaboratedTransaction)
        ensures
            r.txn@ == self.txn@,
            proofs_view(r.proofs@) == proofs_view(self.proofs@),
    {
        ElaboratedTransaction { txn: self.txn.clone(), proofs: copy_proofs(&self.proofs) }
    }
}

impl ElaboratedTransaction {
    /// The commitment of this transaction together with its proofs.
    pub fn commit(&self) -> (r: Digest)
        ensures
            r.bytes() == keccak256(elaborated_txn_encoding(self.txn@, proofs_view(self.proofs@))),
    {
        let mut bytes: Vec<u8> = Vec::new();
        append_proofs(&mut bytes, &self.proofs);
        assert(bytes@ =~= enc_proofs(proofs_view(self.proofs@)));
        CommitmentBuilder::new("ElaboratedTransaction").field("Txn contents", &self.txn.commit()).var_size_field(
            "Txn proofs",
            bytes.as_slice(),
        ).finalize()
    }
}

/// The commitment of an elaborated transaction, as its identifier.
#[derive(Clone, Copy, Debug, PartialEq, Eq, Hash)]
pub struct ElaboratedTransactionHash(pub Digest);

impl ElaboratedTransaction {
    /// The identifier of this transaction: its commitment.
    pub fn etxn_hash(&self) -> (r: ElaboratedTransactionHash)
        ensures
            r.0.bytes() == keccak256(elaborated_txn_encoding(self.txn@, proofs_view(self.proofs@))),
    {
        ElaboratedTransactionHash(self.commit())
    }
}

impl Clone for ElaboratedBlock {
    fn clone(&self) -> (r: ElaboratedBlock)
        ensures
            r.block@ == self.block@,
            proof_vecs_view(r.proofs@) == proof_vecs_view(self.proofs@),
    {
        ElaboratedBlock { block: self.block.clone(), proofs: copy_proof_vecs(&self.proofs) }
    }
}

impl ElaboratedBlock {
    /// The empty elaborated block: no notes and no proofs.
    pub fn empty() -> (r: ElaboratedBlock)
        ensures
            r.block@ == Seq::<NoteView>::empty(),
            r.proofs@ == Seq::<Vec<SetMerkleProof>>::empty(),
    {
        ElaboratedBlock { block: Block::empty(), proofs: Vec::new() }
    }

    /// The commitment of this block together with its proofs.
    pub fn commit(&self) -> (r: Digest)
        ensures
            r.bytes() == keccak256(
                elaborated_block_encoding(self.block@, proof_vecs_view(self.proofs@)),
            ),
    {
        let bytes = serialize_proof_vecs(&self.proofs);
        CommitmentBuilder::new("ElaboratedBlock").field("Block contents", &self.block.commit()).var_size_field(
            "Block proofs",
            bytes.as_slice(),
        ).finalize()
    }

    /// The hash consensus uses for this block: its commitment.
    pub fn hash(&self) -> (r: [u8; 32])
        ensures
            r@ == keccak256(elaborated_block_encoding(self.block@, proof_vecs_view(self.proofs@))),
    {
        self.commit().0
    }

    /// The hash consensus uses for raw bytes: a commitment in its own domain.
    pub fn hash_bytes(bytes: &[u8]) -> (r: [u8; 32])
        ensures
            r@ == keccak256(enc_str("PhaseLock bytes") + enc_var(bytes@)),
    {
        CommitmentBuilder::new("PhaseLock bytes").var_size_bytes(bytes).finalize().0
    }

    /// The hash consensus uses for a transaction: its commitment.
    pub fn hash_transaction(txn: &ElaboratedTransaction) -> (r: [u8; 32])
        ensures
            r@ == keccak256(elaborated_txn_encoding(txn.txn@, proofs_view(txn.proofs@))),
    {
        txn.commit().0
    }

    /// Adds a transaction to this block. Fails with `ConflictingNullifiers`
    /// exactly when one of its nullifiers is already spent in the block or
    /// appears twice in it; otherwise the note and its proofs are appended in
    /// lockstep.
    pub fn add_transaction_raw(&self, txn: &ElaboratedTransaction) -> (r: Result<ElaboratedBlock, ValidationError>)
        ensures
            r.is_err() == conflicts(self.block@, txn.txn@.nullifiers),
            r.is_err() ==> (r == Err::<ElaboratedBlock, ValidationError>(ValidationError::ConflictingNullifiers {})),
            r.is_ok() ==> r.unwrap().block@ == self.block@.push(txn.txn@),
            r.is_ok() ==> proof_vecs_view(r.unwrap().proofs@) == proof_vecs_view(self.proofs@).push(proofs_view(txn.proofs@)),
    {
        let ns = &txn.txn.nullifiers;
        let mut k: usize = 0;
        while k < ns.len()
            invariant
                0 <= k <= ns@.len(),
                ns@ == txn.txn@.nullifiers,
                forall|a: int|
                    0 <= a < k ==> !(spent_in(self.block@, #[trigger] ns@[a]) || ns@.subrange(
                        0,
                        a,
                    ).contains(ns@[a])),
            decreases ns@.len() - k,
        {
            if self.block.spends(&ns[k]) || contains_digest(&ns.as_slice()[0..k], &ns[k]) {
                return Err(ValidationError::ConflictingNullifiers {});
            }
            k = k + 1;
        }
        let mut ret = self.clone();
        ret.block.0.push(txn.txn.clone());
        ret.proofs.push(copy_proofs(&txn.proofs));
        assert(ret.block@ =~= self.block@.push(txn.txn@));
        assert(proof_vecs_view(ret.proofs@) =~= proof_vecs_view(self.proofs@).push(
            proofs_view(txn.proofs@),
        ));
        Ok(ret)
    }
}

/// Adding one transaction, whose nullifiers are distinct, to the empty block
/// succeeds, and the block it gives has the commitment of the block holding
/// that transaction alone.
pub proof fn lemma_single_transaction_round_trip(t: NoteView)
    requires
        forall|a: int, b: int|
            0 <= a < b < t.nullifiers.len() ==> #[trigger] t.nullifiers[a] != #[trigger] t.nullifiers[b],
    ensures
        !conflicts(Seq::<NoteView>::empty(), t.nullifiers),
        block_commitment(Seq::<NoteView>::empty().push(t)) == block_commitment(seq![t]),
{
    assert(Seq::<NoteView>::empty().push(t) =~= seq![t]);
    assert forall|k: int| 0 <= k < t.nullifiers.len() implies !(spent_in(
        Seq::<NoteView>::empty(),
        #[trigger] t.nullifiers[k],
    ) || t.nullifiers.subrange(0, k).contains(t.nullifiers[k])) by {
        if t.nullifiers.subrange(0, k).contains(t.nullifiers[k]) {
            let a = choose|a: int| 0 <= a < k && t.nullifiers.subrange(0, k)[a] == t.nullifiers[k];
            assert(t.nullifiers[a] == t.nullifiers[k]);
        }
    }
}

} // verus!
