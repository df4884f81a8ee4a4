//! The validator state: its commitment, read-only block validation, and the
//! atomic validate-and-apply step.
use vstd::prelude::*;

use std::collections::VecDeque;

use crate::commit::{
    commitment_bytes, concat, enc_array, enc_str, enc_u64, enc_var, keccak256, lemma_concat_push,
    CommitmentBuilder, Digest,
};
use crate::txn::NodeValue;

verus! {

/// Height of the record Merkle tree.
pub const MERKLE_HEIGHT: u8 = 20;

/// How many previous record-tree roots the validator remembers. Transactions
/// made against any of them still validate; the queue is part of the state
/// commitment, so changing this number changes consensus.
pub const RECORD_ROOT_HISTORY_SIZE: usize = 10;

/// Root metadata of the record Merkle tree.
#[derive(Clone, Copy, Debug, PartialEq, Eq)]
pub struct MerkleCommitment {
    pub height: u8,
    pub num_leaves: u64,
    pub root_value: NodeValue,
}

/// The minimal data needed to append to the record tree: either the tree is
/// empty at some height, or the last leaf with its path of sibling data (each
/// step as canonical bytes).
#[derive(Debug, PartialEq, Eq)]
pub enum MerkleFrontier {
    Empty { height: u8 },
    Proof { leaf: NodeValue, path: Vec<Vec<u8>> },
}

/// The mathematical content of a frontier.
pub enum FrontierView {
    Empty { height: u8 },
    Proof { leaf: NodeValue, path: Seq<Seq<u8>> },
}

/// The bytes of each step of a path.
pub open spec fn path_view(p: Seq<Vec<u8>>) -> Seq<Seq<u8>> {
    p.map_values(|s: Vec<u8>| s@)
}

impl View for MerkleFrontier {
    type V = FrontierView;

    open spec fn view(&self) -> FrontierView {
        match self {
            MerkleFrontier::Empty { height } => FrontierView::Empty { height: *height },
            MerkleFrontier::Proof { leaf, path } => FrontierView::Proof { leaf: *leaf, path: path_view(path@) },
        }
    }
}

impl Clone for MerkleFrontier {
    fn clone(&self) -> (r: MerkleFrontier)
        ensures
            r@ == self@,
    {
        match self {
            MerkleFrontier::Empty { height } => MerkleFrontier::Empty { height: *height },
            MerkleFrontier::Proof { leaf, path } => {
                let mut p: Vec<Vec<u8>> = Vec::new();
                let mut i: usize = 0;
                while i < path.len()
                    invariant
                        0 <= i <= path@.len(),
                        p@.len() == i,
                        forall|j: int| 0 <= j < i ==> (#[trigger] p@[j])@ == path@[j]@,
                    decreases path@.len() - i,
                {
                    p.push(path[i].clone());
                    i = i + 1;
                }
                assert(path_view(p@) =~= path_view(path@));
                MerkleFrontier::Proof { leaf: *leaf, path: p }
            },
        }
    }
}

/// The record-tree commitment, as committed to in the state.
#[derive(Clone, Copy, Debug, PartialEq, Eq)]
pub struct RecordMerkleCommitment(pub MerkleCommitment);

/// The bytes that the commitment of record-tree metadata digests.
pub open spec fn rmt_encoding(c: MerkleCommitment) -> Seq<u8> {
    enc_str("RMT Comm") + enc_str("height") + enc_u64(c.height as u64) + enc_str("num_leaves")
        + enc_u64(c.num_leaves) + enc_str("root_value") + enc_var(c.root_value.bytes())
}

impl RecordMerkleCommitment {
    /// The commitment of the tree's height, leaf count and root value.
    pub fn commit(&self) -> (r: Digest)
        ensures
            r.bytes() == keccak256(rmt_encoding(self.0)),
    {
        CommitmentBuilder::new("RMT Comm").constant_str("height").u64(self.0.height as u64).constant_str(
            "num_leaves",
        ).u64(self.0.num_leaves).constant_str("root_value").var_size_bytes(
            self.0.root_value.0.as_slice(),
        ).finalize()
    }
}

/// The record-tree frontier, as committed to in the state.
#[derive(Debug, PartialEq, Eq)]
pub struct RecordMerkleFrontier(pub MerkleFrontier);

/// The bytes that the commitment of a frontier digests.
pub open spec fn frontier_encoding(f: FrontierView) -> Seq<u8> {
    match f {
        FrontierView::Empty { height } => enc_str("RMFrontier") + enc_str("empty height") + enc_u64(
            height as u64,
        ),
        FrontierView::Proof { leaf, path } => enc_str("RMFrontier") + enc_str("leaf") + enc_var(
            leaf.bytes(),
        ) + enc_str("path") + concat(path.map_values(|s: Seq<u8>| enc_var(s))),
    }
}

impl RecordMerkleFrontier {
    /// The commitment of the frontier; an empty frontier and a leaf proof are
    /// told apart by their labels.
    pub fn commit(&self) -> (r: Digest)
        ensures
            r.bytes() == keccak256(frontier_encoding(self.0@)),
    {
        let b = CommitmentBuilder::new("RMFrontier");
        match &self.0 {
            MerkleFrontier::Empty { height } => {
                b.constant_str("empty height").u64(*height as u64).finalize()
            },
            MerkleFrontier::Proof { leaf, path } => {
                let mut b = b.constant_str("leaf").var_size_bytes(leaf.0.as_slice()).constant_str(
                    "path",
                );
                let ghost start = b.bytes();
                let mut i: usize = 0;
                while i < path.len()
                    invariant
                        0 <= i <= path@.len(),
                        b.bytes() == start + concat(
                            path_view(path@.subrange(0, i as int)).map_values(|s: Seq<u8>| enc_var(s)),
                        ),
                    decreases path@.len() - i,
                {
                    b = b.var_size_bytes(path[i].as_slice());
                    proof {
                        let e = path_view(path@.subrange(0, i as int)).map_values(
                            |s: Seq<u8>| enc_var(s),
                        );
                        lemma_concat_push(e, enc_var(path@[i as int]@));
                        assert(path_view(path@.subrange(0, i + 1)).map_values(
                            |s: Seq<u8>| enc_var(s),
                        ) =~= e.push(enc_var(path@[i as int]@)));
                    }
                    i = i + 1;
                }
                assert(path@.subrange(0, path@.len() as int) =~= path@);
                b.finalize()
            },
        }
    }
}

impl Clone for RecordMerkleFrontier {
    fn clone(&self) -> (r: RecordMerkleFrontier)
        ensures
            r.0@ == self.0@,
    {
        RecordMerkleFrontier(self.0.clone())
    }
}

/// The recent record-tree roots, most recent first.
#[derive(Debug)]
pub struct RecordMerkleHistory(pub VecDeque<NodeValue>);

/// The bytes that the commitment of a root history digests.
pub open spec fn history_encoding(h: Seq<NodeValue>) -> Seq<u8> {
    enc_str("Hist Comm") + enc_str("roots") + enc_u64(h.len() as u64) + concat(
        h.map_values(|n: NodeValue| enc_var(n.bytes())),
    )
}

impl RecordMerkleHistory {
    /// The commitment of the history: its length, then each root in order.
    pub fn commit(&self) -> (r: Digest)
        ensures
            r.bytes() == keccak256(history_encoding(self.0@)),
    {
        let mut b = CommitmentBuilder::new("Hist Comm").constant_str("roots").u64(
            self.0.len() as u64,
        );
        let ghost start = b.bytes();
        let mut i: usize = 0;
        while i < self.0.len()
            invariant
                0 <= i <= self.0@.len(),
                b.bytes() == start + concat(
                    self.0@.subrange(0, i as int).map_values(|n: NodeValue| enc_var(n.bytes())),
                ),
            decreases self.0@.len() - i,
        {
            let n = self.0[i];
            b = b.var_size_bytes(n.0.as_slice());
            proof {
                let e = self.0@.subrange(0, i as int).map_values(|n: NodeValue| enc_var(n.bytes()));
                lemma_concat_push(e, enc_var(self.0@[i as int].bytes()));
                assert(self.0@.subrange(0, i + 1).map_values(|n: NodeValue| enc_var(n.bytes()))
                    =~= e.push(enc_var(self.0@[i as int].bytes())));
            }
            i = i + 1;
        }
        assert(self.0@.subrange(0, self.0@.len() as int) =~= self.0@);
        b.finalize()
    }

    /// Whether `root` is among the remembered roots.
    pub fn contains(&self, root: &NodeValue) -> (r: bool)
        ensures
            r == self.0@.contains(*root),
    {
        let mut i: usize = 0;
        while i < self.0.len()
            invariant
                0 <= i <= self.0@.len(),
                forall|j: int| 0 <= j < i ==> self.0@[j] != *root,
            decreases self.0@.len() - i,
        {
            if self.0[i].same_as(root) {
                assert(self.0@[i as int] == *root);
                return true;
            }
            i = i + 1;
        }
        false
    }
}

impl Clone for RecordMerkleHistory {
    fn clone(&self) -> (r: RecordMerkleHistory)
        ensures
            r.0@ == self.0@,
    {
        let mut q: VecDeque<NodeValue> = VecDeque::new();
        let mut i: usize = 0;
        while i < self.0.len()
            invariant
                0 <= i <= self.0@.len(),
                q@ == self.0@.subrange(0, i as int),
            decreases self.0@.len() - i,
        {
            q.push_back(self.0[i]);
            assert(self.0@.subrange(0, i + 1) =~= self.0@.subrange(0, i as int).push(self.0@[i as int]));
            i = i + 1;
        }
        assert(self.0@.subrange(0, self.0@.len() as int) =~= self.0@);
        RecordMerkleHistory(q)
    }
}

/// A state commitment: the digest that consensus votes on.
#[derive(Clone, Copy, Debug, PartialEq, Eq, Hash)]
pub struct LedgerStateCommitment(pub Digest);

/// A block commitment.
#[derive(Clone, Copy, Debug, PartialEq, Eq, Hash)]
pub struct BlockCommitment(pub Digest);

/// The opening of a state commitment: the commitments of the state's parts.
#[derive(Clone, Copy, Debug, PartialEq, Eq)]
pub struct LedgerCommitmentOpening {
    pub prev_commit_time: u64,
    pub prev_state: Option<LedgerStateCommitment>,
    pub verif_crs: Digest,
    pub record_merkle_commitment: Digest,
    pub record_merkle_frontier: Digest,
    pub past_record_merkle_roots: Digest,
    pub nullifiers: Digest,
    pub prev_block: Digest,
}

/// The previous state commitment as an array of zero or one digest.
pub open spec fn prev_state_array(p: Option<Seq<u8>>) -> Seq<Seq<u8>> {
    match p {
        Some(c) => seq![c],
        None => Seq::empty(),
    }
}

/// The bytes of an optional state commitment.
pub open spec fn opt_bytes(p: Option<LedgerStateCommitment>) -> Option<Seq<u8>> {
    match p {
        Some(c) => Some(c.0.bytes()),
        None => None,
    }
}

/// The bytes that a state commitment digests: the eight labelled fields, in
/// this order.
pub open spec fn opening_encoding(
    prev_commit_time: u64,
    prev_state: Option<Seq<u8>>,
    verif_crs: Seq<u8>,
    record_merkle_commitment: Seq<u8>,
    record_merkle_frontier: Seq<u8>,
    past_record_merkle_roots: Seq<u8>,
    nullifiers: Seq<u8>,
    prev_block: Seq<u8>,
) -> Seq<u8> {
    enc_str("Ledger Comm") + enc_str("prev_commit_time") + enc_u64(prev_commit_time) + enc_str(
        "prev_state",
    ) + enc_array(prev_state_array(prev_state)) + enc_str("verif_crs") + verif_crs + enc_str(
        "record_merkle_commitment",
    ) + record_merkle_commitment + enc_str("record_merkle_frontier") + record_merkle_frontier
        + enc_str("past_record_merkle_roots") + past_record_merkle_roots + enc_str("nullifiers")
        + nullifiers + enc_str("prev_block") + prev_block
}

impl LedgerCommitmentOpening {
    /// The state commitment of this opening.
    pub fn commit(&self) -> (r: LedgerStateCommitment)
        ensures
            r.0.bytes() == keccak256(
                opening_encoding(
                    self.prev_commit_time,
                    opt_bytes(self.prev_state),
                    self.verif_crs.bytes(),
                    self.record_merkle_commitment.bytes(),
                    self.record_merkle_frontier.bytes(),
                    self.past_record_merkle_roots.bytes(),
                    self.nullifiers.bytes(),
                    self.prev_block.bytes(),
                ),
            ),
    {
        let mut prev: Vec<Digest> = Vec::new();
        match self.prev_state {
            Some(c) => prev.push(c.0),
            None => {},
        }
        assert(commitment_bytes(prev@) =~= prev_state_array(opt_bytes(self.prev_state)));
        let d = CommitmentBuilder::new("Ledger Comm").u64_field(
            "prev_commit_time",
            self.prev_commit_time,
        ).array_field("prev_state", prev.as_slice()).field("verif_crs", &self.verif_crs).field(
            "record_merkle_commitment",
            &self.record_merkle_commitment,
        ).field("record_merkle_frontier", &self.record_merkle_frontier).field(
            "past_record_merkle_roots",
            &self.past_record_merkle_roots,
        ).field("nullifiers", &self.nullifiers).field("prev_block", &self.prev_block).finalize();
        LedgerStateCommitment(d)
    }
}

} // verus!
