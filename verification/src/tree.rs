//! The array-backed Merkle tree: construction, index arithmetic, and
//! proof-path extraction.
//!
//! All `2*leaves - 1` nodes live in one flat, insertion-ordered array:
//! indices `[0, leaves)` hold the leaf hashes in input order, indices
//! `[leaves, 2*leaves - 1)` hold the internal nodes in the order they are
//! computed, and the last index holds the root.

use vstd::arithmetic::div_mod::lemma_fundamental_div_mod;
use vstd::arithmetic::mul::lemma_mul_inequality;
use vstd::prelude::*;
use vstd::slice::slice_subrange;

use crate::hashing::hash_data;
use crate::hashing::sha256_of;
use crate::hashing::spec_hash_pair;
use crate::hashing::Node;
use crate::verification::entries_view;

verus! {

/// `n` is a power of two.
pub open spec fn is_pow2(n: int) -> bool
    decreases n,
{
    if n <= 0 {
        false
    } else if n == 1 {
        true
    } else {
        n % 2 == 0 && is_pow2(n / 2)
    }
}

/// Flat-array position of the parent of the node at `idx`, for a tree with
/// `leaves` leaves. Meaningful only for non-root positions.
pub open spec fn spec_parent_idx(idx: int, leaves: int) -> int {
    idx / 2 + leaves
}

/// Flat-array position of the sibling of the node at `idx`: nodes are paired
/// as (even, odd) neighbours.
pub open spec fn spec_sibling_idx(idx: int) -> int {
    if idx % 2 == 0 {
        idx + 1
    } else {
        idx - 1
    }
}

/// Flat-array position of the left child of the internal node at `idx`.
/// The left child is the numerically larger of the pair.
pub open spec fn spec_left_idx(idx: int, leaves: int) -> int {
    2 * (idx - leaves) + 1
}

/// Flat-array position of the right child of the internal node at `idx`.
pub open spec fn spec_right_idx(idx: int, leaves: int) -> int {
    2 * (idx - leaves)
}

/// The `i`-th of `leaves` equal contiguous slices of `data`; the chunk size is
/// `data.len() / leaves`.
pub open spec fn spec_chunk(data: Seq<u8>, leaves: int, i: int) -> Seq<u8> {
    let cs = data.len() as int / leaves;
    data.subrange(i * cs, (i + 1) * cs)
}

/// The proof path from position `idx` up to (not including) the root: at each
/// level, the sibling's hash and whether the current node is the right-hand
/// operand (odd position) at that level.
pub open spec fn spec_path(nodes: Seq<Seq<u8>>, leaves: int, idx: int) -> Seq<(Seq<u8>, bool)>
    decreases nodes.len() - idx,
{
    if 0 <= idx < nodes.len() - 1 && idx < spec_parent_idx(idx, leaves)
        && spec_parent_idx(idx, leaves) < nodes.len() {
        seq![(nodes[spec_sibling_idx(idx)], idx % 2 != 0)]
            + spec_path(nodes, leaves, spec_parent_idx(idx, leaves))
    } else {
        Seq::empty()
    }
}

/// Walking up from any non-root position strictly increases the index, lands
/// in the internal region, and never passes the root.
pub proof fn lemma_parent_step(idx: int, leaves: int)
    requires
        1 <= leaves,
        0 <= idx < 2 * leaves - 2,
    ensures
        idx < spec_parent_idx(idx, leaves),
        leaves <= spec_parent_idx(idx, leaves) <= 2 * leaves - 2,
{
    lemma_fundamental_div_mod(idx, 2);
}

/// A binary Merkle tree over a fixed byte buffer, stored as one flat array of
/// hashes. Built once; read-only afterwards.
pub struct MerkleTree {
    nodes: Vec<Node>,
    leaves: usize,
}

impl View for MerkleTree {
    type V = Seq<Seq<u8>>;

    /// The stored node hashes, in flat-array order.
    closed spec fn view(&self) -> Seq<Seq<u8>> {
        self.nodes@.map(|_i: int, n: Node| n@)
    }
}

impl MerkleTree {
    /// The leaf count fixed at construction.
    pub closed spec fn spec_leaves(&self) -> int {
        self.leaves as int
    }

    /// Layout invariant: a power-of-two number of leaves, `2*leaves - 1` nodes
    /// in all, and every internal node is the pair hash of its two children,
    /// left child first.
    pub open spec fn wf(&self) -> bool {
        &&& 1 <= self.spec_leaves()
        &&& is_pow2(self.spec_leaves())
        &&& self@.len() == 2 * self.spec_leaves() - 1
        &&& forall|i: int|
            self.spec_leaves() <= i < self@.len() ==> (#[trigger] self@[i]) == spec_hash_pair(
                self@[spec_left_idx(i, self.spec_leaves())],
                self@[spec_right_idx(i, self.spec_leaves())],
            )
    }

    /// Builds the tree over `data` split into `leaves` equal chunks: the
    /// chunks are hashed into leaf nodes in input order, then sibling pairs
    /// are combined bottom-up, appending each parent at the next free index,
    /// until the root is appended last.
    ///
    /// The caller must supply a power-of-two leaf count that evenly divides
    /// the data length, with at least one byte per chunk; the node array
    /// (`2*leaves - 1` entries) must be addressable.
    pub fn new(data: &[u8], leaves: usize) -> (t: MerkleTree)
        requires
            1 <= leaves,
            is_pow2(leaves as int),
            leaves <= data@.len(),
            data@.len() as int % leaves as int == 0,
            2 * leaves - 1 <= usize::MAX,
        ensures
            t.wf(),
            t.spec_leaves() == leaves,
            t@.len() == 2 * leaves - 1,
            forall|i: int|
                0 <= i < leaves ==> (#[trigger] t@[i]) == sha256_of(
                    spec_chunk(data@, leaves as int, i),
                ),
    {
        let data_len = data.len();
        let chunk_size = data_len / leaves;
        proof {
            lemma_fundamental_div_mod(data@.len() as int, leaves as int);
        }
        let mut nodes: Vec<Node> = Vec::new();
        let mut i: usize = 0;
        while i < leaves
            invariant
                i <= leaves,
                1 <= leaves,
                data_len == data@.len(),
                chunk_size == data@.len() as int / leaves as int,
                leaves * chunk_size == data@.len(),
                nodes@.len() == i,
                forall|j: int|
                    0 <= j < i ==> (#[trigger] nodes@[j])@ == sha256_of(
                        spec_chunk(data@, leaves as int, j),
                    ),
            decreases leaves - i,
        {
            proof {
                lemma_mul_inequality(i as int, i as int + 1, chunk_size as int);
                lemma_mul_inequality(i as int + 1, leaves as int, chunk_size as int);
            }
            let chunk = slice_subrange(data, i * chunk_size, (i + 1) * chunk_size);
            nodes.push(Node::as_leaf(chunk));
            i += 1;
        }
        let mut idx: usize = 0;
        while idx < leaves - 1
            invariant
                idx <= leaves - 1,
                1 <= leaves,
                2 * leaves - 1 <= usize::MAX,
                nodes@.len() == leaves + idx,
                forall|j: int|
                    0 <= j < leaves ==> (#[trigger] nodes@[j])@ == sha256_of(
                        spec_chunk(data@, leaves as int, j),
                    ),
                forall|j: int|
                    leaves <= j < leaves + idx ==> (#[trigger] nodes@[j])@ == spec_hash_pair(
                        nodes@[spec_left_idx(j, leaves as int)]@,
                        nodes@[spec_right_idx(j, leaves as int)]@,
                    ),
            decreases leaves - 1 - idx,
        {
            let parent = Node::as_parent(&nodes[2 * idx + 1], &nodes[2 * idx]);
            nodes.push(parent);
            idx += 1;
        }
        MerkleTree { nodes, leaves }
    }

    /// The leaf count.
    pub fn leaves(&self) -> (r: usize)
        ensures
            r == self.spec_leaves(),
    {
        self.leaves
    }

    /// The total number of stored nodes, leaves and internal nodes together.
    pub fn size(&self) -> (r: usize)
        ensures
            r == self@.len(),
    {
        self.nodes.len()
    }

    /// The root hash: the last node appended, the commitment to the whole
    /// buffer.
    pub fn root(&self) -> (r: [u8; 32])
        requires
            self.wf(),
        ensures
            r@ == self@[self@.len() - 1],
    {
        let last = self.size() - 1;
        self.nodes[last].value
    }

    /// The hash stored at position `idx` of the flat array.
    pub fn node(&self, idx: usize) -> (r: [u8; 32])
        requires
            idx < self@.len(),
        ensures
            r@ == self@[idx as int],
    {
        self.nodes[idx].value
    }

    /// Collects the proof path from position `idx` to the root: at each level
    /// the sibling's hash, and a flag that is true when the current node sits
    /// at an odd position, i.e. is the right-hand operand of its pair.
    pub fn path(&self, idx: usize) -> (r: Vec<([u8; 32], bool)>)
        requires
            self.wf(),
            idx < self@.len(),
        ensures
            entries_view(r@) == spec_path(self@, self.spec_leaves(), idx as int),
    {
        let mut hashes: Vec<([u8; 32], bool)> = Vec::new();
        let mut cidx: usize = idx;
        while cidx != self.size() - 1
            invariant
                self.wf(),
                cidx < self@.len(),
                spec_path(self@, self.spec_leaves(), idx as int) == entries_view(hashes@)
                    + spec_path(self@, self.spec_leaves(), cidx as int),
            decreases self@.len() - cidx,
        {
            proof {
                lemma_parent_step(cidx as int, self.spec_leaves());
            }
            let sib = self.sibling_idx(cidx);
            let entry = (self.nodes[sib].value, cidx % 2 != 0);
            hashes.push(entry);
            proof {
                let l = self.spec_leaves();
                let head = seq![(self@[spec_sibling_idx(cidx as int)], cidx as int % 2 != 0)];
                assert(entries_view(hashes@) =~= entries_view(hashes@.drop_last()) + head);
                assert(entries_view(hashes@.drop_last()) + (head + spec_path(
                    self@,
                    l,
                    spec_parent_idx(cidx as int, l),
                )) =~= entries_view(hashes@) + spec_path(self@, l, spec_parent_idx(cidx as int, l)));
            }
            cidx = self.parent_idx(cidx);
        }
        proof {
            assert(spec_path(self@, self.spec_leaves(), cidx as int) =~= Seq::<
                (Seq<u8>, bool),
            >::empty());
            assert(entries_view(hashes@) + spec_path(self@, self.spec_leaves(), cidx as int)
                =~= entries_view(hashes@));
        }
        hashes
    }

    /// Produces an inclusion proof for `item` claimed to sit at position
    /// `idx`: the proof path from `idx` to the root. Returns no proof — a
    /// legitimate negative result, not an error — when `idx` is out of range
    /// or `item`'s hash differs from the stored node.
    pub fn inclusion_proof(&self, item: &[u8], idx: usize) -> (r: Option<Vec<([u8; 32], bool)>>)
        requires
            self.wf(),
        ensures
            r is Some <==> idx < self@.len() && sha256_of(item@) == self@[idx as int],
            r matches Some(p) ==> entries_view(p@) == spec_path(
                self@,
                self.spec_leaves(),
                idx as int,
            ),
    {
        if idx >= self.size() {
            None
        } else {
            let h = hash_data(item);
            if crate::hashing::hash_eq(&h, &self.nodes[idx].value) {
                Some(self.path(idx))
            } else {
                None
            }
        }
    }

    /// Position of the parent of the node at `idx`; valid for every position
    /// but the root.
    pub fn parent_idx(&self, idx: usize) -> (r: usize)
        requires
            self.wf(),
            idx < self@.len() - 1,
        ensures
            r == spec_parent_idx(idx as int, self.spec_leaves()),
            idx < r < self@.len(),
    {
        let total = self.size();
        proof {
            lemma_parent_step(idx as int, self.spec_leaves());
            assert(spec_parent_idx(idx as int, self.spec_leaves()) < total);
        }
        idx / 2 + self.leaves
    }

    /// Position of the sibling of the node at `idx`: the odd neighbour of an
    /// even position and the even neighbour of an odd one.
    pub fn sibling_idx(&self, idx: usize) -> (r: usize)
        requires
            idx % 2 == 0 ==> idx + 1 <= usize::MAX,
        ensures
            r == spec_sibling_idx(idx as int),
    {
        if idx % 2 == 0 {
            idx + 1
        } else {
            idx - 1
        }
    }

    /// Position of the left child of the internal node at `idx`; valid only
    /// for the internal region, `idx >= leaves`.
    pub fn left_idx(&self, idx: usize) -> (r: usize)
        requires
            self.wf(),
            self.spec_leaves() <= idx < self@.len(),
        ensures
            r == spec_left_idx(idx as int, self.spec_leaves()),
            r < idx,
    {
        2 * (idx - self.leaves) + 1
    }

    /// Position of the right child of the internal node at `idx`; valid only
    /// for the internal region, `idx >= leaves`.
    pub fn right_idx(&self, idx: usize) -> (r: usize)
        requires
            self.wf(),
            self.spec_leaves() <= idx < self@.len(),
        ensures
            r == spec_right_idx(idx as int, self.spec_leaves()),
            r < idx,
    {
        2 * (idx - self.leaves)
    }
}

} // verus!
