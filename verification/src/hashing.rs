//! Hash primitives: a 256-bit digest of a byte chunk (leaf hash) and of the
//! concatenation of two digests in a fixed order (pair hash).

use sha2::Digest;
use sha2::Sha256;
use vstd::prelude::*;

verus! {

/// The SHA-256 digest of a byte sequence, left abstract: contracts and proofs
/// use only that it is a function of its input.
pub uninterp spec fn sha256_of(bytes: Seq<u8>) -> Seq<u8>;

/// The hash of two digests combined: the left operand's bytes first, then the
/// right operand's, concatenated before hashing. The operand order matters and
/// must match exactly between tree construction and proof verification.
pub open spec fn spec_hash_pair(left: Seq<u8>, right: Seq<u8>) -> Seq<u8> {
    sha256_of(left + right)
}

/// Relies on sha2's `Sha256`: `update` then `finalize` computes the SHA-256
/// digest of the bytes fed in, 32 bytes, a deterministic function of the input.
#[verifier::external_body]
pub fn hash_data(data: &[u8]) -> (r: [u8; 32])
    ensures
        r@ == sha256_of(data@),
{
    let mut hasher = Sha256::new();
    hasher.update(data);
    hasher.finalize().into()
}

/// Relies on sha2's `Sha256`: feeding two byte slices to one hasher digests
/// their concatenation, so the result is the digest of `left ++ right`.
#[verifier::external_body]
pub fn hash_pair(left_data: &[u8; 32], right_data: &[u8; 32]) -> (r: [u8; 32])
    ensures
        r@ == spec_hash_pair(left_data@, right_data@),
{
    let mut hasher = Sha256::new();
    hasher.update(left_data);
    hasher.update(right_data);
    hasher.finalize().into()
}

/// One slot of the tree: a 256-bit hash. Leaf and internal nodes carry the
/// same shape; the distinction is positional, not structural.
pub struct Node {
    pub value: [u8; 32],
}

impl View for Node {
    type V = Seq<u8>;

    /// The digest this node holds.
    open spec fn view(&self) -> Seq<u8> {
        self.value@
    }
}

impl Node {
    pub fn new(value: [u8; 32]) -> (n: Node)
        ensures
            n@ == value@,
    {
        Node { value }
    }

    /// A leaf node: the hash of one input data chunk.
    pub fn as_leaf(data: &[u8]) -> (n: Node)
        ensures
            n@ == sha256_of(data@),
    {
        Node::new(hash_data(data))
    }

    /// An internal node: the hash of its two children's combined hashes,
    /// left child's bytes first.
    pub fn as_parent(left: &Node, right: &Node) -> (n: Node)
        ensures
            n@ == spec_hash_pair(left@, right@),
    {
        Node::new(hash_pair(&left.value, &right.value))
    }
}

/// Constant-shape comparison of two digests, byte by byte.
pub(crate) fn hash_eq(a: &[u8; 32], b: &[u8; 32]) -> (r: bool)
    ensures
        r == (a@ == b@),
{
    let mut i: usize = 0;
    while i < 32
        invariant
            i <= 32,
            forall|j: int| 0 <= j < i ==> a@[j] == b@[j],
        decreases 32 - i,
    {
        if a[i] != b[i] {
            return false;
        }
        i += 1;
    }
    proof {
        assert(a@ =~= b@);
    }
    true
}

} // verus!
