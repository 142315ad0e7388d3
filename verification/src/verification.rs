//! Proof verification by hash replay, independent of any tree instance: the
//! side of the protocol that holds only the root.

use vstd::arithmetic::div_mod::lemma_fundamental_div_mod;
use vstd::prelude::*;

use crate::hashing::hash_data;
use crate::hashing::hash_eq;
use crate::hashing::hash_pair;
use crate::hashing::sha256_of;
use crate::hashing::spec_hash_pair;
use crate::tree::lemma_parent_step;
use crate::tree::spec_left_idx;
use crate::tree::spec_parent_idx;
use crate::tree::spec_path;
use crate::tree::spec_right_idx;
use crate::tree::spec_sibling_idx;
use crate::tree::MerkleTree;

verus! {

/// The mathematical shape of a proof: for each level, the sibling's digest
/// and whether the node being verified is the right-hand operand there.
pub open spec fn entries_view(entries: Seq<([u8; 32], bool)>) -> Seq<(Seq<u8>, bool)> {
    entries.map(|_i: int, e: ([u8; 32], bool)| (e.0@, e.1))
}

/// Replays a proof: starting from `candidate`, folds in each sibling digest
/// on the side its flag names, and returns the digest that results.
pub open spec fn spec_replay(candidate: Seq<u8>, entries: Seq<(Seq<u8>, bool)>) -> Seq<u8>
    decreases entries.len(),
{
    if entries.len() == 0 {
        candidate
    } else {
        let next = if entries[0].1 {
            spec_hash_pair(candidate, entries[0].0)
        } else {
            spec_hash_pair(entries[0].0, candidate)
        };
        spec_replay(next, entries.subrange(1, entries.len() as int))
    }
}

/// Recomputes the root from a claimed leaf value and a proof path, and
/// compares it against the expected root. Total: a malformed proof simply
/// produces a mismatching candidate and yields `false`.
pub fn verify_proof(item: &[u8], root: [u8; 32], entries: &Vec<([u8; 32], bool)>) -> (r: bool)
    ensures
        r == (spec_replay(sha256_of(item@), entries_view(entries@)) == root@),
{
    let mut candidate = hash_data(item);
    let n = entries.len();
    proof {
        assert(entries_view(entries@).skip(0) =~= entries_view(entries@));
    }
    let mut i: usize = 0;
    while i < n
        invariant
            n == entries@.len(),
            i <= n,
            spec_replay(sha256_of(item@), entries_view(entries@)) == spec_replay(
                candidate@,
                entries_view(entries@).skip(i as int),
            ),
        decreases n - i,
    {
        let hash = entries[i].0;
        let parity = entries[i].1;
        let ghost before = candidate@;
        if parity {
            candidate = hash_pair(&candidate, &hash);
        } else {
            candidate = hash_pair(&hash, &candidate);
        }
        proof {
            let ev = entries_view(entries@);
            let tail = ev.skip(i as int);
            assert(tail[0] == (hash@, parity));
            assert(tail.subrange(1, tail.len() as int) =~= ev.skip(i + 1));
            assert(spec_replay(before, tail) == spec_replay(candidate@, ev.skip(i + 1)));
        }
        i += 1;
    }
    proof {
        assert(entries_view(entries@).skip(n as int) =~= Seq::<(Seq<u8>, bool)>::empty());
    }
    hash_eq(&candidate, &root)
}

/// Replaying the path extracted from any position, starting from that node's
/// own digest, reproduces the root: construction order and replay order agree
/// level by level.
proof fn lemma_replay_to_root(t: &MerkleTree, idx: int)
    requires
        t.wf(),
        0 <= idx < t@.len(),
    ensures
        spec_replay(t@[idx], spec_path(t@, t.spec_leaves(), idx)) == t@[t@.len() - 1],
    decreases t@.len() - idx,
{
    let l = t.spec_leaves();
    let n = t@.len() as int;
    if idx == n - 1 {
        assert(spec_path(t@, l, idx) =~= Seq::<(Seq<u8>, bool)>::empty());
    } else {
        lemma_parent_step(idx, l);
        lemma_fundamental_div_mod(idx, 2);
        let p = spec_parent_idx(idx, l);
        let s = spec_sibling_idx(idx);
        let head = (t@[s], idx % 2 != 0);
        let rest = spec_path(t@, l, p);
        let full = seq![head] + rest;
        assert(spec_path(t@, l, idx) == full);
        assert(t@[p] == spec_hash_pair(t@[spec_left_idx(p, l)], t@[spec_right_idx(p, l)]));
        let next = if head.1 {
            spec_hash_pair(t@[idx], head.0)
        } else {
            spec_hash_pair(head.0, t@[idx])
        };
        assert(next == t@[p]);
        assert(full[0] == head);
        assert(full.subrange(1, full.len() as int) =~= rest);
        assert(spec_replay(t@[idx], full) == spec_replay(next, rest));
        lemma_replay_to_root(t, p);
    }
}

/// Round trip: for a matching item and position — the item's hash equals the
/// stored node — replaying the extracted proof path from the item's hash
/// reproduces the root, so verification against the tree's root succeeds.
pub proof fn lemma_proof_round_trip(t: &MerkleTree, item: Seq<u8>, idx: int)
    requires
        t.wf(),
        0 <= idx < t@.len(),
        sha256_of(item) == t@[idx],
    ensures
        spec_replay(sha256_of(item), spec_path(t@, t.spec_leaves(), idx)) == t@[t@.len() - 1],
{
    lemma_replay_to_root(t, idx);
}

} // verus!
