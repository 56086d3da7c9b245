//! Right-sparse Merkle tree.
//!
//! Efficiently represents a Merkle tree of fixed depth where only the first N
//! indices are populated by non-zero leaves (suited to a deposit contract
//! tree): unused capacity is carried as `Zero` subtrees whose roots are the
//! canonical zero hashes, never materialized node by node.

use vstd::prelude::*;
use vstd::arithmetic::power2::{pow2, lemma_pow2_unfold, lemma_pow2_pos};
use vstd::bits::{lemma_u64_shl_is_mul, lemma_u64_pow2_no_overflow};
use crate::hashing::{
    Hash256, hash2, zero32, zero_hash, hash_concat, zero_hash_exec, clone_bytes, bytes_eq,
};

verus! {

/// Right-sparse Merkle tree of a fixed depth.
pub enum MerkleTree {
    /// Leaf node with the hash of its content.
    Leaf(Hash256),
    /// Internal node with its hash, left subtree and right subtree.
    Node(Hash256, Box<MerkleTree>, Box<MerkleTree>),
    /// Zero subtree of a given depth: a Merkle tree of `2^depth` zero leaves.
    Zero(usize),
}

impl MerkleTree {
    /// Number of levels below this node.
    pub open spec fn height(self) -> nat
        decreases self,
    {
        match self {
            MerkleTree::Leaf(_) => 0,
            MerkleTree::Zero(d) => d as nat,
            MerkleTree::Node(_, l, _) => 1 + (*l).height(),
        }
    }

    /// Every stored node hash is the hash of its children's roots, and the two
    /// subtrees of a node are of equal height.
    pub open spec fn wf(self) -> bool
        decreases self,
    {
        match self {
            MerkleTree::Leaf(_) => true,
            MerkleTree::Zero(_) => true,
            MerkleTree::Node(h, l, r) => (*l).wf() && (*r).wf() && (*l).height() == (*r).height()
                && h@ == hash2((*l).root_spec(), (*r).root_spec()),
        }
    }

    /// The root hash this node stands for.
    pub open spec fn root_spec(self) -> Seq<u8> {
        match self {
            MerkleTree::Leaf(h) => h@,
            MerkleTree::Zero(d) => zero_hash(d as nat),
            MerkleTree::Node(h, _, _) => h@,
        }
    }

    /// The full bottom row under this node, left to right, zero subtrees
    /// expanded into runs of zero leaves.
    pub open spec fn leaf_seq(self) -> Seq<Seq<u8>>
        decreases self,
    {
        match self {
            MerkleTree::Leaf(h) => seq![h@],
            MerkleTree::Zero(d) => Seq::new(pow2(d as nat), |i: int| zero32()),
            MerkleTree::Node(_, l, r) => (*l).leaf_seq() + (*r).leaf_seq(),
        }
    }

    /// A well-formed tree of height `h` has exactly `2^h` bottom-row slots.
    pub proof fn lemma_leaf_seq_len(self)
        requires
            self.wf(),
        ensures
            self.leaf_seq().len() == pow2(self.height()),
        decreases self,
    {
        match self {
            MerkleTree::Leaf(_) => {
                assert(pow2(0) == 1) by {
                    vstd::arithmetic::power2::lemma2_to64();
                }
            }
            MerkleTree::Zero(_) => {}
            MerkleTree::Node(_, l, r) => {
                (*l).lemma_leaf_seq_len();
                (*r).lemma_leaf_seq_len();
                lemma_pow2_unfold(self.height());
            }
        }
    }

    /// Create a new Merkle tree from a list of leaves and a fixed depth.
    pub fn create(leaves: &[Hash256], depth: usize) -> (r: Self)
        requires
            depth <= 62,
            leaves@.len() <= pow2(depth as nat),
        ensures
            r.wf(),
            r.height() == depth,
            r.leaf_seq().len() == pow2(depth as nat),
            forall|i: int| 0 <= i < leaves@.len() ==> r.leaf_seq()[i] == leaves@[i]@,
            forall|i: int|
                leaves@.len() <= i < pow2(depth as nat) ==> r.leaf_seq()[i] == zero32(),
    {
        let r = Self::create_range(leaves, 0, leaves.len(), depth);
        proof {
            r.lemma_leaf_seq_len();
        }
        r
    }

    /// Build the subtree of depth `depth` holding `leaves[start..end]`,
    /// zero-padded on the right.
    fn create_range(leaves: &[Hash256], start: usize, end: usize, depth: usize) -> (r: Self)
        requires
            start <= end <= leaves@.len(),
            depth <= 62,
            end - start <= pow2(depth as nat),
        ensures
            r.wf(),
            r.height() == depth,
            forall|i: int|
                0 <= i < end - start ==> r.leaf_seq()[i] == leaves@[start + i]@,
            forall|i: int|
                end - start <= i < pow2(depth as nat) ==> r.leaf_seq()[i] == zero32(),
        decreases depth,
    {
        if start == end {
            return MerkleTree::Zero(depth);
        }
        if depth == 0 {
            proof {
                vstd::arithmetic::power2::lemma2_to64();
            }
            let r = MerkleTree::Leaf(clone_bytes(&leaves[start]));
            return r;
        }
        proof {
            lemma_pow2_unfold(depth as nat);
            lemma_u64_pow2_no_overflow((depth - 1) as nat);
            lemma_u64_shl_is_mul(1u64, (depth - 1) as u64);
            lemma_pow2_pos((depth - 1) as nat);
        }
        let half: u64 = 1u64 << ((depth - 1) as u64);
        let span: u64 = (end as u64) - (start as u64);
        let mid: usize = if span <= half {
            end
        } else {
            // half < span <= 2 * half <= 2^62, and start + half <= end fits.
            start + (half as usize)
        };
        let left = Self::create_range(leaves, start, mid, depth - 1);
        let right = Self::create_range(leaves, mid, end, depth - 1);
        let ghost gleft = left;
        let ghost gright = right;
        let lh = left.hash();
        let rh = right.hash();
        let h = hash_concat(&lh, &rh);
        let r = MerkleTree::Node(h, Box::new(left), Box::new(right));
        proof {
            let full = pow2((depth - 1) as nat) as int;
            gleft.lemma_leaf_seq_len();
            gright.lemma_leaf_seq_len();
            assert(r.leaf_seq() == gleft.leaf_seq() + gright.leaf_seq());
            assert forall|i: int| 0 <= i < end - start implies r.leaf_seq()[i] == leaves@[start
                + i]@ by {
                if i < full {
                    assert(r.leaf_seq()[i] == gleft.leaf_seq()[i]);
                } else {
                    assert(r.leaf_seq()[i] == gright.leaf_seq()[i - full]);
                }
            }
            assert forall|i: int|
                end - start <= i < pow2(depth as nat) implies r.leaf_seq()[i] == zero32() by {
                if i < full {
                    assert(r.leaf_seq()[i] == gleft.leaf_seq()[i]);
                } else {
                    assert(r.leaf_seq()[i] == gright.leaf_seq()[i - full]);
                }
            }
        }
        r
    }

    /// Retrieve the root hash of this Merkle tree.
    pub fn hash(&self) -> (r: Hash256)
        ensures
            r@ == self.root_spec(),
    {
        match self {
            MerkleTree::Leaf(h) => clone_bytes(h),
            MerkleTree::Node(h, _, _) => clone_bytes(h),
            MerkleTree::Zero(d) => zero_hash_exec(*d),
        }
    }

    /// Copy of this tree, node for node.
    fn clone_tree(&self) -> (r: Self)
        ensures
            r.height() == self.height(),
            r.root_spec() == self.root_spec(),
            r.leaf_seq() == self.leaf_seq(),
            self.wf() ==> r.wf(),
        decreases self,
    {
        match self {
            MerkleTree::Leaf(h) => {
                let r = MerkleTree::Leaf(clone_bytes(h));
                proof {
                    assert(r.leaf_seq() =~= self.leaf_seq());
                }
                r
            }
            MerkleTree::Zero(d) => MerkleTree::Zero(*d),
            MerkleTree::Node(h, l, r) => {
                let lc = l.clone_tree();
                let rc = r.clone_tree();
                let out = MerkleTree::Node(clone_bytes(h), Box::new(lc), Box::new(rc));
                proof {
                    assert(out.leaf_seq() =~= self.leaf_seq());
                }
                out
            }
        }
    }

    /// Whether this node has subtrees: an internal node always, a zero
    /// subtree above the bottom level, a leaf never.
    pub open spec fn has_branches(self) -> bool {
        match self {
            MerkleTree::Leaf(_) => false,
            MerkleTree::Node(_, _, _) => true,
            MerkleTree::Zero(d) => d > 0,
        }
    }

    /// Get the left and right subtrees if they exist; the two halves of a zero
    /// subtree are zero subtrees one level down.
    pub fn left_and_right_branches(&self) -> (res: Option<(Self, Self)>)
        ensures
            res is Some <==> self.has_branches(),
            res matches Some(p) ==> self.wf() ==> {
                &&& p.0.height() == self.height() - 1
                &&& p.1.height() == self.height() - 1
                &&& p.0.wf()
                &&& p.1.wf()
                &&& self.leaf_seq() == p.0.leaf_seq() + p.1.leaf_seq()
                &&& self.root_spec() == hash2(p.0.root_spec(), p.1.root_spec())
            },
    {
        match self {
            MerkleTree::Leaf(_) => None,
            MerkleTree::Node(_, l, r) => Some((l.clone_tree(), r.clone_tree())),
            MerkleTree::Zero(d) => {
                if *d == 0 {
                    None
                } else {
                    let res = Some((MerkleTree::Zero(*d - 1), MerkleTree::Zero(*d - 1)));
                    proof {
                        lemma_pow2_unfold(*d as nat);
                        assert(self.leaf_seq() =~= MerkleTree::Zero((*d - 1) as usize).leaf_seq()
                            + MerkleTree::Zero((*d - 1) as usize).leaf_seq());
                    }
                    res
                }
            }
        }
    }

    /// Is this Merkle tree a leaf?
    pub fn is_leaf(&self) -> (r: bool)
        ensures
            r == (self matches MerkleTree::Leaf(_)),
    {
        match self {
            MerkleTree::Leaf(_) => true,
            _ => false,
        }
    }

    /// Return the leaf at `index` and a Merkle proof of its inclusion.
    ///
    /// The proof is in bottom-up order, starting beside the leaf and moving up
    /// the tree; its length equals `depth` exactly.
    pub fn generate_proof(&self, index: usize, depth: usize) -> (res: (Hash256, Vec<Hash256>))
        requires
            self.wf(),
            self.height() == depth,
            depth <= 62,
            (index as nat) < pow2(depth as nat),
        ensures
            res.1@.len() == depth,
            res.0@ == self.leaf_seq()[index as int],
            root_from_branch_spec(res.0@, res.1.deep_view(), index as nat) == self.root_spec(),
    {
        self.generate_proof_u64(index as u64, depth)
    }

    /// `generate_proof` with the index carried as a 64-bit number.
    fn generate_proof_u64(&self, index: u64, depth: usize) -> (res: (Hash256, Vec<Hash256>))
        requires
            self.wf(),
            self.height() == depth,
            depth <= 62,
            (index as nat) < pow2(depth as nat),
        ensures
            res.1@.len() == depth,
            res.0@ == self.leaf_seq()[index as int],
            root_from_branch_spec(res.0@, res.1.deep_view(), index as nat) == self.root_spec(),
        decreases depth,
    {
        proof {
            self.lemma_leaf_seq_len();
        }
        if depth == 0 {
            proof {
                vstd::arithmetic::power2::lemma2_to64();
            }
            let h = self.hash();
            let empty: Vec<Hash256> = Vec::new();
            proof {
                assert(empty.deep_view() =~= Seq::<Seq<u8>>::empty());
                assert(!(self matches MerkleTree::Node(_, _, _)));
            }
            return (h, empty);
        }
        proof {
            lemma_pow2_unfold(depth as nat);
            lemma_u64_pow2_no_overflow((depth - 1) as nat);
            lemma_u64_shl_is_mul(1u64, (depth - 1) as u64);
            lemma_pow2_pos((depth - 1) as nat);
        }
        let half: u64 = 1u64 << ((depth - 1) as u64);
        match self {
            MerkleTree::Node(_, l, r) => {
                proof {
                    (**l).lemma_leaf_seq_len();
                    (**r).lemma_leaf_seq_len();
                }
                if index < half {
                    let (leaf, mut branch) = l.generate_proof_u64(index, depth - 1);
                    let ghost cb = branch.deep_view();
                    let sib = r.hash();
                    branch.push(sib);
                    proof {
                        assert(branch.deep_view() =~~= cb.push(sib@));
                        assert(branch.deep_view().drop_last() =~= cb);
                    }
                    (leaf, branch)
                } else {
                    let (leaf, mut branch) = r.generate_proof_u64(index - half, depth - 1);
                    let ghost cb = branch.deep_view();
                    let sib = l.hash();
                    branch.push(sib);
                    proof {
                        assert(branch.deep_view() =~~= cb.push(sib@));
                        assert(branch.deep_view().drop_last() =~= cb);
                        assert(self.leaf_seq()[index as int] == (**r).leaf_seq()[index - half]);
                    }
                    (leaf, branch)
                }
            }
            MerkleTree::Zero(_) => {
                let child = MerkleTree::Zero(depth - 1);
                proof {
                    child.lemma_leaf_seq_len();
                }
                let inner: u64 = if index < half {
                    index
                } else {
                    index - half
                };
                let (leaf, mut branch) = child.generate_proof_u64(inner, depth - 1);
                let ghost cb = branch.deep_view();
                let sib = zero_hash_exec(depth - 1);
                branch.push(sib);
                proof {
                    assert(branch.deep_view() =~~= cb.push(sib@));
                    assert(branch.deep_view().drop_last() =~= cb);
                    assert(self.leaf_seq()[index as int] == zero32());
                }
                (leaf, branch)
            }
            MerkleTree::Leaf(_) => {
                proof {
                    assert(false);
                }
                (self.hash(), Vec::new())
            }
        }
    }
}

/// The root a verifier reconstructs from a leaf and a bottom-up branch of
/// sibling hashes: at each level the running hash is combined with the next
/// sibling, on the side the corresponding bit of `index` selects.
pub open spec fn root_from_branch_spec(leaf: Seq<u8>, branch: Seq<Seq<u8>>, index: nat) -> Seq<u8>
    decreases branch.len(),
{
    if branch.len() == 0 {
        leaf
    } else {
        let sib = branch.last();
        let rest = branch.drop_last();
        let half = pow2(rest.len());
        if index >= half {
            hash2(sib, root_from_branch_spec(leaf, rest, (index - half) as nat))
        } else {
            hash2(root_from_branch_spec(leaf, rest, index), sib)
        }
    }
}

/// Compute a root hash from a leaf and a Merkle proof.
pub fn merkle_root_from_branch(
    leaf: &Hash256,
    branch: &[Hash256],
    depth: usize,
    index: u64,
) -> (r: Hash256)
    requires
        branch@.len() == depth,
        depth <= 62,
        (index as nat) < pow2(depth as nat),
    ensures
        r@ == root_from_branch_spec(leaf@, branch.deep_view(), index as nat),
{
    proof {
        assert(branch.deep_view().take(depth as int) =~= branch.deep_view());
    }
    merkle_root_from_branch_range(leaf, branch, depth, index)
}

/// Reconstruct the root over `branch[..depth]` only.
fn merkle_root_from_branch_range(
    leaf: &Hash256,
    branch: &[Hash256],
    depth: usize,
    index: u64,
) -> (r: Hash256)
    requires
        depth <= branch@.len(),
        depth <= 62,
        (index as nat) < pow2(depth as nat),
    ensures
        r@ == root_from_branch_spec(leaf@, branch.deep_view().take(depth as int), index as nat),
    decreases depth,
{
    if depth == 0 {
        proof {
            assert(branch.deep_view().take(0) =~= Seq::<Seq<u8>>::empty());
        }
        return clone_bytes(leaf);
    }
    proof {
        lemma_pow2_unfold(depth as nat);
        lemma_u64_pow2_no_overflow((depth - 1) as nat);
        lemma_u64_shl_is_mul(1u64, (depth - 1) as u64);
        lemma_pow2_pos((depth - 1) as nat);
        assert(branch.deep_view().take(depth as int).drop_last() =~= branch.deep_view().take(
            depth as int - 1,
        ));
    }
    let half: u64 = 1u64 << ((depth - 1) as u64);
    let sib = &branch[depth - 1];
    proof {
        assert(branch.deep_view().take(depth as int).last() =~= sib@);
    }
    if index >= half {
        let inner = merkle_root_from_branch_range(leaf, branch, depth - 1, index - half);
        hash_concat(sib, &inner)
    } else {
        let inner = merkle_root_from_branch_range(leaf, branch, depth - 1, index);
        hash_concat(&inner, sib)
    }
}

/// Verify a proof that `leaf` exists at `index` in a Merkle tree rooted at
/// `root`. The `branch` must list the sibling hashes in bottom-up order; a
/// branch of the wrong length is rejected outright.
pub fn verify_merkle_proof(
    leaf: Hash256,
    branch: &[Hash256],
    depth: usize,
    index: u64,
    root: Hash256,
) -> (r: bool)
    requires
        depth <= 62,
        (index as nat) < pow2(depth as nat),
    ensures
        r == (branch@.len() == depth && root_from_branch_spec(
            leaf@,
            branch.deep_view(),
            index as nat,
        ) =~= root@),
{
    if branch.len() == depth {
        let reconstructed = merkle_root_from_branch(&leaf, branch, depth, index);
        bytes_eq(&reconstructed, &root)
    } else {
        false
    }
}

/// Smallest number of bits `d` so that `n <= 2^d`.
pub fn int_log(n: usize) -> (r: usize)
    ensures
        n <= pow2(r as nat),
        r > 0 ==> pow2((r - 1) as nat) < n,
        r <= 64,
{
    let target: u64 = n as u64;
    let mut d: u64 = 0;
    let mut cap: u64 = 1;
    proof {
        vstd::arithmetic::power2::lemma2_to64();
    }
    while cap < target
        invariant
            d <= 63,
            cap == pow2(d as nat),
            d > 0 ==> pow2((d - 1) as nat) < target,
            target == n,
        decreases 64 - d,
    {
        if d == 63 {
            // n is above 2^63; the next power of two is 2^64.
            proof {
                vstd::arithmetic::power2::lemma2_to64_rest();
            }
            return 64;
        }
        proof {
            lemma_pow2_unfold((d + 1) as nat);
            lemma_u64_pow2_no_overflow((d + 1) as nat);
        }
        cap = cap * 2;
        d = d + 1;
    }
    d as usize
}

} // verus!
