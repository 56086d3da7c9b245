//! Persistent validator registry tree.
//!
//! A copy-on-write binary tree mapping validator index to validator record.
//! Updates never mutate in place: they rebuild the path from the changed leaf
//! to the root and share every untouched subtree with the previous version,
//! so retaining or rolling back to an earlier state is cheap. Every node
//! carries its hash, fixed at construction — a node's children never change,
//! so no invalidation is ever needed.

use std::sync::Arc;
use vstd::prelude::*;
use vstd::arithmetic::power2::{pow2, lemma_pow2_unfold, lemma_pow2_pos};
use vstd::bits::{lemma_u64_shl_is_mul, lemma_u64_pow2_no_overflow};
use crate::hashing::{Hash256, hash2, zero_hash, sha256_of, u64_le_bytes, u64_le_bytes_exec,
    hash_concat, zero_hash_exec, clone_bytes, concat, sha256};
use crate::validator::{Validator, ValidatorView, validator_root, compute_validator_root};

verus! {

/// How a registry update can fail: the addressed slot lies beyond the tree.
#[derive(Debug, Clone, Copy, PartialEq, Eq, Structural)]
pub enum ValidatorTreeError {
    Oops,
}

/// A leaf: one validator record beside its hash-tree root.
pub struct ValidatorLeaf {
    pub hash: Hash256,
    pub value: Validator,
}

impl ValidatorLeaf {
    /// Leaf for a record, its root computed once, here.
    pub fn new(validator: Validator) -> (r: Self)
        ensures
            r.hash@ == validator_root(r.value@),
            r.value@ == validator@,
    {
        let hash = compute_validator_root(&validator);
        ValidatorLeaf { hash, value: validator }
    }
}

/// A node of the registry tree.
pub enum ValidatorTreeNode {
    Leaf(ValidatorLeaf),
    Node { hash: Hash256, left: Arc<ValidatorTreeNode>, right: Arc<ValidatorTreeNode> },
    Zero(usize),
}

/// Relies on `std::sync::Arc::clone`: the clone is another handle on the very
/// same node.
#[verifier::external_body]
fn arc_clone_node(v: &Arc<ValidatorTreeNode>) -> (res: Arc<ValidatorTreeNode>)
    ensures
        res == *v,
{
    v.clone()
}

impl ValidatorTreeNode {
    /// Number of levels below this node.
    pub open spec fn height(self) -> nat
        decreases self,
    {
        match self {
            ValidatorTreeNode::Leaf(_) => 0,
            ValidatorTreeNode::Zero(d) => d as nat,
            ValidatorTreeNode::Node { left, .. } => 1 + (*left).height(),
        }
    }

    /// Leaf hashes are the records' roots, node hashes are the hashes of the
    /// children's roots, and the two subtrees of a node have equal height.
    pub open spec fn wfn(self) -> bool
        decreases self,
    {
        match self {
            ValidatorTreeNode::Leaf(l) => l.hash@ == validator_root(l.value@),
            ValidatorTreeNode::Zero(_) => true,
            ValidatorTreeNode::Node { hash, left, right } => (*left).wfn() && (*right).wfn() && (
            *left).height() == (*right).height() && hash@ == hash2(
                (*left).root_spec(),
                (*right).root_spec(),
            ),
        }
    }

    /// The root hash this node stands for.
    pub open spec fn root_spec(self) -> Seq<u8> {
        match self {
            ValidatorTreeNode::Leaf(l) => l.hash@,
            ValidatorTreeNode::Zero(d) => zero_hash(d as nat),
            ValidatorTreeNode::Node { hash, .. } => hash@,
        }
    }

    /// The bottom row under this node: one slot per leaf position, occupied
    /// or empty.
    pub open spec fn slots(self) -> Seq<Option<ValidatorView>>
        decreases self,
    {
        match self {
            ValidatorTreeNode::Leaf(l) => seq![Some(l.value@)],
            ValidatorTreeNode::Zero(d) => Seq::new(pow2(d as nat), |i: int| None),
            ValidatorTreeNode::Node { left, right, .. } => (*left).slots() + (*right).slots(),
        }
    }

    /// A well-formed subtree of height `h` has exactly `2^h` slots.
    pub proof fn lemma_slots_len(&self)
        requires
            self.wfn(),
        ensures
            self.slots().len() == pow2(self.height()),
        decreases *self,
    {
        match self {
            ValidatorTreeNode::Leaf(_) => {
                assert(pow2(0) == 1) by {
                    vstd::arithmetic::power2::lemma2_to64();
                }
            }
            ValidatorTreeNode::Zero(_) => {}
            ValidatorTreeNode::Node { left, right, .. } => {
                left.lemma_slots_len();
                right.lemma_slots_len();
                lemma_pow2_unfold(self.height());
            }
        }
    }

    /// An internal node over two subtrees; its hash is fixed here, once.
    pub fn node(left: Arc<Self>, right: Arc<Self>) -> (r: Arc<Self>)
        requires
            (*left).wfn(),
            (*right).wfn(),
            (*left).height() == (*right).height(),
        ensures
            (*r).wfn(),
            (*r).height() == (*left).height() + 1,
            (*r).slots() == (*left).slots() + (*right).slots(),
            (*r).root_spec() == hash2((*left).root_spec(), (*right).root_spec()),
    {
        let lh = left.tree_hash();
        let rh = right.tree_hash();
        let hash = hash_concat(&lh, &rh);
        Arc::new(ValidatorTreeNode::Node { hash, left, right })
    }

    /// An unpopulated subtree of the given depth.
    pub fn zero(depth: usize) -> (r: Arc<Self>)
        ensures
            *r == ValidatorTreeNode::Zero(depth),
    {
        Arc::new(Self::Zero(depth))
    }

    /// A leaf holding one record.
    pub fn leaf(validator: Validator) -> (r: Arc<Self>)
        ensures
            (*r).wfn(),
            (*r).height() == 0,
            (*r).slots() == seq![Some(validator@)],
    {
        let ghost gv = validator@;
        let inner = ValidatorTreeNode::Leaf(ValidatorLeaf::new(validator));
        proof {
            assert(inner.slots() =~= seq![Some(gv)]);
        }
        Arc::new(inner)
    }

    /// Build a tree of the given depth from leaf nodes, packed to the left.
    pub fn create(leaves: Vec<Arc<Self>>, depth: usize) -> (r: Arc<Self>)
        requires
            depth <= 62,
            leaves@.len() <= pow2(depth as nat),
            forall|i: int|
                0 <= i < leaves@.len() ==> (*#[trigger] leaves@[i]).wfn() && (*leaves@[i]).height()
                    == 0,
        ensures
            (*r).wfn(),
            (*r).height() == depth,
            forall|i: int|
                0 <= i < leaves@.len() ==> (*r).slots()[i] == (*#[trigger] leaves@[i]).slots()[0],
            forall|i: int|
                leaves@.len() <= i < pow2(depth as nat) ==> (*r).slots()[i] is None,
    {
        let r = Self::create_range(&leaves, 0, leaves.len(), depth);
        proof {
            r.lemma_slots_len();
            assert forall|i: int|
                0 <= i < leaves@.len() implies (*r).slots()[i] == (*#[trigger] leaves@[i]).slots()[0] by {
                assert((*r).slots()[i] == (*leaves@[0 + i]).slots()[0]);
            }
        }
        r
    }

    /// Build the subtree of the given depth over `leaves[start..end]`.
    fn create_range(leaves: &Vec<Arc<Self>>, start: usize, end: usize, depth: usize) -> (r: Arc<
        Self,
    >)
        requires
            start <= end <= leaves@.len(),
            depth <= 62,
            end - start <= pow2(depth as nat),
            forall|i: int|
                start <= i < end ==> (*#[trigger] leaves@[i]).wfn() && (*leaves@[i]).height() == 0,
        ensures
            (*r).wfn(),
            (*r).height() == depth,
            forall|i: int|
                0 <= i < end - start ==> (*r).slots()[i] == (*#[trigger] leaves@[start + i]).slots()[0],
            forall|i: int| end - start <= i < pow2(depth as nat) ==> (*r).slots()[i] is None,
        decreases depth,
    {
        if start == end {
            let r = Self::zero(depth);
            proof {
                r.lemma_slots_len();
            }
            return r;
        }
        if depth == 0 {
            proof {
                vstd::arithmetic::power2::lemma2_to64();
            }
            let r = arc_clone_node(&leaves[start]);
            proof {
                r.lemma_slots_len();
            }
            return r;
        }
        proof {
            lemma_pow2_unfold(depth as nat);
            lemma_u64_pow2_no_overflow((depth - 1) as nat);
            lemma_u64_shl_is_mul(1u64, (depth - 1) as u64);
            lemma_pow2_pos((depth - 1) as nat);
        }
        let half: u64 = 1u64 << ((depth - 1) as u64);
        let span: u64 = (end as u64) - (start as u64);
        let mid: usize = if span <= half {
            end
        } else {
            start + (half as usize)
        };
        let left = Self::create_range(leaves, start, mid, depth - 1);
        let right = Self::create_range(leaves, mid, end, depth - 1);
        let ghost gleft = left;
        let ghost gright = right;
        proof {
            left.lemma_slots_len();
            right.lemma_slots_len();
        }
        let r = Self::node(left, right);
        proof {
            let full = pow2((depth - 1) as nat) as int;
            assert forall|i: int|
                0 <= i < end - start implies (*r).slots()[i] == (*#[trigger] leaves@[start
                + i]).slots()[0] by {
                if i < full {
                    assert((*r).slots()[i] == (*gleft).slots()[i]);
                    assert((*gleft).slots()[i] == (*leaves@[start + i]).slots()[0]);
                } else {
                    assert((*r).slots()[i] == (*gright).slots()[i - full]);
                    assert((*gright).slots()[i - full] == (*leaves@[mid + (i - full)]).slots()[0]);
                    assert(mid + (i - full) == start + i);
                }
            }
            assert forall|i: int|
                end - start <= i < pow2(depth as nat) implies (*r).slots()[i] is None by {
                if i < full {
                    assert((*r).slots()[i] == (*gleft).slots()[i]);
                } else {
                    assert((*r).slots()[i] == (*gright).slots()[i - full]);
                }
            }
        }
        r
    }

    /// The root hash of this subtree.
    pub fn tree_hash(&self) -> (r: Hash256)
        ensures
            r@ == self.root_spec(),
    {
        match self {
            ValidatorTreeNode::Leaf(l) => clone_bytes(&l.hash),
            ValidatorTreeNode::Node { hash, .. } => clone_bytes(hash),
            ValidatorTreeNode::Zero(d) => zero_hash_exec(*d),
        }
    }

    /// The record in the slot at `index`, if that slot is occupied.
    pub fn get(&self, index: usize, depth: usize) -> (res: Option<&Validator>)
        requires
            self.wfn(),
            self.height() == depth,
            depth <= 62,
            (index as nat) < pow2(depth as nat),
        ensures
            res matches Some(v) ==> self.slots()[index as int] == Some(v@),
            res is None ==> self.slots()[index as int] is None,
    {
        self.get_u64(index as u64, depth)
    }

    /// `get` with the index carried as a 64-bit number.
    fn get_u64(&self, index: u64, depth: usize) -> (res: Option<&Validator>)
        requires
            self.wfn(),
            self.height() == depth,
            depth <= 62,
            (index as nat) < pow2(depth as nat),
        ensures
            res matches Some(v) ==> self.slots()[index as int] == Some(v@),
            res is None ==> self.slots()[index as int] is None,
        decreases depth,
    {
        proof {
            self.lemma_slots_len();
        }
        match self {
            ValidatorTreeNode::Leaf(l) => {
                proof {
                    vstd::arithmetic::power2::lemma2_to64();
                }
                Some(&l.value)
            }
            ValidatorTreeNode::Zero(_) => None,
            ValidatorTreeNode::Node { left, right, .. } => {
                proof {
                    lemma_pow2_unfold(depth as nat);
                    lemma_u64_pow2_no_overflow((depth - 1) as nat);
                    lemma_u64_shl_is_mul(1u64, (depth - 1) as u64);
                    lemma_pow2_pos((depth - 1) as nat);
                    left.lemma_slots_len();
                    right.lemma_slots_len();
                }
                let half: u64 = 1u64 << ((depth - 1) as u64);
                if index < half {
                    left.get_u64(index, depth - 1)
                } else {
                    right.get_u64(index - half, depth - 1)
                }
            }
        }
    }

    /// A new tree equal to this one except that the slot at `index` now holds
    /// `new_value`; every subtree off the updated path is shared, not copied.
    pub fn with_updated_leaf(&self, index: usize, new_value: Validator, depth: usize) -> (res:
        Result<Arc<Self>, ValidatorTreeError>)
        requires
            self.wfn(),
            self.height() == depth,
            depth <= 62,
            (index as nat) < pow2(depth as nat),
        ensures
            res is Ok,
            res matches Ok(t) ==> {
                &&& (*t).wfn()
                &&& (*t).height() == depth
                &&& (*t).slots() == self.slots().update(index as int, Some(new_value@))
            },
    {
        self.with_updated_leaf_u64(index as u64, new_value, depth)
    }

    /// `with_updated_leaf` with the index carried as a 64-bit number.
    fn with_updated_leaf_u64(&self, index: u64, new_value: Validator, depth: usize) -> (res:
        Result<Arc<Self>, ValidatorTreeError>)
        requires
            self.wfn(),
            self.height() == depth,
            depth <= 62,
            (index as nat) < pow2(depth as nat),
        ensures
            res is Ok,
            res matches Ok(t) ==> {
                &&& (*t).wfn()
                &&& (*t).height() == depth
                &&& (*t).slots() == self.slots().update(index as int, Some(new_value@))
            },
        decreases depth,
    {
        proof {
            self.lemma_slots_len();
        }
        if depth == 0 {
            proof {
                vstd::arithmetic::power2::lemma2_to64();
            }
            let ghost gv = new_value@;
            let r = Self::leaf(new_value);
            proof {
                assert((*r).slots() =~= self.slots().update(index as int, Some(gv)));
            }
            return Ok(r);
        }
        proof {
            lemma_pow2_unfold(depth as nat);
            lemma_u64_pow2_no_overflow((depth - 1) as nat);
            lemma_u64_shl_is_mul(1u64, (depth - 1) as u64);
            lemma_pow2_pos((depth - 1) as nat);
        }
        let half: u64 = 1u64 << ((depth - 1) as u64);
        match self {
            ValidatorTreeNode::Node { left, right, .. } => {
                proof {
                    left.lemma_slots_len();
                    right.lemma_slots_len();
                }
                let ghost gv = new_value@;
                if index < half {
                    let new_left = match left.with_updated_leaf_u64(index, new_value, depth - 1) {
                        Ok(t) => t,
                        Err(e) => {
                            return Err(e);
                        }
                    };
                    let r = Self::node(new_left, arc_clone_node(right));
                    proof {
                        assert((*r).slots() =~= self.slots().update(index as int, Some(gv)));
                    }
                    Ok(r)
                } else {
                    let new_right = match right.with_updated_leaf_u64(
                        index - half,
                        new_value,
                        depth - 1,
                    ) {
                        Ok(t) => t,
                        Err(e) => {
                            return Err(e);
                        }
                    };
                    let r = Self::node(arc_clone_node(left), new_right);
                    proof {
                        assert((*r).slots() =~= self.slots().update(index as int, Some(gv)));
                    }
                    Ok(r)
                }
            }
            ValidatorTreeNode::Zero(_) => {
                // Split the zero subtree and recurse into the proper half.
                let ghost gv = new_value@;
                let child = Self::zero(depth - 1);
                proof {
                    child.lemma_slots_len();
                }
                if index < half {
                    let new_left = match child.with_updated_leaf_u64(index, new_value, depth - 1) {
                        Ok(t) => t,
                        Err(e) => {
                            return Err(e);
                        }
                    };
                    let r = Self::node(new_left, Self::zero(depth - 1));
                    proof {
                        assert((*r).slots() =~= self.slots().update(index as int, Some(gv)));
                    }
                    Ok(r)
                } else {
                    let new_right = match child.with_updated_leaf_u64(
                        index - half,
                        new_value,
                        depth - 1,
                    ) {
                        Ok(t) => t,
                        Err(e) => {
                            return Err(e);
                        }
                    };
                    let r = Self::node(Self::zero(depth - 1), new_right);
                    proof {
                        assert((*r).slots() =~= self.slots().update(index as int, Some(gv)));
                    }
                    Ok(r)
                }
            }
            ValidatorTreeNode::Leaf(_) => {
                proof {
                    assert(false);
                }
                Err(ValidatorTreeError::Oops)
            }
        }
    }
}

} // verus!

verus! {

/// Depth of the registry tree: capacity for 2^40 validator records.
pub const REGISTRY_TREE_DEPTH: usize = 40;

/// Mixing a list length into a tree root: the digest of the root followed by
/// the length as a 32-byte little-endian number.
pub open spec fn mix_in_length(root: Seq<u8>, len: u64) -> Seq<u8> {
    sha256_of(root + u64_le_bytes(len) + Seq::new(24, |i: int| 0u8))
}

/// `mix_in_length`, as a value.
pub fn mix_in_length_exec(root: &Hash256, len: u64) -> (r: Hash256)
    ensures
        r@ == mix_in_length(root@, len),
        r@.len() == 32,
{
    let mut bytes = clone_bytes(root);
    bytes = concat(bytes, u64_le_bytes_exec(len));
    let mut i: usize = 0;
    while i < 24
        invariant
            i <= 24,
            bytes@ == root@ + u64_le_bytes(len) + Seq::new(i as nat, |j: int| 0u8),
        decreases 24 - i,
    {
        bytes.push(0u8);
        i = i + 1;
        proof {
            assert(bytes@ =~= root@ + u64_le_bytes(len) + Seq::new(i as nat, |j: int| 0u8));
        }
    }
    sha256(bytes.as_slice())
}

/// Top-level validator tree: an ordered sequence of validator records held in
/// a persistent, structurally shared binary tree.
pub struct ValidatorTree {
    tree: Arc<ValidatorTreeNode>,
    length: usize,
    depth: usize,
}

impl View for ValidatorTree {
    type V = Seq<ValidatorView>;

    closed spec fn view(&self) -> Seq<ValidatorView> {
        Seq::new(self.length as nat, |i: int| (*self.tree).slots()[i].unwrap())
    }
}

impl ValidatorTree {
    /// The tree below is well formed, the first `length` slots are occupied,
    /// and every slot beyond them is empty.
    pub closed spec fn well_formed(self) -> bool {
        &&& (*self.tree).wfn()
        &&& (*self.tree).height() == self.depth
        &&& self.depth <= 62
        &&& (self.length as nat) <= pow2(self.depth as nat)
        &&& forall|i: int| 0 <= i < self.length ==> (*self.tree).slots()[i] is Some
        &&& forall|i: int|
            self.length <= i < pow2(self.depth as nat) ==> (*self.tree).slots()[i] is None
    }

    /// How many records the tree can hold.
    pub closed spec fn capacity(self) -> nat {
        pow2(self.depth as nat)
    }

    /// Root hash of the underlying tree.
    pub closed spec fn root_spec(self) -> Seq<u8> {
        (*self.tree).root_spec()
    }

    /// Build a registry from a list of records, keeping at most the tree's
    /// capacity of them, in order.
    pub fn from_validators(validators: Vec<Validator>) -> (r: Self)
        ensures
            r.well_formed(),
            r.capacity() == pow2(REGISTRY_TREE_DEPTH as nat),
            validators@.len() <= pow2(REGISTRY_TREE_DEPTH as nat) ==> r@.len()
                == validators@.len(),
            validators@.len() > pow2(REGISTRY_TREE_DEPTH as nat) ==> r@.len() == pow2(
                REGISTRY_TREE_DEPTH as nat,
            ),
            forall|i: int| 0 <= i < r@.len() ==> r@[i] == validators@[i]@,
    {
        let ghost orig = validators@;
        let mut vals = validators;
        proof {
            lemma_u64_pow2_no_overflow(REGISTRY_TREE_DEPTH as nat);
            lemma_u64_shl_is_mul(1u64, REGISTRY_TREE_DEPTH as u64);
        }
        let cap: u64 = 1u64 << (REGISTRY_TREE_DEPTH as u64);
        if (vals.len() as u64) > cap {
            proof {
                assert((cap as usize) as u64 == cap);
            }
            vals.truncate(cap as usize);
        }
        let mut leaves: Vec<Arc<ValidatorTreeNode>> = Vec::new();
        let mut i: usize = 0;
        while i < vals.len()
            invariant
                i <= vals@.len(),
                leaves@.len() == i,
                forall|j: int|
                    0 <= j < i ==> (*#[trigger] leaves@[j]).wfn() && (*leaves@[j]).height() == 0
                        && (*leaves@[j]).slots() == seq![Some(vals@[j]@)],
            decreases vals@.len() - i,
        {
            let v = vals[i].duplicate();
            leaves.push(ValidatorTreeNode::leaf(v));
            i = i + 1;
        }
        let length = vals.len();
        let ghost gleaves = leaves@;
        let tree = ValidatorTreeNode::create(leaves, REGISTRY_TREE_DEPTH);
        let r = ValidatorTree { tree, length, depth: REGISTRY_TREE_DEPTH };
        proof {
            assert forall|k: int| 0 <= k < r@.len() implies r@[k] == validators@[k]@ by {
                assert((*r.tree).slots()[k] == (*gleaves[k]).slots()[0]);
            }
            assert forall|k: int| 0 <= k < length implies (*r.tree).slots()[k] is Some by {
                assert((*r.tree).slots()[k] == (*gleaves[k]).slots()[0]);
            }
        }
        r
    }

    /// The record at `index`, while `index` is within the registry.
    pub fn get(&self, index: usize) -> (res: Option<&Validator>)
        requires
            self.well_formed(),
        ensures
            (index as int) < self@.len() ==> (res matches Some(v) && v@ == self@[index as int]),
            (index as int) >= self@.len() ==> res is None,
    {
        if index < self.length {
            let res = self.tree.get(index, self.depth);
            proof {
                assert((*self.tree).slots()[index as int] is Some);
            }
            res
        } else {
            None
        }
    }

    /// Replace the record at `index`; the tree shares every untouched subtree
    /// with its previous version. An index at or beyond the current length is
    /// reported, never written.
    pub fn replace(&mut self, index: usize, validator: Validator) -> (res: Result<
        (),
        ValidatorTreeError,
    >)
        requires
            old(self).well_formed(),
        ensures
            final(self).well_formed(),
            res is Ok <==> (index as int) < old(self)@.len(),
            res is Ok ==> final(self)@ == old(self)@.update(index as int, validator@),
            res is Err ==> final(self)@ == old(self)@,
            final(self).capacity() == old(self).capacity(),
    {
        if index < self.length {
            let ghost gv = validator@;
            proof {
                self.tree.lemma_slots_len();
            }
            let new_tree = match self.tree.with_updated_leaf(index, validator, self.depth) {
                Ok(t) => t,
                Err(e) => {
                    return Err(e);
                }
            };
            let ghost gold = *self;
            self.tree = new_tree;
            proof {
                assert((*self.tree).slots() == (*gold.tree).slots().update(
                    index as int,
                    Some(gv),
                ));
                assert(self@ =~= old(self)@.update(index as int, gv));
            }
            Ok(())
        } else {
            Err(ValidatorTreeError::Oops)
        }
    }

    /// Append a record at the end; reported, not written, once the tree is at
    /// capacity.
    pub fn push(&mut self, validator: Validator) -> (res: Result<(), ValidatorTreeError>)
        requires
            old(self).well_formed(),
        ensures
            final(self).well_formed(),
            res is Ok <==> (old(self)@.len() < old(self).capacity() && old(self)@.len()
                < usize::MAX),
            res is Ok ==> final(self)@ == old(self)@.push(validator@),
            res is Err ==> final(self)@ == old(self)@,
            final(self).capacity() == old(self).capacity(),
    {
        proof {
            lemma_u64_pow2_no_overflow(self.depth as nat);
            lemma_u64_shl_is_mul(1u64, self.depth as u64);
        }
        let cap: u64 = 1u64 << (self.depth as u64);
        if (self.length as u64) < cap && self.length < usize::MAX {
            let ghost gv = validator@;
            proof {
                self.tree.lemma_slots_len();
            }
            let index = self.length;
            let new_tree = match self.tree.with_updated_leaf(index, validator, self.depth) {
                Ok(t) => t,
                Err(e) => {
                    return Err(e);
                }
            };
            self.tree = new_tree;
            self.length = index + 1;
            proof {
                assert(self@ =~= old(self)@.push(gv));
            }
            Ok(())
        } else {
            Err(ValidatorTreeError::Oops)
        }
    }

    /// Number of records in the registry.
    pub fn len(&self) -> (r: usize)
        ensures
            r == self@.len(),
    {
        self.length
    }

    /// The records in index order, as one list.
    pub fn iter(&self) -> (r: Vec<Validator>)
        requires
            self.well_formed(),
        ensures
            r@.len() == self@.len(),
            forall|i: int| 0 <= i < r@.len() ==> (#[trigger] r@[i])@ == self@[i],
    {
        let mut out: Vec<Validator> = Vec::new();
        let mut i: usize = 0;
        while i < self.length
            invariant
                self.well_formed(),
                i <= self.length,
                self.length == self@.len(),
                out@.len() == i,
                forall|j: int| 0 <= j < i ==> (#[trigger] out@[j])@ == self@[j],
            decreases self.length - i,
        {
            match self.get(i) {
                Some(v) => {
                    out.push(v.duplicate());
                }
                None => {
                    proof {
                        assert(false);
                    }
                }
            }
            i = i + 1;
        }
        out
    }

    /// The registry's hash-tree root: the tree root with the record count
    /// mixed in.
    pub fn tree_hash_root(&self) -> (r: Hash256)
        requires
            self.well_formed(),
        ensures
            r@ == mix_in_length(self.root_spec(), self@.len() as u64),
    {
        let root = self.tree.tree_hash();
        mix_in_length_exec(&root, self.length as u64)
    }
}

impl Clone for ValidatorTree {
    /// A clone shares the whole tree with the original.
    fn clone(&self) -> (res: Self)
        ensures
            res@ == self@,
            res.well_formed() == self.well_formed(),
            res.capacity() == self.capacity(),
            res.root_spec() == self.root_spec(),
    {
        ValidatorTree { tree: arc_clone_node(&self.tree), length: self.length, depth: self.depth }
    }
}

impl Default for ValidatorTree {
    /// The empty registry.
    fn default() -> (res: Self)
        ensures
            res.well_formed(),
            res@ == Seq::<ValidatorView>::empty(),
    {
        let r = ValidatorTree::from_validators(Vec::new());
        proof {
            assert(r@ =~= Seq::<ValidatorView>::empty());
        }
        r
    }
}

/// Law: after replacing the record at one index, that index reads back the new
/// record, and every other index reads exactly what it held before.
pub proof fn lemma_replace_then_get(
    pre: Seq<ValidatorView>,
    post: Seq<ValidatorView>,
    i: int,
    v: ValidatorView,
)
    requires
        0 <= i < pre.len(),
        post == pre.update(i, v),
    ensures
        post.len() == pre.len(),
        post[i] == v,
        forall|j: int| 0 <= j < pre.len() && j != i ==> post[j] == pre[j],
{
}

} // verus!
