//! Fork-choice test scenarios: blocks, attestations and expected heads, each
//! tagged with the slot it happens at, linearized into one slot-ordered run.

use vstd::prelude::*;
use crate::hashing::Hash256;
use crate::types::{Attestation, BeaconBlock};

verus! {

/// One step of a fork-choice run.
pub enum Event {
    ProcessBlock(BeaconBlock),
    ProcessAttestation(Attestation),
    FindHead(Hash256),
}

/// A fork-choice test: named inputs and the heads expected along the way.
pub struct ForkChoiceTest {
    pub name: String,
    pub validator_count: usize,
    pub blocks: Vec<(u64, BeaconBlock)>,
    pub attestations: Vec<(u64, Attestation)>,
    pub heads: Vec<(u64, Hash256)>,
}

/// Stable slot-ordered merge of two event lists: while the left head's slot
/// is not later, it goes first.
pub open spec fn merge_events(a: Seq<(u64, Event)>, b: Seq<(u64, Event)>) -> Seq<(u64, Event)>
    decreases a.len() + b.len(),
{
    if a.len() == 0 {
        b
    } else if b.len() == 0 {
        a
    } else if a[0].0 <= b[0].0 {
        seq![a[0]] + merge_events(a.skip(1), b)
    } else {
        seq![b[0]] + merge_events(a, b.skip(1))
    }
}

/// Stable slot-ordered merge of two event lists, as a value.
fn merge_event_lists(a: Vec<(u64, Event)>, b: Vec<(u64, Event)>) -> (r: Vec<(u64, Event)>)
    ensures
        r@ == merge_events(a@, b@),
{
    let ghost ga = a@;
    let ghost gb = b@;
    let mut left = a;
    let mut right = b;
    let mut out: Vec<(u64, Event)> = Vec::new();
    while left.len() > 0 || right.len() > 0
        invariant
            merge_events(ga, gb) == out@ + merge_events(left@, right@),
        decreases left@.len() + right@.len(),
    {
        let take_left = if right.len() == 0 {
            true
        } else if left.len() == 0 {
            false
        } else {
            left[0].0 <= right[0].0
        };
        let ghost pre_left = left@;
        let ghost pre_right = right@;
        let ghost pre_out = out@;
        if take_left {
            let item = left.remove(0);
            out.push(item);
            proof {
                assert(left@ =~= pre_left.skip(1));
                assert(merge_events(pre_left, pre_right) == seq![pre_left[0]] + merge_events(
                    pre_left.skip(1),
                    pre_right,
                ));
                assert(out@ + merge_events(left@, right@) =~= pre_out + merge_events(
                    pre_left,
                    pre_right,
                ));
            }
        } else {
            let item = right.remove(0);
            out.push(item);
            proof {
                assert(right@ =~= pre_right.skip(1));
                assert(merge_events(pre_left, pre_right) == seq![pre_right[0]] + merge_events(
                    pre_left,
                    pre_right.skip(1),
                ));
                assert(out@ + merge_events(left@, right@) =~= pre_out + merge_events(
                    pre_left,
                    pre_right,
                ));
            }
        }
    }
    proof {
        assert(out@ + merge_events(left@, right@) =~= out@);
        assert(out@ =~= merge_events(ga, gb));
    }
    out
}

/// Blocks as slot-tagged events.
pub open spec fn block_events(blocks: Seq<(u64, BeaconBlock)>) -> Seq<(u64, Event)> {
    Seq::new(blocks.len(), |i: int| (blocks[i].0, Event::ProcessBlock(blocks[i].1)))
}

/// Attestations as slot-tagged events.
pub open spec fn attestation_events(atts: Seq<(u64, Attestation)>) -> Seq<(u64, Event)> {
    Seq::new(atts.len(), |i: int| (atts[i].0, Event::ProcessAttestation(atts[i].1)))
}

/// Expected heads as slot-tagged events.
pub open spec fn head_events(heads: Seq<(u64, Hash256)>) -> Seq<(u64, Event)> {
    Seq::new(heads.len(), |i: int| (heads[i].0, Event::FindHead(heads[i].1)))
}

impl ForkChoiceTest {
    /// Linearize a test's blocks, attestations and head checks into one
    /// slot-ordered run: blocks merge before attestations, attestations
    /// before head checks at equal slots.
    pub fn linearize_events(
        blocks: Vec<(u64, BeaconBlock)>,
        attestations: Vec<(u64, Attestation)>,
        heads: Vec<(u64, Hash256)>,
    ) -> (r: Vec<(u64, Event)>)
        ensures
            r@ == merge_events(
                merge_events(block_events(blocks@), attestation_events(attestations@)),
                head_events(heads@),
            ),
    {
        let ghost gblocks = blocks@;
        let ghost gatts = attestations@;
        let ghost gheads = heads@;
        let mut block_list: Vec<(u64, Event)> = Vec::new();
        let mut rest = blocks;
        while rest.len() > 0
            invariant
                block_list@.len() + rest@.len() == gblocks.len(),
                block_list@ + Seq::new(
                    rest@.len(),
                    |i: int| (rest@[i].0, Event::ProcessBlock(rest@[i].1)),
                ) =~= block_events(gblocks),
            decreases rest@.len(),
        {
            let ghost pre = rest@;
            let (slot, block) = rest.remove(0);
            block_list.push((slot, Event::ProcessBlock(block)));
            proof {
                assert(rest@ =~= pre.skip(1));
                assert(block_list@ + Seq::new(
                    rest@.len(),
                    |i: int| (rest@[i].0, Event::ProcessBlock(rest@[i].1)),
                ) =~= block_events(gblocks));
            }
        }
        proof {
            assert(block_list@ =~= block_events(gblocks));
        }
        let mut att_list: Vec<(u64, Event)> = Vec::new();
        let mut rest_a = attestations;
        while rest_a.len() > 0
            invariant
                att_list@.len() + rest_a@.len() == gatts.len(),
                att_list@ + Seq::new(
                    rest_a@.len(),
                    |i: int| (rest_a@[i].0, Event::ProcessAttestation(rest_a@[i].1)),
                ) =~= attestation_events(gatts),
            decreases rest_a@.len(),
        {
            let ghost pre = rest_a@;
            let (slot, att) = rest_a.remove(0);
            att_list.push((slot, Event::ProcessAttestation(att)));
            proof {
                assert(rest_a@ =~= pre.skip(1));
                assert(att_list@ + Seq::new(
                    rest_a@.len(),
                    |i: int| (rest_a@[i].0, Event::ProcessAttestation(rest_a@[i].1)),
                ) =~= attestation_events(gatts));
            }
        }
        proof {
            assert(att_list@ =~= attestation_events(gatts));
        }
        let mut head_list: Vec<(u64, Event)> = Vec::new();
        let mut rest_h = heads;
        while rest_h.len() > 0
            invariant
                head_list@.len() + rest_h@.len() == gheads.len(),
                head_list@ + Seq::new(
                    rest_h@.len(),
                    |i: int| (rest_h@[i].0, Event::FindHead(rest_h@[i].1)),
                ) =~= head_events(gheads),
            decreases rest_h@.len(),
        {
            let ghost pre = rest_h@;
            let (slot, head) = rest_h.remove(0);
            head_list.push((slot, Event::FindHead(head)));
            proof {
                assert(rest_h@ =~= pre.skip(1));
                assert(head_list@ + Seq::new(
                    rest_h@.len(),
                    |i: int| (rest_h@[i].0, Event::FindHead(rest_h@[i].1)),
                ) =~= head_events(gheads));
            }
        }
        proof {
            assert(head_list@ =~= head_events(gheads));
        }
        let merged = merge_event_lists(block_list, att_list);
        merge_event_lists(merged, head_list)
    }
}

/// Law: a merge keeps every event — its length is the sum of its inputs' —
/// and keeps slot order whenever both inputs are slot-ordered.
pub proof fn lemma_merge_events_ordered(a: Seq<(u64, Event)>, b: Seq<(u64, Event)>)
    requires
        forall|i: int, j: int| 0 <= i <= j < a.len() ==> (#[trigger] a[i]).0 <= (#[trigger] a[j]).0,
        forall|i: int, j: int| 0 <= i <= j < b.len() ==> (#[trigger] b[i]).0 <= (#[trigger] b[j]).0,
    ensures
        merge_events(a, b).len() == a.len() + b.len(),
        forall|i: int, j: int|
            0 <= i <= j < merge_events(a, b).len() ==> (#[trigger] merge_events(a, b)[i]).0 <= (
            #[trigger] merge_events(a, b)[j]).0,
    decreases a.len() + b.len(),
{
    if a.len() == 0 || b.len() == 0 {
    } else if a[0].0 <= b[0].0 {
        assert(a.skip(1).len() == a.len() - 1);
        assert forall|i: int, j: int|
            0 <= i <= j < a.skip(1).len() implies (#[trigger] a.skip(1)[i]).0 <= (#[trigger] a.skip(
            1,
        )[j]).0 by {
            assert(a.skip(1)[i] == a[i + 1]);
            assert(a.skip(1)[j] == a[j + 1]);
        }
        lemma_merge_events_ordered(a.skip(1), b);
        let m = merge_events(a, b);
        let rest = merge_events(a.skip(1), b);
        assert forall|i: int, j: int|
            0 <= i <= j < m.len() implies (#[trigger] m[i]).0 <= (#[trigger] m[j]).0 by {
            if i == 0 && j > 0 {
                assert(m[j] == rest[j - 1]);
                lemma_merge_head_bound(a.skip(1), b, a[0].0, j - 1);
            } else if i > 0 {
                assert(m[i] == rest[i - 1]);
                assert(m[j] == rest[j - 1]);
            }
        }
    } else {
        assert forall|i: int, j: int|
            0 <= i <= j < b.skip(1).len() implies (#[trigger] b.skip(1)[i]).0 <= (#[trigger] b.skip(
            1,
        )[j]).0 by {
            assert(b.skip(1)[i] == b[i + 1]);
            assert(b.skip(1)[j] == b[j + 1]);
        }
        lemma_merge_events_ordered(a, b.skip(1));
        let m = merge_events(a, b);
        let rest = merge_events(a, b.skip(1));
        assert forall|i: int, j: int|
            0 <= i <= j < m.len() implies (#[trigger] m[i]).0 <= (#[trigger] m[j]).0 by {
            if i == 0 && j > 0 {
                assert(m[j] == rest[j - 1]);
                lemma_merge_head_bound(a, b.skip(1), b[0].0, j - 1);
            } else if i > 0 {
                assert(m[i] == rest[i - 1]);
                assert(m[j] == rest[j - 1]);
            }
        }
    }
}

/// Every element of a merge of lists bounded below by `lo` is bounded below
/// by `lo`.
proof fn lemma_merge_head_bound(a: Seq<(u64, Event)>, b: Seq<(u64, Event)>, lo: u64, k: int)
    requires
        forall|i: int| 0 <= i < a.len() ==> lo <= (#[trigger] a[i]).0,
        forall|i: int| 0 <= i < b.len() ==> lo <= (#[trigger] b[i]).0,
        0 <= k < merge_events(a, b).len(),
    ensures
        lo <= merge_events(a, b)[k].0,
    decreases a.len() + b.len(),
{
    if a.len() == 0 || b.len() == 0 {
    } else if a[0].0 <= b[0].0 {
        if k > 0 {
            assert forall|i: int| 0 <= i < a.skip(1).len() implies lo <= (#[trigger] a.skip(
                1,
            )[i]).0 by {
                assert(a.skip(1)[i] == a[i + 1]);
            }
            lemma_merge_head_bound(a.skip(1), b, lo, k - 1);
        }
    } else {
        if k > 0 {
            assert forall|i: int| 0 <= i < b.skip(1).len() implies lo <= (#[trigger] b.skip(
                1,
            )[i]).0 by {
                assert(b.skip(1)[i] == b[i + 1]);
            }
            lemma_merge_head_bound(a, b.skip(1), lo, k - 1);
        }
    }
}

} // verus!
