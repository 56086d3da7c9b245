//! Attestation-window helpers for the transition: assembling the list of
//! signed parent hashes an attestation commits to.

use vstd::prelude::*;
use vstd::string::StringExecFns;
use crate::hashing::{Hash256, clone_bytes};

verus! {

/// Why a helper rejected its input.
#[derive(Debug)]
pub enum TransitionError {
    InvalidInput(String),
    IntWrapping,
}

/// The window of parent hashes an attestation signs: a slice of the recent
/// hashes, from `cycle_length - distance` on, topped up with the oblique
/// hashes. Rejected when the recent-hash list is not exactly two cycles long,
/// the attestation is not strictly older than the block, the oblique list
/// exceeds one cycle, or the attestation is more than one cycle old.
pub fn get_signed_parent_hashes(
    cycle_length: u8,
    block_slot: u64,
    attestation_slot: u64,
    current_hashes: Vec<Hash256>,
    oblique_hashes: Vec<Hash256>,
) -> (res: Result<Vec<Hash256>, TransitionError>)
    ensures
        res is Ok <==> (current_hashes@.len() == 2 * (cycle_length as int) && attestation_slot
            < block_slot && oblique_hashes@.len() <= cycle_length as int && block_slot
            - attestation_slot <= cycle_length as int),
        res matches Ok(v) ==> {
            let cl = cycle_length as int;
            let start = cl - (block_slot - attestation_slot);
            let taken = cl - oblique_hashes@.len();
            &&& v@.len() == cl
            &&& forall|i: int|
                0 <= i < taken ==> (#[trigger] v@[i])@ == current_hashes@[start + i]@
            &&& forall|j: int|
                0 <= j < oblique_hashes@.len() ==> (#[trigger] v@[taken + j])@
                    == oblique_hashes@[j]@
        },
{
    // This cast places a limit on cycle_length: the window arithmetic below
    // stays far from the integer bounds.
    let cycle_length: u64 = cycle_length as u64;

    if current_hashes.len() as u64 != cycle_length * 2 {
        return Err(
            TransitionError::InvalidInput(
                String::from_str("current_hashes.len() must equal cycle_length * 2"),
            ),
        );
    }
    if attestation_slot >= block_slot {
        return Err(
            TransitionError::InvalidInput(
                String::from_str("attestation_slot must be less than block_slot"),
            ),
        );
    }
    if oblique_hashes.len() as u64 > cycle_length {
        return Err(
            TransitionError::InvalidInput(
                String::from_str("oblique_hashes.len() must be <= cycle_length"),
            ),
        );
    }
    // Cannot underflow: block_slot is strictly greater than attestation_slot.
    let attestation_distance = block_slot - attestation_slot;

    if attestation_distance > cycle_length {
        return Err(
            TransitionError::InvalidInput(
                String::from_str("attestation_slot must be within one cycle of block_slot"),
            ),
        );
    }
    // Cannot underflow: the distance is at most cycle_length.
    let start = cycle_length - attestation_distance;

    // start + cycle_length - oblique_hashes.len(); kept checked as the
    // arithmetic-fault rule asks.
    let end = match start.checked_add(cycle_length) {
        Some(x) => match x.checked_sub(oblique_hashes.len() as u64) {
            Some(y) => y,
            None => {
                proof {
                    assert(false);
                }
                return Err(TransitionError::IntWrapping);
            }
        },
        None => {
            proof {
                assert(false);
            }
            return Err(TransitionError::IntWrapping);
        }
    };
    let mut hashes: Vec<Hash256> = Vec::new();
    let mut i: usize = start as usize;
    let end_usize: usize = end as usize;
    while i < end_usize
        invariant
            start <= i <= end_usize,
            end_usize == end,
            start == cycle_length - attestation_distance,
            end == start + cycle_length - oblique_hashes@.len(),
            oblique_hashes@.len() <= cycle_length,
            current_hashes@.len() == 2 * cycle_length,
            cycle_length <= 255,
            hashes@.len() == i - start,
            forall|j: int|
                0 <= j < i - start ==> (#[trigger] hashes@[j])@ == current_hashes@[start + j]@,
        decreases end_usize - i,
    {
        hashes.push(clone_bytes(&current_hashes[i]));
        i = i + 1;
    }
    let mut j: usize = 0;
    let ghost taken = hashes@.len();
    while j < oblique_hashes.len()
        invariant
            j <= oblique_hashes@.len(),
            hashes@.len() == taken + j,
            taken == end - start,
            forall|k: int|
                0 <= k < taken ==> (#[trigger] hashes@[k])@ == current_hashes@[start + k]@,
            forall|k: int|
                0 <= k < j ==> (#[trigger] hashes@[taken + k])@ == oblique_hashes@[k]@,
            start == cycle_length - attestation_distance,
            end == start + cycle_length - oblique_hashes@.len(),
        decreases oblique_hashes@.len() - j,
    {
        hashes.push(clone_bytes(&oblique_hashes[j]));
        j = j + 1;
    }
    Ok(hashes)
}

} // verus!
