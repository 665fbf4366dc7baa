//! The supermajority rule.
use vstd::prelude::*;

verus! {

/// Whether `votes` out of `total` validators form a quorum: all of them when
/// there are fewer than three validators, else at least `2 * total / 3`
/// (integer division).
pub open spec fn quorum(total: nat, votes: nat) -> bool {
    if total < 3 {
        votes == total
    } else {
        votes >= (2 * total) / 3
    }
}

/// Computes whether the quorum has been reached.
pub fn has_reached_quorum(total_validators: usize, votes: usize) -> (r: bool)
    ensures
        r == quorum(total_validators as nat, votes as nat),
{
    if total_validators < 3 {
        return votes == total_validators;
    }
    let doubled: u128 = 2 * (total_validators as u128);
    votes as u128 >= doubled / 3
}

} // verus!
