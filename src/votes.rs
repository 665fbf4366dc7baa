//! Vote tallies: per-validator timestamps and the signatures collected so far.
use vstd::prelude::*;

use crate::bytes::copy_bytes;
use crate::crypto::{aggregate_signatures, bls_aggregate_of, bls_sig_decodes, views_of};
use crate::timestamp::Timestamp;

verus! {

/// What a tally holds, as values.
pub ghost struct VotesView {
    /// One timestamp per validator, 0 for those that did not vote.
    pub timestamps: Seq<Timestamp>,
    /// The voters, in the order their votes came.
    pub voters: Seq<int>,
    /// The voters' signatures, in the same order.
    pub signatures: Seq<Seq<u8>>,
}

/// The tally of `n` validators before any vote.
pub open spec fn empty_votes(n: nat) -> VotesView {
    VotesView { timestamps: Seq::new(n, |i: int| Timestamp(0)), voters: Seq::empty(), signatures: Seq::empty() }
}

/// The tally after validator `index` voted with `timestamp` and `signature`.
pub open spec fn add_vote(v: VotesView, index: int, timestamp: Timestamp, signature: Seq<u8>) -> VotesView {
    VotesView {
        timestamps: v.timestamps.update(index, timestamp),
        voters: v.voters.push(index),
        signatures: v.signatures.push(signature),
    }
}

/// Whether validator `index` has voted.
pub open spec fn has_voted(v: VotesView, index: int) -> bool {
    v.voters.contains(index)
}

/// A tally of votes.
pub struct Votes {
    timestamps: Vec<Timestamp>,
    voters: Vec<usize>,
    signatures: Vec<Vec<u8>>,
}

impl View for Votes {
    type V = VotesView;

    closed spec fn view(&self) -> VotesView {
        VotesView {
            timestamps: self.timestamps@,
            voters: self.voters@.map_values(|i: usize| i as int),
            signatures: views_of(self.signatures@),
        }
    }
}

impl Votes {
    /// An empty tally for `n` validators.
    pub fn new(n: usize) -> (r: Votes)
        ensures
            r@ == empty_votes(n as nat),
    {
        let mut timestamps: Vec<Timestamp> = Vec::new();
        let mut i: usize = 0;
        while i < n
            invariant
                0 <= i <= n,
                timestamps@ == Seq::new(i as nat, |k: int| Timestamp(0)),
            decreases n - i,
        {
            timestamps.push(Timestamp(0));
            i = i + 1;
            assert(timestamps@ =~= Seq::new(i as nat, |k: int| Timestamp(0)));
        }
        let r = Votes { timestamps, voters: Vec::new(), signatures: Vec::new() };
        assert(r@.voters =~= Seq::<int>::empty());
        assert(r@.signatures =~= Seq::<Seq<u8>>::empty());
        r
    }

    /// The number of votes.
    pub fn count(&self) -> (r: usize)
        requires
            self@.voters.len() == self@.signatures.len(),
        ensures
            r == self@.voters.len(),
    {
        self.voters.len()
    }

    /// Whether validator `index` has voted.
    pub fn contains(&self, index: usize) -> (r: bool)
        ensures
            r == has_voted(self@, index as int),
    {
        let mut i: usize = 0;
        while i < self.voters.len()
            invariant
                0 <= i <= self.voters@.len(),
                forall|k: int| 0 <= k < i ==> self.voters@[k] != index,
            decreases self.voters.len() - i,
        {
            if self.voters[i] == index {
                assert(self@.voters[i as int] == index as int);
                return true;
            }
            i = i + 1;
        }
        proof {
            if self@.voters.contains(index as int) {
                let k = choose|k: int| 0 <= k < self@.voters.len() && self@.voters[k] == index as int;
                assert(self.voters@[k] == index);
            }
        }
        false
    }

    /// Records the vote of validator `index`.
    pub fn add(&mut self, index: usize, timestamp: Timestamp, signature: &Vec<u8>)
        requires
            index < old(self)@.timestamps.len(),
        ensures
            final(self)@ == add_vote(old(self)@, index as int, timestamp, signature@),
    {
        self.timestamps.set(index, timestamp);
        self.voters.push(index);
        self.signatures.push(copy_bytes(signature.as_slice()));
        assert(self@.voters =~= old(self)@.voters.push(index as int));
        assert(self@.signatures =~= old(self)@.signatures.push(signature@));
    }

    /// The timestamps, one per validator.
    pub fn timestamps(&self) -> (r: Vec<Timestamp>)
        ensures
            r@ == self@.timestamps,
    {
        let mut r: Vec<Timestamp> = Vec::new();
        let mut i: usize = 0;
        while i < self.timestamps.len()
            invariant
                0 <= i <= self.timestamps@.len(),
                r@ == self.timestamps@.subrange(0, i as int),
            decreases self.timestamps.len() - i,
        {
            r.push(self.timestamps[i]);
            i = i + 1;
            assert(r@ =~= self.timestamps@.subrange(0, i as int));
        }
        assert(r@ =~= self@.timestamps);
        r
    }

    /// The sum of the signatures; `None` exactly when there is none or one
    /// does not decode.
    pub fn aggregate(&self) -> (r: Option<Vec<u8>>)
        ensures
            r is Some <==> (self@.signatures.len() > 0 && forall|i: int|
                0 <= i < self@.signatures.len() ==> bls_sig_decodes(#[trigger] self@.signatures[i])),
            r matches Some(a) ==> a@ == bls_aggregate_of(self@.signatures),
    {
        let r = aggregate_signatures(&self.signatures);
        proof {
            assert forall|i: int| 0 <= i < self@.signatures.len() implies self@.signatures[i] == (
            #[trigger] self.signatures@[i])@ by {}
        }
        r
    }
}

} // verus!
