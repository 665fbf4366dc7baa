//! The client coordinator: checks validators' replies and certifies quorums.
//!
//! Sending requests and collecting replies happens outside the library; the
//! replies are handed in here in the order they arrived.
use vstd::prelude::*;
use vstd::relations::sorted_by;

use crate::bytes::{bytes_eq, copy_bytes};
use crate::common::{
    copy_digest, message_digest_spec, record_digest_spec, record_views, unavailable_digest_of,
    unavailable_digest_spec, CertifiedLog, CertifiedReadMessageResponse, CertifiedRecord,
    CertifiedRecordView, CertifiedUnavailableMessage, CertifiedUnavailableView, Digest, Log, Message,
    Namespace, ReadError, ReadMessageResponse, Record, RecordView, ValidatorIdentity, WriteError,
};
use crate::crypto::{
    bls_aggregate_of, bls_sig_decodes, bls_verifies, ciphersuite, ciphersuite_spec, verify_signature,
    views_of,
};
use crate::fifo::{fifo_insert, has_key, key_pos, FifoMap};
use crate::quorum::{has_reached_quorum, quorum};
use crate::timestamp::Timestamp;
use crate::votes::{add_vote, empty_votes, has_voted, Votes, VotesView};

verus! {

/// The public keys of a client's validators, by index.
pub struct Client {
    validators: Vec<Vec<u8>>,
}

/// The replies of a fan-out, in arrival order, as values.
pub open spec fn write_replies(replies: Seq<(usize, Record)>) -> Seq<(int, RecordView)> {
    replies.map_values(|p: (usize, Record)| (p.0 as int, p.1@))
}

/// Whether a write tally takes the reply of validator `index`: a known
/// validator that has not voted yet, the requested message, and a valid
/// signature over the record digest.
pub open spec fn write_accepts(
    v: VotesView,
    keys: Seq<Seq<u8>>,
    namespace: Seq<u8>,
    message: Seq<u8>,
    index: int,
    rec: RecordView,
) -> bool {
    &&& 0 <= index < keys.len()
    &&& !has_voted(v, index)
    &&& rec.message == message
    &&& bls_verifies(rec.signature, keys[index], record_digest_spec(namespace, rec.timestamp, message), ciphersuite_spec())
    &&& bls_sig_decodes(rec.signature)
}

/// The write tally after one reply.
pub open spec fn write_step(
    v: VotesView,
    keys: Seq<Seq<u8>>,
    namespace: Seq<u8>,
    message: Seq<u8>,
    index: int,
    rec: RecordView,
) -> VotesView {
    if write_accepts(v, keys, namespace, message, index, rec) {
        add_vote(v, index, rec.timestamp, rec.signature)
    } else {
        v
    }
}

/// The write tally after the replies, in order; replies after the quorum
/// is reached are not looked at.
pub open spec fn write_tally(
    keys: Seq<Seq<u8>>,
    namespace: Seq<u8>,
    message: Seq<u8>,
    replies: Seq<(int, RecordView)>,
) -> VotesView
    decreases replies.len(),
{
    if replies.len() == 0 {
        empty_votes(keys.len())
    } else {
        let v = write_tally(keys, namespace, message, replies.drop_last());
        if quorum(keys.len(), v.voters.len()) {
            v
        } else {
            write_step(v, keys, namespace, message, replies.last().0, replies.last().1)
        }
    }
}

/// A tally in which each vote is a distinct validator's valid signature over
/// `digest(i)`, where `i` is the voter, and non-voters' timestamps are 0.
pub open spec fn tally_sound(v: VotesView, keys: Seq<Seq<u8>>, digest: spec_fn(int) -> Seq<u8>) -> bool {
    &&& v.timestamps.len() == keys.len()
    &&& v.voters.len() == v.signatures.len()
    &&& forall|k: int| 0 <= k < v.voters.len() ==> 0 <= #[trigger] v.voters[k] < keys.len()
    &&& forall|j: int, k: int| 0 <= j < k < v.voters.len() ==> v.voters[j] != v.voters[k]
    &&& forall|k: int| 0 <= k < v.voters.len() ==> bls_verifies(
        #[trigger] v.signatures[k],
        keys[v.voters[k]],
        digest(v.voters[k]),
        ciphersuite_spec(),
    )
    &&& forall|k: int| 0 <= k < v.voters.len() ==> bls_sig_decodes(#[trigger] v.signatures[k])
    &&& forall|i: int| 0 <= i < keys.len() && !has_voted(v, i) ==> #[trigger] v.timestamps[i] == Timestamp(0)
}

/// What validator `i` signs for a record of `message` at its timestamp in `v`.
pub open spec fn record_digest_at(v: VotesView, namespace: Seq<u8>, message: Seq<u8>) -> spec_fn(int) -> Seq<u8> {
    |i: int| record_digest_spec(namespace, v.timestamps[i], message)
}

/// A certificate backed by `keys`: one timestamp per validator, and a quorum
/// signature that sums valid signatures of distinct validators, at least a
/// quorum of them, each over the record digest at that validator's timestamp.
pub open spec fn certificate_sound(keys: Seq<Seq<u8>>, namespace: Seq<u8>, c: CertifiedRecordView) -> bool {
    &&& c.timestamps.len() == keys.len()
    &&& exists|voters: Seq<int>, sigs: Seq<Seq<u8>>| {
        &&& voters.len() == sigs.len()
        &&& quorum(keys.len(), voters.len())
        &&& voters.len() > 0
        &&& (forall|k: int| 0 <= k < voters.len() ==> 0 <= #[trigger] voters[k] < keys.len())
        &&& (forall|j: int, k: int| 0 <= j < k < voters.len() ==> voters[j] != voters[k])
        &&& (forall|k: int| 0 <= k < voters.len() ==> bls_verifies(
            #[trigger] sigs[k],
            keys[voters[k]],
            record_digest_spec(namespace, c.timestamps[voters[k]], c.message),
            ciphersuite_spec(),
        ))
        &&& c.quorum_signature == bls_aggregate_of(sigs)
    }
}

/// Adding an accepted reply keeps a write tally sound.
proof fn lemma_write_step_sound(
    v: VotesView,
    keys: Seq<Seq<u8>>,
    namespace: Seq<u8>,
    message: Seq<u8>,
    index: int,
    rec: RecordView,
)
    requires
        tally_sound(v, keys, record_digest_at(v, namespace, message)),
    ensures
        ({
            let w = write_step(v, keys, namespace, message, index, rec);
            tally_sound(w, keys, record_digest_at(w, namespace, message))
        }),
{
    let w = write_step(v, keys, namespace, message, index, rec);
    if write_accepts(v, keys, namespace, message, index, rec) {
        assert forall|k: int| 0 <= k < w.voters.len() implies bls_verifies(
            #[trigger] w.signatures[k],
            keys[w.voters[k]],
            record_digest_at(w, namespace, message)(w.voters[k]),
            ciphersuite_spec(),
        ) by {
            if k < v.voters.len() {
                assert(w.voters[k] == v.voters[k]);
                assert(v.voters[k] != index) by {
                    if v.voters[k] == index {
                        assert(v.voters.contains(index));
                    }
                }
                assert(w.timestamps[w.voters[k]] == v.timestamps[v.voters[k]]);
                assert(bls_verifies(
                    v.signatures[k],
                    keys[v.voters[k]],
                    record_digest_at(v, namespace, message)(v.voters[k]),
                    ciphersuite_spec(),
                ));
            }
        }
        assert forall|j: int, k: int| 0 <= j < k < w.voters.len() implies w.voters[j] != w.voters[k] by {
            if k == v.voters.len() {
                if w.voters[j] == index {
                    assert(v.voters[j] == index);
                    assert(v.voters.contains(index));
                }
            }
        }
        assert forall|i: int| 0 <= i < keys.len() && !has_voted(w, i) implies #[trigger] w.timestamps[i]
            == Timestamp(0) by {
            assert(w.voters[w.voters.len() - 1] == index);
            if i == index {
                assert(w.voters.contains(index));
            } else {
                if v.voters.contains(i) {
                    let k = choose|k: int| 0 <= k < v.voters.len() && v.voters[k] == i;
                    assert(w.voters[k] == i);
                }
            }
        }
        assert forall|k: int| 0 <= k < w.voters.len() implies 0 <= #[trigger] w.voters[k] < keys.len() by {
            if k < v.voters.len() {
                assert(w.voters[k] == v.voters[k]);
            }
        }
    }
}

/// Every write tally is sound.
pub proof fn lemma_write_tally_sound(
    keys: Seq<Seq<u8>>,
    namespace: Seq<u8>,
    message: Seq<u8>,
    replies: Seq<(int, RecordView)>,
)
    ensures
        ({
            let v = write_tally(keys, namespace, message, replies);
            tally_sound(v, keys, record_digest_at(v, namespace, message))
        }),
    decreases replies.len(),
{
    if replies.len() > 0 {
        lemma_write_tally_sound(keys, namespace, message, replies.drop_last());
        let v = write_tally(keys, namespace, message, replies.drop_last());
        lemma_write_step_sound(v, keys, namespace, message, replies.last().0, replies.last().1);
    }
}

impl Client {
    /// The validators' public keys, by index.
    pub closed spec fn keys(&self) -> Seq<Seq<u8>> {
        views_of(self.validators@)
    }

    /// Creates a client that knows no validator.
    pub fn new() -> (r: Client)
        ensures
            r.keys() == Seq::<Seq<u8>>::empty(),
    {
        let r = Client { validators: Vec::new() };
        assert(r.keys() =~= Seq::<Seq<u8>>::empty());
        r
    }

    /// The number of validators.
    pub fn validator_count(&self) -> (r: usize)
        ensures
            r == self.keys().len(),
    {
        self.validators.len()
    }

    /// Registers a validator's key under its index: an index already known
    /// takes the new key, the next free index is added, and any other index
    /// is refused (indices stay `0..n`).
    pub fn add_validator(&mut self, validator: ValidatorIdentity) -> (r: bool)
        ensures
            r == (validator.index <= old(self).keys().len()),
            r && validator.index < old(self).keys().len() ==> final(self).keys() == old(self).keys().update(
                validator.index as int,
                validator.pubkey@,
            ),
            r && validator.index == old(self).keys().len() ==> final(self).keys() == old(self).keys().push(
                validator.pubkey@,
            ),
            !r ==> final(self).keys() == old(self).keys(),
    {
        if validator.index < self.validators.len() {
            self.validators.set(validator.index, validator.pubkey);
            assert(self.keys() =~= old(self).keys().update(validator.index as int, validator.pubkey@));
            true
        } else if validator.index == self.validators.len() {
            self.validators.push(validator.pubkey);
            assert(self.keys() =~= old(self).keys().push(validator.pubkey@));
            true
        } else {
            false
        }
    }

    /// Takes one reply to a write into the tally; returns whether it counted.
    pub fn accept_write(
        &self,
        votes: &mut Votes,
        namespace: &Namespace,
        message: &Message,
        index: usize,
        record: &Record,
    ) -> (r: bool)
        requires
            old(votes)@.timestamps.len() == self.keys().len(),
        ensures
            r == write_accepts(old(votes)@, self.keys(), namespace@, message@, index as int, record@),
            final(votes)@ == write_step(old(votes)@, self.keys(), namespace@, message@, index as int, record@),
    {
        if index >= self.validators.len() || votes.contains(index) || !record.message.same_as(message) {
            return false;
        }
        let digest = record.digest(namespace);
        let dst = ciphersuite();
        if !verify_signature(record.signature.as_slice(), self.validators[index].as_slice(), &digest, dst.as_slice()) {
            return false;
        }
        votes.add(index, record.timestamp, &record.signature);
        true
    }

    /// Whether a tally holds a quorum of this client's validators.
    pub fn has_quorum(&self, votes: &Votes) -> (r: bool)
        requires
            votes@.voters.len() == votes@.signatures.len(),
        ensures
            r == quorum(self.keys().len(), votes@.voters.len()),
    {
        has_reached_quorum(self.validators.len(), votes.count())
    }

    /// Turns a sound write tally into a certificate: `Ok` exactly when there
    /// are validators and the votes reach a quorum, else `NoQuorum` with the
    /// votes and the number of validators.
    pub fn finish_write(&self, votes: &Votes, message: &Message, namespace: &Namespace) -> (r: Result<CertifiedRecord, WriteError>)
        requires
            tally_sound(votes@, self.keys(), record_digest_at(votes@, namespace@, message@)),
        ensures
            r is Ok <==> self.keys().len() > 0 && quorum(self.keys().len(), votes@.voters.len()),
            r matches Ok(c) ==> c@ == (CertifiedRecordView {
                timestamps: votes@.timestamps,
                message: message@,
                quorum_signature: bls_aggregate_of(votes@.signatures),
            }) && certificate_sound(self.keys(), namespace@, c@),
            r matches Err(e) ==> e == (WriteError::NoQuorum {
                got: votes@.voters.len() as usize,
                needed: self.keys().len() as usize,
            }),
    {
        let n = self.validators.len();
        let got = votes.count();
        if n == 0 || !has_reached_quorum(n, got) {
            return Err(WriteError::NoQuorum { got, needed: n });
        }
        proof {
            assert(got > 0);
            assert forall|i: int| 0 <= i < votes@.signatures.len() implies bls_sig_decodes(
                #[trigger] votes@.signatures[i],
            ) by {}
        }
        match votes.aggregate() {
            Some(quorum_signature) => {
                let c = CertifiedRecord { timestamps: votes.timestamps(), message: message.duplicate(), quorum_signature };
                proof {
                    let v = votes@;
                    assert(forall|k: int| 0 <= k < v.voters.len() ==> bls_verifies(
                        #[trigger] v.signatures[k],
                        self.keys()[v.voters[k]],
                        record_digest_spec(namespace@, c@.timestamps[v.voters[k]], c@.message),
                        ciphersuite_spec(),
                    ));
                    assert(certificate_sound(self.keys(), namespace@, c@));
                }
                Ok(c)
            },
            None => {
                assert(false);
                Err(WriteError::NoQuorum { got, needed: n })
            },
        }
    }

    /// Certifies a write from the validators' replies in arrival order:
    /// each reply counts if `write_accepts` it, and the count stops at the
    /// quorum. See `finish_write` for the result.
    pub fn certify_write(&self, namespace: &Namespace, message: &Message, replies: &Vec<(usize, Record)>) -> (r: Result<CertifiedRecord, WriteError>)
        ensures
            ({
                let v = write_tally(self.keys(), namespace@, message@, write_replies(replies@));
                &&& (r is Ok <==> self.keys().len() > 0 && quorum(self.keys().len(), v.voters.len()))
                &&& (r matches Ok(c) ==> c@ == (CertifiedRecordView {
                    timestamps: v.timestamps,
                    message: message@,
                    quorum_signature: bls_aggregate_of(v.signatures),
                }) && certificate_sound(self.keys(), namespace@, c@))
                &&& (r matches Err(e) ==> e == (WriteError::NoQuorum {
                    got: v.voters.len() as usize,
                    needed: self.keys().len() as usize,
                }))
            }),
    {
        let ghost keys = self.keys();
        let ghost all = write_replies(replies@);
        let mut votes = Votes::new(self.validators.len());
        let mut i: usize = 0;
        proof {
            assert(all.subrange(0, 0) =~= Seq::<(int, RecordView)>::empty());
            lemma_write_tally_sound(keys, namespace@, message@, all.subrange(0, 0));
        }
        while i < replies.len()
            invariant
                0 <= i <= replies@.len(),
                keys == self.keys(),
                all == write_replies(replies@),
                votes@ == write_tally(keys, namespace@, message@, all.subrange(0, i as int)),
                tally_sound(votes@, keys, record_digest_at(votes@, namespace@, message@)),
            decreases replies.len() - i,
        {
            let ghost before = votes@;
            proof {
                assert(all.subrange(0, i + 1).drop_last() =~= all.subrange(0, i as int));
                lemma_write_tally_sound(keys, namespace@, message@, all.subrange(0, i + 1));
            }
            if !self.has_quorum(&votes) {
                let _ = self.accept_write(&mut votes, namespace, message, replies[i].0, &replies[i].1);
            }
            i = i + 1;
        }
        proof {
            assert(all.subrange(0, i as int) =~= all);
            lemma_write_tally_sound(keys, namespace@, message@, all);
        }
        self.finish_write(&votes, message, namespace)
    }
}

/// What a read-message tally holds, as values.
pub ghost struct ReadTallyView {
    /// Votes that the message is available.
    pub available: VotesView,
    /// Votes that the message is unavailable.
    pub unavailable: VotesView,
    /// The message of the available votes (empty before the first).
    pub message: Seq<u8>,
}

/// A read-message tally before any reply.
pub open spec fn empty_read_tally(n: nat) -> ReadTallyView {
    ReadTallyView { available: empty_votes(n), unavailable: empty_votes(n), message: Seq::empty() }
}

/// Whether validator `index` has answered either way.
pub open spec fn has_answered(t: ReadTallyView, index: int) -> bool {
    has_voted(t.available, index) || has_voted(t.unavailable, index)
}

/// Whether a read-message tally takes a reply: a known validator that has
/// not answered; for a record, a message with identity `msg_id` (the same
/// message as earlier votes) and a valid signature over its record digest;
/// for a denial, a valid signature over `msg_id` and its timestamp.
pub open spec fn read_accepts(
    t: ReadTallyView,
    keys: Seq<Seq<u8>>,
    namespace: Seq<u8>,
    msg_id: Seq<u8>,
    index: int,
    response: ReadMessageResponse,
) -> bool {
    &&& 0 <= index < keys.len()
    &&& !has_answered(t, index)
    &&& match response {
        ReadMessageResponse::Available(rec) => {
            &&& message_digest_spec(namespace, rec.message@) == msg_id
            &&& (t.available.voters.len() > 0 ==> rec.message@ == t.message)
            &&& bls_verifies(
                rec.signature@,
                keys[index],
                record_digest_spec(namespace, rec.timestamp, rec.message@),
                ciphersuite_spec(),
            )
            &&& bls_sig_decodes(rec.signature@)
        },
        ReadMessageResponse::Unavailable(u) => {
            &&& bls_verifies(u.signature@, keys[index], unavailable_digest_spec(msg_id, u.timestamp), ciphersuite_spec())
            &&& bls_sig_decodes(u.signature@)
        },
    }
}

/// The read-message tally after one reply.
pub open spec fn read_step(
    t: ReadTallyView,
    keys: Seq<Seq<u8>>,
    namespace: Seq<u8>,
    msg_id: Seq<u8>,
    index: int,
    response: ReadMessageResponse,
) -> ReadTallyView {
    if read_accepts(t, keys, namespace, msg_id, index, response) {
        match response {
            ReadMessageResponse::Available(rec) => ReadTallyView {
                available: add_vote(t.available, index, rec.timestamp, rec.signature@),
                message: rec.message@,
                ..t
            },
            ReadMessageResponse::Unavailable(u) => ReadTallyView {
                unavailable: add_vote(t.unavailable, index, u.timestamp, u.signature@),
                ..t
            },
        }
    } else {
        t
    }
}

/// Whether a read-message tally needs no further reply: either side has a
/// quorum, or every validator has answered.
pub open spec fn read_done(n: nat, t: ReadTallyView) -> bool {
    quorum(n, t.available.voters.len()) || quorum(n, t.unavailable.voters.len())
        || t.available.voters.len() + t.unavailable.voters.len() >= n
}

/// The read-message tally after the replies, in order; replies after it is
/// done are not looked at.
pub open spec fn read_tally(
    keys: Seq<Seq<u8>>,
    namespace: Seq<u8>,
    msg_id: Seq<u8>,
    replies: Seq<(usize, ReadMessageResponse)>,
) -> ReadTallyView
    decreases replies.len(),
{
    if replies.len() == 0 {
        empty_read_tally(keys.len())
    } else {
        let t = read_tally(keys, namespace, msg_id, replies.drop_last());
        if read_done(keys.len(), t) {
            t
        } else {
            read_step(t, keys, namespace, msg_id, replies.last().0 as int, replies.last().1)
        }
    }
}

/// What validator `i` signs to deny `msg_id` at its timestamp in `v`.
pub open spec fn unavailable_digest_at(v: VotesView, msg_id: Seq<u8>) -> spec_fn(int) -> Seq<u8> {
    |i: int| unavailable_digest_spec(msg_id, v.timestamps[i])
}

/// A read-message tally whose two sides are sound, no validator on both.
pub open spec fn read_tally_sound(t: ReadTallyView, keys: Seq<Seq<u8>>, namespace: Seq<u8>, msg_id: Seq<u8>) -> bool {
    &&& tally_sound(t.available, keys, record_digest_at(t.available, namespace, t.message))
    &&& tally_sound(t.unavailable, keys, unavailable_digest_at(t.unavailable, msg_id))
    &&& t.available.voters.len() > 0 ==> message_digest_spec(namespace, t.message) == msg_id
    &&& forall|i: int| has_voted(t.available, i) ==> !has_voted(t.unavailable, i)
}

/// A certificate of absence backed by `keys`: one timestamp per validator,
/// and a quorum signature that sums valid denials of `msg_id` by distinct
/// validators, at least a quorum of them.
pub open spec fn unavailable_certificate_sound(keys: Seq<Seq<u8>>, c: CertifiedUnavailableView) -> bool {
    &&& c.timestamps.len() == keys.len()
    &&& exists|voters: Seq<int>, sigs: Seq<Seq<u8>>| {
        &&& voters.len() == sigs.len()
        &&& quorum(keys.len(), voters.len())
        &&& voters.len() > 0
        &&& (forall|k: int| 0 <= k < voters.len() ==> 0 <= #[trigger] voters[k] < keys.len())
        &&& (forall|j: int, k: int| 0 <= j < k < voters.len() ==> voters[j] != voters[k])
        &&& (forall|k: int| 0 <= k < voters.len() ==> bls_verifies(
            #[trigger] sigs[k],
            keys[voters[k]],
            unavailable_digest_spec(c.msg_id, c.timestamps[voters[k]]),
            ciphersuite_spec(),
        ))
        &&& c.quorum_signature == bls_aggregate_of(sigs)
    }
}

/// Adding a vote from a validator that has not voted keeps a tally sound.
proof fn lemma_add_vote_sound(
    v: VotesView,
    keys: Seq<Seq<u8>>,
    digest: spec_fn(Timestamp) -> Seq<u8>,
    index: int,
    timestamp: Timestamp,
    signature: Seq<u8>,
)
    requires
        tally_sound(v, keys, |i: int| digest(v.timestamps[i])),
        0 <= index < keys.len(),
        !has_voted(v, index),
        bls_verifies(signature, keys[index], digest(timestamp), ciphersuite_spec()),
        bls_sig_decodes(signature),
    ensures
        ({
            let w = add_vote(v, index, timestamp, signature);
            tally_sound(w, keys, |i: int| digest(w.timestamps[i]))
        }),
{
    let w = add_vote(v, index, timestamp, signature);
    assert forall|k: int| 0 <= k < w.voters.len() implies bls_verifies(
        #[trigger] w.signatures[k],
        keys[w.voters[k]],
        digest(w.timestamps[w.voters[k]]),
        ciphersuite_spec(),
    ) by {
        if k < v.voters.len() {
            assert(w.voters[k] == v.voters[k]);
            assert(v.voters[k] != index) by {
                if v.voters[k] == index {
                    assert(v.voters.contains(index));
                }
            }
            assert(w.timestamps[w.voters[k]] == v.timestamps[v.voters[k]]);
            assert(bls_verifies(
                v.signatures[k],
                keys[v.voters[k]],
                (|i: int| digest(v.timestamps[i]))(v.voters[k]),
                ciphersuite_spec(),
            ));
        }
    }
    assert forall|k: int| 0 <= k < w.voters.len() implies bls_sig_decodes(#[trigger] w.signatures[k]) by {
        if k < v.voters.len() {
            assert(w.signatures[k] == v.signatures[k]);
        }
    }
    assert forall|j: int, k: int| 0 <= j < k < w.voters.len() implies w.voters[j] != w.voters[k] by {
        if k == v.voters.len() {
            if w.voters[j] == index {
                assert(v.voters[j] == index);
                assert(v.voters.contains(index));
            }
        }
    }
    assert forall|i: int| 0 <= i < keys.len() && !has_voted(w, i) implies #[trigger] w.timestamps[i] == Timestamp(
        0,
    ) by {
        assert(w.voters[w.voters.len() - 1] == index);
        if i == index {
            assert(w.voters.contains(index));
        } else {
            if v.voters.contains(i) {
                let k = choose|k: int| 0 <= k < v.voters.len() && v.voters[k] == i;
                assert(w.voters[k] == i);
            }
        }
    }
    assert forall|k: int| 0 <= k < w.voters.len() implies 0 <= #[trigger] w.voters[k] < keys.len() by {
        if k < v.voters.len() {
            assert(w.voters[k] == v.voters[k]);
        }
    }
}

/// Every read-message tally is sound.
pub proof fn lemma_read_tally_sound(
    keys: Seq<Seq<u8>>,
    namespace: Seq<u8>,
    msg_id: Seq<u8>,
    replies: Seq<(usize, ReadMessageResponse)>,
)
    ensures
        read_tally_sound(read_tally(keys, namespace, msg_id, replies), keys, namespace, msg_id),
    decreases replies.len(),
{
    if replies.len() == 0 {
        let t = empty_read_tally(keys.len());
        assert(tally_sound(t.available, keys, record_digest_at(t.available, namespace, t.message)));
        assert(tally_sound(t.unavailable, keys, unavailable_digest_at(t.unavailable, msg_id)));
    } else {
        lemma_read_tally_sound(keys, namespace, msg_id, replies.drop_last());
        let t = read_tally(keys, namespace, msg_id, replies.drop_last());
        let index = replies.last().0 as int;
        let response = replies.last().1;
        if !read_done(keys.len(), t) && read_accepts(t, keys, namespace, msg_id, index, response) {
            let w = read_step(t, keys, namespace, msg_id, index, response);
            match response {
                ReadMessageResponse::Available(rec) => {
                    let m = rec.message@;
                    let d = |ts: Timestamp| record_digest_spec(namespace, ts, m);
                    assert(tally_sound(t.available, keys, |i: int| d(t.available.timestamps[i]))) by {
                        if t.available.voters.len() > 0 {
                            assert(m == t.message);
                        }
                        assert forall|k: int| 0 <= k < t.available.voters.len() implies bls_verifies(
                            #[trigger] t.available.signatures[k],
                            keys[t.available.voters[k]],
                            (|i: int| d(t.available.timestamps[i]))(t.available.voters[k]),
                            ciphersuite_spec(),
                        ) by {
                            assert(bls_verifies(
                                t.available.signatures[k],
                                keys[t.available.voters[k]],
                                record_digest_at(t.available, namespace, t.message)(t.available.voters[k]),
                                ciphersuite_spec(),
                            ));
                        }
                    }
                    assert(!has_voted(t.available, index));
                    lemma_add_vote_sound(t.available, keys, d, index, rec.timestamp, rec.signature@);
                    let a = add_vote(t.available, index, rec.timestamp, rec.signature@);
                    assert(tally_sound(a, keys, record_digest_at(a, namespace, m))) by {
                        assert forall|k: int| 0 <= k < a.voters.len() implies bls_verifies(
                            #[trigger] a.signatures[k],
                            keys[a.voters[k]],
                            record_digest_at(a, namespace, m)(a.voters[k]),
                            ciphersuite_spec(),
                        ) by {
                            assert(bls_verifies(
                                a.signatures[k],
                                keys[a.voters[k]],
                                (|i: int| d(a.timestamps[i]))(a.voters[k]),
                                ciphersuite_spec(),
                            ));
                        }
                    }
                    assert forall|i: int| has_voted(w.available, i) implies !has_voted(w.unavailable, i) by {
                        if i != index {
                            let k = choose|k: int| 0 <= k < a.voters.len() && a.voters[k] == i;
                            assert(k < t.available.voters.len());
                            assert(t.available.voters[k] == i);
                            assert(has_voted(t.available, i));
                        }
                    }
                },
                ReadMessageResponse::Unavailable(u) => {
                    let d = |ts: Timestamp| unavailable_digest_spec(msg_id, ts);
                    assert(tally_sound(t.unavailable, keys, |i: int| d(t.unavailable.timestamps[i]))) by {
                        assert forall|k: int| 0 <= k < t.unavailable.voters.len() implies bls_verifies(
                            #[trigger] t.unavailable.signatures[k],
                            keys[t.unavailable.voters[k]],
                            (|i: int| d(t.unavailable.timestamps[i]))(t.unavailable.voters[k]),
                            ciphersuite_spec(),
                        ) by {
                            assert(bls_verifies(
                                t.unavailable.signatures[k],
                                keys[t.unavailable.voters[k]],
                                unavailable_digest_at(t.unavailable, msg_id)(t.unavailable.voters[k]),
                                ciphersuite_spec(),
                            ));
                        }
                    }
                    lemma_add_vote_sound(t.unavailable, keys, d, index, u.timestamp, u.signature@);
                    let b = add_vote(t.unavailable, index, u.timestamp, u.signature@);
                    assert(tally_sound(b, keys, unavailable_digest_at(b, msg_id))) by {
                        assert forall|k: int| 0 <= k < b.voters.len() implies bls_verifies(
                            #[trigger] b.signatures[k],
                            keys[b.voters[k]],
                            unavailable_digest_at(b, msg_id)(b.voters[k]),
                            ciphersuite_spec(),
                        ) by {
                            assert(bls_verifies(
                                b.signatures[k],
                                keys[b.voters[k]],
                                (|i: int| d(b.timestamps[i]))(b.voters[k]),
                                ciphersuite_spec(),
                            ));
                        }
                    }
                    assert forall|i: int| has_voted(w.available, i) implies !has_voted(w.unavailable, i) by {
                        if i != index {
                            if has_voted(b, i) {
                                let k = choose|k: int| 0 <= k < b.voters.len() && b.voters[k] == i;
                                assert(k < t.unavailable.voters.len());
                                assert(t.unavailable.voters[k] == i);
                            }
                        }
                    }
                },
            }
        }
    }
}

/// The state of a read-message fan-out: votes for both answers.
pub struct ReadMessageTally {
    available: Votes,
    unavailable: Votes,
    message: Vec<u8>,
}

impl View for ReadMessageTally {
    type V = ReadTallyView;

    closed spec fn view(&self) -> ReadTallyView {
        ReadTallyView { available: self.available@, unavailable: self.unavailable@, message: self.message@ }
    }
}

impl ReadMessageTally {
    /// A tally for `n` validators before any reply.
    pub fn new(n: usize) -> (r: ReadMessageTally)
        ensures
            r@ == empty_read_tally(n as nat),
    {
        ReadMessageTally { available: Votes::new(n), unavailable: Votes::new(n), message: Vec::new() }
    }
}

/// The three outcomes of a read-message tally, as a function of its votes.
pub open spec fn read_outcome_ok(
    keys: Seq<Seq<u8>>,
    namespace: Seq<u8>,
    msg_id: Seq<u8>,
    t: ReadTallyView,
    r: Result<CertifiedReadMessageResponse, ReadError>,
) -> bool {
    let n = keys.len();
    let a = t.available.voters.len();
    let u = t.unavailable.voters.len();
    if n > 0 && quorum(n, a) {
        r matches Ok(CertifiedReadMessageResponse::Available(c)) && c@ == (CertifiedRecordView {
            timestamps: t.available.timestamps,
            message: t.message,
            quorum_signature: bls_aggregate_of(t.available.signatures),
        }) && certificate_sound(keys, namespace, c@) && message_digest_spec(namespace, c@.message) == msg_id
    } else if n > 0 && quorum(n, u) {
        r matches Ok(CertifiedReadMessageResponse::Unavailable(c)) && c@ == (CertifiedUnavailableView {
            timestamps: t.unavailable.timestamps,
            msg_id,
            quorum_signature: bls_aggregate_of(t.unavailable.signatures),
        }) && unavailable_certificate_sound(keys, c@)
    } else {
        r == Err::<CertifiedReadMessageResponse, ReadError>(
            ReadError::NoQuorum { available: a as usize, unavailable: u as usize },
        )
    }
}

impl Client {
    /// Takes one reply to a read-message request into the tally; returns
    /// whether it counted.
    pub fn accept_read_message(
        &self,
        tally: &mut ReadMessageTally,
        namespace: &Namespace,
        msg_id: &Digest,
        index: usize,
        response: &ReadMessageResponse,
    ) -> (r: bool)
        requires
            old(tally)@.available.timestamps.len() == self.keys().len(),
            old(tally)@.unavailable.timestamps.len() == self.keys().len(),
            old(tally)@.available.voters.len() == old(tally)@.available.signatures.len(),
        ensures
            r == read_accepts(old(tally)@, self.keys(), namespace@, msg_id@, index as int, *response),
            final(tally)@ == read_step(old(tally)@, self.keys(), namespace@, msg_id@, index as int, *response),
    {
        if index >= self.validators.len() || tally.available.contains(index) || tally.unavailable.contains(index) {
            return false;
        }
        let dst = ciphersuite();
        match response {
            ReadMessageResponse::Available(rec) => {
                let id = rec.message_digest(namespace);
                if !bytes_eq(&id, msg_id) {
                    return false;
                }
                if tally.available.count() > 0 && !bytes_eq(rec.message.0.as_slice(), tally.message.as_slice()) {
                    return false;
                }
                let digest = rec.digest(namespace);
                if !verify_signature(rec.signature.as_slice(), self.validators[index].as_slice(), &digest, dst.as_slice()) {
                    return false;
                }
                tally.available.add(index, rec.timestamp, &rec.signature);
                tally.message = copy_bytes(rec.message.0.as_slice());
                true
            },
            ReadMessageResponse::Unavailable(u) => {
                let digest = unavailable_digest_of(msg_id, u.timestamp);
                if !verify_signature(u.signature.as_slice(), self.validators[index].as_slice(), &digest, dst.as_slice()) {
                    return false;
                }
                tally.unavailable.add(index, u.timestamp, &u.signature);
                true
            },
        }
    }

    /// Whether a read-message tally needs no further reply.
    pub fn read_message_done(&self, tally: &ReadMessageTally) -> (r: bool)
        requires
            tally@.available.voters.len() == tally@.available.signatures.len(),
            tally@.unavailable.voters.len() == tally@.unavailable.signatures.len(),
        ensures
            r == read_done(self.keys().len(), tally@),
    {
        let n = self.validators.len();
        let a = tally.available.count();
        let u = tally.unavailable.count();
        has_reached_quorum(n, a) || has_reached_quorum(n, u) || a as u128 + u as u128 >= n as u128
    }

    /// Turns a sound read-message tally into its outcome: the available
    /// certificate if that side has a quorum, else the unavailable one if
    /// that side has, else `NoQuorum` with both counts.
    pub fn finish_read_message(&self, tally: &ReadMessageTally, namespace: &Namespace, msg_id: &Digest) -> (r: Result<CertifiedReadMessageResponse, ReadError>)
        requires
            read_tally_sound(tally@, self.keys(), namespace@, msg_id@),
        ensures
            read_outcome_ok(self.keys(), namespace@, msg_id@, tally@, r),
    {
        let n = self.validators.len();
        let a = tally.available.count();
        let u = tally.unavailable.count();
        if n > 0 && has_reached_quorum(n, a) {
            match tally.available.aggregate() {
                Some(quorum_signature) => {
                    let c = CertifiedRecord {
                        timestamps: tally.available.timestamps(),
                        message: Message(copy_bytes(tally.message.as_slice())),
                        quorum_signature,
                    };
                    proof {
                        let v = tally@.available;
                        assert(forall|k: int| 0 <= k < v.voters.len() ==> bls_verifies(
                            #[trigger] v.signatures[k],
                            self.keys()[v.voters[k]],
                            record_digest_spec(namespace@, c@.timestamps[v.voters[k]], c@.message),
                            ciphersuite_spec(),
                        ));
                        assert(certificate_sound(self.keys(), namespace@, c@));
                    }
                    Ok(CertifiedReadMessageResponse::Available(c))
                },
                None => {
                    assert(false);
                    Err(ReadError::NoQuorum { available: a, unavailable: u })
                },
            }
        } else if n > 0 && has_reached_quorum(n, u) {
            match tally.unavailable.aggregate() {
                Some(quorum_signature) => {
                    let c = CertifiedUnavailableMessage {
                        timestamps: tally.unavailable.timestamps(),
                        msg_id: copy_digest(msg_id),
                        quorum_signature,
                    };
                    proof {
                        let v = tally@.unavailable;
                        assert(forall|k: int| 0 <= k < v.voters.len() ==> bls_verifies(
                            #[trigger] v.signatures[k],
                            self.keys()[v.voters[k]],
                            unavailable_digest_spec(c@.msg_id, c@.timestamps[v.voters[k]]),
                            ciphersuite_spec(),
                        ));
                        assert(unavailable_certificate_sound(self.keys(), c@));
                    }
                    Ok(CertifiedReadMessageResponse::Unavailable(c))
                },
                None => {
                    assert(false);
                    Err(ReadError::NoQuorum { available: a, unavailable: u })
                },
            }
        } else {
            Err(ReadError::NoQuorum { available: a, unavailable: u })
        }
    }

    /// Certifies the answer to a read-message request from the validators'
    /// replies in arrival order, stopping once `read_done` holds.
    pub fn certify_read_message(
        &self,
        namespace: &Namespace,
        msg_id: &Digest,
        replies: &Vec<(usize, ReadMessageResponse)>,
    ) -> (r: Result<CertifiedReadMessageResponse, ReadError>)
        ensures
            read_outcome_ok(self.keys(), namespace@, msg_id@, read_tally(self.keys(), namespace@, msg_id@, replies@), r),
    {
        let ghost keys = self.keys();
        let mut tally = ReadMessageTally::new(self.validators.len());
        let mut i: usize = 0;
        proof {
            assert(replies@.subrange(0, 0) =~= Seq::<(usize, ReadMessageResponse)>::empty());
        }
        while i < replies.len()
            invariant
                0 <= i <= replies@.len(),
                keys == self.keys(),
                tally@ == read_tally(keys, namespace@, msg_id@, replies@.subrange(0, i as int)),
                tally@.available.timestamps.len() == keys.len(),
                tally@.unavailable.timestamps.len() == keys.len(),
                tally@.available.voters.len() == tally@.available.signatures.len(),
                tally@.unavailable.voters.len() == tally@.unavailable.signatures.len(),
            decreases replies.len() - i,
        {
            proof {
                assert(replies@.subrange(0, i + 1).drop_last() =~= replies@.subrange(0, i as int));
            }
            if !self.read_message_done(&tally) {
                let _ = self.accept_read_message(&mut tally, namespace, msg_id, replies[i].0, &replies[i].1);
            }
            i = i + 1;
        }
        proof {
            assert(replies@.subrange(0, i as int) =~= replies@);
            lemma_read_tally_sound(keys, namespace@, msg_id@, replies@);
        }
        self.finish_read_message(&tally, namespace, msg_id)
    }
}

/// Whether every record of a log carries validator `index`'s valid signature.
pub open spec fn log_verifies(keys: Seq<Seq<u8>>, namespace: Seq<u8>, index: int, records: Seq<Record>) -> bool {
    &&& 0 <= index < keys.len()
    &&& forall|k: int| 0 <= k < records.len() ==> bls_verifies(
        (#[trigger] records[k]).signature@,
        keys[index],
        record_digest_spec(namespace, records[k].timestamp, records[k].message@),
        ciphersuite_spec(),
    )
}

/// The records of the replies whose logs verify, in reply order.
pub open spec fn accepted_records(keys: Seq<Seq<u8>>, namespace: Seq<u8>, replies: Seq<(usize, Log)>) -> Seq<Record>
    decreases replies.len(),
{
    if replies.len() == 0 {
        Seq::empty()
    } else {
        let rest = accepted_records(keys, namespace, replies.drop_last());
        if log_verifies(keys, namespace, replies.last().0 as int, replies.last().1.records@) {
            rest + replies.last().1.records@
        } else {
            rest
        }
    }
}

/// The order of records by timestamp, as a relation.
pub open spec fn record_leq() -> spec_fn(Record, Record) -> bool {
    |a: Record, b: Record| a.timestamp.0 <= b.timestamp.0
}

/// Sorts records ascending by timestamp, in place.
pub fn sort_records(v: &mut Vec<Record>)
    ensures
        final(v)@.to_multiset() == old(v)@.to_multiset(),
        sorted_by(final(v)@, record_leq()),
{
    let ghost original = v@;
    if v.len() <= 1 {
        return;
    }
    let mut i: usize = 1;
    while i < v.len()
        invariant
            1 <= i <= v.len(),
            v@.to_multiset() == original.to_multiset(),
            sorted_by(v@.subrange(0, i as int), record_leq()),
        decreases v.len() - i,
    {
        let ghost whole = v@;
        let x = v.remove(i);
        proof {
            whole.to_multiset_ensures();
            assert(v@ =~= whole.remove(i as int));
        }
        let mut j: usize = i;
        while j > 0 && v[j - 1].timestamp.0 > x.timestamp.0
            invariant
                0 <= j <= i < v.len() + 1,
                sorted_by(v@.subrange(0, i as int), record_leq()),
                forall|k: int| j <= k < i ==> (#[trigger] v@[k]).timestamp.0 > x.timestamp.0,
            decreases j,
        {
            j = j - 1;
        }
        let ghost before = v@;
        let ghost xv = x;
        v.insert(j, x);
        proof {
            before.to_multiset_ensures();
            v@.to_multiset_ensures();
            assert(v@.remove(j as int) =~= before);
            assert(v@[j as int] == xv);
            assert(v@.to_multiset() =~= original.to_multiset()) by {
                broadcast use vstd::multiset::group_multiset_axioms;
                assert(v@.contains(xv));
                assert(whole.contains(xv));
                assert forall|e: Record| v@.to_multiset().count(e) == whole.to_multiset().count(e) by {
                    if e == xv {
                        assert(v@.to_multiset().remove(xv).count(e) == v@.to_multiset().count(e) - 1);
                        assert(whole.to_multiset().remove(xv).count(e) == whole.to_multiset().count(e) - 1);
                    } else {
                        assert(v@.to_multiset().remove(xv).count(e) == v@.to_multiset().count(e));
                        assert(whole.to_multiset().remove(xv).count(e) == whole.to_multiset().count(e));
                    }
                }
            }
            assert forall|a: int, b: int| 0 <= a < b < i + 1 implies
                #[trigger] record_leq()(v@.subrange(0, i + 1)[a], v@.subrange(0, i + 1)[b]) by {
                assert(v@.subrange(0, i + 1)[a] == v@[a]);
                assert(v@.subrange(0, i + 1)[b] == v@[b]);
                if a < j && b < j {
                    assert(record_leq()(before.subrange(0, i as int)[a], before.subrange(0, i as int)[b]));
                } else if a < j && b == j {
                    if j > 0 {
                        assert(record_leq()(before.subrange(0, i as int)[a], before.subrange(0, i as int)[j - 1]));
                    }
                } else if a < j {
                    assert(record_leq()(before.subrange(0, i as int)[a], before.subrange(0, i as int)[b - 1]));
                } else if a == j {
                    assert(before[b - 1].timestamp.0 > xv.timestamp.0);
                } else {
                    assert(record_leq()(before.subrange(0, i as int)[a - 1], before.subrange(0, i as int)[b - 1]));
                }
            }
        }
        i = i + 1;
    }
    assert(v@.subrange(0, v@.len() as int) =~= v@);
}

impl Client {
    /// Whether every record of a log carries validator `index`'s valid signature.
    pub fn verify_log(&self, index: usize, namespace: &Namespace, log: &Log) -> (r: bool)
        ensures
            r == log_verifies(self.keys(), namespace@, index as int, log.records@),
    {
        if index >= self.validators.len() {
            return false;
        }
        let dst = ciphersuite();
        let mut k: usize = 0;
        while k < log.records.len()
            invariant
                index < self.keys().len(),
                0 <= k <= log.records@.len(),
                forall|j: int| 0 <= j < k ==> bls_verifies(
                    (#[trigger] log.records@[j]).signature@,
                    self.keys()[index as int],
                    record_digest_spec(namespace@, log.records@[j].timestamp, log.records@[j].message@),
                    ciphersuite_spec(),
                ),
                dst@ == ciphersuite_spec(),
            decreases log.records.len() - k,
        {
            let rec = &log.records[k];
            let digest = rec.digest(namespace);
            if !verify_signature(rec.signature.as_slice(), self.validators[index].as_slice(), &digest, dst.as_slice()) {
                return false;
            }
            k = k + 1;
        }
        true
    }

    /// Merges the logs of the replies whose records all verify, ascending by
    /// timestamp. No quorum is involved.
    pub fn certify_read(&self, namespace: &Namespace, replies: Vec<(usize, Log)>) -> (r: Log)
        ensures
            r.records@.to_multiset() == accepted_records(self.keys(), namespace@, replies@).to_multiset(),
            sorted_by(r.records@, record_leq()),
    {
        let ghost all = replies@;
        let ghost keys = self.keys();
        let mut replies = replies;
        let mut merged: Vec<Record> = Vec::new();
        proof {
            broadcast use vstd::multiset::group_multiset_axioms;
            assert(replies@ =~= all.subrange(0, replies@.len() as int));
            merged@.to_multiset_ensures();
            vstd::multiset::lemma_multiset_empty_len(merged@.to_multiset());
            assert(merged@.to_multiset().add(accepted_records(keys, namespace@, all).to_multiset())
                =~= accepted_records(keys, namespace@, all).to_multiset());
        }
        while replies.len() > 0
            invariant
                keys == self.keys(),
                replies@ == all.subrange(0, replies@.len() as int),
                replies@.len() <= all.len(),
                merged@.to_multiset().add(accepted_records(keys, namespace@, replies@).to_multiset())
                    == accepted_records(keys, namespace@, all).to_multiset(),
            decreases replies.len(),
        {
            let ghost prev = replies@;
            let (index, mut log) = match replies.pop() {
                Some(p) => p,
                None => {
                    assert(false);
                    return Log { records: merged };
                },
            };
            proof {
                assert(replies@ =~= prev.drop_last());
                assert(replies@ =~= all.subrange(0, replies@.len() as int));
            }
            let ghost m0 = merged@;
            let ghost recs = log.records@;
            if self.verify_log(index, namespace, &log) {
                merged.append(&mut log.records);
                proof {
                    broadcast use vstd::multiset::group_multiset_axioms;
                    vstd::seq_lib::lemma_multiset_commutative(m0, recs);
                    vstd::seq_lib::lemma_multiset_commutative(accepted_records(keys, namespace@, replies@), recs);
                    assert(merged@.to_multiset().add(accepted_records(keys, namespace@, replies@).to_multiset())
                        =~= m0.to_multiset().add(accepted_records(keys, namespace@, prev).to_multiset()));
                }
            }
        }
        proof {
            assert(accepted_records(keys, namespace@, replies@) == Seq::<Record>::empty());
            broadcast use vstd::multiset::group_multiset_axioms;
            Seq::<Record>::empty().to_multiset_ensures();
            vstd::multiset::lemma_multiset_empty_len(Seq::<Record>::empty().to_multiset());
            assert(merged@.to_multiset().add(Seq::<Record>::empty().to_multiset()) =~= merged@.to_multiset());
        }
        sort_records(&mut merged);
        Log { records: merged }
    }
}

/// How many messages a certified subscription follows at once by default.
pub const SUBSCRIPTION_CAPACITY: usize = 1024;

/// The records gathered so far for message identity `key`.
pub open spec fn group_of(e: Seq<(Seq<u8>, Vec<Record>)>, key: Seq<u8>) -> Seq<RecordView> {
    if has_key(e, key) {
        record_views(e[key_pos(e, key)].1@)
    } else {
        Seq::empty()
    }
}

/// Whether a group of `size` records has just reached the quorum.
pub open spec fn first_quorum(n: nat, size: nat) -> bool {
    quorum(n, size) && (size == 0 || !quorum(n, (size - 1) as nat))
}

/// The certificate built from a group of records, in arrival order.
pub open spec fn group_certificate(g: Seq<RecordView>) -> CertifiedRecordView {
    CertifiedRecordView {
        timestamps: g.map_values(|x: RecordView| x.timestamp),
        message: g[0].message,
        quorum_signature: bls_aggregate_of(g.map_values(|x: RecordView| x.signature)),
    }
}

/// Copies a list of records.
pub fn copy_records(v: &Vec<Record>) -> (r: Vec<Record>)
    ensures
        record_views(r@) == record_views(v@),
{
    let mut r: Vec<Record> = Vec::new();
    let mut i: usize = 0;
    while i < v.len()
        invariant
            0 <= i <= v@.len(),
            record_views(r@) == record_views(v@.subrange(0, i as int)),
        decreases v.len() - i,
    {
        let ghost before = r@;
        r.push(v[i].duplicate());
        assert(record_views(r@) =~= record_views(before).push(v@[i as int]@));
        assert(record_views(v@.subrange(0, i + 1)) =~= record_views(v@.subrange(0, i as int)).push(v@[i as int]@));
        i = i + 1;
    }
    assert(v@.subrange(0, i as int) =~= v@);
    r
}

/// Groups a subscription's records by message identity and certifies each
/// message once, when its group first reaches a quorum. Records carry no
/// validator index, so a certificate's timestamps follow arrival order.
pub struct CertifiedStream {
    validators: usize,
    groups: FifoMap<Vec<Record>>,
}

impl CertifiedStream {
    /// The number of validators the quorum is counted against.
    pub closed spec fn validator_count(&self) -> nat {
        self.validators as nat
    }

    /// The groups, oldest message first, keyed by message identity.
    pub closed spec fn groups(&self) -> Seq<(Seq<u8>, Vec<Record>)> {
        self.groups.entries()
    }

    /// The stream's invariant.
    pub closed spec fn wf(&self) -> bool {
        self.groups.wf()
    }

    /// Creates an aggregator for `validators` validators that follows up to
    /// `capacity` messages (at least one), forgetting the oldest beyond that.
    pub fn new(validators: usize, capacity: usize) -> (r: CertifiedStream)
        ensures
            r.wf(),
            r.validator_count() == validators,
            r.groups() == Seq::<(Seq<u8>, Vec<Record>)>::empty(),
    {
        CertifiedStream { validators, groups: FifoMap::with_capacity(capacity) }
    }

    /// Adds a record to the group of its message; returns the certificate of
    /// that group when it has just reached the quorum and all its signatures
    /// decode.
    pub fn push(&mut self, namespace: &Namespace, record: Record) -> (r: Option<CertifiedRecord>)
        requires
            old(self).wf(),
        ensures
            final(self).wf(),
            final(self).validator_count() == old(self).validator_count(),
            ({
                let key = message_digest_spec(namespace@, record.message@);
                let g = group_of(final(self).groups(), key);
                &&& g == group_of(old(self).groups(), key).push(record@)
                &&& (r is Some <==> first_quorum(old(self).validator_count(), g.len())
                    && forall|i: int| 0 <= i < g.len() ==> bls_sig_decodes(#[trigger] g[i].signature))
                &&& (r matches Some(c) ==> c@ == group_certificate(g))
            }),
    {
        let key = record.message_digest(namespace);
        let ghost rv = record@;
        let ghost old_e = self.groups.entries();
        let pos = match self.groups.position(&key) {
            Some(i) => {
                let mut g = copy_records(self.groups.value_at(i));
                let ghost g0 = record_views(g@);
                g.push(record);
                assert(record_views(g@) =~= g0.push(rv));
                self.groups.set_value_at(i, g);
                proof {
                    let e = self.groups.entries();
                    assert(e[i as int].0 == key@);
                    assert(has_key(e, key@));
                    let p = key_pos(e, key@);
                    if p != i as int {
                        assert(e[p].0 != e[i as int].0);
                    }
                }
                i
            },
            None => {
                let g: Vec<Record> = vec![record];
                let ghost gv = g;
                self.groups.insert(key, g);
                proof {
                    let e = self.groups.entries();
                    assert(e == fifo_insert(old_e, self.groups.capacity(), key@, gv));
                    assert(e[e.len() - 1] == (key@, gv));
                    assert(has_key(e, key@));
                    let p = key_pos(e, key@);
                    if p != e.len() - 1 {
                        assert(e[p].0 != e[e.len() - 1].0);
                    }
                    assert(record_views(gv@) =~= Seq::<RecordView>::empty().push(rv));
                }
                self.groups.len() - 1
            },
        };
        let group = self.groups.value_at(pos);
        let size = group.len();
        let reached = has_reached_quorum(self.validators, size)
            && (size == 0 || !has_reached_quorum(self.validators, size - 1));
        if !reached {
            return None;
        }
        let r = CertifiedRecord::from_records_unchecked(group);
        proof {
            let gs = group@;
            let g = record_views(gs);
            assert(gs.map_values(|x: Record| x.timestamp) =~= g.map_values(|x: RecordView| x.timestamp));
            assert(gs.map_values(|x: Record| x.signature@) =~= g.map_values(|x: RecordView| x.signature));
            assert((forall|i: int| 0 <= i < g.len() ==> bls_sig_decodes(#[trigger] g[i].signature))
                <==> (forall|i: int| 0 <= i < gs.len() ==> bls_sig_decodes(#[trigger] gs[i].signature@))) by {
                assert forall|i: int| 0 <= i < g.len() implies g[i].signature == (#[trigger] gs[i]).signature@ by {}
            }
        }
        r
    }
}

/// Whether reply `i` is validator `i`'s valid denial of `msg_id`.
pub open spec fn is_valid_denial(keys: Seq<Seq<u8>>, msg_id: Seq<u8>, i: int, reply: (usize, ReadMessageResponse)) -> bool {
    &&& reply.0 as int == i
    &&& match reply.1 {
        ReadMessageResponse::Unavailable(u) => bls_verifies(
            u.signature@,
            keys[i],
            unavailable_digest_spec(msg_id, u.timestamp),
            ciphersuite_spec(),
        ) && bls_sig_decodes(u.signature@),
        ReadMessageResponse::Available(_) => false,
    }
}

proof fn lemma_denials_prefix(
    keys: Seq<Seq<u8>>,
    namespace: Seq<u8>,
    msg_id: Seq<u8>,
    replies: Seq<(usize, ReadMessageResponse)>,
    k: int,
)
    requires
        0 <= k <= replies.len() <= keys.len(),
        forall|i: int| 0 <= i < replies.len() ==> is_valid_denial(keys, msg_id, i, #[trigger] replies[i]),
    ensures
        ({
            let t = read_tally(keys, namespace, msg_id, replies.subrange(0, k));
            &&& t.available.voters.len() == 0
            &&& t.unavailable.voters.len() <= k
            &&& forall|j: int| 0 <= j < t.unavailable.voters.len() ==> #[trigger] t.unavailable.voters[j] < k
            &&& (t.unavailable.voters.len() == k || read_done(keys.len(), t))
            &&& t.available.timestamps.len() == keys.len()
            &&& t.unavailable.timestamps.len() == keys.len()
        }),
    decreases k,
{
    if k > 0 {
        lemma_denials_prefix(keys, namespace, msg_id, replies, k - 1);
        let prefix = replies.subrange(0, k);
        assert(prefix.drop_last() =~= replies.subrange(0, k - 1));
        let t = read_tally(keys, namespace, msg_id, replies.subrange(0, k - 1));
        assert(prefix.last() == replies[k - 1]);
        assert(is_valid_denial(keys, msg_id, k - 1, replies[k - 1]));
        if !read_done(keys.len(), t) {
            assert(!has_voted(t.unavailable, k - 1)) by {
                if t.unavailable.voters.contains(k - 1) {
                    let j = choose|j: int| 0 <= j < t.unavailable.voters.len() && t.unavailable.voters[j] == k - 1;
                    assert(t.unavailable.voters[j] < k - 1);
                }
            }
            assert(!has_voted(t.available, k - 1));
            assert(read_accepts(t, keys, namespace, msg_id, k - 1, replies[k - 1].1));
        }
    }
}

/// When every validator, in index order, denies `msg_id` with a valid
/// signature, the read-message outcome is a certificate of absence.
pub proof fn lemma_all_denials_certify_absence(
    keys: Seq<Seq<u8>>,
    namespace: Seq<u8>,
    msg_id: Seq<u8>,
    replies: Seq<(usize, ReadMessageResponse)>,
    r: Result<CertifiedReadMessageResponse, ReadError>,
)
    requires
        keys.len() > 0,
        replies.len() == keys.len(),
        forall|i: int| 0 <= i < replies.len() ==> is_valid_denial(keys, msg_id, i, #[trigger] replies[i]),
        read_outcome_ok(keys, namespace, msg_id, read_tally(keys, namespace, msg_id, replies), r),
    ensures
        r matches Ok(CertifiedReadMessageResponse::Unavailable(c)) && c@.msg_id == msg_id
            && c@.timestamps.len() == keys.len(),
{
    lemma_denials_prefix(keys, namespace, msg_id, replies, replies.len() as int);
    assert(replies.subrange(0, replies.len() as int) =~= replies);
    let t = read_tally(keys, namespace, msg_id, replies);
    assert(!quorum(keys.len(), 0));
    assert(quorum(keys.len(), t.unavailable.voters.len()));
}

/// The available certificates among per-message results, in order.
pub open spec fn available_certificates(s: Seq<Result<CertifiedReadMessageResponse, ReadError>>) -> Seq<CertifiedRecord>
    decreases s.len(),
{
    if s.len() == 0 {
        Seq::empty()
    } else {
        let rest = available_certificates(s.drop_first());
        match s[0] {
            Ok(CertifiedReadMessageResponse::Available(c)) => seq![c] + rest,
            _ => rest,
        }
    }
}

/// Keeps the available certificates of a certified range read, in order,
/// dropping denials and failures.
pub fn collect_available(results: Vec<Result<CertifiedReadMessageResponse, ReadError>>) -> (r: CertifiedLog)
    ensures
        r.records@ == available_certificates(results@),
{
    let ghost all = results@;
    let mut results = results;
    let mut out: Vec<CertifiedRecord> = Vec::new();
    while results.len() > 0
        invariant
            out@ + available_certificates(results@) == available_certificates(all),
        decreases results.len(),
    {
        let ghost prev = results@;
        let x = results.remove(0);
        assert(results@ =~= prev.drop_first());
        match x {
            Ok(CertifiedReadMessageResponse::Available(c)) => {
                let ghost o = out@;
                out.push(c);
                assert(out@ + available_certificates(results@) =~= o + available_certificates(prev));
            },
            _ => {},
        }
    }
    assert(out@ + Seq::<CertifiedRecord>::empty() =~= out@);
    CertifiedLog { records: out }
}

} // verus!
