//! The data model of the log: messages, records, certificates and errors.
use vstd::prelude::*;

use crate::bytes::{append_bytes, bytes_eq, copy_bytes, le_bytes, u128_le_bytes};
use crate::crypto::{
    aggregate_signatures, bls_aggregate_of, bls_secret_valid, bls_sig_decodes, bls_signature_of,
    ciphersuite, ciphersuite_spec, keccak256, keccak_of, sign_digest, views_of,
};
use crate::timestamp::{certified_timestamp_of, median, sorted_timestamps, Timestamp};

verus! {

/// A namespace of the log: an opaque byte string.
pub type Namespace = Vec<u8>;

/// A 32-byte Keccak-256 digest.
pub type Digest = [u8; 32];

/// `Keccak256(namespace ‖ message)`: the identity of a message across validators.
pub open spec fn message_digest_spec(namespace: Seq<u8>, message: Seq<u8>) -> Seq<u8> {
    keccak_of(namespace + message)
}

/// `Keccak256(namespace ‖ timestamp_le ‖ message)`: what a validator signs for a record.
pub open spec fn record_digest_spec(namespace: Seq<u8>, timestamp: Timestamp, message: Seq<u8>) -> Seq<u8> {
    keccak_of(namespace + le_bytes(timestamp.0) + message)
}

/// `Keccak256(msg_id ‖ timestamp_le)`: what a validator signs to deny a message.
pub open spec fn unavailable_digest_spec(msg_id: Seq<u8>, timestamp: Timestamp) -> Seq<u8> {
    keccak_of(msg_id + le_bytes(timestamp.0))
}

/// Returns `Keccak256(namespace ‖ message)`.
pub fn message_digest_of(namespace: &[u8], message: &[u8]) -> (r: Digest)
    ensures
        r@ == message_digest_spec(namespace@, message@),
{
    let mut buf = copy_bytes(namespace);
    append_bytes(&mut buf, message);
    keccak256(buf.as_slice())
}

/// Returns `Keccak256(namespace ‖ timestamp_le ‖ message)`.
pub fn record_digest_of(namespace: &[u8], timestamp: Timestamp, message: &[u8]) -> (r: Digest)
    ensures
        r@ == record_digest_spec(namespace@, timestamp, message@),
{
    let mut buf = copy_bytes(namespace);
    let ts = u128_le_bytes(timestamp.0);
    append_bytes(&mut buf, ts.as_slice());
    append_bytes(&mut buf, message);
    keccak256(buf.as_slice())
}

/// Returns `Keccak256(msg_id ‖ timestamp_le)`.
pub fn unavailable_digest_of(msg_id: &Digest, timestamp: Timestamp) -> (r: Digest)
    ensures
        r@ == unavailable_digest_spec(msg_id@, timestamp),
{
    let mut buf = copy_bytes(msg_id);
    let ts = u128_le_bytes(timestamp.0);
    append_bytes(&mut buf, ts.as_slice());
    keccak256(buf.as_slice())
}

/// Copies a digest.
pub fn copy_digest(d: &Digest) -> (r: Digest)
    ensures
        r@ == d@,
{
    *d
}

/// A message written to the log.
#[derive(Debug, Clone)]
pub struct Message(pub Vec<u8>);

impl View for Message {
    type V = Seq<u8>;

    open spec fn view(&self) -> Seq<u8> {
        self.0@
    }
}

impl Message {
    /// Returns the digest of the namespace and the message.
    pub fn digest(&self, namespace: &Namespace) -> (r: Digest)
        ensures
            r@ == message_digest_spec(namespace@, self@),
    {
        message_digest_of(namespace.as_slice(), self.0.as_slice())
    }

    /// Returns the digest of the namespace, the timestamp and the message.
    pub fn record_digest(&self, namespace: &Namespace, timestamp: Timestamp) -> (r: Digest)
        ensures
            r@ == record_digest_spec(namespace@, timestamp, self@),
    {
        record_digest_of(namespace.as_slice(), timestamp, self.0.as_slice())
    }

    /// Whether two messages hold the same bytes.
    pub fn same_as(&self, other: &Message) -> (r: bool)
        ensures
            r == (self@ == other@),
    {
        bytes_eq(self.0.as_slice(), other.0.as_slice())
    }

    /// Returns a copy of the message.
    pub fn duplicate(&self) -> (r: Message)
        ensures
            r@ == self@,
    {
        Message(copy_bytes(self.0.as_slice()))
    }
}

/// What a record holds, as values.
pub ghost struct RecordView {
    pub timestamp: Timestamp,
    pub message: Seq<u8>,
    pub signature: Seq<u8>,
}

/// A validator's signed observation of a message at a point in time.
#[derive(Debug, Clone)]
pub struct Record {
    /// When the validator saw the message.
    pub timestamp: Timestamp,
    /// The message.
    pub message: Message,
    /// The validator's signature over the record digest.
    pub signature: Vec<u8>,
}

impl View for Record {
    type V = RecordView;

    open spec fn view(&self) -> RecordView {
        RecordView { timestamp: self.timestamp, message: self.message@, signature: self.signature@ }
    }
}

/// The views of a list of records.
pub open spec fn record_views(v: Seq<Record>) -> Seq<RecordView> {
    v.map_values(|r: Record| r@)
}

impl Record {
    /// Returns the digest of the namespace, timestamp and message.
    pub fn digest(&self, namespace: &Namespace) -> (r: Digest)
        ensures
            r@ == record_digest_spec(namespace@, self.timestamp, self.message@),
    {
        self.message.record_digest(namespace, self.timestamp)
    }

    /// Returns the identity of the record's message.
    pub fn message_digest(&self, namespace: &Namespace) -> (r: Digest)
        ensures
            r@ == message_digest_spec(namespace@, self.message@),
    {
        self.message.digest(namespace)
    }

    /// Returns a copy of the record.
    pub fn duplicate(&self) -> (r: Record)
        ensures
            r@ == self@,
    {
        Record {
            timestamp: self.timestamp,
            message: self.message.duplicate(),
            signature: copy_bytes(self.signature.as_slice()),
        }
    }
}

/// What a denial of a message holds, as values.
pub ghost struct UnavailableView {
    pub timestamp: Timestamp,
    pub msg_id: Seq<u8>,
    pub signature: Seq<u8>,
}

/// A validator's signed statement that it does not hold a message.
#[derive(Debug, Clone)]
pub struct UnavailableMessage {
    /// When the validator looked.
    pub timestamp: Timestamp,
    /// The identity of the missing message.
    pub msg_id: Digest,
    /// The validator's signature over the message identity and timestamp.
    pub signature: Vec<u8>,
}

impl View for UnavailableMessage {
    type V = UnavailableView;

    open spec fn view(&self) -> UnavailableView {
        UnavailableView { timestamp: self.timestamp, msg_id: self.msg_id@, signature: self.signature@ }
    }
}

impl UnavailableMessage {
    /// Signs the absence of `msg_id` at `timestamp`; `None` exactly when
    /// `secret_key` is no secret key.
    pub fn create_signed_at(msg_id: &Digest, secret_key: &Vec<u8>, timestamp: Timestamp) -> (r: Option<UnavailableMessage>)
        ensures
            r is Some <==> bls_secret_valid(secret_key@),
            r matches Some(u) ==> u@ == (UnavailableView {
                timestamp,
                msg_id: msg_id@,
                signature: bls_signature_of(
                    secret_key@,
                    unavailable_digest_spec(msg_id@, timestamp),
                    ciphersuite_spec(),
                ),
            }),
    {
        let digest = unavailable_digest_of(msg_id, timestamp);
        let dst = ciphersuite();
        match sign_digest(secret_key.as_slice(), &digest, dst.as_slice()) {
            Some(signature) => Some(UnavailableMessage { timestamp, msg_id: copy_digest(msg_id), signature }),
            None => None,
        }
    }

    /// Signs the absence of `msg_id` now; `None` exactly when `secret_key` is
    /// no secret key.
    pub fn create_signed(msg_id: &Digest, secret_key: &Vec<u8>) -> (r: Option<UnavailableMessage>)
        ensures
            r is Some <==> bls_secret_valid(secret_key@),
            r matches Some(u) ==> u.msg_id@ == msg_id@ && u.signature@ == bls_signature_of(
                secret_key@,
                unavailable_digest_spec(msg_id@, u.timestamp),
                ciphersuite_spec(),
            ),
    {
        Self::create_signed_at(msg_id, secret_key, Timestamp::now())
    }

    /// Returns the digest of the message identity and the timestamp.
    pub fn digest(&self) -> (r: Digest)
        ensures
            r@ == unavailable_digest_spec(self.msg_id@, self.timestamp),
    {
        unavailable_digest_of(&self.msg_id, self.timestamp)
    }
}

/// What a certificate of a message holds, as values.
pub ghost struct CertifiedRecordView {
    pub timestamps: Seq<Timestamp>,
    pub message: Seq<u8>,
    pub quorum_signature: Seq<u8>,
}

/// A message certified by a quorum of validators.
#[derive(Debug, Clone)]
pub struct CertifiedRecord {
    /// The validators' timestamps, indexed by validator; 0 where one did not vote.
    pub timestamps: Vec<Timestamp>,
    /// The certified message.
    pub message: Message,
    /// The sum of the voters' signatures.
    pub quorum_signature: Vec<u8>,
}

impl View for CertifiedRecord {
    type V = CertifiedRecordView;

    open spec fn view(&self) -> CertifiedRecordView {
        CertifiedRecordView {
            timestamps: self.timestamps@,
            message: self.message@,
            quorum_signature: self.quorum_signature@,
        }
    }
}

impl CertifiedRecord {
    /// Sorts the timestamps ascending and returns their median.
    pub fn certified_timestamp(&mut self) -> (r: Timestamp)
        requires
            old(self).timestamps@.len() > 0,
        ensures
            r.0 == median(old(self).timestamps@),
            final(self).timestamps@ == sorted_timestamps(old(self).timestamps@),
            final(self).message@ == old(self).message@,
            final(self).quorum_signature@ == old(self).quorum_signature@,
    {
        certified_timestamp_of(&mut self.timestamps)
    }

    /// Builds a certificate from records of one message, without checking
    /// them: the timestamps in the order of the records, the first record's
    /// message and the sum of all signatures. `None` exactly when a signature
    /// does not decode.
    pub fn from_records_unchecked(records: &Vec<Record>) -> (r: Option<CertifiedRecord>)
        requires
            records@.len() > 0,
        ensures
            r is Some <==> forall|i: int| 0 <= i < records@.len() ==> bls_sig_decodes(#[trigger] records@[i].signature@),
            r matches Some(c) ==> c@ == (CertifiedRecordView {
                timestamps: records@.map_values(|x: Record| x.timestamp),
                message: records@[0].message@,
                quorum_signature: bls_aggregate_of(records@.map_values(|x: Record| x.signature@)),
            }),
    {
        let mut timestamps: Vec<Timestamp> = Vec::new();
        let mut sigs: Vec<Vec<u8>> = Vec::new();
        let mut i: usize = 0;
        while i < records.len()
            invariant
                0 <= i <= records@.len(),
                timestamps@.len() == i,
                sigs@.len() == i,
                forall|k: int| 0 <= k < i ==> #[trigger] timestamps@[k] == records@[k].timestamp,
                forall|k: int| 0 <= k < i ==> (#[trigger] sigs@[k])@ == records@[k].signature@,
            decreases records.len() - i,
        {
            timestamps.push(records[i].timestamp);
            sigs.push(copy_bytes(records[i].signature.as_slice()));
            i = i + 1;
        }
        proof {
            assert(timestamps@ =~= records@.map_values(|x: Record| x.timestamp));
            assert(views_of(sigs@) =~= records@.map_values(|x: Record| x.signature@));
            assert((forall|k: int| 0 <= k < sigs@.len() ==> bls_sig_decodes(#[trigger] sigs@[k]@))
                <==> (forall|k: int| 0 <= k < records@.len() ==> bls_sig_decodes(#[trigger] records@[k].signature@))) by {
                if forall|k: int| 0 <= k < sigs@.len() ==> bls_sig_decodes(#[trigger] sigs@[k]@) {
                    assert forall|k: int| 0 <= k < records@.len() implies bls_sig_decodes(#[trigger] records@[k].signature@) by {
                        assert(sigs@[k]@ == records@[k].signature@);
                    }
                }
                if forall|k: int| 0 <= k < records@.len() ==> bls_sig_decodes(#[trigger] records@[k].signature@) {
                    assert forall|k: int| 0 <= k < sigs@.len() implies bls_sig_decodes(#[trigger] sigs@[k]@) by {
                        assert(sigs@[k]@ == records@[k].signature@);
                    }
                }
            }
        }
        match aggregate_signatures(&sigs) {
            Some(quorum_signature) => Some(CertifiedRecord { timestamps, message: records[0].message.duplicate(), quorum_signature }),
            None => None,
        }
    }
}

/// What a certificate of absence holds, as values.
pub ghost struct CertifiedUnavailableView {
    pub timestamps: Seq<Timestamp>,
    pub msg_id: Seq<u8>,
    pub quorum_signature: Seq<u8>,
}

/// A message identity certified absent by a quorum of validators.
#[derive(Debug, Clone)]
pub struct CertifiedUnavailableMessage {
    /// The validators' timestamps, indexed by validator; 0 where one did not vote.
    pub timestamps: Vec<Timestamp>,
    /// The identity of the absent message.
    pub msg_id: Digest,
    /// The sum of the voters' signatures.
    pub quorum_signature: Vec<u8>,
}

impl View for CertifiedUnavailableMessage {
    type V = CertifiedUnavailableView;

    open spec fn view(&self) -> CertifiedUnavailableView {
        CertifiedUnavailableView {
            timestamps: self.timestamps@,
            msg_id: self.msg_id@,
            quorum_signature: self.quorum_signature@,
        }
    }
}

impl CertifiedUnavailableMessage {
    /// Sorts the timestamps ascending and returns their median.
    pub fn certified_timestamp(&mut self) -> (r: Timestamp)
        requires
            old(self).timestamps@.len() > 0,
        ensures
            r.0 == median(old(self).timestamps@),
            final(self).timestamps@ == sorted_timestamps(old(self).timestamps@),
            final(self).msg_id@ == old(self).msg_id@,
            final(self).quorum_signature@ == old(self).quorum_signature@,
    {
        certified_timestamp_of(&mut self.timestamps)
    }
}

/// A list of certified records.
#[derive(Debug, Clone)]
pub struct CertifiedLog {
    /// The certified records.
    pub records: Vec<CertifiedRecord>,
}

/// A client's answer to a query for one message.
#[derive(Debug, Clone)]
pub enum CertifiedReadMessageResponse {
    /// A quorum holds the message.
    Available(CertifiedRecord),
    /// A quorum does not hold the message.
    Unavailable(CertifiedUnavailableMessage),
}

/// A validator's answer to a query for one message.
#[derive(Debug, Clone)]
pub enum ReadMessageResponse {
    /// The validator holds the message.
    Available(Record),
    /// The validator does not hold the message.
    Unavailable(UnavailableMessage),
}

/// A list of records.
#[derive(Debug, Clone)]
pub struct Log {
    /// The records.
    pub records: Vec<Record>,
}

impl View for Log {
    type V = Seq<RecordView>;

    open spec fn view(&self) -> Seq<RecordView> {
        record_views(self.records@)
    }
}

impl Log {
    /// Appends the records of another log.
    pub fn extend(&mut self, other: Log)
        ensures
            final(self)@ == old(self)@ + other@,
    {
        let mut other = other;
        let ghost a = self.records@;
        let ghost b = other.records@;
        self.records.append(&mut other.records);
        assert(record_views(a + b) =~= record_views(a) + record_views(b));
    }

    /// Returns the number of records.
    pub fn len(&self) -> (r: usize)
        ensures
            r == self@.len(),
    {
        self.records.len()
    }

    /// Whether the log holds no record.
    pub fn is_empty(&self) -> (r: bool)
        ensures
            r == (self@.len() == 0),
    {
        self.records.len() == 0
    }
}

/// A validator as a client knows it: its index and its public key.
#[derive(Debug, Clone)]
pub struct ValidatorIdentity {
    /// The validator's index.
    pub index: usize,
    /// The validator's compressed public key.
    pub pubkey: Vec<u8>,
}

impl ValidatorIdentity {
    /// Creates an identity from an index and a public key.
    pub fn new(index: usize, pubkey: Vec<u8>) -> (r: ValidatorIdentity)
        ensures
            r.index == index,
            r.pubkey@ == pubkey@,
    {
        ValidatorIdentity { index, pubkey }
    }
}

/// A validator as a registry lists it.
#[derive(Debug, Clone)]
pub struct ValidatorInfo {
    /// The validator's index.
    pub index: u64,
    /// The validator's compressed public key.
    pub bls_pub_key: Vec<u8>,
    /// The validator's stake.
    pub stake: u64,
    /// Where the validator listens, as `host:port`.
    pub socket: String,
    /// Whether the registry entry is live.
    pub exists: bool,
}

impl ValidatorInfo {
    /// The identity a client registers for this validator.
    pub fn identity(&self) -> (r: ValidatorIdentity)
        requires
            self.index <= usize::MAX,
        ensures
            r.index == self.index,
            r.pubkey@ == self.bls_pub_key@,
    {
        ValidatorIdentity { index: self.index as usize, pubkey: copy_bytes(self.bls_pub_key.as_slice()) }
    }
}

/// A validator's answer to a subscription: where its publisher listens.
#[derive(Debug, Clone)]
pub struct SubscribeResponse {
    /// The publisher's port.
    pub port: u16,
    /// The token to present when subscribing.
    pub auth_token: Vec<u8>,
}

/// An error of a write.
#[derive(Debug, Clone, PartialEq, Eq, Structural)]
pub enum WriteError {
    /// A validator did not answer in time.
    Timeout,
    /// A validator could not be reached.
    Network,
    /// Too few validators signed.
    NoQuorum { got: usize, needed: usize },
}

/// An error of a read.
#[derive(Debug, Clone, PartialEq, Eq, Structural)]
pub enum ReadError {
    /// A validator did not answer in time.
    Timeout,
    /// Neither answer reached a quorum.
    NoQuorum { available: usize, unavailable: usize },
}

/// An error of a subscription.
#[derive(Debug, Clone, PartialEq, Eq, Structural)]
pub enum SubscriptionError {
    /// A validator did not answer in time.
    Timeout,
    /// A publisher could not be reached.
    FailedToConnect,
    /// The topic could not be subscribed to.
    FailedToSubscribe,
}

/// Any error of the client.
#[derive(Debug, Clone, PartialEq, Eq, Structural)]
pub enum ClientError {
    /// A write failed.
    Write(WriteError),
    /// A read failed.
    Read(ReadError),
    /// A subscription failed.
    SubscriptionError(SubscriptionError),
}

} // verus!
