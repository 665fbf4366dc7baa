//! The validator: signs, stores and serves records.
//!
//! Sockets and the publisher live outside the library; this module decides
//! what each request does and what is answered.
use vstd::prelude::*;

use crate::bytes::bytes_eq;
use crate::common::{
    record_digest_spec, record_views, unavailable_digest_spec, Digest, Log, Message, Namespace,
    ReadMessageResponse, Record, RecordView, UnavailableMessage, UnavailableView,
};
use crate::crypto::{
    bls_public_key_of, bls_secret_valid, bls_signature_of, ciphersuite, ciphersuite_spec, public_key,
    sign_digest,
};
use crate::fifo::fifo_insert;
use crate::store::{bucket_records, in_range, latest_with_id, InMemoryStore};
use crate::timestamp::Timestamp;

verus! {

/// The number of records a validator keeps per namespace by default.
pub const DEFAULT_CAPACITY: usize = 4096;

/// Where a validator keeps its records.
#[derive(Debug, Clone, Copy, PartialEq, Eq, Structural)]
pub enum BackendType {
    /// In memory, bounded per namespace.
    InMemory,
    /// On disk.
    Filesystem,
}

/// A request to a validator.
#[derive(Debug, Clone)]
pub enum Request {
    /// Stamp, sign and store a message.
    Write { namespace: Namespace, message: Message },
    /// Read the records of a namespace within `[start, end]`.
    ReadRange { namespace: Namespace, start: Timestamp, end: Timestamp },
    /// Read one message by its identity.
    ReadMessage { namespace: Namespace, msg_id: Digest },
    /// Subscribe to the records of a namespace.
    Subscribe { namespace: Namespace },
}

/// A validator's answer to a request.
#[derive(Debug, Clone)]
pub enum Reply {
    /// The record written; `publish` tells whether its namespace has subscribers.
    Written { record: Record, publish: bool },
    /// The records read.
    Log(Log),
    /// The message read, or a signed denial.
    Message(ReadMessageResponse),
    /// The subscription is active.
    Subscribed,
}

/// What handling `request` at time `now` does: the reply it gives and how
/// the validator changes, from `before` to `after`.
pub open spec fn handled(before: Validator, after: Validator, request: Request, now: Timestamp, r: Reply) -> bool {
    match request {
        Request::Write { namespace, message } => match r {
            Reply::Written { record, publish } => {
                &&& record@ == (RecordView {
                    timestamp: now,
                    message: message@,
                    signature: bls_signature_of(
                        before.secret(),
                        record_digest_spec(namespace@, now, message@),
                        ciphersuite_spec(),
                    ),
                })
                &&& publish == before.subscribed(namespace@)
                &&& exists|stored: Record| stored@ == record@ && after.store().bucket(namespace@)
                    == fifo_insert(
                    before.store().bucket(namespace@),
                    before.store().capacity(),
                    record_digest_spec(namespace@, now, message@),
                    stored,
                )
            },
            _ => false,
        },
        Request::ReadRange { namespace, start, end } => after.store() == before.store()
            && r == Reply::Log(r->Log_0)
            && r->Log_0@ == record_views(bucket_records(before.store().bucket(namespace@))).filter(
            in_range(start, end),
        ),
        Request::ReadMessage { namespace, msg_id } => after.store() == before.store()
            && match r {
            Reply::Message(ReadMessageResponse::Available(rec)) => latest_with_id(
                bucket_records(before.store().bucket(namespace@)),
                namespace@,
                msg_id@,
            ) == Some(rec@),
            Reply::Message(ReadMessageResponse::Unavailable(u)) => latest_with_id(
                bucket_records(before.store().bucket(namespace@)),
                namespace@,
                msg_id@,
            ) is None && u@ == (UnavailableView {
                timestamp: now,
                msg_id: msg_id@,
                signature: bls_signature_of(
                    before.secret(),
                    unavailable_digest_spec(msg_id@, now),
                    ciphersuite_spec(),
                ),
            }),
            _ => false,
        },
        Request::Subscribe { namespace } => after.store() == before.store() && r
            == Reply::Subscribed && after.subscribed(namespace@),
    }
}

/// A validator's state: its store, its signing key and the namespaces with subscribers.
pub struct Validator {
    store: InMemoryStore,
    secret_key: Vec<u8>,
    active_subscriptions: Vec<Namespace>,
}

impl Validator {
    /// The validator's store.
    pub closed spec fn store(&self) -> InMemoryStore {
        self.store
    }

    /// The validator's secret key.
    pub closed spec fn secret(&self) -> Seq<u8> {
        self.secret_key@
    }

    /// Whether a namespace has subscribers.
    pub closed spec fn subscribed(&self, ns: Seq<u8>) -> bool {
        exists|i: int| 0 <= i < self.active_subscriptions@.len() && (#[trigger] self.active_subscriptions@[i])@ == ns
    }

    /// The validator's invariant: a well-formed store and a valid key.
    pub open spec fn wf(&self) -> bool {
        &&& self.store().wf()
        &&& bls_secret_valid(self.secret())
    }

    /// Creates a validator over a store; `None` exactly when the key is no secret key.
    pub fn with_store(store: InMemoryStore, secret_key: Vec<u8>) -> (r: Option<Validator>)
        requires
            store.wf(),
        ensures
            r is Some <==> bls_secret_valid(secret_key@),
            r matches Some(v) ==> v.wf() && v.store() == store && v.secret() == secret_key@
                && forall|ns: Seq<u8>| !v.subscribed(ns),
    {
        match public_key(secret_key.as_slice()) {
            Some(_) => Some(Validator { store, secret_key, active_subscriptions: Vec::new() }),
            None => None,
        }
    }

    /// Creates a validator with an empty store of the default capacity.
    pub fn new_in_memory(secret_key: Vec<u8>) -> (r: Option<Validator>)
        ensures
            r is Some <==> bls_secret_valid(secret_key@),
            r matches Some(v) ==> v.wf() && v.secret() == secret_key@ && v.store().capacity() == DEFAULT_CAPACITY
                && (forall|ns: Seq<u8>| v.store().bucket(ns) == Seq::<(Seq<u8>, Record)>::empty())
                && forall|ns: Seq<u8>| !v.subscribed(ns),
    {
        Self::with_store(InMemoryStore::with_capacity(DEFAULT_CAPACITY), secret_key)
    }

    /// The validator's public key.
    pub fn public_key(&self) -> (r: Vec<u8>)
        requires
            self.wf(),
        ensures
            r@ == bls_public_key_of(self.secret()),
    {
        match public_key(self.secret_key.as_slice()) {
            Some(pk) => pk,
            None => {
                assert(false);
                Vec::new()
            },
        }
    }

    /// Stamps a message with `timestamp`, signs the record digest, stores the
    /// record and returns it.
    pub fn write_at(&mut self, namespace: Namespace, message: Message, timestamp: Timestamp) -> (r: Record)
        requires
            old(self).wf(),
        ensures
            final(self).wf(),
            final(self).secret() == old(self).secret(),
            forall|ns: Seq<u8>| final(self).subscribed(ns) == old(self).subscribed(ns),
            r@ == (RecordView {
                timestamp,
                message: message@,
                signature: bls_signature_of(
                    old(self).secret(),
                    record_digest_spec(namespace@, timestamp, message@),
                    ciphersuite_spec(),
                ),
            }),
            final(self).store().capacity() == old(self).store().capacity(),
            exists|stored: Record| stored@ == r@ && final(self).store().bucket(namespace@) == fifo_insert(
                old(self).store().bucket(namespace@),
                old(self).store().capacity(),
                record_digest_spec(namespace@, timestamp, message@),
                stored,
            ),
            forall|ns: Seq<u8>| ns != namespace@ ==> final(self).store().bucket(ns) == old(self).store().bucket(ns),
    {
        let digest = message.record_digest(&namespace, timestamp);
        let dst = ciphersuite();
        let signature = match sign_digest(self.secret_key.as_slice(), &digest, dst.as_slice()) {
            Some(s) => s,
            None => {
                assert(false);
                Vec::new()
            },
        };
        let record = Record { timestamp, message, signature };
        let answer = record.duplicate();
        self.store.write_one(namespace, record);
        assert(self.active_subscriptions == old(self).active_subscriptions);
        answer
    }

    /// Stamps a message with the current time, signs, stores and returns the record.
    pub fn write(&mut self, namespace: Namespace, message: Message) -> (r: Record)
        requires
            old(self).wf(),
        ensures
            final(self).wf(),
            final(self).secret() == old(self).secret(),
            forall|ns: Seq<u8>| final(self).subscribed(ns) == old(self).subscribed(ns),
            r.message@ == message@,
            r.signature@ == bls_signature_of(
                old(self).secret(),
                record_digest_spec(namespace@, r.timestamp, message@),
                ciphersuite_spec(),
            ),
            exists|stored: Record| stored@ == r@ && final(self).store().bucket(namespace@) == fifo_insert(
                old(self).store().bucket(namespace@),
                old(self).store().capacity(),
                record_digest_spec(namespace@, r.timestamp, message@),
                stored,
            ),
    {
        self.write_at(namespace, message, Timestamp::now())
    }

    /// Returns the stored records of a namespace within `[start, end]`.
    pub fn read_range(&self, namespace: Namespace, start: Timestamp, end: Timestamp) -> (r: Log)
        requires
            self.wf(),
        ensures
            r@ == record_views(bucket_records(self.store().bucket(namespace@))).filter(in_range(start, end)),
    {
        self.store.read_range(namespace, start, end)
    }

    /// Answers a query for one message: the latest stored record with that
    /// identity, or a denial signed at `now`.
    pub fn read_message_at(&self, namespace: Namespace, msg_id: Digest, now: Timestamp) -> (r: ReadMessageResponse)
        requires
            self.wf(),
        ensures
            match r {
                ReadMessageResponse::Available(rec) => latest_with_id(
                    bucket_records(self.store().bucket(namespace@)),
                    namespace@,
                    msg_id@,
                ) == Some(rec@),
                ReadMessageResponse::Unavailable(u) => latest_with_id(
                    bucket_records(self.store().bucket(namespace@)),
                    namespace@,
                    msg_id@,
                ) is None && u@ == (UnavailableView {
                    timestamp: now,
                    msg_id: msg_id@,
                    signature: bls_signature_of(
                        self.secret(),
                        unavailable_digest_spec(msg_id@, now),
                        ciphersuite_spec(),
                    ),
                }),
            },
    {
        match self.store.read_message(namespace, msg_id) {
            Some(rec) => ReadMessageResponse::Available(rec),
            None => match UnavailableMessage::create_signed_at(&msg_id, &self.secret_key, now) {
                Some(u) => ReadMessageResponse::Unavailable(u),
                None => {
                    assert(false);
                    ReadMessageResponse::Unavailable(
                        UnavailableMessage { timestamp: now, msg_id, signature: Vec::new() },
                    )
                },
            },
        }
    }

    /// Answers a query for one message, signing a denial at the current time.
    pub fn read_message(&self, namespace: Namespace, msg_id: Digest) -> (r: ReadMessageResponse)
        requires
            self.wf(),
        ensures
            match r {
                ReadMessageResponse::Available(rec) => latest_with_id(
                    bucket_records(self.store().bucket(namespace@)),
                    namespace@,
                    msg_id@,
                ) == Some(rec@),
                ReadMessageResponse::Unavailable(u) => latest_with_id(
                    bucket_records(self.store().bucket(namespace@)),
                    namespace@,
                    msg_id@,
                ) is None && u.msg_id@ == msg_id@ && u.signature@ == bls_signature_of(
                    self.secret(),
                    unavailable_digest_spec(msg_id@, u.timestamp),
                    ciphersuite_spec(),
                ),
            },
    {
        self.read_message_at(namespace, msg_id, Timestamp::now())
    }

    /// Whether a namespace has subscribers.
    pub fn is_subscribed(&self, namespace: &[u8]) -> (r: bool)
        ensures
            r == self.subscribed(namespace@),
    {
        let mut i: usize = 0;
        while i < self.active_subscriptions.len()
            invariant
                0 <= i <= self.active_subscriptions@.len(),
                forall|j: int| 0 <= j < i ==> (#[trigger] self.active_subscriptions@[j])@ != namespace@,
            decreases self.active_subscriptions.len() - i,
        {
            if bytes_eq(self.active_subscriptions[i].as_slice(), namespace) {
                return true;
            }
            i = i + 1;
        }
        false
    }

    /// Marks a namespace as subscribed to; subscribing twice changes nothing.
    pub fn subscribe(&mut self, namespace: Namespace)
        requires
            old(self).wf(),
        ensures
            final(self).wf(),
            final(self).store() == old(self).store(),
            final(self).secret() == old(self).secret(),
            final(self).subscribed(namespace@),
            forall|ns: Seq<u8>| ns != namespace@ ==> final(self).subscribed(ns) == old(self).subscribed(ns),
    {
        if !self.is_subscribed(namespace.as_slice()) {
            let ghost ns = namespace@;
            self.active_subscriptions.push(namespace);
            proof {
                let last = self.active_subscriptions@.len() - 1;
                assert(self.active_subscriptions@[last]@ == ns);
                assert forall|other: Seq<u8>| other != ns implies self.subscribed(other) == old(self).subscribed(other) by {
                    if old(self).subscribed(other) {
                        let i = choose|i: int| 0 <= i < old(self).active_subscriptions@.len()
                            && (#[trigger] old(self).active_subscriptions@[i])@ == other;
                        assert(self.active_subscriptions@[i] == old(self).active_subscriptions@[i]);
                    }
                    if self.subscribed(other) {
                        let i = choose|i: int| 0 <= i < self.active_subscriptions@.len()
                            && (#[trigger] self.active_subscriptions@[i])@ == other;
                        assert(i != last);
                        assert(self.active_subscriptions@[i] == old(self).active_subscriptions@[i]);
                    }
                }
            }
        }
    }

    /// Handles one request at time `now`.
    pub fn handle_at(&mut self, request: Request, now: Timestamp) -> (r: Reply)
        requires
            old(self).wf(),
        ensures
            final(self).wf(),
            final(self).secret() == old(self).secret(),
            handled(*old(self), *final(self), request, now, r),
    {
        match request {
            Request::Write { namespace, message } => {
                let publish = self.is_subscribed(namespace.as_slice());
                let record = self.write_at(namespace, message, now);
                Reply::Written { record, publish }
            },
            Request::ReadRange { namespace, start, end } => Reply::Log(self.read_range(namespace, start, end)),
            Request::ReadMessage { namespace, msg_id } => Reply::Message(
                self.read_message_at(namespace, msg_id, now),
            ),
            Request::Subscribe { namespace } => {
                self.subscribe(namespace);
                Reply::Subscribed
            },
        }
    }

    /// Handles one request at the current time.
    pub fn handle(&mut self, request: Request) -> (r: Reply)
        requires
            old(self).wf(),
        ensures
            final(self).wf(),
            final(self).secret() == old(self).secret(),
            exists|now: Timestamp| handled(*old(self), *final(self), request, now, r),
    {
        self.handle_at(request, Timestamp::now())
    }
}

} // verus!
