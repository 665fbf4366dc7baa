//! A decentralized data-availability and timestamping log.
//!
//! Validators stamp, sign and store client messages in bounded,
//! namespace-partitioned logs; a client coordinator verifies their replies and
//! aggregates a supermajority of matching signatures into one certificate.

mod bytes;
mod client;
mod common;
mod crypto;
mod fifo;
mod quorum;
mod store;
mod timestamp;
mod validator;
mod votes;

pub use bytes::{append_bytes, bytes_eq, copy_bytes, le_bytes, le_bytes_n, u128_le_bytes};
pub use client::{
    accepted_records, available_certificates, certificate_sound, collect_available, copy_records,
    empty_read_tally, first_quorum, group_certificate, group_of, has_answered, is_valid_denial,
    lemma_all_denials_certify_absence, lemma_read_tally_sound, lemma_write_tally_sound, log_verifies,
    read_accepts, read_done, read_outcome_ok, read_step, read_tally, read_tally_sound,
    record_digest_at, record_leq, sort_records, tally_sound, unavailable_certificate_sound,
    unavailable_digest_at, write_accepts, write_replies, write_step, write_tally, CertifiedStream,
    Client, ReadMessageTally, ReadTallyView, SUBSCRIPTION_CAPACITY,
};
pub use common::{
    copy_digest, message_digest_of, message_digest_spec, record_digest_of, record_digest_spec,
    record_views, unavailable_digest_of, unavailable_digest_spec, CertifiedLog,
    CertifiedReadMessageResponse, CertifiedRecord, CertifiedRecordView, CertifiedUnavailableMessage,
    CertifiedUnavailableView, ClientError, Digest, Log, Message, Namespace, ReadError,
    ReadMessageResponse, Record, RecordView, SubscribeResponse, SubscriptionError,
    UnavailableMessage, UnavailableView, ValidatorIdentity, ValidatorInfo, WriteError,
};
pub use crypto::{
    aggregate_signatures, bls_aggregate_of, bls_public_key_of, bls_secret_valid, bls_sig_decodes,
    bls_signature_of, bls_verifies, ciphersuite, ciphersuite_spec, keccak256, keccak_of,
    public_key, random_bls_secret, sign_digest, verify_signature,
};
pub use fifo::{
    fifo_insert, fifo_insert_all, has_key, key_pos, keys_distinct, keys_of, lemma_fifo_evicts_first,
    FifoMap,
};
pub use quorum::{has_reached_quorum, quorum};
pub use store::{
    bucket_records, in_range, latest_with_id, lemma_unwritten_message_absent,
    lemma_written_record_is_read, InMemoryStore,
};
pub use timestamp::{
    certified_timestamp_of, lemma_median_order_invariant, lemma_sorted_permutation_is_sorted_form,
    lemma_sorted_timestamps, lemma_ts_leq_total, median, median_of_sorted, median_of_sorted_exec,
    sort_timestamps, sorted_timestamps, ts_leq, Timestamp,
};
pub use validator::{handled, BackendType, Reply, Request, Validator, DEFAULT_CAPACITY};
pub use votes::{add_vote, empty_votes, has_voted, Votes, VotesView};
