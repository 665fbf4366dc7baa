use dato::{
    random_bls_secret, CertifiedReadMessageResponse, CertifiedStream, Client, InMemoryStore,
    Message, Namespace, ReadError, Record, Timestamp, Validator, ValidatorIdentity, WriteError,
};

fn validator() -> Validator {
    Validator::new_in_memory(random_bls_secret()).expect("a generated key is valid")
}

fn client_for(validators: &[Validator]) -> Client {
    let mut client = Client::new();
    for (i, v) in validators.iter().enumerate() {
        assert!(client.add_validator(ValidatorIdentity::new(i, v.public_key())));
    }
    client
}

fn ns(s: &str) -> Namespace {
    s.as_bytes().to_vec()
}

fn msg(s: &str) -> Message {
    Message(s.as_bytes().to_vec())
}

#[test]
fn single_validator_write_then_read() {
    let mut v = validator();
    let client = client_for(std::slice::from_ref(&v));
    let namespace = ns("test");
    let message = msg("hello");
    let now = Timestamp(1_000);

    let record = v.write_at(namespace.clone(), message.clone(), now);
    let cert = client.certify_write(&namespace, &message, &vec![(0, record)]).unwrap();
    assert_eq!(cert.timestamps.len(), 1);
    assert_eq!(cert.message.0, b"hello".to_vec());

    let log = client.certify_read(&namespace, vec![(0, v.read_range(namespace.clone(), Timestamp(0), Timestamp(2_000)))]);
    assert_eq!(log.records.len(), 1);
    assert_eq!(log.records[0].message.0, b"hello".to_vec());
}

#[test]
fn three_of_three_stops_at_quorum() {
    let mut vs = vec![validator(), validator(), validator()];
    let client = client_for(&vs);
    let namespace = ns("test");
    let message = msg("same");
    let replies: Vec<_> = vs
        .iter_mut()
        .enumerate()
        .map(|(i, v)| (i, v.write_at(namespace.clone(), message.clone(), Timestamp(100 + i as u128))))
        .collect();

    let cert = client.certify_write(&namespace, &message, &replies).unwrap();
    assert_eq!(cert.timestamps.len(), 3);
    assert_eq!(cert.timestamps, vec![Timestamp(100), Timestamp(101), Timestamp(0)]);

    let logs: Vec<_> = vs
        .iter()
        .enumerate()
        .map(|(i, v)| (i, v.read_range(namespace.clone(), Timestamp(0), Timestamp(1_000))))
        .collect();
    assert_eq!(client.certify_read(&namespace, logs).records.len(), 3);
}

#[test]
fn unavailable_certificate_for_unknown_message() {
    let v = validator();
    let client = client_for(std::slice::from_ref(&v));
    let namespace = ns("test");
    let msg_id = [0u8; 32];
    let reply = v.read_message_at(namespace.clone(), msg_id, Timestamp(77));

    match client.certify_read_message(&namespace, &msg_id, &vec![(0, reply)]).unwrap() {
        CertifiedReadMessageResponse::Unavailable(c) => {
            assert_eq!(c.timestamps, vec![Timestamp(77)]);
            assert_eq!(c.msg_id, [0u8; 32]);
        }
        _ => panic!("Expected a certificate of absence"),
    }
}

#[test]
fn byzantine_reply_is_ignored() {
    let mut vs = vec![validator(), validator()];
    let client = client_for(&vs);
    let namespace = ns("test");
    let message = msg("honest");
    let honest = vs[0].write(namespace.clone(), message.clone());
    let forged = vs[1].write(namespace.clone(), msg("forged"));

    let result = client.certify_write(&namespace, &message, &vec![(0, honest), (1, forged)]);
    assert_eq!(result.unwrap_err(), WriteError::NoQuorum { got: 1, needed: 2 });
}

#[test]
fn reply_signed_by_another_validator_is_ignored() {
    let mut vs = vec![validator(), validator()];
    let client = client_for(&vs);
    let namespace = ns("test");
    let message = msg("m");
    let a = vs[0].write(namespace.clone(), message.clone());
    // validator 0's record presented as validator 1's reply, and a second vote from 0
    let result = client.certify_write(&namespace, &message, &vec![(1, a.clone()), (0, a.clone()), (0, a)]);
    assert_eq!(result.unwrap_err(), WriteError::NoQuorum { got: 1, needed: 2 });
}

#[test]
fn no_validators_gives_no_quorum() {
    let client = Client::new();
    let namespace = ns("test");
    let result = client.certify_write(&namespace, &msg("x"), &vec![]);
    assert_eq!(result.unwrap_err(), WriteError::NoQuorum { got: 0, needed: 0 });
}

#[test]
fn read_message_without_quorum() {
    let mut vs = vec![validator(), validator()];
    let client = client_for(&vs);
    let namespace = ns("test");
    let message = msg("only on one");
    vs[0].write_at(namespace.clone(), message.clone(), Timestamp(5));
    let msg_id = message.digest(&namespace);
    let replies = vec![
        (0, vs[0].read_message_at(namespace.clone(), msg_id, Timestamp(9))),
        (1, vs[1].read_message_at(namespace.clone(), msg_id, Timestamp(9))),
    ];
    let result = client.certify_read_message(&namespace, &msg_id, &replies);
    assert_eq!(result.unwrap_err(), ReadError::NoQuorum { available: 1, unavailable: 1 });
}

#[test]
fn certified_subscription_with_three_validators() {
    let mut vs = vec![validator(), validator(), validator()];
    let namespace = ns("topic");
    let mut stream = CertifiedStream::new(3, 1024);
    let mut emitted = Vec::new();
    for v in vs.iter_mut() {
        let record = v.write(namespace.clone(), msg("x"));
        emitted.push(stream.push(&namespace, record));
    }
    assert!(emitted[0].is_none());
    let cert = emitted[1].as_ref().expect("certified at the second record");
    assert_eq!(cert.message.0, b"x".to_vec());
    assert_eq!(cert.timestamps.len(), 2);
    assert!(emitted[2].is_none());
}

#[test]
fn certified_subscription_forgets_oldest_message() {
    let mut vs = vec![validator(), validator()];
    let namespace = ns("topic");
    let mut stream = CertifiedStream::new(2, 1);
    let a1 = vs[0].write(namespace.clone(), msg("a"));
    let b1 = vs[0].write(namespace.clone(), msg("b"));
    let a2 = vs[1].write(namespace.clone(), msg("a"));
    assert!(stream.push(&namespace, a1).is_none());
    assert!(stream.push(&namespace, b1).is_none());
    // the group of "a" was evicted, so its second record starts over
    assert!(stream.push(&namespace, a2).is_none());
}

#[test]
fn store_forgets_first_of_capacity_plus_one() {
    let sk = random_bls_secret();
    let mut v = Validator::with_store(InMemoryStore::with_capacity(2), sk).unwrap();
    let namespace = ns("n");
    for (i, text) in ["one", "two", "three"].iter().enumerate() {
        v.write_at(namespace.clone(), msg(text), Timestamp(10 + i as u128));
    }
    let log = v.read_range(namespace.clone(), Timestamp(0), Timestamp(100));
    let texts: Vec<Vec<u8>> = log.records.iter().map(|r| r.message.0.clone()).collect();
    assert_eq!(texts, vec![b"two".to_vec(), b"three".to_vec()]);
    let first = msg("one").digest(&namespace);
    assert!(matches!(v.read_message(namespace, first), dato::ReadMessageResponse::Unavailable(_)));
}

#[test]
fn store_duplicate_digest_overwrites_in_place() {
    let mut store = InMemoryStore::with_capacity(2);
    let namespace = ns("n");
    let r = Record { timestamp: Timestamp(3), message: msg("dup"), signature: vec![1, 2] };
    store.write_one(namespace.clone(), r.clone());
    store.write_one(namespace.clone(), Record { signature: vec![9], ..r.clone() });
    store.write_one(namespace.clone(), Record { timestamp: Timestamp(4), ..r });
    let log = store.read_range(namespace, Timestamp(0), Timestamp(10));
    assert_eq!(log.records.len(), 2);
    assert_eq!(log.records[0].signature, vec![9]);
}

#[test]
fn read_range_is_inclusive_and_unknown_namespace_is_empty() {
    let mut store = InMemoryStore::with_capacity(8);
    let namespace = ns("n");
    for t in [5u128, 10, 15] {
        store.write_one(namespace.clone(), Record { timestamp: Timestamp(t), message: msg("m"), signature: vec![] });
    }
    assert_eq!(store.read_range(namespace.clone(), Timestamp(5), Timestamp(10)).len(), 2);
    assert_eq!(store.read_range(namespace.clone(), Timestamp(11), Timestamp(14)).len(), 0);
    assert!(store.read_range(ns("other"), Timestamp(0), Timestamp(100)).is_empty());
}

#[test]
fn read_message_returns_most_recent() {
    let mut store = InMemoryStore::with_capacity(8);
    let namespace = ns("n");
    store.write_one(namespace.clone(), Record { timestamp: Timestamp(1), message: msg("m"), signature: vec![1] });
    store.write_one(namespace.clone(), Record { timestamp: Timestamp(2), message: msg("m"), signature: vec![2] });
    let id = msg("m").digest(&namespace);
    let found = store.read_message(namespace, id).unwrap();
    assert_eq!(found.timestamp, Timestamp(2));
}

#[test]
fn read_merges_sorted_and_drops_bad_logs() {
    let mut vs = vec![validator(), validator()];
    let client = client_for(&vs);
    let namespace = ns("n");
    vs[0].write_at(namespace.clone(), msg("late"), Timestamp(30));
    vs[1].write_at(namespace.clone(), msg("early"), Timestamp(10));
    vs[0].write_at(namespace.clone(), msg("middle"), Timestamp(20));
    let l0 = vs[0].read_range(namespace.clone(), Timestamp(0), Timestamp(100));
    let l1 = vs[1].read_range(namespace.clone(), Timestamp(0), Timestamp(100));

    let merged = client.certify_read(&namespace, vec![(0, l0.clone()), (1, l1.clone())]);
    let ts: Vec<u128> = merged.records.iter().map(|r| r.timestamp.0).collect();
    assert_eq!(ts, vec![10, 20, 30]);

    // validator 1's log attributed to validator 0 fails verification
    let merged = client.certify_read(&namespace, vec![(0, l1), (1, l0)]);
    assert!(merged.is_empty());
}

#[test]
fn write_certificate_median() {
    let mut vs = vec![validator(), validator(), validator(), validator()];
    let client = client_for(&vs);
    let namespace = ns("n");
    let message = msg("m");
    let replies: Vec<_> = vs
        .iter_mut()
        .enumerate()
        .map(|(i, v)| (i, v.write_at(namespace.clone(), message.clone(), Timestamp([40, 10, 30, 20][i]))))
        .collect();
    let mut cert = client.certify_write(&namespace, &message, &replies).unwrap();
    // quorum of 4 is 2 votes: [40, 10, 0, 0] sorted is [0, 0, 10, 40]
    assert_eq!(cert.timestamps, vec![Timestamp(40), Timestamp(10), Timestamp(0), Timestamp(0)]);
    assert_eq!(cert.certified_timestamp(), Timestamp(5));
    assert_eq!(cert.timestamps, vec![Timestamp(0), Timestamp(0), Timestamp(10), Timestamp(40)]);
}
