use dato::{
    collect_available, random_bls_secret, CertifiedReadMessageResponse, CertifiedStream, Client,
    Message, Namespace, ReadMessageResponse, Reply, Request, Timestamp, Validator,
    ValidatorIdentity, SUBSCRIPTION_CAPACITY,
};

fn spin_up_validator() -> Validator {
    Validator::new_in_memory(random_bls_secret()).expect("a generated key is valid")
}

fn connect(validators: &[Validator]) -> Client {
    let mut client = Client::new();
    for (i, v) in validators.iter().enumerate() {
        assert!(client.add_validator(ValidatorIdentity::new(i, v.public_key())));
    }
    client
}

fn ns(s: &str) -> Namespace {
    s.as_bytes().to_vec()
}

fn msg(s: &str) -> Message {
    Message(s.as_bytes().to_vec())
}

#[test]
fn test_write_request() {
    let mut validator = spin_up_validator();
    let client = connect(std::slice::from_ref(&validator));
    let namespace = ns("test");
    let message = msg("made with chatgpt");

    let reply = validator.write(namespace.clone(), message.clone());
    let record = client.certify_write(&namespace, &message, &vec![(0, reply)]).unwrap();

    assert_eq!(record.timestamps.len(), 1);
    assert_eq!(record.message.0, message.0);
}

#[test]
fn test_read_request_single_validator() {
    let mut validator = spin_up_validator();
    let client = connect(std::slice::from_ref(&validator));
    let namespace = ns("test");
    let message = msg("made with chatgpt");

    let start = Timestamp::now();
    let reply = validator.write(namespace.clone(), message.clone());
    let record = client.certify_write(&namespace, &message, &vec![(0, reply)]).unwrap();
    assert_eq!(record.timestamps.len(), 1);

    let end = Timestamp(Timestamp::now().0 + 300);
    let log = validator.read_range(namespace.clone(), start, end);
    let log = client.certify_read(&namespace, vec![(0, log)]);

    assert_eq!(log.records.len(), 1);
}

#[test]
fn test_read_request_multiple_validators() {
    let mut validators = vec![spin_up_validator(), spin_up_validator(), spin_up_validator()];
    let client = connect(&validators);
    let namespace = ns("test");
    let message = msg("made with chatgpt");

    let start = Timestamp::now();
    let replies: Vec<_> = validators
        .iter_mut()
        .enumerate()
        .map(|(i, v)| (i, v.write(namespace.clone(), message.clone())))
        .collect();
    let record = client.certify_write(&namespace, &message, &replies).unwrap();

    // one slot per validator; the count stops at the quorum of 2
    assert_eq!(record.timestamps.len(), 3);
    assert_eq!(record.timestamps.iter().filter(|t| t.0 != 0).count(), 2);

    let end = Timestamp(Timestamp::now().0 + 300);
    let logs: Vec<_> = validators
        .iter()
        .enumerate()
        .map(|(i, v)| (i, v.read_range(namespace.clone(), start, end)))
        .collect();
    let log = client.certify_read(&namespace, logs);

    assert_eq!(log.records.len(), 3);
}

#[test]
fn test_read_unavailable_message() {
    let validator = spin_up_validator();
    let client = connect(std::slice::from_ref(&validator));
    let namespace = ns("test");
    let msg_id = [0u8; 32];

    let reply = validator.read_message(namespace.clone(), msg_id);
    let log = client.certify_read_message(&namespace, &msg_id, &vec![(0, reply)]).unwrap();

    match log {
        CertifiedReadMessageResponse::Unavailable(_) => {}
        _ => panic!("Expected UnavailableMessage"),
    }
}

#[test]
fn test_read_certified() {
    let mut validator = spin_up_validator();
    let client = connect(std::slice::from_ref(&validator));
    let namespace = ns("test");
    let message = msg("made with chatgpt");

    let start = Timestamp::now();
    let reply = validator.write(namespace.clone(), message.clone());
    let record = client.certify_write(&namespace, &message, &vec![(0, reply)]).unwrap();
    assert_eq!(record.timestamps.len(), 1);

    let end = Timestamp(Timestamp::now().0 + 300);
    let log = client.certify_read(&namespace, vec![(0, validator.read_range(namespace.clone(), start, end))]);
    let results: Vec<_> = log
        .records
        .iter()
        .map(|r| {
            let msg_id = r.message_digest(&namespace);
            let reply = validator.read_message(namespace.clone(), msg_id);
            client.certify_read_message(&namespace, &msg_id, &vec![(0, reply)])
        })
        .collect();
    let log = collect_available(results);

    assert_eq!(log.records.len(), 1);
}

#[test]
fn test_subscribe() {
    let mut validator = spin_up_validator();
    let namespace = ns("test");
    assert!(matches!(validator.handle(Request::Subscribe { namespace: namespace.clone() }), Reply::Subscribed));

    let mut published = Vec::new();
    for text in ["made with chatgpt", "made with chatgpt 2"] {
        let reply = validator.handle(Request::Write { namespace: namespace.clone(), message: msg(text) });
        match reply {
            Reply::Written { record, publish } => {
                assert!(publish);
                published.push(record);
            }
            _ => panic!("Expected a written record"),
        }
    }

    assert_eq!(published[0].message.0, b"made with chatgpt".to_vec());
    assert_eq!(published[1].message.0, b"made with chatgpt 2".to_vec());
}

#[test]
fn test_subscribe_certified() {
    let mut validator = spin_up_validator();
    let namespace = ns("test");
    let mut stream = CertifiedStream::new(1, SUBSCRIPTION_CAPACITY);

    let record = validator.write(namespace.clone(), msg("made with chatgpt"));
    let received = stream.push(&namespace, record.clone()).expect("Received message");
    assert_eq!(received.message.0, record.message.0);
}

#[test]
fn test_subscribe_certified_many() {
    let mut validators = vec![spin_up_validator(), spin_up_validator(), spin_up_validator()];
    let namespace = ns("test");
    let mut stream = CertifiedStream::new(3, SUBSCRIPTION_CAPACITY);

    for i in 1..=25 {
        let message = msg(&format!("message {}", i));
        let mut received = Vec::new();
        for v in validators.iter_mut() {
            let record = v.write(namespace.clone(), message.clone());
            if let Some(c) = stream.push(&namespace, record) {
                received.push(c);
            }
        }
        assert_eq!(received.len(), 1, "Failed to receive certified record {}", i);
        assert_eq!(received[0].message.0, message.0);
    }
}

#[test]
fn read_message_finds_written_record() {
    let mut validator = spin_up_validator();
    let client = connect(std::slice::from_ref(&validator));
    let namespace = ns("test");
    let message = msg("hello");
    validator.write(namespace.clone(), message.clone());

    let msg_id = message.digest(&namespace);
    let reply = validator.read_message(namespace.clone(), msg_id);
    assert!(matches!(reply, ReadMessageResponse::Available(_)));
    match client.certify_read_message(&namespace, &msg_id, &vec![(0, reply)]).unwrap() {
        CertifiedReadMessageResponse::Available(c) => {
            assert_eq!(c.message.0, message.0);
            assert_eq!(c.timestamps.len(), 1);
        }
        _ => panic!("Expected an availability certificate"),
    }
}
