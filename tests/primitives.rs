use dato::{
    aggregate_signatures, certified_timestamp_of, ciphersuite, has_reached_quorum, keccak256,
    public_key, random_bls_secret, record_digest_of, sign_digest, u128_le_bytes, verify_signature,
    FifoMap, Message, Timestamp, UnavailableMessage, Validator,
};

#[test]
fn quorum_rule() {
    assert!(has_reached_quorum(0, 0));
    assert!(has_reached_quorum(1, 1));
    assert!(!has_reached_quorum(1, 0));
    assert!(!has_reached_quorum(2, 1));
    assert!(has_reached_quorum(2, 2));
    assert!(!has_reached_quorum(2, 3));
    assert!(has_reached_quorum(3, 2));
    assert!(!has_reached_quorum(3, 1));
    assert!(has_reached_quorum(4, 2));
    assert!(!has_reached_quorum(7, 3));
    assert!(has_reached_quorum(7, 4));
    assert!(has_reached_quorum(usize::MAX, usize::MAX / 3 * 2));
}

#[test]
fn median_odd_even_and_order() {
    let mut odd = vec![Timestamp(9), Timestamp(1), Timestamp(5)];
    assert_eq!(certified_timestamp_of(&mut odd), Timestamp(5));
    assert_eq!(odd, vec![Timestamp(1), Timestamp(5), Timestamp(9)]);

    let mut even = vec![Timestamp(4), Timestamp(1), Timestamp(7), Timestamp(2)];
    assert_eq!(certified_timestamp_of(&mut even), Timestamp(3));

    let mut a = vec![Timestamp(3), Timestamp(0), Timestamp(8), Timestamp(8), Timestamp(1)];
    let mut b = vec![Timestamp(8), Timestamp(1), Timestamp(3), Timestamp(8), Timestamp(0)];
    assert_eq!(certified_timestamp_of(&mut a), certified_timestamp_of(&mut b));

    let mut one = vec![Timestamp(42)];
    assert_eq!(certified_timestamp_of(&mut one), Timestamp(42));
}

#[test]
fn median_of_largest_timestamps_does_not_overflow() {
    let mut v = vec![Timestamp(u128::MAX), Timestamp(u128::MAX - 1)];
    assert_eq!(certified_timestamp_of(&mut v), Timestamp(u128::MAX - 1));
    let mut w = vec![Timestamp(u128::MAX), Timestamp(u128::MAX)];
    assert_eq!(certified_timestamp_of(&mut w), Timestamp(u128::MAX));
}

#[test]
fn keccak_of_empty_input() {
    let d = keccak256(&[]);
    assert_eq!(d[0], 0xc5);
    assert_eq!(d[1], 0xd2);
    assert_eq!(d[31], 0x70);
}

#[test]
fn little_endian_timestamp_bytes() {
    let b = u128_le_bytes(0x0102);
    assert_eq!(b.len(), 16);
    assert_eq!(b[0], 0x02);
    assert_eq!(b[1], 0x01);
    assert!(b[2..].iter().all(|x| *x == 0));
}

#[test]
fn record_digest_binds_every_part() {
    let ns = b"ns".to_vec();
    let d = record_digest_of(&ns, Timestamp(1), b"m");
    assert_ne!(d, record_digest_of(&ns, Timestamp(2), b"m"));
    assert_ne!(d, record_digest_of(b"nt", Timestamp(1), b"m"));
    assert_ne!(d, record_digest_of(&ns, Timestamp(1), b"n"));
    assert_eq!(d, Message(b"m".to_vec()).record_digest(&ns, Timestamp(1)));
    assert_ne!(Message(b"m".to_vec()).digest(&ns), d);
}

#[test]
fn sign_verify_and_aggregate() {
    let sk = random_bls_secret();
    assert_eq!(sk.len(), 32);
    let pk = public_key(&sk).unwrap();
    assert_eq!(pk.len(), 48);
    let dst = ciphersuite();
    assert_eq!(dst, b"BLS_SIG_BLS12381G2_XMD:SHA-256_SSWU_RO_POP_".to_vec());
    let digest = [7u8; 32];
    let sig = sign_digest(&sk, &digest, &dst).unwrap();
    assert_eq!(sig.len(), 96);
    assert!(verify_signature(&sig, &pk, &digest, &dst));
    assert!(!verify_signature(&sig, &pk, &[8u8; 32], &dst));
    assert!(!verify_signature(&[0u8; 96], &pk, &digest, &dst));

    assert!(aggregate_signatures(&vec![]).is_none());
    let single = aggregate_signatures(&vec![sig.clone()]).unwrap();
    assert_eq!(single, sig);
    let two = aggregate_signatures(&vec![sig.clone(), sig.clone()]).unwrap();
    assert_eq!(two.len(), 96);
    assert_ne!(two, sig);
    assert!(aggregate_signatures(&vec![vec![1, 2, 3]]).is_none());
}

#[test]
fn invalid_secret_key_is_refused() {
    assert!(public_key(&[0u8; 32]).is_none());
    assert!(sign_digest(&[0u8; 31], &[1], &ciphersuite()).is_none());
    assert!(Validator::new_in_memory(vec![0u8; 32]).is_none());
    assert!(UnavailableMessage::create_signed_at(&[0u8; 32], &vec![0u8; 32], Timestamp(1)).is_none());
}

#[test]
fn unavailable_message_signature_verifies() {
    let sk = random_bls_secret();
    let pk = public_key(&sk).unwrap();
    let u = UnavailableMessage::create_signed_at(&[3u8; 32], &sk, Timestamp(11)).unwrap();
    assert_eq!(u.timestamp, Timestamp(11));
    assert!(verify_signature(&u.signature, &pk, &u.digest(), &ciphersuite()));
}

#[test]
fn fifo_map_evicts_in_insertion_order() {
    let mut m: FifoMap<u32> = FifoMap::with_capacity(2);
    m.insert([1u8; 32], 1);
    m.insert([2u8; 32], 2);
    m.insert([1u8; 32], 10);
    assert_eq!(m.len(), 2);
    assert_eq!(*m.value_at(m.position(&[1u8; 32]).unwrap()), 10);
    m.insert([3u8; 32], 3);
    assert!(m.position(&[1u8; 32]).is_none());
    assert_eq!(m.position(&[2u8; 32]), Some(0));
    assert_eq!(m.position(&[3u8; 32]), Some(1));

    let mut z: FifoMap<u32> = FifoMap::with_capacity(0);
    z.insert([1u8; 32], 1);
    z.insert([2u8; 32], 2);
    assert_eq!(z.len(), 1);
}

#[test]
fn timestamp_now_is_recent() {
    let t = Timestamp::now();
    assert!(t.0 > 1_600_000_000_000);
    let d = t.duration_since(std::time::Instant::now());
    assert!(d.as_millis() < 60_000);
}

#[test]
fn log_extend_appends_in_order() {
    let rec = |t: u128| dato::Record { timestamp: Timestamp(t), message: Message(vec![t as u8]), signature: vec![] };
    let mut a = dato::Log { records: vec![rec(1)] };
    assert!(!a.is_empty());
    a.extend(dato::Log { records: vec![rec(2), rec(3)] });
    assert_eq!(a.len(), 3);
    let ts: Vec<u128> = a.records.iter().map(|r| r.timestamp.0).collect();
    assert_eq!(ts, vec![1, 2, 3]);
    assert!(dato::Log { records: vec![] }.is_empty());
}

#[test]
fn validator_info_identity() {
    let info = dato::ValidatorInfo {
        index: 4,
        bls_pub_key: vec![1, 2, 3],
        stake: 0,
        socket: "127.0.0.1:12450".to_string(),
        exists: true,
    };
    let id = info.identity();
    assert_eq!(id.index, 4);
    assert_eq!(id.pubkey, vec![1, 2, 3]);
}

#[test]
fn add_validator_keeps_indices_dense() {
    let mut client = dato::Client::new();
    assert!(client.add_validator(dato::ValidatorIdentity::new(0, vec![1])));
    assert!(!client.add_validator(dato::ValidatorIdentity::new(2, vec![2])));
    assert!(client.add_validator(dato::ValidatorIdentity::new(1, vec![3])));
    assert!(client.add_validator(dato::ValidatorIdentity::new(0, vec![4])));
    assert_eq!(client.validator_count(), 2);
}
