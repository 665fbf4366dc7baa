//! Digests and BLS signatures.
//!
//! Keys and signatures travel as bytes: a secret key is its 32-byte
//! big-endian scalar, a public key a 48-byte compressed G1 point and a
//! signature a 96-byte compressed G2 point.
use vstd::prelude::*;

verus! {

/// The Keccak-256 digest of a byte string.
pub uninterp spec fn keccak_of(data: Seq<u8>) -> Seq<u8>;

/// Whether the bytes decode to a BLS secret key.
pub uninterp spec fn bls_secret_valid(sk: Seq<u8>) -> bool;

/// The compressed public key that belongs to a secret key.
pub uninterp spec fn bls_public_key_of(sk: Seq<u8>) -> Seq<u8>;

/// The compressed signature of `msg` under secret key `sk` and domain tag `dst`.
pub uninterp spec fn bls_signature_of(sk: Seq<u8>, msg: Seq<u8>, dst: Seq<u8>) -> Seq<u8>;

/// Whether `sig` is a valid signature of `msg` under public key `pk` and domain tag `dst`.
pub uninterp spec fn bls_verifies(sig: Seq<u8>, pk: Seq<u8>, msg: Seq<u8>, dst: Seq<u8>) -> bool;

/// Whether the bytes decode to a signature point.
pub uninterp spec fn bls_sig_decodes(sig: Seq<u8>) -> bool;

/// The compressed sum of a non-empty list of signatures.
pub uninterp spec fn bls_aggregate_of(sigs: Seq<Seq<u8>>) -> Seq<u8>;

/// The secret key that key generation derives from input key material.
pub uninterp spec fn bls_key_from_ikm(ikm: Seq<u8>) -> Seq<u8>;

/// The views of a list of byte strings.
pub open spec fn views_of(v: Seq<Vec<u8>>) -> Seq<Seq<u8>> {
    v.map_values(|s: Vec<u8>| s@)
}

/// The domain separation tag of the ciphersuite
/// `BLS_SIG_BLS12381G2_XMD:SHA-256_SSWU_RO_POP_`.
pub open spec fn ciphersuite_spec() -> Seq<u8> {
    seq![
        66u8, 76, 83, 95, 83, 73, 71, 95, 66, 76, 83, 49, 50, 51, 56, 49, 71, 50, 95, 88, 77, 68,
        58, 83, 72, 65, 45, 50, 53, 54, 95, 83, 83, 87, 85, 95, 82, 79, 95, 80, 79, 80, 95,
    ]
}

/// Returns the domain separation tag that every signature of the log uses.
pub fn ciphersuite() -> (r: Vec<u8>)
    ensures
        r@ == ciphersuite_spec(),
{
    let r: Vec<u8> = vec![
        66u8, 76, 83, 95, 83, 73, 71, 95, 66, 76, 83, 49, 50, 51, 56, 49, 71, 50, 95, 88, 77, 68,
        58, 83, 72, 65, 45, 50, 53, 54, 95, 83, 83, 87, 85, 95, 82, 79, 95, 80, 79, 80, 95,
    ];
    assert(r@ =~= ciphersuite_spec());
    r
}

/// Relies on alloy's `keccak256`: the Keccak-256 digest of the input bytes.
#[verifier::external_body]
pub fn keccak256(data: &[u8]) -> (r: [u8; 32])
    ensures
        r@ == keccak_of(data@),
{
    alloy::primitives::keccak256(data).0
}

/// Relies on blst's `SecretKey::from_bytes`, `SecretKey::sk_to_pk` and
/// `PublicKey::compress`: `None` exactly when the bytes are no secret key.
#[verifier::external_body]
pub fn public_key(sk: &[u8]) -> (r: Option<Vec<u8>>)
    ensures
        r is Some <==> bls_secret_valid(sk@),
        r matches Some(pk) ==> pk@ == bls_public_key_of(sk@),
{
    blst::min_pk::SecretKey::from_bytes(sk).ok().map(|k| k.sk_to_pk().compress().to_vec())
}

/// Relies on blst's `SecretKey::sign` (with an empty augmentation) and
/// `Signature::compress`: `None` exactly when the bytes are no secret key.
#[verifier::external_body]
pub fn sign_digest(sk: &[u8], msg: &[u8], dst: &[u8]) -> (r: Option<Vec<u8>>)
    ensures
        r is Some <==> bls_secret_valid(sk@),
        r matches Some(sig) ==> sig@ == bls_signature_of(sk@, msg@, dst@),
{
    blst::min_pk::SecretKey::from_bytes(sk).ok().map(|k| k.sign(msg, dst, &[]).compress().to_vec())
}

/// Relies on blst's `Signature::verify` with group checks on the signature
/// off and on the key on; undecodable bytes verify nothing.
#[verifier::external_body]
pub fn verify_signature(sig: &[u8], pk: &[u8], msg: &[u8], dst: &[u8]) -> (r: bool)
    ensures
        r == bls_verifies(sig@, pk@, msg@, dst@),
        r ==> bls_sig_decodes(sig@),
{
    match (blst::min_pk::Signature::from_bytes(sig), blst::min_pk::PublicKey::from_bytes(pk)) {
        (Ok(s), Ok(p)) => s.verify(false, msg, dst, &[], &p, true) == blst::BLST_ERROR::BLST_SUCCESS,
        _ => false,
    }
}

/// Relies on blst's `AggregateSignature::aggregate_serialized` without group
/// checks: it fails exactly on an empty list or on bytes that do not decode.
#[verifier::external_body]
pub fn aggregate_signatures(sigs: &Vec<Vec<u8>>) -> (r: Option<Vec<u8>>)
    ensures
        r is Some <==> (sigs@.len() > 0 && forall|i: int|
            0 <= i < sigs@.len() ==> bls_sig_decodes(#[trigger] sigs@[i]@)),
        r matches Some(agg) ==> agg@ == bls_aggregate_of(views_of(sigs@)),
{
    let refs: Vec<&[u8]> = sigs.iter().map(|s| s.as_slice()).collect();
    blst::min_pk::AggregateSignature::aggregate_serialized(&refs, false)
        .ok()
        .map(|a| a.to_signature().compress().to_vec())
}

/// Relies on blst's `SecretKey::key_gen` (empty key info), which refuses key
/// material shorter than 32 bytes, and on `SecretKey::to_bytes`.
#[verifier::external_body]
fn key_gen(ikm: &[u8]) -> (r: Option<Vec<u8>>)
    ensures
        r is Some <==> ikm@.len() >= 32,
        r matches Some(k) ==> k@ == bls_key_from_ikm(ikm@) && k@.len() == 32,
{
    blst::min_pk::SecretKey::key_gen(ikm, &[]).ok().map(|k| k.to_bytes().to_vec())
}

/// Relies on rand's `thread_rng` and `RngCore::fill_bytes`: 32 random bytes.
#[verifier::external_body]
fn random_key_material() -> (r: [u8; 32]) {
    let mut ikm = [0u8; 32];
    rand::RngCore::fill_bytes(&mut rand::thread_rng(), &mut ikm);
    ikm
}

/// Generates a fresh random BLS secret key, as its 32 bytes.
pub fn random_bls_secret() -> (r: Vec<u8>)
    ensures
        r@.len() == 32,
        exists|ikm: Seq<u8>| ikm.len() == 32 && r@ == bls_key_from_ikm(ikm),
{
    let ikm = random_key_material();
    match key_gen(&ikm) {
        Some(k) => k,
        None => {
            assert(false);
            Vec::new()
        },
    }
}

} // verus!
