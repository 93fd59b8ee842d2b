//! Trusted boundary to the cryptographic and randomness providers.
//!
//! Every function here is a thin wrapper over one outside call; contracts
//! state only what the callee's source or documentation shows. Results
//! that are functions of the arguments alone carry uninterpreted names
//! (`pubkey_of`, `event_id_of`, `sig_of`, `schnorr_verifies`) so that
//! verified callers can speak about them exactly.

use core::str::FromStr;
use rand::Rng;
use vstd::prelude::*;

verus! {

/// Whether `c` is a hexadecimal digit.
pub open spec fn is_hex_char(c: char) -> bool {
    ('0' <= c && c <= '9') || ('a' <= c && c <= 'f') || ('A' <= c && c <= 'F')
}

/// A 64-character hexadecimal string (32 bytes).
pub open spec fn is_hex64(s: Seq<char>) -> bool {
    s.len() == 64 && forall|i: int| 0 <= i < s.len() ==> is_hex_char(#[trigger] s[i])
}

/// A 128-character hexadecimal string (64 bytes).
pub open spec fn is_hex128(s: Seq<char>) -> bool {
    s.len() == 128 && forall|i: int| 0 <= i < s.len() ==> is_hex_char(#[trigger] s[i])
}

/// The x-only public key, in hex, that belongs to a secret key given in
/// hex; `None` when the string is not a valid secret key.
pub uninterp spec fn pubkey_of(secret: Seq<char>) -> Option<Seq<char>>;

/// The SHA-256 digest, in hex, of a signing payload.
pub uninterp spec fn event_id_of(payload: Seq<char>) -> Seq<char>;

/// The BIP340 signature, in hex, of a 32-byte id under a secret key, made
/// without auxiliary randomness, hence a function of its arguments.
pub uninterp spec fn sig_of(secret: Seq<char>, id: Seq<char>) -> Seq<char>;

/// Whether a signature verifies against an id and an x-only public key,
/// all in hex.
pub uninterp spec fn schnorr_verifies(sig: Seq<char>, id: Seq<char>, pubkey: Seq<char>) -> bool;

/// Relies on secp256k1's KeyPair::from_seckey_str (succeeds exactly on a
/// valid 64-digit hex secret) and KeyPair::x_only_public_key; the public
/// key prints as 64 lower-case hex digits.
#[verifier::external_body]
pub(crate) fn derive_pubkey(secret: &str) -> (r: Option<String>)
    ensures
        r.is_some() == pubkey_of(secret@).is_some(),
        r.is_some() ==> r.unwrap()@ == pubkey_of(secret@).unwrap() && is_hex64(r.unwrap()@),
{
    let secp = secp256k1::Secp256k1::new();
    match secp256k1::KeyPair::from_seckey_str(&secp, secret) {
        Ok(kp) => Some(kp.x_only_public_key().0.to_string()),
        Err(_) => None,
    }
}

/// Relies on secp256k1's Message::from_hashed_data with SHA-256: the id is
/// the digest of the payload bytes and prints as 64 lower-case hex digits.
#[verifier::external_body]
pub(crate) fn compute_event_id(payload: &str) -> (r: String)
    ensures
        r@ == event_id_of(payload@),
        is_hex64(r@),
{
    let id = secp256k1::Message::from_hashed_data::<secp256k1::hashes::sha256::Hash>(
        payload.as_bytes(),
    );
    id.to_string()
}

/// Relies on secp256k1's sign_schnorr_no_aux_rand: deterministic BIP340
/// signing, whose signatures verify against the signer's public key; the
/// signature prints as 128 lower-case hex digits.
#[verifier::external_body]
pub(crate) fn sign_id(secret: &str, id: &str) -> (r: String)
    requires
        pubkey_of(secret@).is_some(),
        is_hex64(id@),
    ensures
        r@ == sig_of(secret@, id@),
        is_hex128(r@),
        schnorr_verifies(r@, id@, pubkey_of(secret@).unwrap()),
{
    let secp = secp256k1::Secp256k1::new();
    let kp = secp256k1::KeyPair::from_seckey_str(&secp, secret).unwrap();
    let hash = secp256k1::hashes::sha256::Hash::from_str(id).unwrap();
    let msg = secp256k1::Message::from(hash);
    secp.sign_schnorr_no_aux_rand(&msg, &kp).to_string()
}

/// Relies on secp256k1's verify_schnorr; `false` also when one of the hex
/// strings does not parse as a signature, id or x-only public key.
#[verifier::external_body]
pub(crate) fn verify_sig(sig: &str, id: &str, pubkey: &str) -> (r: bool)
    ensures
        r == schnorr_verifies(sig@, id@, pubkey@),
{
    let secp = secp256k1::Secp256k1::new();
    let parsed_sig = secp256k1::schnorr::Signature::from_str(sig);
    let parsed_hash = secp256k1::hashes::sha256::Hash::from_str(id);
    let parsed_pk = secp256k1::XOnlyPublicKey::from_str(pubkey);
    match (parsed_sig, parsed_hash, parsed_pk) {
        (Ok(s), Ok(h), Ok(p)) => {
            secp.verify_schnorr(&s, &secp256k1::Message::from(h), &p).is_ok()
        }
        _ => false,
    }
}

/// Relies on secp256k1's SecretKey::new, which retries until the drawn
/// bytes form a valid secret key, and on display_secret: 64 hex digits.
#[verifier::external_body]
pub(crate) fn generate_secret() -> (r: String)
    ensures
        pubkey_of(r@).is_some(),
        is_hex64(r@),
{
    let secret = secp256k1::SecretKey::new(&mut rand::thread_rng());
    secret.display_secret().to_string()
}

/// Relies on rand's Alphanumeric distribution: 64 random characters drawn
/// from ASCII letters and digits.
#[verifier::external_body]
pub(crate) fn random_token() -> (r: String)
    ensures
        r@.len() == 64,
{
    let bytes: Vec<u8> = rand::thread_rng()
        .sample_iter(rand::distributions::Alphanumeric)
        .take(64)
        .collect();
    String::from_utf8(bytes).unwrap()
}

/// Relies on rand's gen_range, which returns a value inside the given
/// non-empty range.
#[verifier::external_body]
pub(crate) fn random_below(n: usize) -> (r: usize)
    requires
        n > 0,
    ensures
        r < n,
{
    rand::thread_rng().gen_range(0..n)
}

} // verus!
