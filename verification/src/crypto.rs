//! The cryptographic collaborator: digests, Schnorr signatures over secp256k1 and the
//! Base58Check text form. Nothing in this file is proved: each function hands its
//! arguments to an outside crate, and its contract gives the outcome a name.

use vstd::prelude::*;

verus! {

/// The SHA-256 digest of `data`, 32 bytes.
pub uninterp spec fn sha256(data: Seq<u8>) -> Seq<u8>;

/// Whether `signature` is a valid Schnorr signature of the 32-byte `digest` under the
/// x-only public key `public_key`. False when the key or the signature cannot be read.
pub uninterp spec fn schnorr_valid(digest: Seq<u8>, signature: Seq<u8>, public_key: Seq<u8>) -> bool;

/// The Schnorr signature, made without auxiliary randomness, of the 32-byte `digest`
/// under the secret key `secret_key`; nothing when the key is not a valid secret key.
pub uninterp spec fn schnorr_signature(digest: Seq<u8>, secret_key: Seq<u8>) -> Option<Seq<u8>>;

/// The Base58Check text of `payload`.
pub uninterp spec fn base58_check_text(payload: Seq<u8>) -> Seq<char>;

/// The payload of the Base58Check text whose bytes are `text`; nothing when the text is
/// malformed or its checksum is wrong.
pub uninterp spec fn base58_check_payload(text: Seq<u8>) -> Option<Seq<u8>>;

/// Calls `bitcoin_hashes::sha256::Hash::hash` and returns the digest's byte array.
/// Trusted: the result is the digest named `sha256`.
#[verifier::external_body]
pub(crate) fn sha256_digest(data: &[u8]) -> (digest: [u8; 32])
    ensures
        digest@ == sha256(data@),
{
    let digest = <bitcoin_hashes::sha256::Hash as bitcoin_hashes::Hash>::hash(data);
    bitcoin_hashes::Hash::to_byte_array(digest)
}

/// Calls `secp256k1::Secp256k1::verify_schnorr` on the key and signature read with
/// `XOnlyPublicKey::from_slice` and `schnorr::Signature::from_slice`.
/// Trusted: the result is the verdict named `schnorr_valid`, false when either cannot
/// be read.
#[verifier::external_body]
pub(crate) fn schnorr_verify(digest: &[u8; 32], signature: &[u8; 64], public_key: &[u8; 32]) -> (ok:
    bool)
    ensures
        ok == schnorr_valid(digest@, signature@, public_key@),
{
    let context = secp256k1::Secp256k1::verification_only();
    let message = secp256k1::Message::from_digest(*digest);
    let key = secp256k1::XOnlyPublicKey::from_slice(public_key);
    let sig = secp256k1::schnorr::Signature::from_slice(signature);
    match (key, sig) {
        (Ok(key), Ok(sig)) => context.verify_schnorr(&sig, &message, &key).is_ok(),
        _ => false,
    }
}

/// Calls `secp256k1::Secp256k1::sign_schnorr_no_aux_rand` with the key pair that
/// `Keypair::from_seckey_slice` builds from `secret_key`.
/// Trusted: the result is the signature named `schnorr_signature`, nothing when the
/// secret key is refused.
#[verifier::external_body]
pub(crate) fn schnorr_sign(digest: &[u8; 32], secret_key: &[u8; 32]) -> (signature: Option<[u8; 64]>)
    ensures
        match signature {
            Some(bytes) => schnorr_signature(digest@, secret_key@) == Some(bytes@),
            None => schnorr_signature(digest@, secret_key@).is_none(),
        },
{
    let context = secp256k1::Secp256k1::signing_only();
    let message = secp256k1::Message::from_digest(*digest);
    match secp256k1::Keypair::from_seckey_slice(&context, secret_key) {
        Ok(pair) => Some(context.sign_schnorr_no_aux_rand(&message, &pair).serialize()),
        Err(_) => None,
    }
}

/// Calls `bs58::encode(..).with_check().into_string()`.
/// Trusted: the result is the text named `base58_check_text`.
#[verifier::external_body]
pub(crate) fn base58_check_encode(payload: &[u8]) -> (text: String)
    ensures
        text@ == base58_check_text(payload@),
{
    bs58::encode(payload).with_check().into_string()
}

/// Calls `bs58::decode(..).with_check(None).into_vec()`.
/// Trusted: the result is the payload named `base58_check_payload`, nothing when the
/// outside call fails.
#[verifier::external_body]
pub(crate) fn base58_check_decode(text: &[u8]) -> (payload: Option<Vec<u8>>)
    ensures
        match payload {
            Some(bytes) => base58_check_payload(text@) == Some(bytes@),
            None => base58_check_payload(text@).is_none(),
        },
{
    match bs58::decode(text).with_check(None).into_vec() {
        Ok(bytes) => Some(bytes),
        Err(_) => None,
    }
}

} // verus!
