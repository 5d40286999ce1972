//! Keys and signatures: fixed-width byte arrays whose meaning belongs to the
//! cryptographic collaborator.

use vstd::prelude::*;
use crate::crypto::{schnorr_sign, schnorr_signature, schnorr_valid, schnorr_verify};
use crate::error::ModelsError;
use crate::hash::bytes32_eq;

verus! {

/// Size of a public key, in bytes.
pub const PUBLIC_KEY_SIZE_BYTES: usize = 32;

/// Size of a private key, in bytes.
pub const PRIVATE_KEY_SIZE_BYTES: usize = 32;

/// Size of a signature, in bytes.
pub const SIGNATURE_SIZE_BYTES: usize = 64;

/// A public key.
#[derive(Clone, Copy, Debug, PartialEq, Eq, PartialOrd, Ord, Hash)]
pub struct PublicKey {
    pub bytes: [u8; 32],
}

/// A private key.
#[derive(Clone, Copy, Debug, PartialEq, Eq)]
pub struct PrivateKey {
    pub bytes: [u8; 32],
}

/// A signature.
#[derive(Clone, Copy, Debug, PartialEq, Eq, Hash)]
pub struct Signature {
    pub bytes: [u8; 64],
}

impl View for PublicKey {
    type V = Seq<u8>;

    open spec fn view(&self) -> Seq<u8> {
        self.bytes@
    }
}

impl View for PrivateKey {
    type V = Seq<u8>;

    open spec fn view(&self) -> Seq<u8> {
        self.bytes@
    }
}

impl View for Signature {
    type V = Seq<u8>;

    open spec fn view(&self) -> Seq<u8> {
        self.bytes@
    }
}

impl PublicKey {
    /// The key with the given bytes.
    pub fn from_bytes(data: &[u8; 32]) -> (key: PublicKey)
        ensures
            key.bytes == *data,
    {
        PublicKey { bytes: *data }
    }

    /// The key's bytes.
    pub fn to_bytes(&self) -> (bytes: [u8; 32])
        ensures
            bytes == self.bytes,
    {
        self.bytes
    }

    /// Whether two keys are the same.
    pub fn equals(&self, other: &PublicKey) -> (same: bool)
        ensures
            same == (*self == *other),
    {
        bytes32_eq(&self.bytes, &other.bytes)
    }
}

impl PrivateKey {
    /// The key with the given bytes.
    pub fn from_bytes(data: &[u8; 32]) -> (key: PrivateKey)
        ensures
            key.bytes == *data,
    {
        PrivateKey { bytes: *data }
    }

    /// The key's bytes.
    pub fn to_bytes(&self) -> (bytes: [u8; 32])
        ensures
            bytes == self.bytes,
    {
        self.bytes
    }
}

impl Signature {
    /// The signature with the given bytes.
    pub fn from_bytes(data: &[u8; 64]) -> (signature: Signature)
        ensures
            signature.bytes == *data,
    {
        Signature { bytes: *data }
    }

    /// The signature's bytes.
    pub fn to_bytes(&self) -> (bytes: [u8; 64])
        ensures
            bytes == self.bytes,
    {
        self.bytes
    }
}

/// Signs the digest `hash` with `private_key`. Fails with `InvalidSignature` exactly
/// when the collaborator refuses the key.
pub fn sign(hash: &crate::hash::Hash, private_key: &PrivateKey) -> (r: Result<Signature, ModelsError>)
    ensures
        match schnorr_signature(hash@, private_key@) {
            Some(bytes) => r.is_ok() && r.unwrap()@ == bytes,
            None => r == Err::<Signature, ModelsError>(ModelsError::InvalidSignature),
        },
{
    match schnorr_sign(&hash.bytes, &private_key.bytes) {
        Some(bytes) => Ok(Signature { bytes }),
        None => Err(ModelsError::InvalidSignature),
    }
}

/// Checks that `signature` signs the digest `hash` under `public_key`.
pub fn verify_signature(hash: &crate::hash::Hash, signature: &Signature, public_key: &PublicKey) -> (r: Result<
    (),
    ModelsError,
>)
    ensures
        schnorr_valid(hash@, signature@, public_key@) ==> r.is_ok(),
        !schnorr_valid(hash@, signature@, public_key@) ==> r == Err::<(), ModelsError>(
            ModelsError::InvalidSignature,
        ),
{
    if schnorr_verify(&hash.bytes, &signature.bytes, &public_key.bytes) {
        Ok(())
    } else {
        Err(ModelsError::InvalidSignature)
    }
}

} // verus!
