//! Addresses: the digest of a public key.

use vstd::prelude::*;
use crate::crypto::sha256;
use crate::keys::PublicKey;

verus! {

/// Size of an address, in bytes.
pub const ADDRESS_SIZE_BYTES: usize = 32;

/// The digest of a public key.
#[derive(Clone, Copy, Debug, PartialEq, Eq, PartialOrd, Ord, Hash)]
pub struct Address(pub crate::hash::Hash);

impl View for Address {
    type V = Seq<u8>;

    open spec fn view(&self) -> Seq<u8> {
        self.0@
    }
}

impl Address {
    /// The thread of an address with first byte `first` among `thread_count` threads.
    pub open spec fn spec_thread(first: u8, thread_count: u8) -> int {
        first * thread_count / 256
    }

    /// The address of the key `public_key`: the digest of its bytes.
    pub open spec fn spec_of(public_key: PublicKey) -> Address {
        Address(crate::hash::Hash { bytes: crate::hash::array32_from_seq(sha256(public_key@)) })
    }

    /// The address of `public_key`.
    pub fn from_public_key(public_key: &PublicKey) -> (address: Address)
        ensures
            address@ == sha256(public_key@),
            address == Self::spec_of(*public_key),
    {
        let digest = crate::hash::Hash::compute_from(public_key.bytes.as_slice());
        proof {
            crate::hash::lemma_array32_from_seq(digest.bytes);
        }
        Address(digest)
    }

    /// The thread that the address belongs to: its first byte scaled to the number of
    /// threads.
    pub fn get_thread(&self, thread_count: u8) -> (thread: u8)
        ensures
            thread == Self::spec_thread(self@[0], thread_count),
            thread_count > 0 ==> thread < thread_count,
    {
        let first: u16 = self.0.bytes[0] as u16;
        assert(first * thread_count <= 255 * 255 && (first * thread_count / 256 < thread_count
            || thread_count == 0)) by (nonlinear_arith)
            requires
                0 <= first < 256,
                0 <= thread_count < 256,
        ;
        let scaled: u16 = first * (thread_count as u16) / 256;
        scaled as u8
    }

    /// The address's bytes.
    pub fn to_bytes(&self) -> (bytes: [u8; 32])
        ensures
            bytes == self.0.bytes,
    {
        self.0.bytes
    }

    /// Whether two addresses are the same.
    pub fn equals(&self, other: &Address) -> (same: bool)
        ensures
            same == (*self == *other),
    {
        self.0.equals(&other.0)
    }
}

} // verus!
