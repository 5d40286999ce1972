//! Endorsements: signed attestations that name an earlier block by slot and identifier.

use vstd::prelude::*;
use vstd::string::StringSliceAdditionalSpecFns;
use crate::block::BlockId;
use crate::codec::{
    extend_bytes, from_varint_bytes_bounded_u32, holds_at, lemma_holds_at_part,
    lemma_varint_round_trip, parse_varint_bounded, to_varint_bytes, varint_bytes,
};
use crate::config::SerializationContext;
use crate::crypto::{schnorr_valid, sha256};
use crate::error::ModelsError;
use crate::hash::{
    array32_from_seq, bytes32_from_slice, bytes64_from_slice, lemma_array32_from_seq,
    lemma_bytes32_round_trip, lemma_bytes64_round_trip, parse_bytes32, parse_bytes64,
};
use crate::keys::{verify_signature, PublicKey, Signature};
use crate::slot::{lemma_slot_round_trip, parse_slot, Slot};

verus! {

/// The digest that names an endorsement.
#[derive(Clone, Copy, Debug, PartialEq, Eq, PartialOrd, Ord, Hash)]
pub struct EndorsementId(pub crate::hash::Hash);

/// The prefix that the text of an endorsement identifier may carry, before a dash.
pub const ENDORSEMENT_ID_STRING_PREFIX: &'static str = "END";

impl EndorsementId {
    /// The Base58Check text of the identifier.
    pub fn to_bs58_check(&self) -> (text: String)
        ensures
            text@ == crate::crypto::base58_check_text(self.0@),
    {
        self.0.to_bs58_check()
    }

    /// Reads an identifier from its text, with or without the prefix `END-`. Fails
    /// with `WrongPrefix` exactly when the text has one dash and another prefix before
    /// it, else with `HashError` exactly when what stands for the digest is no
    /// Base58Check text of 32 bytes.
    pub fn from_str(s: &str) -> (r: Result<EndorsementId, ModelsError>)
        ensures
            match crate::hash::parse_prefixed_text(
                s.spec_bytes(),
                ENDORSEMENT_ID_STRING_PREFIX.spec_bytes(),
            ) {
                crate::hash::TextualId::Digest(digest) => r.is_ok() && r.unwrap().0@ == digest,
                crate::hash::TextualId::WrongPrefix(prefix) => r matches Err(
                    ModelsError::WrongPrefix(expected, found),
                ) && expected@ == ENDORSEMENT_ID_STRING_PREFIX@ && vstd::utf8::encode_utf8(found@)
                    == prefix,
                crate::hash::TextualId::Malformed => r == Err::<EndorsementId, ModelsError>(
                    ModelsError::HashError,
                ),
            },
    {
        match crate::hash::Hash::from_prefixed_text(s, ENDORSEMENT_ID_STRING_PREFIX) {
            Ok(h) => Ok(EndorsementId(h)),
            Err(e) => Err(e),
        }
    }
}

/// The signed part of an endorsement.
#[derive(Clone, Copy, Debug, PartialEq, Eq)]
pub struct EndorsementContent {
    pub sender_public_key: PublicKey,
    pub slot: Slot,
    pub index: u32,
    pub endorsed_block: BlockId,
}

/// An endorsement: its content and the sender's signature of the content's digest.
#[derive(Clone, Copy, Debug, PartialEq, Eq)]
pub struct Endorsement {
    pub content: EndorsementContent,
    pub signature: Signature,
}

/// What reading an endorsement content at `pos` yields: sender key, slot, index, then
/// the endorsed block's identifier.
pub open spec fn parse_endorsement_content(s: Seq<u8>, pos: int, thread_count: u8) -> Option<
    (EndorsementContent, int),
> {
    match parse_bytes32(s, pos) {
        Some((key, at)) => match parse_slot(s, at, thread_count) {
            Some((slot, at2)) => match parse_varint_bounded(s, at2, u32::MAX as nat) {
                Some((index, at3)) => match parse_bytes32(s, at3) {
                    Some((block, end)) => Some(
                        (
                            EndorsementContent {
                                sender_public_key: PublicKey { bytes: key },
                                slot,
                                index: index as u32,
                                endorsed_block: BlockId(crate::hash::Hash { bytes: block }),
                            },
                            end,
                        ),
                    ),
                    None => None,
                },
                None => None,
            },
            None => None,
        },
        None => None,
    }
}

/// What reading an endorsement at `pos` yields: the content, then the signature.
pub open spec fn parse_endorsement(s: Seq<u8>, pos: int, thread_count: u8) -> Option<
    (Endorsement, int),
> {
    match parse_endorsement_content(s, pos, thread_count) {
        Some((content, at)) => match parse_bytes64(s, at) {
            Some((sig, end)) => Some(
                (Endorsement { content, signature: Signature { bytes: sig } }, end),
            ),
            None => None,
        },
        None => None,
    }
}

impl EndorsementContent {
    /// The compact form: sender key, slot, index, endorsed block.
    pub open spec fn spec_bytes(self) -> Seq<u8> {
        self.sender_public_key@ + self.slot.spec_bytes() + varint_bytes(self.index as nat)
            + self.endorsed_block@
    }

    /// The digest that the sender signs.
    pub open spec fn spec_hash(self) -> Seq<u8> {
        sha256(self.spec_bytes())
    }

    /// Writes the compact form.
    pub fn to_bytes_compact(&self) -> (out: Vec<u8>)
        ensures
            out@ == self.spec_bytes(),
    {
        let mut out: Vec<u8> = Vec::new();
        extend_bytes(&mut out, self.sender_public_key.bytes.as_slice());
        let slot = self.slot.to_bytes_compact();
        extend_bytes(&mut out, slot.as_slice());
        let index = to_varint_bytes(self.index as u64);
        extend_bytes(&mut out, index.as_slice());
        extend_bytes(&mut out, self.endorsed_block.0.bytes.as_slice());
        assert(out@ =~= self.spec_bytes());
        out
    }

    /// The digest of the compact form.
    pub fn compute_hash(&self) -> (h: crate::hash::Hash)
        ensures
            h@ == self.spec_hash(),
    {
        let bytes = self.to_bytes_compact();
        crate::hash::Hash::compute_from(bytes.as_slice())
    }

    /// Reads an endorsement content at `pos`: the value and the position behind it.
    pub fn from_bytes_compact_at(buffer: &[u8], pos: usize, context: &SerializationContext) -> (r:
        Result<(EndorsementContent, usize), ModelsError>)
        ensures
            match parse_endorsement_content(buffer@, pos as int, context.thread_count) {
                Some((content, end)) => r.is_ok() && r.unwrap().0 == content && r.unwrap().1
                    == end,
                None => r.is_err() && r.unwrap_err().is_deserialize(),
            },
    {
        let key = match bytes32_from_slice(buffer, pos) {
            Ok(read) => read,
            Err(e) => { return Err(e); },
        };
        let (slot, at2) = match Slot::from_bytes_compact_at(buffer, pos + 32, context) {
            Ok(read) => read,
            Err(e) => { return Err(e); },
        };
        let (index, at3) = match from_varint_bytes_bounded_u32(buffer, at2, u32::MAX) {
            Ok(read) => read,
            Err(e) => { return Err(e); },
        };
        let block = match bytes32_from_slice(buffer, at3) {
            Ok(read) => read,
            Err(e) => { return Err(e); },
        };
        Ok(
            (
                EndorsementContent {
                    sender_public_key: PublicKey { bytes: key },
                    slot,
                    index,
                    endorsed_block: BlockId(crate::hash::Hash { bytes: block }),
                },
                at3 + 32,
            ),
        )
    }
}

impl Endorsement {
    /// The compact form: the content, then the signature.
    pub open spec fn spec_bytes(self) -> Seq<u8> {
        self.content.spec_bytes() + self.signature@
    }

    /// The bytes of the endorsement's identifier: the digest of its compact form.
    pub open spec fn spec_id(self) -> Seq<u8> {
        sha256(self.spec_bytes())
    }

    /// Whether the signature signs the content's digest under the sender's key.
    pub open spec fn spec_signed(self) -> bool {
        schnorr_valid(self.content.spec_hash(), self.signature@, self.content.sender_public_key@)
    }

    /// The endorsement's identifier.
    pub open spec fn spec_endorsement_id(self) -> EndorsementId {
        EndorsementId(crate::hash::Hash { bytes: array32_from_seq(self.spec_id()) })
    }

    /// Writes the compact form.
    pub fn to_bytes_compact(&self) -> (out: Vec<u8>)
        ensures
            out@ == self.spec_bytes(),
    {
        let mut out = self.content.to_bytes_compact();
        extend_bytes(&mut out, self.signature.bytes.as_slice());
        out
    }

    /// Reads an endorsement at `pos`: the value and the position behind it.
    pub fn from_bytes_compact_at(buffer: &[u8], pos: usize, context: &SerializationContext) -> (r:
        Result<(Endorsement, usize), ModelsError>)
        ensures
            match parse_endorsement(buffer@, pos as int, context.thread_count) {
                Some((e, end)) => r.is_ok() && r.unwrap().0 == e && r.unwrap().1 == end,
                None => r.is_err() && r.unwrap_err().is_deserialize(),
            },
    {
        let (content, at) = match EndorsementContent::from_bytes_compact_at(buffer, pos, context) {
            Ok(read) => read,
            Err(e) => { return Err(e); },
        };
        let sig = match bytes64_from_slice(buffer, at) {
            Ok(read) => read,
            Err(e) => { return Err(e); },
        };
        Ok((Endorsement { content, signature: Signature { bytes: sig } }, at + 64))
    }

    /// Reads an endorsement at the start of `buffer`: the value and the number of bytes
    /// read.
    pub fn from_bytes_compact(buffer: &[u8], context: &SerializationContext) -> (r: Result<
        (Endorsement, usize),
        ModelsError,
    >)
        ensures
            match parse_endorsement(buffer@, 0, context.thread_count) {
                Some((e, end)) => r.is_ok() && r.unwrap().0 == e && r.unwrap().1 == end,
                None => r.is_err() && r.unwrap_err().is_deserialize(),
            },
    {
        Self::from_bytes_compact_at(buffer, 0, context)
    }

    /// The endorsement's identifier, computed without checking the signature.
    pub fn compute_endorsement_id(&self) -> (id: EndorsementId)
        ensures
            id.0@ == self.spec_id(),
            id == self.spec_endorsement_id(),
    {
        let bytes = self.to_bytes_compact();
        let digest = crate::hash::Hash::compute_from(bytes.as_slice());
        proof {
            lemma_array32_from_seq(digest.bytes);
        }
        EndorsementId(digest)
    }

    /// Checks the signature against the sender's key and returns the identifier.
    /// Fails with `InvalidSignature` exactly when the signature does not verify.
    pub fn verify_integrity(&self) -> (r: Result<EndorsementId, ModelsError>)
        ensures
            self.spec_signed() ==> r.is_ok() && r.unwrap().0@ == self.spec_id() && r.unwrap()
                == self.spec_endorsement_id(),
            !self.spec_signed() ==> r == Err::<EndorsementId, ModelsError>(
                ModelsError::InvalidSignature,
            ),
    {
        let content_hash = self.content.compute_hash();
        match verify_signature(&content_hash, &self.signature, &self.content.sender_public_key) {
            Ok(()) => Ok(self.compute_endorsement_id()),
            Err(_) => Err(ModelsError::InvalidSignature),
        }
    }
}

/// Reading the compact form of an endorsement content whose slot has an existing
/// thread gives it back.
pub proof fn lemma_endorsement_content_round_trip(
    s: Seq<u8>,
    pos: int,
    content: EndorsementContent,
    thread_count: u8,
)
    requires
        holds_at(s, pos, content.spec_bytes()),
        content.slot.thread < thread_count,
    ensures
        parse_endorsement_content(s, pos, thread_count) == Some(
            (content, pos + content.spec_bytes().len()),
        ),
{
    let a = content.sender_public_key@;
    let b = content.slot.spec_bytes();
    let c = varint_bytes(content.index as nat);
    let d = content.endorsed_block@;
    lemma_holds_at_part(s, pos, a + b + c, d);
    lemma_holds_at_part(s, pos, a + b, c);
    lemma_holds_at_part(s, pos, a, b);
    lemma_bytes32_round_trip(s, pos, content.sender_public_key.bytes);
    lemma_slot_round_trip(s, pos + 32, content.slot, thread_count);
    lemma_varint_round_trip(s, pos + 32 + b.len(), content.index as nat);
    lemma_bytes32_round_trip(s, pos + 32 + b.len() + c.len(), content.endorsed_block.0.bytes);
}

/// Reading the compact form of an endorsement whose slot has an existing thread gives
/// it back.
pub proof fn lemma_endorsement_round_trip(s: Seq<u8>, pos: int, e: Endorsement, thread_count: u8)
    requires
        holds_at(s, pos, e.spec_bytes()),
        e.content.slot.thread < thread_count,
    ensures
        parse_endorsement(s, pos, thread_count) == Some((e, pos + e.spec_bytes().len())),
{
    lemma_holds_at_part(s, pos, e.content.spec_bytes(), e.signature@);
    lemma_endorsement_content_round_trip(s, pos, e.content, thread_count);
    lemma_bytes64_round_trip(s, pos + e.content.spec_bytes().len(), e.signature.bytes);
}

} // verus!
