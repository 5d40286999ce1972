//! Operations: signed requests to move coins or to buy and sell rolls.

use vstd::prelude::*;
use vstd::string::StringSliceAdditionalSpecFns;
use crate::address::Address;
use crate::codec::{
    extend_bytes, from_varint_bytes, from_varint_bytes_bounded_u32, holds_at,
    lemma_holds_at_part, lemma_varint_round_trip, parse_varint_bounded, to_varint_bytes,
    varint_bytes,
};
use crate::crypto::{schnorr_valid, sha256};
use crate::error::{deserialize_error, ModelsError};
use crate::hash::{
    array32_from_seq, bytes32_from_slice, bytes64_from_slice, lemma_array32_from_seq,
    lemma_bytes32_round_trip, lemma_bytes64_round_trip, parse_bytes32, parse_bytes64,
};
use crate::keys::{verify_signature, PublicKey, Signature};

verus! {

/// An amount of coins, in its smallest unit.
#[derive(Clone, Copy, Debug, PartialEq, Eq, PartialOrd, Ord, Hash)]
pub struct Amount(pub u64);

/// The digest that names an operation.
#[derive(Clone, Copy, Debug, PartialEq, Eq, PartialOrd, Ord, Hash)]
pub struct OperationId(pub crate::hash::Hash);

/// The prefix that the text of an operation identifier may carry, before a dash.
pub const OPERATION_ID_STRING_PREFIX: &'static str = "OPE";

impl OperationId {
    /// The Base58Check text of the identifier.
    pub fn to_bs58_check(&self) -> (text: String)
        ensures
            text@ == crate::crypto::base58_check_text(self.0@),
    {
        self.0.to_bs58_check()
    }

    /// Reads an identifier from its text, with or without the prefix `OPE-`. Fails
    /// with `WrongPrefix` exactly when the text has one dash and another prefix before
    /// it, else with `HashError` exactly when what stands for the digest is no
    /// Base58Check text of 32 bytes.
    pub fn from_str(s: &str) -> (r: Result<OperationId, ModelsError>)
        ensures
            match crate::hash::parse_prefixed_text(
                s.spec_bytes(),
                OPERATION_ID_STRING_PREFIX.spec_bytes(),
            ) {
                crate::hash::TextualId::Digest(digest) => r.is_ok() && r.unwrap().0@ == digest,
                crate::hash::TextualId::WrongPrefix(prefix) => r matches Err(
                    ModelsError::WrongPrefix(expected, found),
                ) && expected@ == OPERATION_ID_STRING_PREFIX@ && vstd::utf8::encode_utf8(found@)
                    == prefix,
                crate::hash::TextualId::Malformed => r == Err::<OperationId, ModelsError>(
                    ModelsError::HashError,
                ),
            },
    {
        match crate::hash::Hash::from_prefixed_text(s, OPERATION_ID_STRING_PREFIX) {
            Ok(h) => Ok(OperationId(h)),
            Err(e) => Err(e),
        }
    }
}

/// What an operation asks for.
#[derive(Clone, Copy, Debug, PartialEq, Eq)]
pub enum OperationType {
    /// Send `amount` to `recipient_address`.
    Transaction { recipient_address: Address, amount: Amount },
    /// Buy `roll_count` rolls.
    RollBuy { roll_count: u64 },
    /// Sell `roll_count` rolls.
    RollSell { roll_count: u64 },
}

/// The signed part of an operation.
#[derive(Clone, Copy, Debug, PartialEq, Eq)]
pub struct OperationContent {
    pub sender_public_key: PublicKey,
    pub fee: Amount,
    pub expire_period: u64,
    pub op: OperationType,
}

/// An operation: its content and the sender's signature of the content's digest.
#[derive(Clone, Copy, Debug, PartialEq, Eq)]
pub struct Operation {
    pub content: OperationContent,
    pub signature: Signature,
}

/// What reading an operation type at `pos` yields: a kind number, then the fields of
/// that kind.
pub open spec fn parse_operation_type(s: Seq<u8>, pos: int) -> Option<(OperationType, int)> {
    match parse_varint_bounded(s, pos, u32::MAX as nat) {
        Some((kind, at)) => if kind == 0 {
            match parse_bytes32(s, at) {
                Some((recipient, at2)) => match parse_varint_bounded(s, at2, u64::MAX as nat) {
                    Some((amount, end)) => Some(
                        (
                            OperationType::Transaction {
                                recipient_address: Address(crate::hash::Hash { bytes: recipient }),
                                amount: Amount(amount as u64),
                            },
                            end,
                        ),
                    ),
                    None => None,
                },
                None => None,
            }
        } else if kind == 1 {
            match parse_varint_bounded(s, at, u64::MAX as nat) {
                Some((count, end)) => Some(
                    (OperationType::RollBuy { roll_count: count as u64 }, end),
                ),
                None => None,
            }
        } else if kind == 2 {
            match parse_varint_bounded(s, at, u64::MAX as nat) {
                Some((count, end)) => Some(
                    (OperationType::RollSell { roll_count: count as u64 }, end),
                ),
                None => None,
            }
        } else {
            None
        },
        None => None,
    }
}

/// What reading an operation content at `pos` yields: fee, expiry period, sender key,
/// then the operation type.
pub open spec fn parse_operation_content(s: Seq<u8>, pos: int) -> Option<(OperationContent, int)> {
    match parse_varint_bounded(s, pos, u64::MAX as nat) {
        Some((fee, at)) => match parse_varint_bounded(s, at, u64::MAX as nat) {
            Some((expire, at2)) => match parse_bytes32(s, at2) {
                Some((key, at3)) => match parse_operation_type(s, at3) {
                    Some((op, end)) => Some(
                        (
                            OperationContent {
                                sender_public_key: PublicKey { bytes: key },
                                fee: Amount(fee as u64),
                                expire_period: expire as u64,
                                op,
                            },
                            end,
                        ),
                    ),
                    None => None,
                },
                None => None,
            },
            None => None,
        },
        None => None,
    }
}

/// What reading an operation at `pos` yields: the content, then the signature.
pub open spec fn parse_operation(s: Seq<u8>, pos: int) -> Option<(Operation, int)> {
    match parse_operation_content(s, pos) {
        Some((content, at)) => match parse_bytes64(s, at) {
            Some((sig, end)) => Some((Operation { content, signature: Signature { bytes: sig } }, end)),
            None => None,
        },
        None => None,
    }
}

impl OperationType {
    /// The compact form: the kind number, then the fields.
    pub open spec fn spec_bytes(self) -> Seq<u8> {
        match self {
            OperationType::Transaction { recipient_address, amount } => varint_bytes(0)
                + recipient_address@ + varint_bytes(amount.0 as nat),
            OperationType::RollBuy { roll_count } => varint_bytes(1) + varint_bytes(
                roll_count as nat,
            ),
            OperationType::RollSell { roll_count } => varint_bytes(2) + varint_bytes(
                roll_count as nat,
            ),
        }
    }

    /// Writes the compact form.
    pub fn to_bytes_compact(&self) -> (out: Vec<u8>)
        ensures
            out@ == self.spec_bytes(),
    {
        match self {
            OperationType::Transaction { recipient_address, amount } => {
                let mut out = to_varint_bytes(0);
                extend_bytes(&mut out, recipient_address.0.bytes.as_slice());
                let tail = to_varint_bytes(amount.0);
                extend_bytes(&mut out, tail.as_slice());
                out
            },
            OperationType::RollBuy { roll_count } => {
                let mut out = to_varint_bytes(1);
                let tail = to_varint_bytes(*roll_count);
                extend_bytes(&mut out, tail.as_slice());
                out
            },
            OperationType::RollSell { roll_count } => {
                let mut out = to_varint_bytes(2);
                let tail = to_varint_bytes(*roll_count);
                extend_bytes(&mut out, tail.as_slice());
                out
            },
        }
    }

    /// Reads an operation type at `pos`: the value and the position behind it.
    pub fn from_bytes_compact_at(buffer: &[u8], pos: usize) -> (r: Result<
        (OperationType, usize),
        ModelsError,
    >)
        ensures
            match parse_operation_type(buffer@, pos as int) {
                Some((op, end)) => r.is_ok() && r.unwrap().0 == op && r.unwrap().1 == end,
                None => r.is_err() && r.unwrap_err().is_deserialize(),
            },
    {
        let (kind, at) = match from_varint_bytes_bounded_u32(buffer, pos, u32::MAX) {
            Ok(read) => read,
            Err(e) => { return Err(e); },
        };
        if kind == 0 {
            let recipient = match bytes32_from_slice(buffer, at) {
                Ok(read) => read,
                Err(e) => { return Err(e); },
            };
            let (amount, end) = match from_varint_bytes(buffer, at + 32) {
                Ok(read) => read,
                Err(e) => { return Err(e); },
            };
            Ok(
                (
                    OperationType::Transaction {
                        recipient_address: Address(crate::hash::Hash { bytes: recipient }),
                        amount: Amount(amount),
                    },
                    end,
                ),
            )
        } else if kind == 1 {
            match from_varint_bytes(buffer, at) {
                Ok((count, end)) => Ok((OperationType::RollBuy { roll_count: count }, end)),
                Err(e) => Err(e),
            }
        } else if kind == 2 {
            match from_varint_bytes(buffer, at) {
                Ok((count, end)) => Ok((OperationType::RollSell { roll_count: count }, end)),
                Err(e) => Err(e),
            }
        } else {
            Err(deserialize_error("unknown operation type"))
        }
    }
}

impl OperationContent {
    /// The compact form: fee, expiry period, sender key, operation type.
    pub open spec fn spec_bytes(self) -> Seq<u8> {
        varint_bytes(self.fee.0 as nat) + varint_bytes(self.expire_period as nat)
            + self.sender_public_key@ + self.op.spec_bytes()
    }

    /// The digest that the sender signs.
    pub open spec fn spec_hash(self) -> Seq<u8> {
        sha256(self.spec_bytes())
    }

    /// Writes the compact form.
    pub fn to_bytes_compact(&self) -> (out: Vec<u8>)
        ensures
            out@ == self.spec_bytes(),
    {
        let mut out = to_varint_bytes(self.fee.0);
        let expire = to_varint_bytes(self.expire_period);
        extend_bytes(&mut out, expire.as_slice());
        extend_bytes(&mut out, self.sender_public_key.bytes.as_slice());
        let op = self.op.to_bytes_compact();
        extend_bytes(&mut out, op.as_slice());
        out
    }

    /// The digest of the compact form.
    pub fn compute_hash(&self) -> (h: crate::hash::Hash)
        ensures
            h@ == self.spec_hash(),
    {
        let bytes = self.to_bytes_compact();
        crate::hash::Hash::compute_from(bytes.as_slice())
    }

    /// Reads an operation content at `pos`: the value and the position behind it.
    pub fn from_bytes_compact_at(buffer: &[u8], pos: usize) -> (r: Result<
        (OperationContent, usize),
        ModelsError,
    >)
        ensures
            match parse_operation_content(buffer@, pos as int) {
                Some((content, end)) => r.is_ok() && r.unwrap().0 == content && r.unwrap().1
                    == end,
                None => r.is_err() && r.unwrap_err().is_deserialize(),
            },
    {
        let (fee, at) = match from_varint_bytes(buffer, pos) {
            Ok(read) => read,
            Err(e) => { return Err(e); },
        };
        let (expire_period, at2) = match from_varint_bytes(buffer, at) {
            Ok(read) => read,
            Err(e) => { return Err(e); },
        };
        let key = match bytes32_from_slice(buffer, at2) {
            Ok(read) => read,
            Err(e) => { return Err(e); },
        };
        let (op, end) = match OperationType::from_bytes_compact_at(buffer, at2 + 32) {
            Ok(read) => read,
            Err(e) => { return Err(e); },
        };
        Ok(
            (
                OperationContent {
                    sender_public_key: PublicKey { bytes: key },
                    fee: Amount(fee),
                    expire_period,
                    op,
                },
                end,
            ),
        )
    }
}

impl Operation {
    /// The compact form: the content, then the signature.
    pub open spec fn spec_bytes(self) -> Seq<u8> {
        self.content.spec_bytes() + self.signature@
    }

    /// The bytes of the operation's identifier: the digest of its compact form.
    pub open spec fn spec_id(self) -> Seq<u8> {
        sha256(self.spec_bytes())
    }

    /// Whether the signature signs the content's digest under the sender's key.
    pub open spec fn spec_signed(self) -> bool {
        schnorr_valid(self.content.spec_hash(), self.signature@, self.content.sender_public_key@)
    }

    /// The operation's identifier.
    pub open spec fn spec_operation_id(self) -> OperationId {
        OperationId(crate::hash::Hash { bytes: array32_from_seq(self.spec_id()) })
    }

    /// Writes the compact form.
    pub fn to_bytes_compact(&self) -> (out: Vec<u8>)
        ensures
            out@ == self.spec_bytes(),
    {
        let mut out = self.content.to_bytes_compact();
        extend_bytes(&mut out, self.signature.bytes.as_slice());
        out
    }

    /// Reads an operation at `pos`: the value and the position behind it.
    pub fn from_bytes_compact_at(buffer: &[u8], pos: usize) -> (r: Result<
        (Operation, usize),
        ModelsError,
    >)
        ensures
            match parse_operation(buffer@, pos as int) {
                Some((op, end)) => r.is_ok() && r.unwrap().0 == op && r.unwrap().1 == end,
                None => r.is_err() && r.unwrap_err().is_deserialize(),
            },
    {
        let (content, at) = match OperationContent::from_bytes_compact_at(buffer, pos) {
            Ok(read) => read,
            Err(e) => { return Err(e); },
        };
        let sig = match bytes64_from_slice(buffer, at) {
            Ok(read) => read,
            Err(e) => { return Err(e); },
        };
        Ok((Operation { content, signature: Signature { bytes: sig } }, at + 64))
    }

    /// Reads an operation at the start of `buffer`: the value and the number of bytes
    /// read.
    pub fn from_bytes_compact(buffer: &[u8]) -> (r: Result<(Operation, usize), ModelsError>)
        ensures
            match parse_operation(buffer@, 0) {
                Some((op, end)) => r.is_ok() && r.unwrap().0 == op && r.unwrap().1 == end,
                None => r.is_err() && r.unwrap_err().is_deserialize(),
            },
    {
        Self::from_bytes_compact_at(buffer, 0)
    }

    /// The operation's identifier, computed without checking the signature.
    pub fn get_operation_id(&self) -> (id: OperationId)
        ensures
            id.0@ == self.spec_id(),
            id == self.spec_operation_id(),
    {
        let bytes = self.to_bytes_compact();
        let digest = crate::hash::Hash::compute_from(bytes.as_slice());
        proof {
            lemma_array32_from_seq(digest.bytes);
        }
        OperationId(digest)
    }

    /// Checks the signature against the sender's key and returns the identifier.
    /// Fails with `InvalidSignature` exactly when the signature does not verify.
    pub fn verify_integrity(&self) -> (r: Result<OperationId, ModelsError>)
        ensures
            self.spec_signed() ==> r.is_ok() && r.unwrap().0@ == self.spec_id() && r.unwrap()
                == self.spec_operation_id(),
            !self.spec_signed() ==> r == Err::<OperationId, ModelsError>(
                ModelsError::InvalidSignature,
            ),
    {
        let content_hash = self.content.compute_hash();
        match verify_signature(&content_hash, &self.signature, &self.content.sender_public_key) {
            Ok(()) => Ok(self.get_operation_id()),
            Err(_) => Err(ModelsError::InvalidSignature),
        }
    }
}

/// Reading the compact form of an operation type gives it back.
pub proof fn lemma_operation_type_round_trip(s: Seq<u8>, pos: int, op: OperationType)
    requires
        holds_at(s, pos, op.spec_bytes()),
    ensures
        parse_operation_type(s, pos) == Some((op, pos + op.spec_bytes().len())),
{
    reveal_with_fuel(varint_bytes, 2);
    match op {
        OperationType::Transaction { recipient_address, amount } => {
            let a = varint_bytes(0);
            let b = recipient_address@;
            let c = varint_bytes(amount.0 as nat);
            lemma_holds_at_part(s, pos, a + b, c);
            lemma_holds_at_part(s, pos, a, b);
            lemma_varint_round_trip(s, pos, 0);
            lemma_bytes32_round_trip(s, pos + 1, recipient_address.0.bytes);
            lemma_varint_round_trip(s, pos + 33, amount.0 as nat);
        },
        OperationType::RollBuy { roll_count } => {
            lemma_holds_at_part(s, pos, varint_bytes(1), varint_bytes(roll_count as nat));
            lemma_varint_round_trip(s, pos, 1);
            lemma_varint_round_trip(s, pos + 1, roll_count as nat);
        },
        OperationType::RollSell { roll_count } => {
            lemma_holds_at_part(s, pos, varint_bytes(2), varint_bytes(roll_count as nat));
            lemma_varint_round_trip(s, pos, 2);
            lemma_varint_round_trip(s, pos + 1, roll_count as nat);
        },
    }
}

/// Reading the compact form of an operation content gives it back.
pub proof fn lemma_operation_content_round_trip(s: Seq<u8>, pos: int, content: OperationContent)
    requires
        holds_at(s, pos, content.spec_bytes()),
    ensures
        parse_operation_content(s, pos) == Some((content, pos + content.spec_bytes().len())),
{
    let a = varint_bytes(content.fee.0 as nat);
    let b = varint_bytes(content.expire_period as nat);
    let c = content.sender_public_key@;
    let d = content.op.spec_bytes();
    lemma_holds_at_part(s, pos, a + b + c, d);
    lemma_holds_at_part(s, pos, a + b, c);
    lemma_holds_at_part(s, pos, a, b);
    lemma_varint_round_trip(s, pos, content.fee.0 as nat);
    lemma_varint_round_trip(s, pos + a.len(), content.expire_period as nat);
    lemma_bytes32_round_trip(s, pos + a.len() + b.len(), content.sender_public_key.bytes);
    lemma_operation_type_round_trip(s, pos + a.len() + b.len() + 32, content.op);
}

/// Reading the compact form of an operation gives it back.
pub proof fn lemma_operation_round_trip(s: Seq<u8>, pos: int, op: Operation)
    requires
        holds_at(s, pos, op.spec_bytes()),
    ensures
        parse_operation(s, pos) == Some((op, pos + op.spec_bytes().len())),
{
    lemma_holds_at_part(s, pos, op.content.spec_bytes(), op.signature@);
    lemma_operation_content_round_trip(s, pos, op.content);
    lemma_bytes64_round_trip(s, pos + op.content.spec_bytes().len(), op.signature.bytes);
}

} // verus!
