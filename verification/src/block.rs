//! Blocks, their headers and their identifiers.

use vstd::prelude::*;
use vstd::string::StringSliceAdditionalSpecFns;
use crate::codec::{
    be_bytes, be_min_width, concat_bytes, extend_bytes, from_be_bytes_min,
    from_varint_bytes_bounded_u32, lemma_concat_step, lemma_parse_many_fails, parse_be_min,
    parse_many, parse_varint_bounded, to_be_bytes_min, to_varint_bytes, u8_from_slice,
    varint_bytes,
};
use crate::config::SerializationContext;
use crate::crypto::{base58_check_text, schnorr_signature, schnorr_valid, sha256};
use crate::endorsement::{parse_endorsement, Endorsement};
use crate::error::{deserialize_error, serialize_error, ModelsError};
use crate::hash::{
    array32_from_seq, bytes32_from_slice, bytes64_from_slice, lemma_array32_from_seq,
    parse_bytes32, parse_bytes64, parse_prefixed_text, TextualId,
};
use crate::keys::{sign, verify_signature, PrivateKey, PublicKey, Signature};
use crate::operation::{parse_operation, Operation};
use crate::slot::{parse_slot, Slot};

verus! {

/// Size of a block identifier, in bytes.
pub const BLOCK_ID_SIZE_BYTES: usize = 32;

/// The prefix that the text of a block identifier may carry, before a dash.
pub const BLOCK_ID_STRING_PREFIX: &'static str = "BLO";

/// The digest that names a block: the digest of its header's compact form.
#[derive(Clone, Copy, Debug, PartialEq, Eq, PartialOrd, Ord, Hash)]
pub struct BlockId(pub crate::hash::Hash);

impl View for BlockId {
    type V = Seq<u8>;

    open spec fn view(&self) -> Seq<u8> {
        self.0@
    }
}

impl BlockId {
    /// The identifier's bytes.
    pub fn to_bytes(&self) -> (bytes: [u8; 32])
        ensures
            bytes == self.0.bytes,
    {
        self.0.bytes
    }

    /// The identifier's bytes, consuming it.
    pub fn into_bytes(self) -> (bytes: [u8; 32])
        ensures
            bytes == self.0.bytes,
    {
        self.0.bytes
    }

    /// The identifier with the given bytes. Every 32-byte array is one.
    pub fn from_bytes(data: &[u8; 32]) -> (r: Result<BlockId, ModelsError>)
        ensures
            r.is_ok(),
            r.unwrap().0.bytes == *data,
    {
        Ok(BlockId(crate::hash::Hash::from_bytes(data)))
    }

    /// Reads an identifier from its Base58Check text. Fails with `HashError` exactly
    /// when the text is no Base58Check text of 32 bytes.
    pub fn from_bs58_check(data: &str) -> (r: Result<BlockId, ModelsError>)
        ensures
            match crate::hash::Hash::spec_from_bs58_check(data.spec_bytes()) {
                Some(payload) => r.is_ok() && r.unwrap()@ == payload,
                None => r == Err::<BlockId, ModelsError>(ModelsError::HashError),
            },
    {
        match crate::hash::Hash::from_bs58_check(data) {
            Ok(h) => Ok(BlockId(h)),
            Err(_) => Err(ModelsError::HashError),
        }
    }

    /// Reads an identifier from its text, with or without the prefix `BLO-`. Fails
    /// with `WrongPrefix` exactly when the text has one dash and another prefix before
    /// it, else with `HashError` exactly when what stands for the digest is no
    /// Base58Check text of 32 bytes.
    pub fn from_str(s: &str) -> (r: Result<BlockId, ModelsError>)
        ensures
            match parse_prefixed_text(s.spec_bytes(), BLOCK_ID_STRING_PREFIX.spec_bytes()) {
                TextualId::Digest(digest) => r.is_ok() && r.unwrap()@ == digest,
                TextualId::WrongPrefix(prefix) => r matches Err(
                    ModelsError::WrongPrefix(expected, found),
                ) && expected@ == BLOCK_ID_STRING_PREFIX@ && vstd::utf8::encode_utf8(found@)
                    == prefix,
                TextualId::Malformed => r == Err::<BlockId, ModelsError>(ModelsError::HashError),
            },
    {
        match crate::hash::Hash::from_prefixed_text(s, BLOCK_ID_STRING_PREFIX) {
            Ok(h) => Ok(BlockId(h)),
            Err(e) => Err(e),
        }
    }

    /// The Base58Check text of the identifier.
    pub fn to_bs58_check(&self) -> (text: String)
        ensures
            text@ == base58_check_text(self@),
    {
        self.0.to_bs58_check()
    }

    /// The top bit of the digest of the identifier's bytes.
    pub fn get_first_bit(&self) -> (bit: bool)
        ensures
            bit == (sha256(self@)[0] >= 128),
    {
        let digest = crate::hash::Hash::compute_from(self.0.bytes.as_slice());
        digest.bytes[0] >= 128
    }

    /// Whether two identifiers are the same.
    pub fn equals(&self, other: &BlockId) -> (same: bool)
        ensures
            same == (*self == *other),
    {
        self.0.equals(&other.0)
    }
}

/// The signed part of a block header.
#[derive(Debug, Clone)]
pub struct BlockHeaderContent {
    pub creator: PublicKey,
    pub slot: Slot,
    pub parents: Vec<BlockId>,
    pub operation_merkle_root: crate::hash::Hash,
    pub endorsements: Vec<Endorsement>,
}

/// A block header: its content and the creator's signature.
#[derive(Debug, Clone)]
pub struct BlockHeader {
    pub content: BlockHeaderContent,
    pub signature: Signature,
}

/// A block: its header and its operations.
#[derive(Debug, Clone)]
pub struct Block {
    pub header: BlockHeader,
    pub operations: Vec<Operation>,
}

/// The value of a header content.
pub struct BlockHeaderContentView {
    pub creator: PublicKey,
    pub slot: Slot,
    pub parents: Seq<BlockId>,
    pub operation_merkle_root: crate::hash::Hash,
    pub endorsements: Seq<Endorsement>,
}

/// The value of a header.
pub struct BlockHeaderView {
    pub content: BlockHeaderContentView,
    pub signature: Signature,
}

/// The value of a block.
pub struct BlockView {
    pub header: BlockHeaderView,
    pub operations: Seq<Operation>,
}

impl View for BlockHeaderContent {
    type V = BlockHeaderContentView;

    open spec fn view(&self) -> BlockHeaderContentView {
        BlockHeaderContentView {
            creator: self.creator,
            slot: self.slot,
            parents: self.parents@,
            operation_merkle_root: self.operation_merkle_root,
            endorsements: self.endorsements@,
        }
    }
}

impl View for BlockHeader {
    type V = BlockHeaderView;

    open spec fn view(&self) -> BlockHeaderView {
        BlockHeaderView { content: self.content@, signature: self.signature }
    }
}

impl View for Block {
    type V = BlockView;

    open spec fn view(&self) -> BlockView {
        BlockView { header: self.header@, operations: self.operations@ }
    }
}

/// What reading a block identifier at `pos` yields.
pub open spec fn parse_block_id(s: Seq<u8>, pos: int) -> Option<(BlockId, int)> {
    match parse_bytes32(s, pos) {
        Some((bytes, end)) => Some((BlockId(crate::hash::Hash { bytes }), end)),
        None => None,
    }
}

/// The reader of one block identifier.
pub open spec fn block_id_reader() -> spec_fn(Seq<u8>, int) -> Option<(BlockId, int)> {
    |s: Seq<u8>, pos: int| parse_block_id(s, pos)
}

/// The form of one block identifier: its bytes.
pub open spec fn block_id_form() -> spec_fn(BlockId) -> Seq<u8> {
    |id: BlockId| id@
}

/// The reader of one endorsement among `thread_count` threads.
pub open spec fn endorsement_reader(thread_count: u8) -> spec_fn(Seq<u8>, int) -> Option<
    (Endorsement, int),
> {
    |s: Seq<u8>, pos: int| parse_endorsement(s, pos, thread_count)
}

/// The form of one endorsement: its compact form.
pub open spec fn endorsement_form() -> spec_fn(Endorsement) -> Seq<u8> {
    |e: Endorsement| e.spec_bytes()
}

/// What reading one operation of a block at `pos` yields: the operation, unless the
/// position behind it lies beyond `limit`.
pub open spec fn parse_capped_operation(s: Seq<u8>, pos: int, limit: int) -> Option<
    (Operation, int),
> {
    match parse_operation(s, pos) {
        Some((op, end)) => if end <= limit {
            Some((op, end))
        } else {
            None
        },
        None => None,
    }
}

/// The reader of one operation of a block of at most `limit` bytes.
pub open spec fn operation_reader(limit: int) -> spec_fn(Seq<u8>, int) -> Option<
    (Operation, int),
> {
    |s: Seq<u8>, pos: int| parse_capped_operation(s, pos, limit)
}

/// The form of one operation: its compact form.
pub open spec fn operation_form() -> spec_fn(Operation) -> Seq<u8> {
    |op: Operation| op.spec_bytes()
}

/// What reading a header content at `pos` yields: creator, slot, a flag that says
/// whether parents follow (one per thread), the operations' Merkle root, then the
/// endorsements behind their count, which is capped.
pub open spec fn parse_block_header_content(
    s: Seq<u8>,
    pos: int,
    context: SerializationContext,
) -> Option<(BlockHeaderContentView, int)> {
    match parse_bytes32(s, pos) {
        Some((creator, at)) => match parse_slot(s, at, context.thread_count) {
            Some((slot, at2)) => if at2 >= s.len() || s[at2] > 1 {
                None
            } else {
                let parent_count: nat = if s[at2] == 1 {
                    context.thread_count as nat
                } else {
                    0
                };
                match parse_many(s, at2 + 1, parent_count, block_id_reader()) {
                    Some((parents, at3)) => match parse_bytes32(s, at3) {
                        Some((root, at4)) => match parse_varint_bounded(
                            s,
                            at4,
                            context.endorsement_count as nat,
                        ) {
                            Some((count, at5)) => match parse_many(
                                s,
                                at5,
                                count,
                                endorsement_reader(context.thread_count),
                            ) {
                                Some((endorsements, end)) => Some(
                                    (
                                        BlockHeaderContentView {
                                            creator: PublicKey { bytes: creator },
                                            slot,
                                            parents,
                                            operation_merkle_root: crate::hash::Hash {
                                                bytes: root,
                                            },
                                            endorsements,
                                        },
                                        end,
                                    ),
                                ),
                                None => None,
                            },
                            None => None,
                        },
                        None => None,
                    },
                    None => None,
                }
            },
            None => None,
        },
        None => None,
    }
}

/// What reading a header at `pos` yields: the content, then the signature.
pub open spec fn parse_block_header(s: Seq<u8>, pos: int, context: SerializationContext) -> Option<
    (BlockHeaderView, int),
> {
    match parse_block_header_content(s, pos, context) {
        Some((content, at)) => match parse_bytes64(s, at) {
            Some((sig, end)) => Some(
                (BlockHeaderView { content, signature: Signature { bytes: sig } }, end),
            ),
            None => None,
        },
        None => None,
    }
}

/// What reading a block at the start of `s` yields: the header, the capped count of
/// operations in bounded big-endian form, then the operations. Nothing as soon as a
/// position behind the header, the count or an operation lies beyond the largest
/// block size.
pub open spec fn parse_block(s: Seq<u8>, context: SerializationContext) -> Option<(BlockView, int)> {
    match parse_block_header(s, 0, context) {
        Some((header, at)) => if at > context.max_block_size {
            None
        } else {
            match parse_be_min(s, at, context.max_operations_per_block as nat) {
                Some((count, at2)) => if at2 > context.max_block_size {
                    None
                } else {
                    match parse_many(
                        s,
                        at2,
                        count,
                        operation_reader(context.max_block_size as int),
                    ) {
                        Some((operations, end)) => Some((BlockView { header, operations }, end)),
                        None => None,
                    }
                },
                None => None,
            }
        },
        None => None,
    }
}

impl BlockHeaderContentView {
    /// The flag byte that says whether parents follow.
    pub open spec fn parents_flag(self) -> u8 {
        if self.parents.len() == 0 {
            0
        } else {
            1
        }
    }

    /// The compact form.
    pub open spec fn spec_bytes(self) -> Seq<u8> {
        self.creator@ + self.slot.spec_bytes() + seq![self.parents_flag()] + concat_bytes(
            self.parents,
            block_id_form(),
        ) + self.operation_merkle_root@ + varint_bytes(self.endorsements.len()) + concat_bytes(
            self.endorsements,
            endorsement_form(),
        )
    }

    /// The digest of the compact form.
    pub open spec fn spec_hash(self) -> Seq<u8> {
        sha256(self.spec_bytes())
    }

    /// What a decoder requires of a header content: existing threads, no parents or one
    /// per thread, and no more endorsements than a block may hold.
    pub open spec fn well_formed(self, context: SerializationContext) -> bool {
        &&& self.slot.thread < context.thread_count
        &&& (self.parents.len() == 0 || self.parents.len() == context.thread_count)
        &&& self.endorsements.len() <= context.endorsement_count
        &&& forall|i: int|
            0 <= i < self.endorsements.len() ==> (#[trigger] self.endorsements[i]).content.slot.thread
                < context.thread_count
    }
}

/// The message that a header's creator signs: the digest of the slot's key form
/// followed by the content's digest.
pub open spec fn spec_signature_message(slot: Slot, content_hash: Seq<u8>) -> Seq<u8> {
    sha256(slot.spec_key() + content_hash)
}

impl BlockHeaderView {
    /// The compact form: the content, then the signature.
    pub open spec fn spec_bytes(self) -> Seq<u8> {
        self.content.spec_bytes() + self.signature@
    }

    /// The bytes of the block identifier: the digest of the header's compact form.
    pub open spec fn spec_id(self) -> Seq<u8> {
        sha256(self.spec_bytes())
    }

    /// The block identifier.
    pub open spec fn spec_block_id(self) -> BlockId {
        BlockId(crate::hash::Hash { bytes: array32_from_seq(self.spec_id()) })
    }

    /// Whether the signature signs the slot and the content's digest under the
    /// creator's key.
    pub open spec fn spec_signed(self) -> bool {
        schnorr_valid(
            spec_signature_message(self.content.slot, self.content.spec_hash()),
            self.signature@,
            self.content.creator@,
        )
    }
}

impl BlockView {
    /// The compact form: the header, the count of operations in the width that holds
    /// `max_operations`, then the operations.
    pub open spec fn spec_bytes(self, max_operations: u32) -> Seq<u8> {
        self.header.spec_bytes() + be_bytes(
            self.operations.len(),
            be_min_width(max_operations as nat),
        ) + concat_bytes(self.operations, operation_form())
    }

    /// What a decoder requires of a block: a well-formed header, no more operations
    /// than a block may hold, and a compact form within the largest block size.
    pub open spec fn well_formed(self, context: SerializationContext) -> bool {
        &&& self.header.content.well_formed(context)
        &&& self.operations.len() <= context.max_operations_per_block
        &&& self.spec_bytes(context.max_operations_per_block).len() <= context.max_block_size
    }
}

impl BlockHeaderContent {
    /// Writes the compact form. Fails with `SerializeError` exactly when the number of
    /// endorsements does not fit 32 bits.
    pub fn to_bytes_compact(&self) -> (r: Result<Vec<u8>, ModelsError>)
        ensures
            self.endorsements@.len() <= u32::MAX ==> r.is_ok() && r.unwrap()@
                == self@.spec_bytes(),
            self.endorsements@.len() > u32::MAX ==> r.is_err() && r.unwrap_err().is_serialize(),
    {
        let mut out: Vec<u8> = Vec::new();
        extend_bytes(&mut out, self.creator.bytes.as_slice());
        let slot = self.slot.to_bytes_compact();
        extend_bytes(&mut out, slot.as_slice());
        if self.parents.len() == 0 {
            out.push(0);
        } else {
            out.push(1);
        }
        let ghost head = out@;
        assert(head =~= self.creator@ + self.slot.spec_bytes() + seq![self@.parents_flag()]);
        let mut k: usize = 0;
        proof {
            lemma_concat_step(self.parents@, block_id_form(), 0);
        }
        while k < self.parents.len()
            invariant
                k <= self.parents@.len(),
                out@ == head + concat_bytes(self.parents@.take(k as int), block_id_form()),
            decreases self.parents@.len() - k,
        {
            proof {
                lemma_concat_step(self.parents@, block_id_form(), k as int);
            }
            extend_bytes(&mut out, self.parents[k].0.bytes.as_slice());
            assert(out@ =~= head + concat_bytes(self.parents@.take(k + 1), block_id_form()));
            k = k + 1;
        }
        assert(self.parents@.take(k as int) =~= self.parents@);
        extend_bytes(&mut out, self.operation_merkle_root.bytes.as_slice());
        if self.endorsements.len() > u32::MAX as usize {
            return Err(serialize_error("too many endorsements"));
        }
        let count = to_varint_bytes(self.endorsements.len() as u64);
        extend_bytes(&mut out, count.as_slice());
        let ghost head2 = out@;
        let mut j: usize = 0;
        proof {
            lemma_concat_step(self.endorsements@, endorsement_form(), 0);
        }
        while j < self.endorsements.len()
            invariant
                j <= self.endorsements@.len(),
                out@ == head2 + concat_bytes(self.endorsements@.take(j as int), endorsement_form()),
            decreases self.endorsements@.len() - j,
        {
            proof {
                lemma_concat_step(self.endorsements@, endorsement_form(), j as int);
            }
            let item = self.endorsements[j].to_bytes_compact();
            extend_bytes(&mut out, item.as_slice());
            assert(out@ =~= head2 + concat_bytes(
                self.endorsements@.take(j + 1),
                endorsement_form(),
            ));
            j = j + 1;
        }
        assert(self.endorsements@.take(j as int) =~= self.endorsements@);
        Ok(out)
    }

    /// The digest of the compact form. Fails as `to_bytes_compact` does.
    pub fn compute_hash(&self) -> (r: Result<crate::hash::Hash, ModelsError>)
        ensures
            self.endorsements@.len() <= u32::MAX ==> r.is_ok() && r.unwrap()@
                == self@.spec_hash(),
            self.endorsements@.len() > u32::MAX ==> r.is_err() && r.unwrap_err().is_serialize(),
    {
        match self.to_bytes_compact() {
            Ok(bytes) => Ok(crate::hash::Hash::compute_from(bytes.as_slice())),
            Err(e) => Err(e),
        }
    }

    /// Reads a header content at `pos`: the value and the position behind it.
    pub fn from_bytes_compact_at(buffer: &[u8], pos: usize, context: &SerializationContext) -> (r:
        Result<(BlockHeaderContent, usize), ModelsError>)
        ensures
            match parse_block_header_content(buffer@, pos as int, *context) {
                Some((content, end)) => r.is_ok() && r.unwrap().0@ == content && r.unwrap().1
                    == end,
                None => r.is_err() && r.unwrap_err().is_deserialize(),
            },
    {
        let creator = match bytes32_from_slice(buffer, pos) {
            Ok(read) => read,
            Err(e) => { return Err(e); },
        };
        let (slot, at2) = match Slot::from_bytes_compact_at(buffer, pos + 32, context) {
            Ok(read) => read,
            Err(e) => { return Err(e); },
        };
        let flag = match u8_from_slice(buffer, at2) {
            Ok(read) => read,
            Err(e) => { return Err(e); },
        };
        if flag > 1 {
            return Err(deserialize_error("bad parents flag"));
        }
        let parent_count: u8 = if flag == 1 {
            context.thread_count
        } else {
            0
        };
        let mut cursor: usize = at2 + 1;
        let mut parents: Vec<BlockId> = Vec::new();
        let mut k: u8 = 0;
        while k < parent_count
            invariant
                k <= parent_count,
                parse_many(buffer@, at2 + 1, k as nat, block_id_reader()) == Some(
                    (parents@, cursor as int),
                ),
                parse_many(buffer@, at2 + 1, parent_count as nat, block_id_reader()).is_none()
                    ==> parse_block_header_content(buffer@, pos as int, *context).is_none(),
            decreases parent_count - k,
        {
            let id = match bytes32_from_slice(buffer, cursor) {
                Ok(read) => read,
                Err(e) => {
                    proof {
                        lemma_parse_many_fails(
                            buffer@,
                            at2 + 1,
                            (k + 1) as nat,
                            parent_count as nat,
                            block_id_reader(),
                        );
                    }
                    return Err(e);
                },
            };
            parents.push(BlockId(crate::hash::Hash { bytes: id }));
            cursor = cursor + 32;
            k = k + 1;
        }
        let root = match bytes32_from_slice(buffer, cursor) {
            Ok(read) => read,
            Err(e) => { return Err(e); },
        };
        let (count, at5) = match from_varint_bytes_bounded_u32(
            buffer,
            cursor + 32,
            context.endorsement_count,
        ) {
            Ok(read) => read,
            Err(e) => { return Err(e); },
        };
        let mut cursor2: usize = at5;
        let mut endorsements: Vec<Endorsement> = Vec::new();
        let mut j: u32 = 0;
        while j < count
            invariant
                j <= count,
                parse_many(
                    buffer@,
                    at5 as int,
                    j as nat,
                    endorsement_reader(context.thread_count),
                ) == Some((endorsements@, cursor2 as int)),
                parse_many(
                    buffer@,
                    at5 as int,
                    count as nat,
                    endorsement_reader(context.thread_count),
                ).is_none() ==> parse_block_header_content(buffer@, pos as int, *context).is_none(),
            decreases count - j,
        {
            let (item, next) = match Endorsement::from_bytes_compact_at(buffer, cursor2, context) {
                Ok(read) => read,
                Err(e) => {
                    proof {
                        lemma_parse_many_fails(
                            buffer@,
                            at5 as int,
                            (j + 1) as nat,
                            count as nat,
                            endorsement_reader(context.thread_count),
                        );
                    }
                    return Err(e);
                },
            };
            endorsements.push(item);
            cursor2 = next;
            j = j + 1;
        }
        Ok(
            (
                BlockHeaderContent {
                    creator: PublicKey { bytes: creator },
                    slot,
                    parents,
                    operation_merkle_root: crate::hash::Hash { bytes: root },
                    endorsements,
                },
                cursor2,
            ),
        )
    }

    /// Reads a header content at the start of `buffer`: the value and the number of
    /// bytes read.
    pub fn from_bytes_compact(buffer: &[u8], context: &SerializationContext) -> (r: Result<
        (BlockHeaderContent, usize),
        ModelsError,
    >)
        ensures
            match parse_block_header_content(buffer@, 0, *context) {
                Some((content, end)) => r.is_ok() && r.unwrap().0@ == content && r.unwrap().1
                    == end,
                None => r.is_err() && r.unwrap_err().is_deserialize(),
            },
    {
        Self::from_bytes_compact_at(buffer, 0, context)
    }
}

impl BlockHeader {
    /// Writes the compact form. Fails with `SerializeError` exactly when the number of
    /// endorsements does not fit 32 bits.
    pub fn to_bytes_compact(&self) -> (r: Result<Vec<u8>, ModelsError>)
        ensures
            self.content.endorsements@.len() <= u32::MAX ==> r.is_ok() && r.unwrap()@
                == self@.spec_bytes(),
            self.content.endorsements@.len() > u32::MAX ==> r.is_err()
                && r.unwrap_err().is_serialize(),
    {
        match self.content.to_bytes_compact() {
            Ok(bytes) => {
                let mut out = bytes;
                extend_bytes(&mut out, self.signature.bytes.as_slice());
                Ok(out)
            },
            Err(e) => Err(e),
        }
    }

    /// Reads a header at `pos`: the value and the position behind it.
    pub fn from_bytes_compact_at(buffer: &[u8], pos: usize, context: &SerializationContext) -> (r:
        Result<(BlockHeader, usize), ModelsError>)
        ensures
            match parse_block_header(buffer@, pos as int, *context) {
                Some((header, end)) => r.is_ok() && r.unwrap().0@ == header && r.unwrap().1
                    == end,
                None => r.is_err() && r.unwrap_err().is_deserialize(),
            },
    {
        let (content, at) = match BlockHeaderContent::from_bytes_compact_at(buffer, pos, context) {
            Ok(read) => read,
            Err(e) => { return Err(e); },
        };
        let sig = match bytes64_from_slice(buffer, at) {
            Ok(read) => read,
            Err(e) => { return Err(e); },
        };
        Ok((BlockHeader { content, signature: Signature { bytes: sig } }, at + 64))
    }

    /// Reads a header at the start of `buffer`: the value and the number of bytes read.
    pub fn from_bytes_compact(buffer: &[u8], context: &SerializationContext) -> (r: Result<
        (BlockHeader, usize),
        ModelsError,
    >)
        ensures
            match parse_block_header(buffer@, 0, *context) {
                Some((header, end)) => r.is_ok() && r.unwrap().0@ == header && r.unwrap().1
                    == end,
                None => r.is_err() && r.unwrap_err().is_deserialize(),
            },
    {
        Self::from_bytes_compact_at(buffer, 0, context)
    }

    /// The message that binds a content digest to a slot: the digest of the slot's key
    /// form followed by the content digest.
    fn get_signature_message(slot: &Slot, hash: &crate::hash::Hash) -> (message: crate::hash::Hash)
        ensures
            message@ == spec_signature_message(*slot, hash@),
    {
        let key = slot.to_bytes_key();
        let mut bytes: Vec<u8> = Vec::new();
        extend_bytes(&mut bytes, key.as_slice());
        extend_bytes(&mut bytes, hash.bytes.as_slice());
        assert(bytes@ =~= slot.spec_key() + hash@);
        crate::hash::Hash::compute_from(bytes.as_slice())
    }

    /// Checks that `signature` signs the pair of `slot` and `hash` under `public_key`.
    /// Fails with `InvalidSignature` exactly when it does not.
    pub fn verify_slot_hash_signature(
        slot: &Slot,
        hash: &crate::hash::Hash,
        signature: &Signature,
        public_key: &PublicKey,
    ) -> (r: Result<(), ModelsError>)
        ensures
            r.is_ok() == schnorr_valid(
                spec_signature_message(*slot, hash@),
                signature@,
                public_key@,
            ),
            r.is_err() ==> r == Err::<(), ModelsError>(ModelsError::InvalidSignature),
    {
        let message = Self::get_signature_message(slot, hash);
        verify_signature(&message, signature, public_key)
    }

    /// Checks that the header's signature signs its slot and `hash` under its creator's
    /// key. Fails with `InvalidSignature` exactly when it does not.
    pub fn verify_signature(&self, hash: &crate::hash::Hash) -> (r: Result<(), ModelsError>)
        ensures
            r.is_ok() == schnorr_valid(
                spec_signature_message(self.content.slot, hash@),
                self.signature@,
                self.content.creator@,
            ),
            r.is_err() ==> r == Err::<(), ModelsError>(ModelsError::InvalidSignature),
    {
        Self::verify_slot_hash_signature(
            &self.content.slot,
            hash,
            &self.signature,
            &self.content.creator,
        )
    }

    /// Checks the header's signature against its own content. Fails with
    /// `SerializeError` when the content cannot be written, else with
    /// `InvalidSignature` exactly when the signature does not verify.
    pub fn check_signature(&self) -> (r: Result<(), ModelsError>)
        ensures
            self.content.endorsements@.len() > u32::MAX ==> r.is_err()
                && r.unwrap_err().is_serialize(),
            self.content.endorsements@.len() <= u32::MAX ==> r.is_ok() == self@.spec_signed(),
            self.content.endorsements@.len() <= u32::MAX && r.is_err() ==> r == Err::<
                (),
                ModelsError,
            >(ModelsError::InvalidSignature),
    {
        let hash = match self.content.compute_hash() {
            Ok(h) => h,
            Err(e) => { return Err(e); },
        };
        self.verify_signature(&hash)
    }

    /// The block identifier: the digest of the header's compact form, computed without
    /// checking the signature. Fails as `to_bytes_compact` does.
    pub fn compute_block_id(&self) -> (r: Result<BlockId, ModelsError>)
        ensures
            self.content.endorsements@.len() <= u32::MAX ==> r.is_ok() && r.unwrap()@
                == self@.spec_id() && r.unwrap() == self@.spec_block_id(),
            self.content.endorsements@.len() > u32::MAX ==> r.is_err()
                && r.unwrap_err().is_serialize(),
    {
        match self.to_bytes_compact() {
            Ok(bytes) => {
                let digest = crate::hash::Hash::compute_from(bytes.as_slice());
                proof {
                    lemma_array32_from_seq(digest.bytes);
                }
                Ok(BlockId(digest))
            },
            Err(e) => Err(e),
        }
    }

    /// Signs `content` with `private_key` and returns the header with its identifier.
    /// Fails with `SerializeError` when the content cannot be written, else with
    /// `InvalidSignature` exactly when the collaborator refuses the key.
    pub fn new_signed(private_key: &PrivateKey, content: BlockHeaderContent) -> (r: Result<
        (BlockId, BlockHeader),
        ModelsError,
    >)
        ensures
            content.endorsements@.len() > u32::MAX ==> r.is_err() && r.unwrap_err().is_serialize(),
            content.endorsements@.len() <= u32::MAX ==> match schnorr_signature(
                spec_signature_message(content.slot, content@.spec_hash()),
                private_key@,
            ) {
                Some(sig) => r.is_ok() && r.unwrap().1.content == content
                    && r.unwrap().1.signature@ == sig && r.unwrap().0@
                    == r.unwrap().1@.spec_id(),
                None => r == Err::<(BlockId, BlockHeader), ModelsError>(
                    ModelsError::InvalidSignature,
                ),
            },
    {
        let hash = match content.compute_hash() {
            Ok(h) => h,
            Err(e) => { return Err(e); },
        };
        let message = Self::get_signature_message(&content.slot, &hash);
        let signature = match sign(&message, private_key) {
            Ok(s) => s,
            Err(_) => { return Err(ModelsError::InvalidSignature); },
        };
        let header = BlockHeader { content, signature };
        match header.compute_block_id() {
            Ok(id) => Ok((id, header)),
            Err(e) => Err(e),
        }
    }
}

impl Block {
    /// Whether the block can be written: counts that fit their framings.
    pub open spec fn spec_encodable(self, context: SerializationContext) -> bool {
        &&& self.header.content.endorsements@.len() <= u32::MAX
        &&& self.operations@.len() <= context.max_operations_per_block
    }

    /// Writes the compact form. Fails with `SerializeError` exactly when the number of
    /// endorsements does not fit 32 bits or the block holds more operations than a
    /// block may.
    pub fn to_bytes_compact(&self, context: &SerializationContext) -> (r: Result<
        Vec<u8>,
        ModelsError,
    >)
        ensures
            self.spec_encodable(*context) ==> r.is_ok() && r.unwrap()@ == self@.spec_bytes(
                context.max_operations_per_block,
            ),
            !self.spec_encodable(*context) ==> r.is_err() && r.unwrap_err().is_serialize(),
    {
        let mut out = match self.header.to_bytes_compact() {
            Ok(bytes) => bytes,
            Err(e) => { return Err(e); },
        };
        if self.operations.len() > u32::MAX as usize {
            return Err(serialize_error("too many operations"));
        }
        let count = match to_be_bytes_min(
            self.operations.len() as u32,
            context.max_operations_per_block,
        ) {
            Ok(bytes) => bytes,
            Err(e) => { return Err(e); },
        };
        extend_bytes(&mut out, count.as_slice());
        let ghost head = out@;
        let mut k: usize = 0;
        proof {
            lemma_concat_step(self.operations@, operation_form(), 0);
        }
        while k < self.operations.len()
            invariant
                k <= self.operations@.len(),
                out@ == head + concat_bytes(self.operations@.take(k as int), operation_form()),
            decreases self.operations@.len() - k,
        {
            proof {
                lemma_concat_step(self.operations@, operation_form(), k as int);
            }
            let item = self.operations[k].to_bytes_compact();
            extend_bytes(&mut out, item.as_slice());
            assert(out@ =~= head + concat_bytes(self.operations@.take(k + 1), operation_form()));
            k = k + 1;
        }
        assert(self.operations@.take(k as int) =~= self.operations@);
        Ok(out)
    }

    /// Reads a block at the start of `buffer`: the block and the number of bytes read.
    /// The count of operations is checked against its cap before any operation is
    /// read, and every position reached is checked against the largest block size.
    pub fn from_bytes_compact(buffer: &[u8], context: &SerializationContext) -> (r: Result<
        (Block, usize),
        ModelsError,
    >)
        ensures
            match parse_block(buffer@, *context) {
                Some((block, end)) => r.is_ok() && r.unwrap().0@ == block && r.unwrap().1 == end,
                None => r.is_err() && r.unwrap_err().is_deserialize(),
            },
    {
        let limit: usize = context.max_block_size as usize;
        let (header, at) = match BlockHeader::from_bytes_compact_at(buffer, 0, context) {
            Ok(read) => read,
            Err(e) => { return Err(e); },
        };
        if at > limit {
            return Err(deserialize_error("block is too large"));
        }
        let (count, at2) = match from_be_bytes_min(
            buffer,
            at,
            context.max_operations_per_block,
        ) {
            Ok(read) => read,
            Err(e) => { return Err(e); },
        };
        if at2 > limit {
            return Err(deserialize_error("block is too large"));
        }
        let mut cursor: usize = at2;
        let mut operations: Vec<Operation> = Vec::new();
        let mut k: u32 = 0;
        while k < count
            invariant
                k <= count,
                limit == context.max_block_size,
                parse_many(buffer@, at2 as int, k as nat, operation_reader(limit as int)) == Some(
                    (operations@, cursor as int),
                ),
                parse_many(buffer@, at2 as int, count as nat, operation_reader(limit as int)).is_none()
                    ==> parse_block(buffer@, *context).is_none(),
            decreases count - k,
        {
            let (operation, next) = match Operation::from_bytes_compact_at(buffer, cursor) {
                Ok(read) => read,
                Err(e) => {
                    proof {
                        lemma_parse_many_fails(
                            buffer@,
                            at2 as int,
                            (k + 1) as nat,
                            count as nat,
                            operation_reader(limit as int),
                        );
                    }
                    return Err(e);
                },
            };
            if next > limit {
                proof {
                    lemma_parse_many_fails(
                        buffer@,
                        at2 as int,
                        (k + 1) as nat,
                        count as nat,
                        operation_reader(limit as int),
                    );
                }
                return Err(deserialize_error("block is too large"));
            }
            operations.push(operation);
            cursor = next;
            k = k + 1;
        }
        Ok((Block { header, operations }, cursor))
    }

    /// The size of the compact form, in bytes. Fails as `to_bytes_compact` does.
    pub fn bytes_count(&self, context: &SerializationContext) -> (r: Result<u64, ModelsError>)
        ensures
            self.spec_encodable(*context) ==> r.is_ok() && r.unwrap() == self@.spec_bytes(
                context.max_operations_per_block,
            ).len(),
            !self.spec_encodable(*context) ==> r.is_err() && r.unwrap_err().is_serialize(),
    {
        match self.to_bytes_compact(context) {
            Ok(bytes) => Ok(bytes.len() as u64),
            Err(e) => Err(e),
        }
    }
}

} // verus!
