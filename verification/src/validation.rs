//! What makes a received object valid: signatures that verify, counts within their
//! caps, a Merkle root that matches the operations. Validity is decided from the
//! object and the serialization context alone.

use vstd::prelude::*;
use crate::block::{Block, BlockHeader, BlockHeaderView, BlockId, BlockView};
use crate::codec::{concat_bytes, extend_bytes, lemma_concat_step};
use crate::config::SerializationContext;
use crate::crypto::sha256;
use crate::endorsement::{Endorsement, EndorsementId};
use crate::operation::{Operation, OperationId};

verus! {

/// Whether every operation of `operations` is signed by its sender.
pub open spec fn all_operations_signed(operations: Seq<Operation>) -> bool {
    forall|i: int| 0 <= i < operations.len() ==> (#[trigger] operations[i]).spec_signed()
}

/// Whether every endorsement of `endorsements` is signed by its sender.
pub open spec fn all_endorsements_signed(endorsements: Seq<Endorsement>) -> bool {
    forall|i: int| 0 <= i < endorsements.len() ==> (#[trigger] endorsements[i]).spec_signed()
}

/// The operations `operations`, each behind its identifier.
pub open spec fn operation_entries(operations: Seq<Operation>) -> Seq<(OperationId, Operation)> {
    Seq::new(operations.len(), |i: int| (operations[i].spec_operation_id(), operations[i]))
}

/// The endorsements `endorsements`, each behind its identifier.
pub open spec fn endorsement_entries(endorsements: Seq<Endorsement>) -> Seq<
    (EndorsementId, Endorsement),
> {
    Seq::new(endorsements.len(), |i: int| (endorsements[i].spec_endorsement_id(), endorsements[i]))
}

/// The form of an operation in a Merkle root: the bytes of its identifier.
pub open spec fn operation_id_form() -> spec_fn(Operation) -> Seq<u8> {
    |op: Operation| op.spec_id()
}

/// The Merkle root of `operations`: the digest of their identifiers' bytes, one
/// behind the other in the order of the list.
pub open spec fn spec_merkle_root(operations: Seq<Operation>) -> Seq<u8> {
    sha256(concat_bytes(operations, operation_id_form()))
}

/// Whether every endorsement of `endorsements` names a thread below `thread_count`.
pub open spec fn all_endorsed_threads_exist(endorsements: Seq<Endorsement>, thread_count: u8) -> bool {
    forall|i: int|
        0 <= i < endorsements.len() ==> (#[trigger] endorsements[i]).content.slot.thread
            < thread_count
}

/// Whether a header is valid: its slot and the slots of its endorsements name
/// existing threads, it has no parents in period zero and one parent per thread
/// otherwise, it holds no more endorsements than a block may, its creator signed it,
/// and every endorsement is signed.
pub open spec fn header_valid(header: BlockHeaderView, context: SerializationContext) -> bool {
    &&& header.content.endorsements.len() <= context.endorsement_count
    &&& header.content.slot.thread < context.thread_count
    &&& all_endorsed_threads_exist(header.content.endorsements, context.thread_count)
    &&& header.content.slot.period == 0 ==> header.content.parents.len() == 0
    &&& header.content.slot.period != 0 ==> header.content.parents.len() == context.thread_count
    &&& header.spec_signed()
    &&& all_endorsements_signed(header.content.endorsements)
}

/// Whether a block is valid: its header is, it holds no more operations than a block
/// may, its compact form is within the largest block size, the header's Merkle root
/// is the root of the operations, and every operation is signed.
pub open spec fn block_valid(block: BlockView, context: SerializationContext) -> bool {
    &&& header_valid(block.header, context)
    &&& block.operations.len() <= context.max_operations_per_block
    &&& block.spec_bytes(context.max_operations_per_block).len() <= context.max_block_size
    &&& block.header.content.operation_merkle_root@ == spec_merkle_root(block.operations)
    &&& all_operations_signed(block.operations)
}

/// Checks the signature of every operation and pairs each with its identifier.
/// Nothing is returned exactly when one of them is not signed by its sender.
pub fn check_operations(operations: &Vec<Operation>) -> (r: Option<Vec<(OperationId, Operation)>>)
    ensures
        all_operations_signed(operations@) ==> r.is_some() && r.unwrap()@ == operation_entries(
            operations@,
        ) && forall|i: int|
            0 <= i < operations@.len() ==> (#[trigger] r.unwrap()@[i]).0.0@
                == operations@[i].spec_id(),
        !all_operations_signed(operations@) ==> r.is_none(),
{
    let mut entries: Vec<(OperationId, Operation)> = Vec::new();
    let mut k: usize = 0;
    while k < operations.len()
        invariant
            k <= operations@.len(),
            entries@.len() == k,
            forall|i: int| 0 <= i < k ==> (#[trigger] operations@[i]).spec_signed(),
            forall|i: int|
                0 <= i < k ==> (#[trigger] entries@[i]) == (
                    operations@[i].spec_operation_id(),
                    operations@[i],
                ) && entries@[i].0.0@ == operations@[i].spec_id(),
        decreases operations@.len() - k,
    {
        match operations[k].verify_integrity() {
            Ok(id) => {
                entries.push((id, operations[k]));
            },
            Err(_) => {
                assert(!operations@[k as int].spec_signed());
                return None;
            },
        }
        k = k + 1;
    }
    assert(entries@ =~= operation_entries(operations@));
    Some(entries)
}

/// Checks the signature of every endorsement and pairs each with its identifier.
/// Nothing is returned exactly when one of them is not signed by its sender.
pub fn check_endorsements(endorsements: &Vec<Endorsement>) -> (r: Option<
    Vec<(EndorsementId, Endorsement)>,
>)
    ensures
        all_endorsements_signed(endorsements@) ==> r.is_some() && r.unwrap()@
            == endorsement_entries(endorsements@),
        !all_endorsements_signed(endorsements@) ==> r.is_none(),
{
    let mut entries: Vec<(EndorsementId, Endorsement)> = Vec::new();
    let mut k: usize = 0;
    while k < endorsements.len()
        invariant
            k <= endorsements@.len(),
            entries@.len() == k,
            forall|i: int| 0 <= i < k ==> (#[trigger] endorsements@[i]).spec_signed(),
            forall|i: int|
                0 <= i < k ==> (#[trigger] entries@[i]) == (
                    endorsements@[i].spec_endorsement_id(),
                    endorsements@[i],
                ),
        decreases endorsements@.len() - k,
    {
        match endorsements[k].verify_integrity() {
            Ok(id) => {
                entries.push((id, endorsements[k]));
            },
            Err(_) => {
                assert(!endorsements@[k as int].spec_signed());
                return None;
            },
        }
        k = k + 1;
    }
    assert(entries@ =~= endorsement_entries(endorsements@));
    Some(entries)
}

/// The Merkle root of the operations behind `entries`, from their identifiers.
fn merkle_root_of(
    entries: &Vec<(OperationId, Operation)>,
    Ghost(operations): Ghost<Seq<Operation>>,
) -> (root: crate::hash::Hash)
    requires
        entries@.len() == operations.len(),
        forall|i: int|
            0 <= i < operations.len() ==> (#[trigger] entries@[i]).0.0@ == operations[i].spec_id(),
    ensures
        root@ == spec_merkle_root(operations),
{
    let mut bytes: Vec<u8> = Vec::new();
    let mut k: usize = 0;
    proof {
        lemma_concat_step(operations, operation_id_form(), 0);
    }
    while k < entries.len()
        invariant
            k <= entries@.len(),
            entries@.len() == operations.len(),
            forall|i: int|
                0 <= i < operations.len() ==> (#[trigger] entries@[i]).0.0@
                    == operations[i].spec_id(),
            bytes@ == concat_bytes(operations.take(k as int), operation_id_form()),
        decreases entries@.len() - k,
    {
        proof {
            lemma_concat_step(operations, operation_id_form(), k as int);
        }
        extend_bytes(&mut bytes, entries[k].0.0.bytes.as_slice());
        k = k + 1;
    }
    assert(operations.take(k as int) =~= operations);
    crate::hash::Hash::compute_from(bytes.as_slice())
}

/// The Merkle root of `operations`.
pub fn compute_merkle_root(operations: &Vec<Operation>) -> (root: crate::hash::Hash)
    ensures
        root@ == spec_merkle_root(operations@),
{
    let mut bytes: Vec<u8> = Vec::new();
    let mut k: usize = 0;
    proof {
        lemma_concat_step(operations@, operation_id_form(), 0);
    }
    while k < operations.len()
        invariant
            k <= operations@.len(),
            bytes@ == concat_bytes(operations@.take(k as int), operation_id_form()),
        decreases operations@.len() - k,
    {
        proof {
            lemma_concat_step(operations@, operation_id_form(), k as int);
        }
        let id = operations[k].get_operation_id();
        extend_bytes(&mut bytes, id.0.bytes.as_slice());
        k = k + 1;
    }
    assert(operations@.take(k as int) =~= operations@);
    crate::hash::Hash::compute_from(bytes.as_slice())
}

/// Whether every endorsement names a thread below `thread_count`.
pub fn check_endorsed_threads(endorsements: &Vec<Endorsement>, thread_count: u8) -> (exist: bool)
    ensures
        exist == all_endorsed_threads_exist(endorsements@, thread_count),
{
    let mut k: usize = 0;
    while k < endorsements.len()
        invariant
            k <= endorsements@.len(),
            forall|i: int|
                0 <= i < k ==> (#[trigger] endorsements@[i]).content.slot.thread < thread_count,
        decreases endorsements@.len() - k,
    {
        if endorsements[k].content.slot.thread >= thread_count {
            return false;
        }
        k = k + 1;
    }
    true
}

/// Checks a header and returns the identifier of its block. Nothing is returned
/// exactly when the header is not valid.
pub fn check_header(header: &BlockHeader, context: &SerializationContext) -> (r: Option<BlockId>)
    ensures
        header_valid(header@, *context) ==> r == Some(header@.spec_block_id()),
        !header_valid(header@, *context) ==> r.is_none(),
{
    if header.content.endorsements.len() > context.endorsement_count as usize {
        return None;
    }
    if header.content.slot.thread >= context.thread_count {
        return None;
    }
    if !check_endorsed_threads(&header.content.endorsements, context.thread_count) {
        return None;
    }
    if header.content.slot.period == 0 {
        if header.content.parents.len() != 0 {
            return None;
        }
    } else if header.content.parents.len() != context.thread_count as usize {
        return None;
    }
    if header.check_signature().is_err() {
        return None;
    }
    if check_endorsements(&header.content.endorsements).is_none() {
        return None;
    }
    match header.compute_block_id() {
        Ok(id) => Some(id),
        Err(_) => None,
    }
}

/// What a valid block yields: its identifier and its operations, each behind its
/// identifier.
#[derive(Debug, Clone)]
pub struct CheckedBlock {
    pub block_id: BlockId,
    pub operations: Vec<(OperationId, Operation)>,
    pub endorsements: Vec<(EndorsementId, Endorsement)>,
}

/// Checks a block and returns its identifier with the identified operations and
/// endorsements. Nothing is returned exactly when the block is not valid.
pub fn check_block(block: &Block, context: &SerializationContext) -> (r: Option<CheckedBlock>)
    ensures
        block_valid(block@, *context) ==> r.is_some() && r.unwrap().block_id
            == block@.header.spec_block_id() && r.unwrap().operations@ == operation_entries(
            block@.operations,
        ) && r.unwrap().endorsements@ == endorsement_entries(block@.header.content.endorsements),
        !block_valid(block@, *context) ==> r.is_none(),
{
    let block_id = match check_header(&block.header, context) {
        Some(id) => id,
        None => { return None; },
    };
    let size = match block.bytes_count(context) {
        Ok(size) => size,
        Err(_) => { return None; },
    };
    if size > context.max_block_size as u64 {
        return None;
    }
    let operations = match check_operations(&block.operations) {
        Some(entries) => entries,
        None => { return None; },
    };
    let root = merkle_root_of(&operations, Ghost(block.operations@));
    if !root.equals(&block.header.content.operation_merkle_root) {
        proof {
            if root@ == block.header.content.operation_merkle_root@ {
                crate::hash::lemma_hash_ext(root, block.header.content.operation_merkle_root);
            }
        }
        return None;
    }
    let endorsements = match check_endorsements(&block.header.content.endorsements) {
        Some(entries) => entries,
        None => { return None; },
    };
    Some(CheckedBlock { block_id, operations, endorsements })
}

} // verus!
