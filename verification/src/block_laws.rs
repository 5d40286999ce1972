//! What holds of the block codec for every block: reading gives back what was
//! written, a declared count above the cap is refused, and nothing is read beyond the
//! largest block size.

use vstd::prelude::*;
use crate::block::{
    block_id_form, block_id_reader, endorsement_form, endorsement_reader, operation_form,
    operation_reader, parse_block, parse_block_header, parse_block_header_content, Block,
    BlockHeaderContentView, BlockHeaderView, BlockView,
};
use crate::codec::{
    be_bytes, be_min_width, be_value, concat_bytes, holds_at, lemma_be_min_width_fits,
    lemma_be_round_trip, lemma_concat_item_at, lemma_holds_at_part, lemma_parse_many_round_trip,
    lemma_varint_round_trip, parse_many, varint_bytes,
};
use crate::config::SerializationContext;
use crate::endorsement::lemma_endorsement_round_trip;
use crate::hash::{lemma_bytes32_round_trip, lemma_bytes64_round_trip};
use crate::operation::{lemma_operation_round_trip, parse_operation, Operation};
use crate::slot::lemma_slot_round_trip;

verus! {

/// A part of a run of forms is no longer than the run.
pub proof fn lemma_concat_len_monotonic<T>(items: Seq<T>, form: spec_fn(T) -> Seq<u8>, n: int)
    requires
        0 <= n <= items.len(),
    ensures
        concat_bytes(items.take(n), form).len() <= concat_bytes(items, form).len(),
{
    let whole = concat_bytes(items, form);
    assert(whole.subrange(0, whole.len() as int) =~= whole);
    lemma_concat_item_at(whole, 0, items, form, n);
}

/// Reading the compact form of a well-formed header content gives it back.
pub proof fn lemma_block_header_content_round_trip(
    s: Seq<u8>,
    pos: int,
    content: BlockHeaderContentView,
    context: SerializationContext,
)
    requires
        holds_at(s, pos, content.spec_bytes()),
        content.well_formed(context),
    ensures
        parse_block_header_content(s, pos, context) == Some(
            (content, pos + content.spec_bytes().len()),
        ),
{
    let a = content.creator@;
    let b = content.slot.spec_bytes();
    let c = seq![content.parents_flag()];
    let d = concat_bytes(content.parents, block_id_form());
    let e = content.operation_merkle_root@;
    let f = varint_bytes(content.endorsements.len());
    let g = concat_bytes(content.endorsements, endorsement_form());
    lemma_holds_at_part(s, pos, a + b + c + d + e + f, g);
    lemma_holds_at_part(s, pos, a + b + c + d + e, f);
    lemma_holds_at_part(s, pos, a + b + c + d, e);
    lemma_holds_at_part(s, pos, a + b + c, d);
    lemma_holds_at_part(s, pos, a + b, c);
    lemma_holds_at_part(s, pos, a, b);
    lemma_bytes32_round_trip(s, pos, content.creator.bytes);
    lemma_slot_round_trip(s, pos + 32, content.slot, context.thread_count);
    let at2 = pos + 32 + b.len();
    assert(s[at2] == s.subrange(at2, at2 + 1)[0]);
    let at_parents = at2 + 1;
    let parent_count: nat = if s[at2] == 1 {
        context.thread_count as nat
    } else {
        0
    };
    assert(parent_count == content.parents.len());
    assert forall|i: int| 0 <= i < content.parents.len() implies #[trigger] block_id_reader()(
        s,
        at_parents + concat_bytes(content.parents.take(i), block_id_form()).len(),
    ) == Some(
        (
            content.parents[i],
            at_parents + concat_bytes(content.parents.take(i + 1), block_id_form()).len(),
        ),
    ) by {
        lemma_concat_item_at(s, at_parents, content.parents, block_id_form(), i);
        lemma_bytes32_round_trip(
            s,
            at_parents + concat_bytes(content.parents.take(i), block_id_form()).len(),
            content.parents[i].0.bytes,
        );
    }
    lemma_parse_many_round_trip(
        s,
        at_parents,
        content.parents,
        block_id_form(),
        block_id_reader(),
        content.parents.len() as int,
    );
    assert(content.parents.take(content.parents.len() as int) =~= content.parents);
    let at3 = at_parents + d.len();
    lemma_bytes32_round_trip(s, at3, content.operation_merkle_root.bytes);
    let at4 = at3 + 32;
    lemma_varint_round_trip(s, at4, content.endorsements.len());
    let at5 = at4 + f.len();
    assert forall|i: int|
        0 <= i < content.endorsements.len() implies #[trigger] endorsement_reader(
        context.thread_count,
    )(s, at5 + concat_bytes(content.endorsements.take(i), endorsement_form()).len()) == Some(
        (
            content.endorsements[i],
            at5 + concat_bytes(content.endorsements.take(i + 1), endorsement_form()).len(),
        ),
    ) by {
        lemma_concat_item_at(s, at5, content.endorsements, endorsement_form(), i);
        lemma_endorsement_round_trip(
            s,
            at5 + concat_bytes(content.endorsements.take(i), endorsement_form()).len(),
            content.endorsements[i],
            context.thread_count,
        );
    }
    lemma_parse_many_round_trip(
        s,
        at5,
        content.endorsements,
        endorsement_form(),
        endorsement_reader(context.thread_count),
        content.endorsements.len() as int,
    );
    assert(content.endorsements.take(content.endorsements.len() as int) =~= content.endorsements);
}

/// Reading the compact form of a header with a well-formed content gives it back.
pub proof fn lemma_block_header_round_trip(
    s: Seq<u8>,
    pos: int,
    header: BlockHeaderView,
    context: SerializationContext,
)
    requires
        holds_at(s, pos, header.spec_bytes()),
        header.content.well_formed(context),
    ensures
        parse_block_header(s, pos, context) == Some((header, pos + header.spec_bytes().len())),
{
    lemma_holds_at_part(s, pos, header.content.spec_bytes(), header.signature@);
    lemma_block_header_content_round_trip(s, pos, header.content, context);
    lemma_bytes64_round_trip(s, pos + header.content.spec_bytes().len(), header.signature.bytes);
}

/// Reading a buffer that starts with the compact form of a well-formed block gives the
/// block back, and the number of bytes read is the length of that form.
pub proof fn lemma_block_round_trip_in(s: Seq<u8>, block: BlockView, context: SerializationContext)
    requires
        holds_at(s, 0, block.spec_bytes(context.max_operations_per_block)),
        block.well_formed(context),
    ensures
        parse_block(s, context) == Some(
            (block, block.spec_bytes(context.max_operations_per_block).len() as int),
        ),
{
    let max_ops = context.max_operations_per_block;
    let width = be_min_width(max_ops as nat);
    let limit = context.max_block_size as int;
    let a = block.header.spec_bytes();
    let b = be_bytes(block.operations.len(), width);
    let c = concat_bytes(block.operations, operation_form());
    lemma_holds_at_part(s, 0, a + b, c);
    lemma_holds_at_part(s, 0, a, b);
    lemma_block_header_round_trip(s, 0, block.header, context);
    let at = a.len() as int;
    lemma_be_min_width_fits(block.operations.len(), max_ops as nat);
    lemma_be_round_trip(s, at, block.operations.len(), width);
    let at2 = at + width;
    assert forall|i: int| 0 <= i < block.operations.len() implies #[trigger] operation_reader(
        limit,
    )(s, at2 + concat_bytes(block.operations.take(i), operation_form()).len()) == Some(
        (
            block.operations[i],
            at2 + concat_bytes(block.operations.take(i + 1), operation_form()).len(),
        ),
    ) by {
        lemma_concat_item_at(s, at2, block.operations, operation_form(), i);
        lemma_concat_len_monotonic(block.operations, operation_form(), i + 1);
        lemma_operation_round_trip(
            s,
            at2 + concat_bytes(block.operations.take(i), operation_form()).len(),
            block.operations[i],
        );
    }
    lemma_parse_many_round_trip(
        s,
        at2,
        block.operations,
        operation_form(),
        operation_reader(limit),
        block.operations.len() as int,
    );
    assert(block.operations.take(block.operations.len() as int) =~= block.operations);
}

/// Decoding the encoding of a well-formed block gives the block back, and the number
/// of bytes read is the length of the encoding.
pub proof fn lemma_block_round_trip(block: BlockView, context: SerializationContext)
    requires
        block.well_formed(context),
    ensures
        parse_block(block.spec_bytes(context.max_operations_per_block), context) == Some(
            (block, block.spec_bytes(context.max_operations_per_block).len() as int),
        ),
{
    let bytes = block.spec_bytes(context.max_operations_per_block);
    assert(bytes.subrange(0, bytes.len() as int) =~= bytes);
    lemma_block_round_trip_in(bytes, block, context);
}

/// Decoding the encoding of a valid block gives the block back, and the number of
/// bytes read is the length of the encoding.
pub proof fn lemma_valid_block_round_trip(block: BlockView, context: SerializationContext)
    requires
        crate::validation::block_valid(block, context),
    ensures
        block.well_formed(context),
        parse_block(block.spec_bytes(context.max_operations_per_block), context) == Some(
            (block, block.spec_bytes(context.max_operations_per_block).len() as int),
        ),
{
    lemma_block_round_trip(block, context);
}

/// Two operations with the same compact form are the same operation, and so have the
/// same identifier: an identifier depends on nothing but the compact form.
pub proof fn lemma_operation_encoding_injective(a: Operation, b: Operation)
    requires
        a.spec_bytes() == b.spec_bytes(),
    ensures
        a == b,
        a.spec_operation_id() == b.spec_operation_id(),
{
    let bytes = a.spec_bytes();
    assert(bytes.subrange(0, bytes.len() as int) =~= bytes);
    lemma_operation_round_trip(bytes, 0, a);
    lemma_operation_round_trip(bytes, 0, b);
}

/// Two well-formed blocks with the same compact form are the same block.
pub proof fn lemma_block_encoding_injective(a: BlockView, b: BlockView, context: SerializationContext)
    requires
        a.well_formed(context),
        b.well_formed(context),
        a.spec_bytes(context.max_operations_per_block) == b.spec_bytes(
            context.max_operations_per_block,
        ),
    ensures
        a == b,
{
    lemma_block_round_trip(a, context);
    lemma_block_round_trip(b, context);
}

/// Two blocks with the same value have the same encoding.
pub proof fn lemma_block_encoding_deterministic(a: Block, b: Block, max_operations: u32)
    requires
        a@ == b@,
    ensures
        a@.spec_bytes(max_operations) == b@.spec_bytes(max_operations),
{
}

/// A buffer whose header is followed by a count of operations above the cap is
/// refused, whatever follows the count.
pub proof fn lemma_block_rejects_excess_count(s: Seq<u8>, context: SerializationContext)
    requires
        parse_block_header(s, 0, context).is_some(),
        be_value(
            s,
            parse_block_header(s, 0, context).unwrap().1,
            be_min_width(context.max_operations_per_block as nat),
        ) > context.max_operations_per_block,
    ensures
        parse_block(s, context).is_none(),
{
}

/// A block that was read ends within the largest block size, and so do its header
/// and every one of its operations.
pub proof fn lemma_block_within_size_cap(s: Seq<u8>, context: SerializationContext)
    requires
        parse_block(s, context).is_some(),
    ensures
        parse_block(s, context).unwrap().1 <= context.max_block_size,
        parse_block_header(s, 0, context).unwrap().1 <= context.max_block_size,
{
}

/// Whether, while a block is read from `s`, the position behind the header, behind the
/// count, or behind the operation that follows `n` operations read so far lies beyond
/// the largest block size.
pub open spec fn block_cursor_overruns(s: Seq<u8>, context: SerializationContext, n: nat) -> bool {
    let limit = context.max_block_size as int;
    let header = parse_block_header(s, 0, context);
    header.is_some() && {
        let at = header.unwrap().1;
        let count = crate::codec::parse_be_min(s, at, context.max_operations_per_block as nat);
        at > limit || (count.is_some() && {
            let at2 = count.unwrap().1;
            let read = parse_many(s, at2, n, operation_reader(limit));
            at2 > limit || (n < count.unwrap().0 && read.is_some() && {
                let next = parse_operation(s, read.unwrap().1);
                next.is_some() && next.unwrap().1 > limit
            })
        })
    }
}

/// A buffer in which the header, the count or one of the declared operations ends
/// beyond the largest block size is refused.
pub proof fn lemma_block_rejects_oversize(s: Seq<u8>, context: SerializationContext, n: nat)
    requires
        block_cursor_overruns(s, context, n),
    ensures
        parse_block(s, context).is_none(),
{
    let limit = context.max_block_size as int;
    let at = parse_block_header(s, 0, context).unwrap().1;
    if at <= limit {
        let (count, at2) = crate::codec::parse_be_min(
            s,
            at,
            context.max_operations_per_block as nat,
        ).unwrap();
        if at2 <= limit {
            let reader = operation_reader(limit);
            assert(parse_many(s, at2, n + 1, reader).is_none());
            crate::codec::lemma_parse_many_fails(s, at2, n + 1, count, reader);
        }
    }
}

/// Two operations read from the same bytes have the same identifier.
pub proof fn lemma_same_bytes_same_operation_id(s: Seq<u8>, pos: int, a: Operation, b: Operation)
    requires
        parse_operation(s, pos) matches Some((op, _e)) && op == a,
        parse_operation(s, pos) matches Some((op, _e)) && op == b,
    ensures
        a.spec_id() == b.spec_id(),
{
}

} // verus!
