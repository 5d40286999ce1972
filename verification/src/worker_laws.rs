//! What holds of the worker's steps in every state: nothing is sent to a peer that
//! knows it, what was sent or received is known afterwards, and a header tells of a
//! body's content only when that body is held.

use vstd::prelude::*;
use crate::block::{BlockHeaderView, BlockView};
use crate::endorsement::{Endorsement, EndorsementId};
use crate::events::{NetworkCommandView, NodeId};
use crate::known_set::{lemma_lru_insert_all_contains, lemma_lru_insert_all_well_formed};
use crate::operation::{Operation, OperationId};
use crate::peer::{entry_digests, entry_objects, unknown_entries, Identifier, PeerModel};
use crate::validation::{block_valid, endorsement_entries, header_valid, operation_entries};
use crate::worker::{
    block_info_index, endorsement_propagation, operation_propagation, peer_index, WorkerModel,
};
use crate::worker_blocks::block_sending;

verus! {

/// Every selected entry is an entry that was offered, and its identifier is not in
/// the set that the selection was made against.
pub proof fn lemma_unknown_entries<I: Identifier, T>(
    known: Seq<crate::hash::Hash>,
    entries: Seq<(I, T)>,
)
    ensures
        forall|k: int|
            0 <= k < unknown_entries(known, entries).len() ==> !known.contains(
                (#[trigger] unknown_entries(known, entries)[k]).0.spec_digest(),
            ) && entries.contains(unknown_entries(known, entries)[k]),
        forall|j: int|
            0 <= j < entries.len() && !known.contains((#[trigger] entries[j]).0.spec_digest())
                ==> unknown_entries(known, entries).contains(entries[j]),
    decreases entries.len(),
{
    if entries.len() > 0 {
        let front = entries.drop_last();
        lemma_unknown_entries(known, front);
        let selected = unknown_entries(known, entries);
        let selected_front = unknown_entries(known, front);
        assert forall|k: int| 0 <= k < selected.len() implies !known.contains(
            (#[trigger] selected[k]).0.spec_digest(),
        ) && entries.contains(selected[k]) by {
            if k < selected_front.len() {
                assert(selected[k] == selected_front[k]);
                let j = front.index_of(selected_front[k]);
                assert(entries[j] == selected[k]);
            } else {
                assert(entries[entries.len() - 1] == selected[k]);
            }
        }
        assert forall|j: int|
            0 <= j < entries.len() && !known.contains(
                (#[trigger] entries[j]).0.spec_digest(),
            ) implies selected.contains(entries[j]) by {
            if j < front.len() {
                assert(front[j] == entries[j]);
                let k = selected_front.index_of(entries[j]);
                assert(selected[k] == entries[j]);
            } else {
                assert(selected[selected.len() - 1] == entries[j]);
            }
        }
    }
}

/// Every order of a propagation of operations goes to one connected peer and carries
/// exactly the operations that this peer does not know.
pub proof fn lemma_operation_propagation_orders(
    peers: Seq<PeerModel>,
    entries: Seq<(OperationId, Operation)>,
    c: int,
) -> (i: int)
    requires
        0 <= c < operation_propagation(peers, entries).len(),
    ensures
        0 <= i < peers.len(),
        operation_propagation(peers, entries)[c] == (NetworkCommandView::SendOperations {
            peer: peers[i].node,
            operations: entry_objects(unknown_entries(peers[i].known_operations, entries)),
        }),
        unknown_entries(peers[i].known_operations, entries).len() > 0,
    decreases peers.len(),
{
    let front = operation_propagation(peers.drop_last(), entries);
    if c < front.len() {
        let i = lemma_operation_propagation_orders(peers.drop_last(), entries, c);
        assert(peers.drop_last()[i] == peers[i]);
        i
    } else {
        peers.len() - 1
    }
}

/// Every order of a propagation of endorsements goes to one connected peer and
/// carries exactly the endorsements that this peer does not know.
pub proof fn lemma_endorsement_propagation_orders(
    peers: Seq<PeerModel>,
    entries: Seq<(EndorsementId, Endorsement)>,
    c: int,
) -> (i: int)
    requires
        0 <= c < endorsement_propagation(peers, entries).len(),
    ensures
        0 <= i < peers.len(),
        endorsement_propagation(peers, entries)[c] == (NetworkCommandView::SendEndorsements {
            peer: peers[i].node,
            endorsements: entry_objects(unknown_entries(peers[i].known_endorsements, entries)),
        }),
        unknown_entries(peers[i].known_endorsements, entries).len() > 0,
    decreases peers.len(),
{
    let front = endorsement_propagation(peers.drop_last(), entries);
    if c < front.len() {
        let i = lemma_endorsement_propagation_orders(peers.drop_last(), entries, c);
        assert(peers.drop_last()[i] == peers[i]);
        i
    } else {
        peers.len() - 1
    }
}

/// No operation is sent to a peer that knows it: every operation that a propagation
/// sends to a peer is offered under an identifier that the peer did not know when the
/// propagation was asked for.
pub proof fn lemma_known_operation_is_not_sent(
    worker: WorkerModel,
    entries: Seq<(OperationId, Operation)>,
    c: int,
    k: int,
) -> (found: (int, int))
    requires
        0 <= c < operation_propagation(worker.peers, entries).len(),
        operation_propagation(
            worker.peers,
            entries,
        )[c] matches NetworkCommandView::SendOperations { operations, .. } && 0 <= k
            < operations.len(),
    ensures
        0 <= found.0 < worker.peers.len(),
        0 <= found.1 < entries.len(),
        operation_propagation(
            worker.peers,
            entries,
        )[c] matches NetworkCommandView::SendOperations { peer, operations } && peer
            == worker.peers[found.0].node && operations[k] == entries[found.1].1,
        !worker.peers[found.0].known_operations.contains(entries[found.1].0.spec_digest()),
{
    let i = lemma_operation_propagation_orders(worker.peers, entries, c);
    let known = worker.peers[i].known_operations;
    lemma_unknown_entries(known, entries);
    let selected = unknown_entries(known, entries);
    let j = entries.index_of(selected[k]);
    (i, j)
}

/// No endorsement is sent to a peer that knows it: every endorsement that a
/// propagation sends to a peer is offered under an identifier that the peer did not
/// know when the propagation was asked for.
pub proof fn lemma_known_endorsement_is_not_sent(
    worker: WorkerModel,
    entries: Seq<(EndorsementId, Endorsement)>,
    c: int,
    k: int,
) -> (found: (int, int))
    requires
        0 <= c < endorsement_propagation(worker.peers, entries).len(),
        endorsement_propagation(
            worker.peers,
            entries,
        )[c] matches NetworkCommandView::SendEndorsements { endorsements, .. } && 0 <= k
            < endorsements.len(),
    ensures
        0 <= found.0 < worker.peers.len(),
        0 <= found.1 < entries.len(),
        endorsement_propagation(
            worker.peers,
            entries,
        )[c] matches NetworkCommandView::SendEndorsements { peer, endorsements } && peer
            == worker.peers[found.0].node && endorsements[k] == entries[found.1].1,
        !worker.peers[found.0].known_endorsements.contains(entries[found.1].0.spec_digest()),
{
    let i = lemma_endorsement_propagation_orders(worker.peers, entries, c);
    let known = worker.peers[i].known_endorsements;
    lemma_unknown_entries(known, entries);
    let selected = unknown_entries(known, entries);
    let j = entries.index_of(selected[k]);
    (i, j)
}

/// What was sent is known: after a propagation of operations, a peer knows every
/// operation that was sent to it, provided that no more were sent to it than its
/// set of known operations can hold.
pub proof fn lemma_sent_operation_is_known(
    worker: WorkerModel,
    entries: Seq<(OperationId, Operation)>,
    i: int,
    k: int,
)
    requires
        worker.well_formed(),
        0 <= i < worker.peers.len(),
        0 <= k < unknown_entries(worker.peers[i].known_operations, entries).len(),
        unknown_entries(worker.peers[i].known_operations, entries).len()
            <= worker.config.max_known_ops_size,
    ensures
        worker.propagate_operations(entries).peers[i].known_operations.contains(
            unknown_entries(worker.peers[i].known_operations, entries)[k].0.spec_digest(),
        ),
{
    let sent = unknown_entries(worker.peers[i].known_operations, entries);
    lemma_lru_insert_all_contains(
        worker.peers[i].known_operations,
        entry_digests(sent),
        worker.config.max_known_ops_size as nat,
    );
    assert(entry_digests(sent)[k] == sent[k].0.spec_digest());
}

/// What was sent is known: after a propagation of endorsements, a peer knows every
/// endorsement that was sent to it, provided that no more were sent to it than its
/// set of known endorsements can hold.
pub proof fn lemma_sent_endorsement_is_known(
    worker: WorkerModel,
    entries: Seq<(EndorsementId, Endorsement)>,
    i: int,
    k: int,
)
    requires
        worker.well_formed(),
        0 <= i < worker.peers.len(),
        0 <= k < unknown_entries(worker.peers[i].known_endorsements, entries).len(),
        unknown_entries(worker.peers[i].known_endorsements, entries).len()
            <= worker.config.max_known_endorsements_size,
    ensures
        worker.propagate_endorsements(entries).peers[i].known_endorsements.contains(
            unknown_entries(worker.peers[i].known_endorsements, entries)[k].0.spec_digest(),
        ),
{
    let sent = unknown_entries(worker.peers[i].known_endorsements, entries);
    lemma_lru_insert_all_contains(
        worker.peers[i].known_endorsements,
        entry_digests(sent),
        worker.config.max_known_endorsements_size as nat,
    );
    assert(entry_digests(sent)[k] == sent[k].0.spec_digest());
}

/// Every order that sends a block goes to a connected peer that asked for the block.
pub proof fn lemma_block_sending_orders(peers: Seq<PeerModel>, id: crate::block::BlockId, c: int) -> (i:
    int)
    requires
        0 <= c < block_sending(peers, id).len(),
    ensures
        0 <= i < peers.len(),
        crate::requests::is_pending(peers[i].wanted, id),
        block_sending(peers, id)[c] == (NetworkCommandView::SendBlock {
            peer: peers[i].node,
            block_id: id,
        }),
    decreases peers.len(),
{
    let front = block_sending(peers.drop_last(), id);
    if c < front.len() {
        let i = lemma_block_sending_orders(peers.drop_last(), id, c);
        assert(peers.drop_last()[i] == peers[i]);
        i
    } else {
        peers.len() - 1
    }
}

/// What was sent is known: after a block was sent to the peers that asked for it,
/// each of them knows the block, provided that its set of known blocks can hold an
/// entry, and each operation and endorsement of the block, provided that its sets can
/// hold as many as the block has.
pub proof fn lemma_sent_block_is_known(
    worker: WorkerModel,
    id: crate::block::BlockId,
    operations: Seq<crate::hash::Hash>,
    endorsements: Seq<crate::hash::Hash>,
    i: int,
)
    requires
        worker.well_formed(),
        0 <= i < worker.peers.len(),
        crate::requests::is_pending(worker.peers[i].wanted, id),
    ensures
        worker.config.max_known_blocks_size > 0 ==> worker.send_block(
            id,
            operations,
            endorsements,
        ).peers[i].known_blocks.contains(id.0),
        operations.len() <= worker.config.max_known_ops_size ==> forall|k: int|
            0 <= k < operations.len() ==> worker.send_block(
                id,
                operations,
                endorsements,
            ).peers[i].known_operations.contains(#[trigger] operations[k]),
        endorsements.len() <= worker.config.max_known_endorsements_size ==> forall|k: int|
            0 <= k < endorsements.len() ==> worker.send_block(
                id,
                operations,
                endorsements,
            ).peers[i].known_endorsements.contains(#[trigger] endorsements[k]),
{
    let peer = worker.peers[i];
    if worker.config.max_known_blocks_size > 0 {
        lemma_lru_insert_all_contains(
            peer.known_blocks,
            seq![id.0],
            worker.config.max_known_blocks_size as nat,
        );
        assert(seq![id.0][0] == id.0);
    }
    if operations.len() <= worker.config.max_known_ops_size {
        lemma_lru_insert_all_contains(
            peer.known_operations,
            operations,
            worker.config.max_known_ops_size as nat,
        );
    }
    if endorsements.len() <= worker.config.max_known_endorsements_size {
        lemma_lru_insert_all_contains(
            peer.known_endorsements,
            endorsements,
            worker.config.max_known_endorsements_size as nat,
        );
    }
}

/// After a valid block arrived from a connected peer, that peer knows every operation
/// of the block, provided that its set of known operations can hold as many as the
/// block has.
pub proof fn lemma_block_operations_are_known(
    worker: WorkerModel,
    source: NodeId,
    block: BlockView,
    k: int,
)
    requires
        worker.well_formed(),
        peer_index(worker.peers, source).is_some(),
        block_valid(block, worker.context),
        block.operations.len() <= worker.config.max_known_ops_size,
        0 <= k < block.operations.len(),
    ensures
        worker.received_block(source, block).peers[peer_index(
            worker.peers,
            source,
        ).unwrap()].known_operations.contains(block.operations[k].spec_operation_id().0),
{
    let at = peer_index(worker.peers, source).unwrap();
    let ids = entry_digests(operation_entries(block.operations));
    lemma_lru_insert_all_contains(
        worker.peers[at].known_operations,
        ids,
        worker.config.max_known_ops_size as nat,
    );
    assert(ids[k] == block.operations[k].spec_operation_id().0);
}

/// After a valid block arrived from a connected peer, that peer knows every
/// endorsement of the block's header, provided that its set of known endorsements can
/// hold as many as the header has, and knows the block, provided that its set of
/// known blocks can hold an entry.
pub proof fn lemma_block_endorsements_are_known(
    worker: WorkerModel,
    source: NodeId,
    block: BlockView,
    k: int,
)
    requires
        worker.well_formed(),
        peer_index(worker.peers, source).is_some(),
        block_valid(block, worker.context),
        block.header.content.endorsements.len() <= worker.config.max_known_endorsements_size,
        0 <= k < block.header.content.endorsements.len(),
    ensures
        worker.received_block(source, block).peers[peer_index(
            worker.peers,
            source,
        ).unwrap()].known_endorsements.contains(
            block.header.content.endorsements[k].spec_endorsement_id().0,
        ),
        worker.config.max_known_blocks_size > 0 ==> worker.received_block(
            source,
            block,
        ).peers[peer_index(worker.peers, source).unwrap()].known_blocks.contains(
            block.header.spec_block_id().0,
        ),
{
    let at = peer_index(worker.peers, source).unwrap();
    let ids = entry_digests(endorsement_entries(block.header.content.endorsements));
    lemma_lru_insert_all_contains(
        worker.peers[at].known_endorsements,
        ids,
        worker.config.max_known_endorsements_size as nat,
    );
    assert(ids[k] == block.header.content.endorsements[k].spec_endorsement_id().0);
    if worker.config.max_known_blocks_size > 0 {
        lemma_lru_insert_all_contains(
            worker.peers[at].known_blocks,
            seq![block.header.spec_block_id().0],
            worker.config.max_known_blocks_size as nat,
        );
        assert(seq![block.header.spec_block_id().0][0] == block.header.spec_block_id().0);
    }
}

/// After a valid header arrived from a connected peer while the body of its block is
/// held, that peer knows the block and every operation and endorsement of the body,
/// provided that its sets can hold them.
pub proof fn lemma_header_with_held_body(worker: WorkerModel, source: NodeId, header: BlockHeaderView)
    requires
        worker.well_formed(),
        peer_index(worker.peers, source).is_some(),
        header_valid(header, worker.context),
        block_info_index(worker.block_infos, header.spec_block_id()).is_some(),
    ensures
        ({
            let at = peer_index(worker.peers, source).unwrap();
            let held = worker.block_infos[block_info_index(
                worker.block_infos,
                header.spec_block_id(),
            ).unwrap()];
            let after = worker.received_header(source, header).peers[at];
            &&& worker.config.max_known_blocks_size > 0 ==> after.known_blocks.contains(
                header.spec_block_id().0,
            )
            &&& held.operations.len() <= worker.config.max_known_ops_size ==> forall|k: int|
                0 <= k < held.operations.len() ==> after.known_operations.contains(
                    #[trigger] held.operations[k],
                )
            &&& held.endorsements.len() <= worker.config.max_known_endorsements_size ==> forall|
                k: int,
            |
                0 <= k < held.endorsements.len() ==> after.known_endorsements.contains(
                    #[trigger] held.endorsements[k],
                )
        }),
{
    let at = peer_index(worker.peers, source).unwrap();
    let id = header.spec_block_id();
    let held = worker.block_infos[block_info_index(worker.block_infos, id).unwrap()];
    let peer = worker.peers[at];
    if worker.config.max_known_blocks_size > 0 {
        lemma_lru_insert_all_contains(
            peer.known_blocks,
            seq![id.0],
            worker.config.max_known_blocks_size as nat,
        );
        assert(seq![id.0][0] == id.0);
    }
    if held.operations.len() <= worker.config.max_known_ops_size {
        lemma_lru_insert_all_contains(
            peer.known_operations,
            held.operations,
            worker.config.max_known_ops_size as nat,
        );
    }
    if held.endorsements.len() <= worker.config.max_known_endorsements_size {
        lemma_lru_insert_all_contains(
            peer.known_endorsements,
            held.endorsements,
            worker.config.max_known_endorsements_size as nat,
        );
    }
}

/// After a valid header arrived from a connected peer while no body is held under
/// the identifier of its block, the peer knows the block and nothing else has
/// changed: what it knows of operations and endorsements is as before.
pub proof fn lemma_header_without_held_body(
    worker: WorkerModel,
    source: NodeId,
    header: BlockHeaderView,
)
    requires
        worker.well_formed(),
        peer_index(worker.peers, source).is_some(),
        header_valid(header, worker.context),
        block_info_index(worker.block_infos, header.spec_block_id()).is_none(),
    ensures
        ({
            let at = peer_index(worker.peers, source).unwrap();
            let before = worker.peers[at];
            let after = worker.received_header(source, header).peers[at];
            &&& after.known_operations == before.known_operations
            &&& after.known_endorsements == before.known_endorsements
            &&& worker.config.max_known_blocks_size > 0 ==> after.known_blocks.contains(
                header.spec_block_id().0,
            )
            &&& forall|other: crate::hash::Hash|
                after.known_blocks.contains(other) ==> other == header.spec_block_id().0
                    || before.known_blocks.contains(other)
        }),
{
    let at = peer_index(worker.peers, source).unwrap();
    let id = header.spec_block_id();
    let peer = worker.peers[at];
    lemma_lru_insert_all_well_formed(
        peer.known_blocks,
        seq![id.0],
        worker.config.max_known_blocks_size as nat,
    );
    if worker.config.max_known_blocks_size > 0 {
        lemma_lru_insert_all_contains(
            peer.known_blocks,
            seq![id.0],
            worker.config.max_known_blocks_size as nat,
        );
        assert(seq![id.0][0] == id.0);
    }
    let after = worker.received_header(source, header).peers[at];
    assert forall|other: crate::hash::Hash| after.known_blocks.contains(other) implies other
        == id.0 || peer.known_blocks.contains(other) by {
        if seq![id.0].contains(other) {
            let k = seq![id.0].index_of(other);
            assert(seq![id.0][k] == id.0);
        }
    }
}

} // verus!
