//! The worker's steps on blocks: headers and blocks that arrive, blocks that peers ask
//! for, blocks that consensus integrated or found, and our own requests for blocks.

use vstd::prelude::*;
use crate::block::{Block, BlockHeader, BlockHeaderView, BlockId, BlockView};
use crate::endorsement::EndorsementId;
use crate::events::{
    command_views, NetworkCommand, NetworkCommandView, NodeId, ProtocolEvent, ProtocolEventView,
    ProtocolPoolEvent, ProtocolPoolEventView,
};
use crate::known_set::lru_insert_all;
use crate::operation::OperationId;
use crate::peer::{
    digests, digests_of, entry_digests, entry_digests_of, fresh_entries, take_fresh, BlockInfo,
    BlockInfoModel, PeerModel,
};
use crate::requests::{
    alive_requests, expired_blocks, is_pending, with_all_pending, with_pending, without_pending,
};
use crate::validation::{
    block_valid, check_block, check_header, endorsement_entries, header_valid, operation_entries,
};
use crate::worker::{
    block_info_index, peer_index, record_block_info, IngressResult, IngressResultView,
    ProtocolWorker, WorkerModel,
};

verus! {

/// What consensus found of a block that a peer asked for.
#[derive(Debug, Clone)]
pub struct BlockResultContent {
    /// The identifiers of the block's operations, if they are known.
    pub operations: Option<Vec<OperationId>>,
    /// The identifiers of the block's endorsements, if they are known.
    pub endorsements: Option<Vec<EndorsementId>>,
}

/// The answer of consensus about one block: its content, or nothing when the block
/// was not found.
#[derive(Debug, Clone)]
pub struct BlockResult {
    pub block_id: BlockId,
    pub content: Option<BlockResultContent>,
}

impl BlockResult {
    /// The digests of the operations that the answer names.
    pub open spec fn spec_operations(self) -> Seq<crate::hash::Hash> {
        match self.content {
            Some(content) => match content.operations {
                Some(ids) => digests(ids@),
                None => Seq::empty(),
            },
            None => Seq::empty(),
        }
    }

    /// The digests of the endorsements that the answer names.
    pub open spec fn spec_endorsements(self) -> Seq<crate::hash::Hash> {
        match self.content {
            Some(content) => match content.endorsements {
                Some(ids) => digests(ids@),
                None => Seq::empty(),
            },
            None => Seq::empty(),
        }
    }
}

/// The orders that send the block `id` to each peer of `peers` that asked for it.
pub open spec fn block_sending(peers: Seq<PeerModel>, id: BlockId) -> Seq<NetworkCommandView>
    decreases peers.len(),
{
    if peers.len() == 0 {
        Seq::<NetworkCommandView>::empty()
    } else {
        let front = block_sending(peers.drop_last(), id);
        if is_pending(peers.last().wanted, id) {
            front.push(NetworkCommandView::SendBlock { peer: peers.last().node, block_id: id })
        } else {
            front
        }
    }
}

/// The requests of the peers `peers` that are lost at time `now`: each peer with each
/// of its lost blocks.
pub open spec fn lost_requests(peers: Seq<PeerModel>, now: u64) -> Seq<(NodeId, BlockId)>
    decreases peers.len(),
{
    if peers.len() == 0 {
        Seq::<(NodeId, BlockId)>::empty()
    } else {
        let lost = expired_blocks(peers.last().asked, now);
        lost_requests(peers.drop_last(), now) + Seq::new(
            lost.len(),
            |j: int| (peers.last().node, lost[j]),
        )
    }
}

/// The time until which a request made at `now` is waited for.
pub open spec fn spec_deadline(now: u64, timeout: u64) -> u64 {
    if now + timeout > u64::MAX {
        u64::MAX
    } else {
        (now + timeout) as u64
    }
}

impl WorkerModel {
    /// The state after the peer `source` asked for the blocks `ids` at time `now`: the
    /// peer knows that they exist, and its requests are recorded with their deadline,
    /// but for the blocks that it is waiting for already.
    pub open spec fn asked_for_block(self, source: NodeId, ids: Seq<BlockId>, now: u64) -> WorkerModel {
        match peer_index(self.peers, source) {
            Some(at) => self.with_peers(
                self.peers.update(
                    at,
                    self.peers[at].note(
                        digests(ids),
                        Seq::empty(),
                        Seq::empty(),
                        self.config,
                    ).with_wanted(
                        with_all_pending(
                            self.peers[at].wanted,
                            ids,
                            spec_deadline(now, self.config.ask_block_timeout),
                        ),
                    ),
                ),
            ),
            None => self,
        }
    }

    /// What is emitted when the peer `source` asked for the blocks `ids`: the request,
    /// handed to consensus.
    pub open spec fn asked_for_block_output(self, source: NodeId, ids: Seq<BlockId>) -> IngressResultView {
        match peer_index(self.peers, source) {
            Some(_at) => IngressResultView {
                network: Seq::empty(),
                event: Some(ProtocolEventView::GetBlocks { ids, requester: source }),
                pool_event: None,
            },
            None => IngressResultView::silent(),
        }
    }

    /// The state after the peer `source` sent the header `header`: when the peer is
    /// connected and the header valid, the peer knows the block; when the block's body
    /// is held locally, the peer knows the body's operations and endorsements too.
    pub open spec fn received_header(self, source: NodeId, header: BlockHeaderView) -> WorkerModel {
        match peer_index(self.peers, source) {
            Some(at) => if header_valid(header, self.context) {
                let id = header.spec_block_id();
                let noted = match block_info_index(self.block_infos, id) {
                    Some(held) => self.peers[at].note(
                        seq![id.0],
                        self.block_infos[held].operations,
                        self.block_infos[held].endorsements,
                        self.config,
                    ),
                    None => self.peers[at].note(
                        seq![id.0],
                        Seq::empty(),
                        Seq::empty(),
                        self.config,
                    ),
                };
                self.with_peers(self.peers.update(at, noted))
            } else {
                self
            },
            None => self,
        }
    }

    /// What is emitted when the peer `source` sent the header `header`: nothing for a
    /// peer that is not connected; a ban for a header that is not valid; else the
    /// header, handed to consensus.
    pub open spec fn received_header_output(
        self,
        source: NodeId,
        header: BlockHeaderView,
    ) -> IngressResultView {
        match peer_index(self.peers, source) {
            Some(_at) => if header_valid(header, self.context) {
                IngressResultView {
                    network: Seq::empty(),
                    event: Some(
                        ProtocolEventView::ReceivedBlockHeader {
                            id: header.spec_block_id(),
                            header,
                            source,
                        },
                    ),
                    pool_event: None,
                }
            } else {
                IngressResultView::ban(source)
            },
            None => IngressResultView::silent(),
        }
    }

    /// The state after the peer `source` sent the block `block`: when the peer is
    /// connected and the block valid, the peer knows the block, its operations and its
    /// endorsements, our request for the block is answered, the body's identifiers are
    /// remembered, and the operations count as handed to the pool.
    pub open spec fn received_block(self, source: NodeId, block: BlockView) -> WorkerModel {
        match peer_index(self.peers, source) {
            Some(at) => if block_valid(block, self.context) {
                let id = block.header.spec_block_id();
                let operations = entry_digests(operation_entries(block.operations));
                let endorsements = entry_digests(
                    endorsement_entries(block.header.content.endorsements),
                );
                WorkerModel {
                    peers: self.peers.update(
                        at,
                        self.peers[at].note(
                            seq![id.0],
                            operations,
                            endorsements,
                            self.config,
                        ).with_asked(without_pending(self.peers[at].asked, id)),
                    ),
                    block_infos: record_block_info(
                        self.block_infos,
                        BlockInfoModel { block_id: id, operations, endorsements },
                    ),
                    checked_operations: lru_insert_all(
                        self.checked_operations,
                        operations,
                        self.config.max_known_ops_size as nat,
                    ),
                    ..self
                }
            } else {
                self
            },
            None => self,
        }
    }

    /// What is emitted when the peer `source` sent the block `block`: nothing for a
    /// peer that is not connected; a ban for a block that is not valid; else the
    /// block, handed to consensus, and those of its operations that were not handed to
    /// the pool before, handed to the pool and not to be propagated.
    pub open spec fn received_block_output(self, source: NodeId, block: BlockView) -> IngressResultView {
        match peer_index(self.peers, source) {
            Some(_at) => if block_valid(block, self.context) {
                let fresh = fresh_entries(
                    self.checked_operations,
                    operation_entries(block.operations),
                    self.config.max_known_ops_size as nat,
                );
                IngressResultView {
                    network: Seq::empty(),
                    event: Some(
                        ProtocolEventView::ReceivedBlock {
                            id: block.header.spec_block_id(),
                            block,
                            source,
                        },
                    ),
                    pool_event: if fresh.len() == 0 {
                        None
                    } else {
                        Some(
                            ProtocolPoolEventView::ReceivedOperations {
                                propagate: false,
                                operations: fresh,
                                source,
                            },
                        )
                    },
                }
            } else {
                IngressResultView::ban(source)
            },
            None => IngressResultView::silent(),
        }
    }

    /// The state after the block `id`, with the operations `operations` and the
    /// endorsements `endorsements`, was sent to every peer that asked for it: each of
    /// them knows the block and what it holds, and no longer wants it.
    pub open spec fn send_block(
        self,
        id: BlockId,
        operations: Seq<crate::hash::Hash>,
        endorsements: Seq<crate::hash::Hash>,
    ) -> WorkerModel {
        self.with_peers(
            Seq::new(
                self.peers.len(),
                |i: int|
                    if is_pending(self.peers[i].wanted, id) {
                        self.peers[i].note(
                            seq![id.0],
                            operations,
                            endorsements,
                            self.config,
                        ).with_wanted(without_pending(self.peers[i].wanted, id))
                    } else {
                        self.peers[i]
                    },
            ),
        )
    }

    /// The state with what is remembered of the block `id` recorded.
    pub open spec fn with_block_info(self, info: BlockInfoModel) -> WorkerModel {
        WorkerModel { block_infos: record_block_info(self.block_infos, info), ..self }
    }

    /// The state after consensus integrated the block `id`: what it holds is
    /// remembered, and the block is sent to every peer that asked for it.
    pub open spec fn integrated_block(
        self,
        id: BlockId,
        operations: Seq<OperationId>,
        endorsements: Seq<EndorsementId>,
    ) -> WorkerModel {
        self.with_block_info(
            BlockInfoModel {
                block_id: id,
                operations: digests(operations),
                endorsements: digests(endorsements),
            },
        ).send_block(id, digests(operations), digests(endorsements))
    }

    /// The state after one answer of consensus: a block that was found is sent to
    /// every peer that asked for it; for a block that was not found nothing changes.
    pub open spec fn block_result(self, result: BlockResult) -> WorkerModel {
        match result.content {
            Some(_content) => self.send_block(
                result.block_id,
                result.spec_operations(),
                result.spec_endorsements(),
            ),
            None => self,
        }
    }

    /// What is emitted on one answer of consensus.
    pub open spec fn block_result_output(self, result: BlockResult) -> Seq<NetworkCommandView> {
        match result.content {
            Some(_content) => block_sending(self.peers, result.block_id),
            None => Seq::empty(),
        }
    }

    /// The state after the answers `results` of consensus, taken one after the other.
    pub open spec fn get_blocks_results(self, results: Seq<BlockResult>) -> WorkerModel
        decreases results.len(),
    {
        if results.len() == 0 {
            self
        } else {
            self.get_blocks_results(results.drop_last()).block_result(results.last())
        }
    }

    /// What is emitted on the answers `results` of consensus, taken one after the
    /// other.
    pub open spec fn get_blocks_results_output(self, results: Seq<BlockResult>) -> Seq<
        NetworkCommandView,
    >
        decreases results.len(),
    {
        if results.len() == 0 {
            Seq::<NetworkCommandView>::empty()
        } else {
            self.get_blocks_results_output(results.drop_last()) + self.get_blocks_results(
                results.drop_last(),
            ).block_result_output(results.last())
        }
    }

    /// The state after we asked the peer `peer` for the block `id` at time `now`: the
    /// request is recorded with its deadline, unless the peer is not connected or a
    /// request to it for this block is outstanding.
    pub open spec fn ask_for_block(self, peer: NodeId, id: BlockId, now: u64) -> WorkerModel {
        match peer_index(self.peers, peer) {
            Some(at) => self.with_peers(
                self.peers.update(
                    at,
                    self.peers[at].with_asked(
                        with_pending(
                            self.peers[at].asked,
                            id,
                            spec_deadline(now, self.config.ask_block_timeout),
                        ),
                    ),
                ),
            ),
            None => self,
        }
    }

    /// What is emitted when we ask the peer `peer` for the block `id`: the request,
    /// unless the peer is not connected or a request to it for this block is
    /// outstanding.
    pub open spec fn ask_for_block_output(self, peer: NodeId, id: BlockId) -> Seq<NetworkCommandView> {
        match peer_index(self.peers, peer) {
            Some(at) => if is_pending(self.peers[at].asked, id) {
                Seq::empty()
            } else {
                seq![NetworkCommandView::AskForBlock { peer, ids: seq![id] }]
            },
            None => Seq::empty(),
        }
    }

    /// The state after the requests that are lost at time `now` were dropped, in both
    /// directions.
    pub open spec fn expire_requests(self, now: u64) -> WorkerModel {
        self.with_peers(
            Seq::new(
                self.peers.len(),
                |i: int|
                    self.peers[i].with_wanted(
                        alive_requests(self.peers[i].wanted, now),
                    ).with_asked(alive_requests(self.peers[i].asked, now)),
            ),
        )
    }
}

impl ProtocolWorker {
    /// Remembers what the block `info.block_id` holds.
    fn record_block_info(&mut self, info: BlockInfo)
        requires
            old(self).well_formed(),
        ensures
            final(self).well_formed(),
            final(self)@ == old(self)@.with_block_info(info@),
            final(self).peers == old(self).peers,
    {
        match self.find_block_info(&info.block_id) {
            Some(at) => {
                self.block_infos[at] = info;
                proof {
                    assert(self@.block_infos =~= old(self)@.block_infos.update(at as int, info@));
                    assert(self@.peers =~= old(self)@.peers);
                    assert forall|i: int, j: int|
                        0 <= i < self@.block_infos.len() && 0 <= j < self@.block_infos.len() && i
                            != j implies (#[trigger] self@.block_infos[i]).block_id != (
                    #[trigger] self@.block_infos[j]).block_id by {
                        assert(self@.block_infos[i].block_id == old(self)@.block_infos[i].block_id);
                        assert(self@.block_infos[j].block_id == old(self)@.block_infos[j].block_id);
                    }
                }
            },
            None => {
                self.block_infos.push(info);
                proof {
                    assert(self@.block_infos =~= old(self)@.block_infos.push(info@));
                    assert(self@.peers =~= old(self)@.peers);
                    assert forall|i: int, j: int|
                        0 <= i < self@.block_infos.len() && 0 <= j < self@.block_infos.len() && i
                            != j implies (#[trigger] self@.block_infos[i]).block_id != (
                    #[trigger] self@.block_infos[j]).block_id by {
                        if i < old(self)@.block_infos.len() {
                            assert(self@.block_infos[i] == old(self)@.block_infos[i]);
                        }
                        if j < old(self)@.block_infos.len() {
                            assert(self@.block_infos[j] == old(self)@.block_infos[j]);
                        }
                    }
                }
            },
        }
    }

    /// The time until which a request made at `now` is waited for.
    pub fn deadline(&self, now: u64) -> (deadline: u64)
        ensures
            deadline == spec_deadline(now, self.config.ask_block_timeout),
    {
        let timeout = self.config.ask_block_timeout;
        if now > u64::MAX - timeout {
            u64::MAX
        } else {
            now + timeout
        }
    }

    /// The peer `source` asked for blocks at time `now`.
    pub fn asked_for_block(&mut self, source: NodeId, ids: Vec<BlockId>, now: u64) -> (result:
        IngressResult)
        requires
            old(self).well_formed(),
        ensures
            final(self).well_formed(),
            final(self)@ == old(self)@.asked_for_block(source, ids@, now),
            result@ == old(self)@.asked_for_block_output(source, ids@),
    {
        let at = match self.find_peer(&source) {
            Some(at) => at,
            None => { return IngressResult::silent(); },
        };
        let blocks = digests_of(&ids);
        let none: Vec<crate::hash::Hash> = Vec::new();
        let config = self.config;
        let deadline = self.deadline(now);
        self.peers[at].note(&blocks, &none, &none, &config);
        self.peers[at].note_wanted_all(&ids, deadline, &config);
        proof {
            assert(none@ =~= Seq::<crate::hash::Hash>::empty());
            self.lemma_changed_peer(*old(self), at as int);
            assert(self@.block_infos =~= old(self)@.block_infos);
        }
        let result = IngressResult {
            network: Vec::new(),
            event: Some(ProtocolEvent::GetBlocks { ids, requester: source }),
            pool_event: None,
        };
        assert(result@.network =~= Seq::empty());
        result
    }

    /// The peer `source` sent a header.
    pub fn received_header(&mut self, source: NodeId, header: BlockHeader) -> (result: IngressResult)
        requires
            old(self).well_formed(),
        ensures
            final(self).well_formed(),
            final(self)@ == old(self)@.received_header(source, header@),
            result@ == old(self)@.received_header_output(source, header@),
    {
        let at = match self.find_peer(&source) {
            Some(at) => at,
            None => { return IngressResult::silent(); },
        };
        let id = match check_header(&header, &self.context) {
            Some(id) => id,
            None => { return IngressResult::ban(source); },
        };
        let mut blocks: Vec<crate::hash::Hash> = Vec::new();
        blocks.push(id.0);
        assert(blocks@ =~= seq![id.0]);
        let none: Vec<crate::hash::Hash> = Vec::new();
        let config = self.config;
        match self.find_block_info(&id) {
            Some(held) => {
                let operations = digests_copy(&self.block_infos[held].operations);
                let endorsements = digests_copy(&self.block_infos[held].endorsements);
                self.peers[at].note(&blocks, &operations, &endorsements, &config);
            },
            None => {
                self.peers[at].note(&blocks, &none, &none, &config);
            },
        }
        proof {
            assert(none@ =~= Seq::<crate::hash::Hash>::empty());
            self.lemma_changed_peer(*old(self), at as int);
            assert(self@.block_infos =~= old(self)@.block_infos);
        }
        let result = IngressResult {
            network: Vec::new(),
            event: Some(ProtocolEvent::ReceivedBlockHeader { id, header, source }),
            pool_event: None,
        };
        assert(result@.network =~= Seq::empty());
        result
    }

    /// The peer `source` sent a block.
    pub fn received_block(&mut self, source: NodeId, block: Block) -> (result: IngressResult)
        requires
            old(self).well_formed(),
        ensures
            final(self).well_formed(),
            final(self)@ == old(self)@.received_block(source, block@),
            result@ == old(self)@.received_block_output(source, block@),
    {
        let at = match self.find_peer(&source) {
            Some(at) => at,
            None => { return IngressResult::silent(); },
        };
        let checked = match check_block(&block, &self.context) {
            Some(checked) => checked,
            None => { return IngressResult::ban(source); },
        };
        let id = checked.block_id;
        let mut blocks: Vec<crate::hash::Hash> = Vec::new();
        blocks.push(id.0);
        assert(blocks@ =~= seq![id.0]);
        let operations = entry_digests_of(&checked.operations);
        let endorsements = entry_digests_of(&checked.endorsements);
        let config = self.config;
        self.peers[at].note(&blocks, &operations, &endorsements, &config);
        self.peers[at].answer(&id, &config);
        let ghost noted = *self;
        proof {
            self.lemma_changed_peer(*old(self), at as int);
            assert(self@.block_infos =~= old(self)@.block_infos);
        }
        let fresh = take_fresh(&mut self.checked_operations, &checked.operations);
        proof {
            assert(self@.peers =~= noted@.peers);
            assert(self@.block_infos =~= noted@.block_infos);
        }
        let info = BlockInfo {
            block_id: id,
            operations: digests_copy(&operations),
            endorsements: digests_copy(&endorsements),
        };
        self.record_block_info(info);
        let pool_event = if fresh.len() == 0 {
            None
        } else {
            Some(ProtocolPoolEvent::ReceivedOperations { propagate: false, operations: fresh, source })
        };
        let result = IngressResult {
            network: Vec::new(),
            event: Some(ProtocolEvent::ReceivedBlock { id, block, source }),
            pool_event,
        };
        assert(result@.network =~= Seq::empty());
        result
    }

    /// Sends the block `id` to every peer that asked for it, and notes what those
    /// peers know now.
    pub fn send_block(
        &mut self,
        id: BlockId,
        operations: &Vec<crate::hash::Hash>,
        endorsements: &Vec<crate::hash::Hash>,
    ) -> (commands: Vec<NetworkCommand>)
        requires
            old(self).well_formed(),
        ensures
            final(self).well_formed(),
            final(self)@ == old(self)@.send_block(id, operations@, endorsements@),
            command_views(commands@) == block_sending(old(self)@.peers, id),
    {
        let mut commands: Vec<NetworkCommand> = Vec::new();
        let mut blocks: Vec<crate::hash::Hash> = Vec::new();
        blocks.push(id.0);
        assert(blocks@ =~= seq![id.0]);
        let mut k: usize = 0;
        assert(old(self)@.peers.take(0) =~= Seq::<PeerModel>::empty());
        assert(command_views(commands@) =~= Seq::<NetworkCommandView>::empty());
        while k < self.peers.len()
            invariant
                k <= self.peers@.len(),
                blocks@ == seq![id.0],
                self.peers@.len() == old(self).peers@.len(),
                self.config == old(self).config,
                self.context == old(self).context,
                self.block_infos == old(self).block_infos,
                self.checked_operations == old(self).checked_operations,
                self.checked_endorsements == old(self).checked_endorsements,
                old(self).well_formed(),
                command_views(commands@) == block_sending(old(self)@.peers.take(k as int), id),
                forall|i: int| k <= i < self.peers@.len() ==> self.peers@[i] == old(self).peers@[i],
                forall|i: int|
                    0 <= i < self.peers@.len() ==> (#[trigger] self.peers@[i]).well_formed(
                        self.config,
                    ),
                forall|i: int|
                    0 <= i < k ==> (#[trigger] self.peers@[i])@ == old(self)@.send_block(
                        id,
                        operations@,
                        endorsements@,
                    ).peers[i],
            decreases self.peers@.len() - k,
        {
            proof {
                assert(old(self)@.peers.take(k + 1).drop_last() =~= old(self)@.peers.take(k as int));
                assert(old(self)@.peers.take(k + 1).last() == old(self)@.peers[k as int]);
                assert(old(self)@.peers[k as int] == old(self).peers@[k as int]@);
            }
            let ghost views_before = command_views(commands@);
            let config = self.config;
            if self.peers[k].requests.is_wanted(&id) {
                let peer = self.peers[k].node;
                commands.push(NetworkCommand::SendBlock { peer, block_id: id });
                assert(command_views(commands@) =~= views_before.push(
                    NetworkCommandView::SendBlock { peer, block_id: id },
                ));
                self.peers[k].note(&blocks, operations, endorsements, &config);
                self.peers[k].take_wanted(&id, &config);
            }
            k = k + 1;
        }
        proof {
            assert(old(self)@.peers.take(k as int) =~= old(self)@.peers);
            assert(self@.peers =~= old(self)@.send_block(id, operations@, endorsements@).peers);
            assert(self@.block_infos =~= old(self)@.block_infos);
            assert forall|i: int| 0 <= i < self@.peers.len() implies (#[trigger] self@.peers[i]).node
                == old(self)@.peers[i].node && self@.peers[i].well_formed(self.config) by {
                assert(self.peers@[i].well_formed(self.config));
            }
        }
        commands
    }

    /// Consensus integrated the block `block_id`.
    pub fn integrated_block(
        &mut self,
        block_id: BlockId,
        operation_ids: &Vec<OperationId>,
        endorsement_ids: &Vec<EndorsementId>,
    ) -> (commands: Vec<NetworkCommand>)
        requires
            old(self).well_formed(),
        ensures
            final(self).well_formed(),
            final(self)@ == old(self)@.integrated_block(
                block_id,
                operation_ids@,
                endorsement_ids@,
            ),
            command_views(commands@) == block_sending(old(self)@.peers, block_id),
    {
        let operations = digests_of(operation_ids);
        let endorsements = digests_of(endorsement_ids);
        let info = BlockInfo {
            block_id,
            operations: digests_copy(&operations),
            endorsements: digests_copy(&endorsements),
        };
        self.record_block_info(info);
        self.send_block(block_id, &operations, &endorsements)
    }

    /// Consensus answered requests for blocks.
    pub fn send_get_blocks_results(&mut self, results: &Vec<BlockResult>) -> (commands: Vec<
        NetworkCommand,
    >)
        requires
            old(self).well_formed(),
        ensures
            final(self).well_formed(),
            final(self)@ == old(self)@.get_blocks_results(results@),
            command_views(commands@) == old(self)@.get_blocks_results_output(results@),
    {
        let mut commands: Vec<NetworkCommand> = Vec::new();
        let mut k: usize = 0;
        assert(command_views(commands@) =~= Seq::<NetworkCommandView>::empty());
        while k < results.len()
            invariant
                k <= results@.len(),
                self.well_formed(),
                self@ == old(self)@.get_blocks_results(results@.take(k as int)),
                command_views(commands@) == old(self)@.get_blocks_results_output(
                    results@.take(k as int),
                ),
            decreases results@.len() - k,
        {
            proof {
                assert(results@.take(k + 1).drop_last() =~= results@.take(k as int));
                assert(results@.take(k + 1).last() == results@[k as int]);
            }
            let ghost views_before = command_views(commands@);
            match &results[k].content {
                Some(content) => {
                    let operations = match &content.operations {
                        Some(ids) => digests_of(ids),
                        None => Vec::new(),
                    };
                    let endorsements = match &content.endorsements {
                        Some(ids) => digests_of(ids),
                        None => Vec::new(),
                    };
                    assert(operations@ =~= results@[k as int].spec_operations());
                    assert(endorsements@ =~= results@[k as int].spec_endorsements());
                    let mut sent = self.send_block(results[k].block_id, &operations, &endorsements);
                    let ghost sent_views = command_views(sent@);
                    commands.append(&mut sent);
                    assert(command_views(commands@) =~= views_before + sent_views);
                },
                None => {
                    assert(views_before + Seq::<NetworkCommandView>::empty() =~= views_before);
                },
            }
            k = k + 1;
        }
        assert(results@.take(k as int) =~= results@);
        commands
    }

    /// Asks the peer `peer` for the block `block_id` at time `now`.
    pub fn ask_for_block(&mut self, peer: NodeId, block_id: BlockId, now: u64) -> (commands: Vec<
        NetworkCommand,
    >)
        requires
            old(self).well_formed(),
        ensures
            final(self).well_formed(),
            final(self)@ == old(self)@.ask_for_block(peer, block_id, now),
            command_views(commands@) == old(self)@.ask_for_block_output(peer, block_id),
    {
        let mut commands: Vec<NetworkCommand> = Vec::new();
        let at = match self.find_peer(&peer) {
            Some(at) => at,
            None => {
                assert(command_views(commands@) =~= Seq::<NetworkCommandView>::empty());
                return commands;
            },
        };
        let deadline = self.deadline(now);
        let config = self.config;
        let recorded = self.peers[at].record_ask(block_id, deadline, &config);
        proof {
            self.lemma_changed_peer(*old(self), at as int);
            assert(self@.block_infos =~= old(self)@.block_infos);
        }
        if recorded {
            let mut ids: Vec<BlockId> = Vec::new();
            ids.push(block_id);
            assert(ids@ =~= seq![block_id]);
            commands.push(NetworkCommand::AskForBlock { peer, ids });
            assert(command_views(commands@) =~= seq![
                NetworkCommandView::AskForBlock { peer, ids: seq![block_id] },
            ]);
        } else {
            assert(command_views(commands@) =~= Seq::<NetworkCommandView>::empty());
        }
        commands
    }

    /// Drops the requests that are lost at time `now` and returns them, each as the
    /// peer that did not answer and the block, which may be asked from another peer.
    pub fn expire_requests(&mut self, now: u64) -> (lost: Vec<(NodeId, BlockId)>)
        requires
            old(self).well_formed(),
        ensures
            final(self).well_formed(),
            final(self)@ == old(self)@.expire_requests(now),
            lost@ == lost_requests(old(self)@.peers, now),
    {
        let mut lost: Vec<(NodeId, BlockId)> = Vec::new();
        let mut k: usize = 0;
        assert(old(self)@.peers.take(0) =~= Seq::<PeerModel>::empty());
        while k < self.peers.len()
            invariant
                k <= self.peers@.len(),
                self.peers@.len() == old(self).peers@.len(),
                self.config == old(self).config,
                self.context == old(self).context,
                self.block_infos == old(self).block_infos,
                self.checked_operations == old(self).checked_operations,
                self.checked_endorsements == old(self).checked_endorsements,
                old(self).well_formed(),
                lost@ == lost_requests(old(self)@.peers.take(k as int), now),
                forall|i: int| k <= i < self.peers@.len() ==> self.peers@[i] == old(self).peers@[i],
                forall|i: int|
                    0 <= i < self.peers@.len() ==> (#[trigger] self.peers@[i]).well_formed(
                        self.config,
                    ),
                forall|i: int|
                    0 <= i < k ==> (#[trigger] self.peers@[i])@ == old(self)@.expire_requests(
                        now,
                    ).peers[i],
            decreases self.peers@.len() - k,
        {
            proof {
                assert(old(self)@.peers.take(k + 1).drop_last() =~= old(self)@.peers.take(k as int));
                assert(old(self)@.peers.take(k + 1).last() == old(self)@.peers[k as int]);
                assert(old(self)@.peers[k as int] == old(self).peers@[k as int]@);
            }
            let config = self.config;
            let node = self.peers[k].node;
            let blocks = self.peers[k].expire(now, &config);
            let ghost lost_before = lost@;
            let mut j: usize = 0;
            while j < blocks.len()
                invariant
                    j <= blocks@.len(),
                    lost@ == lost_before + Seq::new(j as nat, |i: int| (node, blocks@[i])),
                decreases blocks@.len() - j,
            {
                lost.push((node, blocks[j]));
                assert(lost@ =~= lost_before + Seq::new((j + 1) as nat, |i: int| (node, blocks@[i])));
                j = j + 1;
            }
            assert(Seq::new(j as nat, |i: int| (node, blocks@[i])) =~= Seq::new(
                blocks@.len(),
                |i: int| (node, blocks@[i]),
            ));
            k = k + 1;
        }
        proof {
            assert(old(self)@.peers.take(k as int) =~= old(self)@.peers);
            assert(self@.peers =~= old(self)@.expire_requests(now).peers);
            assert(self@.block_infos =~= old(self)@.block_infos);
            assert forall|i: int| 0 <= i < self@.peers.len() implies (#[trigger] self@.peers[i]).node
                == old(self)@.peers[i].node && self@.peers[i].well_formed(self.config) by {
                assert(self.peers@[i].well_formed(self.config));
            }
        }
        lost
    }
}

/// A copy of the digests `ids`.
fn digests_copy(ids: &Vec<crate::hash::Hash>) -> (out: Vec<crate::hash::Hash>)
    ensures
        out@ == ids@,
{
    let mut out: Vec<crate::hash::Hash> = Vec::new();
    let mut k: usize = 0;
    while k < ids.len()
        invariant
            k <= ids@.len(),
            out@ == ids@.take(k as int),
        decreases ids@.len() - k,
    {
        out.push(ids[k]);
        assert(out@ =~= ids@.take(k + 1));
        k = k + 1;
    }
    assert(ids@.take(k as int) =~= ids@);
    out
}

} // verus!
