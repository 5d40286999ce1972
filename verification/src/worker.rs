//! The protocol worker: what each peer is believed to know, and what is sent to whom.
//! Every function of the worker is one step: it takes an event from the network or a
//! command from a consumer, updates the state and returns what to emit. The loop
//! that feeds it lives outside the library.

use vstd::prelude::*;
use crate::block::BlockId;
use crate::config::SerializationContext;
use crate::endorsement::{Endorsement, EndorsementId};
use crate::events::{
    command_views, NetworkCommand, NetworkCommandView, NodeId, ProtocolEvent, ProtocolEventView,
    ProtocolPoolEvent, ProtocolPoolEventView,
};
use crate::known_set::{lru_insert_all, lru_well_formed, KnownSet};
use crate::operation::{Operation, OperationId};
use crate::peer::{
    entry_digests, entry_digests_of, entry_objects, fresh_entries, select_unknown, take_fresh,
    unknown_entries, BlockInfo, BlockInfoModel, PeerInfo, PeerModel, ProtocolConfig,
};
use crate::validation::{
    all_endorsements_signed, all_operations_signed, check_endorsements, check_operations,
    endorsement_entries, operation_entries,
};

verus! {

/// The place of the peer `node` in `peers`, if it is connected.
pub open spec fn peer_index(peers: Seq<PeerModel>, node: NodeId) -> Option<int> {
    if exists|i: int| 0 <= i < peers.len() && (#[trigger] peers[i]).node == node {
        Some(choose|i: int| 0 <= i < peers.len() && (#[trigger] peers[i]).node == node)
    } else {
        None
    }
}

/// The place of the block `id` in `infos`, if its body is held.
pub open spec fn block_info_index(infos: Seq<BlockInfoModel>, id: BlockId) -> Option<int> {
    if exists|i: int| 0 <= i < infos.len() && (#[trigger] infos[i]).block_id == id {
        Some(choose|i: int| 0 <= i < infos.len() && (#[trigger] infos[i]).block_id == id)
    } else {
        None
    }
}

/// Whether no peer is recorded twice.
pub open spec fn distinct_peers(peers: Seq<PeerModel>) -> bool {
    forall|i: int, j: int|
        0 <= i < peers.len() && 0 <= j < peers.len() && i != j ==> (#[trigger] peers[i]).node != (
        #[trigger] peers[j]).node
}

/// Whether no block is remembered twice.
pub open spec fn distinct_blocks(infos: Seq<BlockInfoModel>) -> bool {
    forall|i: int, j: int|
        0 <= i < infos.len() && 0 <= j < infos.len() && i != j ==> (#[trigger] infos[i]).block_id
            != (#[trigger] infos[j]).block_id
}

/// What is remembered of blocks after `info` was recorded: it takes the place of what
/// was remembered of the same block, or comes last.
pub open spec fn record_block_info(infos: Seq<BlockInfoModel>, info: BlockInfoModel) -> Seq<
    BlockInfoModel,
> {
    match block_info_index(infos, info.block_id) {
        Some(at) => infos.update(at, info),
        None => infos.push(info),
    }
}

/// The orders that send, to each peer of `peers` in turn, the operations of `entries`
/// that the peer does not know. A peer that knows them all gets no order.
pub open spec fn operation_propagation(
    peers: Seq<PeerModel>,
    entries: Seq<(OperationId, Operation)>,
) -> Seq<NetworkCommandView>
    decreases peers.len(),
{
    if peers.len() == 0 {
        Seq::<NetworkCommandView>::empty()
    } else {
        let front = operation_propagation(peers.drop_last(), entries);
        let unknown = unknown_entries(peers.last().known_operations, entries);
        if unknown.len() == 0 {
            front
        } else {
            front.push(
                NetworkCommandView::SendOperations {
                    peer: peers.last().node,
                    operations: entry_objects(unknown),
                },
            )
        }
    }
}

/// The orders that send, to each peer of `peers` in turn, the endorsements of
/// `entries` that the peer does not know. A peer that knows them all gets no order.
pub open spec fn endorsement_propagation(
    peers: Seq<PeerModel>,
    entries: Seq<(EndorsementId, Endorsement)>,
) -> Seq<NetworkCommandView>
    decreases peers.len(),
{
    if peers.len() == 0 {
        Seq::<NetworkCommandView>::empty()
    } else {
        let front = endorsement_propagation(peers.drop_last(), entries);
        let unknown = unknown_entries(peers.last().known_endorsements, entries);
        if unknown.len() == 0 {
            front
        } else {
            front.push(
                NetworkCommandView::SendEndorsements {
                    peer: peers.last().node,
                    endorsements: entry_objects(unknown),
                },
            )
        }
    }
}

/// What a step on an event from the network emits.
#[derive(Debug, Clone)]
pub struct IngressResult {
    /// Orders to the network layer.
    pub network: Vec<NetworkCommand>,
    /// A message to the consensus engine.
    pub event: Option<ProtocolEvent>,
    /// A message to the pool.
    pub pool_event: Option<ProtocolPoolEvent>,
}

/// The value of what a step on an event from the network emits.
pub struct IngressResultView {
    pub network: Seq<NetworkCommandView>,
    pub event: Option<ProtocolEventView>,
    pub pool_event: Option<ProtocolPoolEventView>,
}

impl View for IngressResult {
    type V = IngressResultView;

    open spec fn view(&self) -> IngressResultView {
        IngressResultView {
            network: command_views(self.network@),
            event: match self.event {
                Some(e) => Some(e@),
                None => None,
            },
            pool_event: match self.pool_event {
                Some(e) => Some(e@),
                None => None,
            },
        }
    }
}

impl IngressResultView {
    /// Nothing is emitted.
    pub open spec fn silent() -> IngressResultView {
        IngressResultView { network: Seq::empty(), event: None, pool_event: None }
    }

    /// The peer `source` is reported to the network layer, and nothing else is emitted.
    pub open spec fn ban(source: NodeId) -> IngressResultView {
        IngressResultView {
            network: seq![NetworkCommandView::Ban { peer: source }],
            event: None,
            pool_event: None,
        }
    }
}

impl IngressResult {
    /// Emits nothing.
    pub fn silent() -> (r: IngressResult)
        ensures
            r@ == IngressResultView::silent(),
    {
        let r = IngressResult { network: Vec::new(), event: None, pool_event: None };
        assert(r@.network =~= Seq::empty());
        r
    }

    /// Reports `source` to the network layer.
    pub fn ban(source: NodeId) -> (r: IngressResult)
        ensures
            r@ == IngressResultView::ban(source),
    {
        let mut network: Vec<NetworkCommand> = Vec::new();
        network.push(NetworkCommand::Ban { peer: source });
        let r = IngressResult { network, event: None, pool_event: None };
        assert(r@.network =~= seq![NetworkCommandView::Ban { peer: source }]);
        r
    }
}

/// The value of the worker's state.
pub struct WorkerModel {
    pub config: ProtocolConfig,
    pub context: SerializationContext,
    /// The connected peers, in the order in which they connected.
    pub peers: Seq<PeerModel>,
    /// The blocks whose bodies are held locally.
    pub block_infos: Seq<BlockInfoModel>,
    /// The operations already handed to the pool, least recently used first.
    pub checked_operations: Seq<crate::hash::Hash>,
    /// The endorsements already handed to the pool, least recently used first.
    pub checked_endorsements: Seq<crate::hash::Hash>,
}

impl WorkerModel {
    /// What every state satisfies: no peer and no block twice, well-formed records.
    pub open spec fn well_formed(self) -> bool {
        &&& distinct_peers(self.peers)
        &&& distinct_blocks(self.block_infos)
        &&& forall|i: int|
            0 <= i < self.peers.len() ==> (#[trigger] self.peers[i]).well_formed(self.config)
        &&& lru_well_formed(self.checked_operations, self.config.max_known_ops_size as nat)
        &&& lru_well_formed(
            self.checked_endorsements,
            self.config.max_known_endorsements_size as nat,
        )
    }

    /// The state with other peer records.
    pub open spec fn with_peers(self, peers: Seq<PeerModel>) -> WorkerModel {
        WorkerModel { peers, ..self }
    }

    /// The state after the peer `node` connected: it gets an empty record, behind the
    /// others, unless it has one.
    pub open spec fn node_connected(self, node: NodeId) -> WorkerModel {
        match peer_index(self.peers, node) {
            Some(_at) => self,
            None => self.with_peers(self.peers.push(PeerModel::fresh(node))),
        }
    }

    /// The state after the peer `node` disconnected: its record is dropped.
    pub open spec fn node_disconnected(self, node: NodeId) -> WorkerModel {
        match peer_index(self.peers, node) {
            Some(at) => self.with_peers(self.peers.remove(at)),
            None => self,
        }
    }

    /// The state after the peer `source` sent the operations `operations`: when the
    /// peer is connected and every operation is signed, the peer knows them and they
    /// count as handed to the pool; else nothing changes.
    pub open spec fn received_operations(self, source: NodeId, operations: Seq<Operation>) -> WorkerModel {
        match peer_index(self.peers, source) {
            Some(at) => if all_operations_signed(operations) {
                let ids = entry_digests(operation_entries(operations));
                WorkerModel {
                    peers: self.peers.update(
                        at,
                        self.peers[at].note(Seq::empty(), ids, Seq::empty(), self.config),
                    ),
                    checked_operations: lru_insert_all(
                        self.checked_operations,
                        ids,
                        self.config.max_known_ops_size as nat,
                    ),
                    ..self
                }
            } else {
                self
            },
            None => self,
        }
    }

    /// What is emitted when the peer `source` sent the operations `operations`:
    /// nothing for a peer that is not connected; a ban when an operation is not
    /// signed; else the operations not handed to the pool before, to be propagated.
    pub open spec fn received_operations_output(
        self,
        source: NodeId,
        operations: Seq<Operation>,
    ) -> IngressResultView {
        match peer_index(self.peers, source) {
            Some(_at) => if all_operations_signed(operations) {
                let fresh = fresh_entries(
                    self.checked_operations,
                    operation_entries(operations),
                    self.config.max_known_ops_size as nat,
                );
                IngressResultView {
                    network: Seq::empty(),
                    event: None,
                    pool_event: if fresh.len() == 0 {
                        None
                    } else {
                        Some(
                            ProtocolPoolEventView::ReceivedOperations {
                                propagate: true,
                                operations: fresh,
                                source,
                            },
                        )
                    },
                }
            } else {
                IngressResultView::ban(source)
            },
            None => IngressResultView::silent(),
        }
    }

    /// The state after the peer `source` sent the endorsements `endorsements`: when
    /// the peer is connected and every endorsement is signed, the peer knows them and
    /// they count as handed to the pool; else nothing changes.
    pub open spec fn received_endorsements(
        self,
        source: NodeId,
        endorsements: Seq<Endorsement>,
    ) -> WorkerModel {
        match peer_index(self.peers, source) {
            Some(at) => if all_endorsements_signed(endorsements) {
                let ids = entry_digests(endorsement_entries(endorsements));
                WorkerModel {
                    peers: self.peers.update(
                        at,
                        self.peers[at].note(Seq::empty(), Seq::empty(), ids, self.config),
                    ),
                    checked_endorsements: lru_insert_all(
                        self.checked_endorsements,
                        ids,
                        self.config.max_known_endorsements_size as nat,
                    ),
                    ..self
                }
            } else {
                self
            },
            None => self,
        }
    }

    /// What is emitted when the peer `source` sent the endorsements `endorsements`:
    /// nothing for a peer that is not connected; a ban when an endorsement is not
    /// signed; else the endorsements not handed to the pool before, to be propagated.
    pub open spec fn received_endorsements_output(
        self,
        source: NodeId,
        endorsements: Seq<Endorsement>,
    ) -> IngressResultView {
        match peer_index(self.peers, source) {
            Some(_at) => if all_endorsements_signed(endorsements) {
                let fresh = fresh_entries(
                    self.checked_endorsements,
                    endorsement_entries(endorsements),
                    self.config.max_known_endorsements_size as nat,
                );
                IngressResultView {
                    network: Seq::empty(),
                    event: None,
                    pool_event: if fresh.len() == 0 {
                        None
                    } else {
                        Some(
                            ProtocolPoolEventView::ReceivedEndorsements {
                                propagate: true,
                                endorsements: fresh,
                                source,
                            },
                        )
                    },
                }
            } else {
                IngressResultView::ban(source)
            },
            None => IngressResultView::silent(),
        }
    }

    /// The state after the operations of `entries` were propagated: every peer knows
    /// those that were sent to it, which are those that it did not know.
    pub open spec fn propagate_operations(self, entries: Seq<(OperationId, Operation)>) -> WorkerModel {
        self.with_peers(
            Seq::new(
                self.peers.len(),
                |i: int|
                    self.peers[i].note(
                        Seq::empty(),
                        entry_digests(unknown_entries(self.peers[i].known_operations, entries)),
                        Seq::empty(),
                        self.config,
                    ),
            ),
        )
    }

    /// The state after the endorsements of `entries` were propagated: every peer knows
    /// those that were sent to it, which are those that it did not know.
    pub open spec fn propagate_endorsements(
        self,
        entries: Seq<(EndorsementId, Endorsement)>,
    ) -> WorkerModel {
        self.with_peers(
            Seq::new(
                self.peers.len(),
                |i: int|
                    self.peers[i].note(
                        Seq::empty(),
                        Seq::empty(),
                        entry_digests(unknown_entries(self.peers[i].known_endorsements, entries)),
                        self.config,
                    ),
            ),
        )
    }
}

/// The state of the protocol worker.
#[derive(Debug, Clone)]
pub struct ProtocolWorker {
    pub config: ProtocolConfig,
    pub context: SerializationContext,
    /// The connected peers, in the order in which they connected.
    pub peers: Vec<PeerInfo>,
    /// The blocks whose bodies are held locally.
    pub block_infos: Vec<BlockInfo>,
    /// The operations that were already handed to the pool.
    pub checked_operations: KnownSet,
    /// The endorsements that were already handed to the pool.
    pub checked_endorsements: KnownSet,
}

impl View for ProtocolWorker {
    type V = WorkerModel;

    open spec fn view(&self) -> WorkerModel {
        WorkerModel {
            config: self.config,
            context: self.context,
            peers: Seq::new(self.peers@.len(), |i: int| self.peers@[i]@),
            block_infos: Seq::new(self.block_infos@.len(), |i: int| self.block_infos@[i]@),
            checked_operations: self.checked_operations@,
            checked_endorsements: self.checked_endorsements@,
        }
    }
}

impl ProtocolWorker {
    /// What every worker satisfies: its value is well formed and its sets have the
    /// configured capacities.
    pub open spec fn well_formed(&self) -> bool {
        &&& self@.well_formed()
        &&& forall|i: int|
            0 <= i < self.peers@.len() ==> (#[trigger] self.peers@[i]).well_formed(self.config)
        &&& self.checked_operations.spec_capacity() == self.config.max_known_ops_size
        &&& self.checked_endorsements.spec_capacity() == self.config.max_known_endorsements_size
    }

    /// Whether this worker differs from `before` in no more than the record of the
    /// peer at `at`, which keeps its name.
    pub(crate) open spec fn changed_peer_only(&self, before: ProtocolWorker, at: int) -> bool {
        &&& 0 <= at < before.peers@.len()
        &&& self.peers@.len() == before.peers@.len()
        &&& self.config == before.config
        &&& self.context == before.context
        &&& self.peers@[at].well_formed(self.config)
        &&& self.peers@[at].node == before.peers@[at].node
        &&& forall|i: int|
            0 <= i < self.peers@.len() && i != at ==> self.peers@[i] == before.peers@[i]
    }

    /// Changing one peer's record, and not its name, keeps the peers well formed.
    pub(crate) proof fn lemma_changed_peer(&self, before: ProtocolWorker, at: int)
        requires
            before.well_formed(),
            self.changed_peer_only(before, at),
        ensures
            self@.peers == before@.peers.update(at, self.peers@[at]@),
            distinct_peers(self@.peers),
            forall|i: int|
                0 <= i < self.peers@.len() ==> (#[trigger] self.peers@[i]).well_formed(self.config),
            forall|i: int|
                0 <= i < self@.peers.len() ==> (#[trigger] self@.peers[i]).well_formed(self.config),
    {
        assert(self@.peers =~= before@.peers.update(at, self.peers@[at]@));
        assert forall|i: int| 0 <= i < self.peers@.len() implies (#[trigger] self.peers@[i]).well_formed(
            self.config,
        ) by {
            if i != at {
                assert(self.peers@[i] == before.peers@[i]);
            }
        }
        assert forall|i: int| 0 <= i < self@.peers.len() implies (#[trigger] self@.peers[i]).well_formed(
            self.config,
        ) by {
            assert(self.peers@[i].well_formed(self.config));
        }
        assert forall|i: int, j: int|
            0 <= i < self@.peers.len() && 0 <= j < self@.peers.len() && i != j implies (
        #[trigger] self@.peers[i]).node != (#[trigger] self@.peers[j]).node by {
            assert(self@.peers[i].node == before@.peers[i].node);
            assert(self@.peers[j].node == before@.peers[j].node);
        }
    }

    /// Whether the worker is well formed. A worker that was made by `new` and changed by
    /// its own steps always is.
    pub fn is_well_formed(&self) -> (well_formed: bool)
        ensures
            well_formed == self.well_formed(),
    {
        if self.checked_operations.capacity() != self.config.max_known_ops_size
            || self.checked_endorsements.capacity() != self.config.max_known_endorsements_size
            || !self.checked_operations.is_well_formed()
            || !self.checked_endorsements.is_well_formed() {
            return false;
        }
        let mut i: usize = 0;
        while i < self.peers.len()
            invariant
                i <= self.peers@.len(),
                forall|a: int| 0 <= a < i ==> (#[trigger] self.peers@[a]).well_formed(self.config),
                forall|a: int, b: int|
                    0 <= a < i && a < b < self.peers@.len() ==> self.peers@[a].node
                        != self.peers@[b].node,
            decreases self.peers@.len() - i,
        {
            if !self.peers[i].is_well_formed(&self.config) {
                assert(!self.peers@[i as int].well_formed(self.config));
                return false;
            }
            let mut j: usize = i + 1;
            while j < self.peers.len()
                invariant
                    i < self.peers@.len(),
                    i < j <= self.peers@.len(),
                    forall|b: int| i < b < j ==> self.peers@[i as int].node != self.peers@[b].node,
                decreases self.peers@.len() - j,
            {
                if self.peers[i].node.equals(&self.peers[j].node) {
                    assert(self@.peers[i as int].node == self@.peers[j as int].node);
                    return false;
                }
                j = j + 1;
            }
            i = i + 1;
        }
        let mut k: usize = 0;
        while k < self.block_infos.len()
            invariant
                k <= self.block_infos@.len(),
                forall|a: int, b: int|
                    0 <= a < k && a < b < self.block_infos@.len() ==> self.block_infos@[a].block_id
                        != self.block_infos@[b].block_id,
            decreases self.block_infos@.len() - k,
        {
            let mut j: usize = k + 1;
            while j < self.block_infos.len()
                invariant
                    k < self.block_infos@.len(),
                    k < j <= self.block_infos@.len(),
                    forall|b: int|
                        k < b < j ==> self.block_infos@[k as int].block_id
                            != self.block_infos@[b].block_id,
                decreases self.block_infos@.len() - j,
            {
                if self.block_infos[k].block_id.equals(&self.block_infos[j].block_id) {
                    assert(self@.block_infos[k as int].block_id == self@.block_infos[j as int].block_id);
                    return false;
                }
                j = j + 1;
            }
            k = k + 1;
        }
        proof {
            assert forall|a: int, b: int|
                0 <= a < self@.peers.len() && 0 <= b < self@.peers.len() && a != b implies (
            #[trigger] self@.peers[a]).node != (#[trigger] self@.peers[b]).node by {
                if a < b {
                    assert(self.peers@[a].node != self.peers@[b].node);
                } else {
                    assert(self.peers@[b].node != self.peers@[a].node);
                }
            }
            assert forall|a: int, b: int|
                0 <= a < self@.block_infos.len() && 0 <= b < self@.block_infos.len() && a
                    != b implies (#[trigger] self@.block_infos[a]).block_id != (
            #[trigger] self@.block_infos[b]).block_id by {
                if a < b {
                    assert(self.block_infos@[a].block_id != self.block_infos@[b].block_id);
                } else {
                    assert(self.block_infos@[b].block_id != self.block_infos@[a].block_id);
                }
            }
            assert forall|a: int| 0 <= a < self@.peers.len() implies (#[trigger] self@.peers[a]).well_formed(
                self.config,
            ) by {
                assert(self.peers@[a].well_formed(self.config));
            }
        }
        true
    }

    /// A worker without peers.
    pub fn new(config: ProtocolConfig, context: SerializationContext) -> (worker: ProtocolWorker)
        ensures
            worker@ == (WorkerModel {
                config,
                context,
                peers: Seq::empty(),
                block_infos: Seq::empty(),
                checked_operations: Seq::empty(),
                checked_endorsements: Seq::empty(),
            }),
            worker.well_formed(),
    {
        let worker = ProtocolWorker {
            config,
            context,
            peers: Vec::new(),
            block_infos: Vec::new(),
            checked_operations: KnownSet::new(config.max_known_ops_size),
            checked_endorsements: KnownSet::new(config.max_known_endorsements_size),
        };
        assert(worker@.peers =~= Seq::empty());
        assert(worker@.block_infos =~= Seq::empty());
        worker
    }

    /// The place of the peer `node`, if it is connected.
    pub fn find_peer(&self, node: &NodeId) -> (at: Option<usize>)
        requires
            self.well_formed(),
        ensures
            match at {
                Some(i) => peer_index(self@.peers, *node) == Some(i as int) && i
                    < self.peers@.len() && self.peers@[i as int].node == *node,
                None => peer_index(self@.peers, *node).is_none(),
            },
    {
        let mut k: usize = 0;
        while k < self.peers.len()
            invariant
                k <= self.peers@.len(),
                distinct_peers(self@.peers),
                forall|i: int| 0 <= i < k ==> (#[trigger] self@.peers[i]).node != *node,
            decreases self.peers@.len() - k,
        {
            if self.peers[k].node.equals(node) {
                proof {
                    assert(self@.peers[k as int].node == *node);
                    let chosen = peer_index(self@.peers, *node).unwrap();
                    assert(self@.peers[chosen].node == self@.peers[k as int].node);
                }
                return Some(k);
            }
            assert(self@.peers[k as int].node != *node);
            k = k + 1;
        }
        None
    }

    /// The place of what is remembered of the block `id`, if its body is held.
    pub fn find_block_info(&self, id: &BlockId) -> (at: Option<usize>)
        requires
            self.well_formed(),
        ensures
            match at {
                Some(i) => block_info_index(self@.block_infos, *id) == Some(i as int) && i
                    < self.block_infos@.len() && self.block_infos@[i as int].block_id == *id,
                None => block_info_index(self@.block_infos, *id).is_none(),
            },
    {
        let mut k: usize = 0;
        while k < self.block_infos.len()
            invariant
                k <= self.block_infos@.len(),
                distinct_blocks(self@.block_infos),
                forall|i: int| 0 <= i < k ==> (#[trigger] self@.block_infos[i]).block_id != *id,
            decreases self.block_infos@.len() - k,
        {
            if self.block_infos[k].block_id.equals(id) {
                proof {
                    assert(self@.block_infos[k as int].block_id == *id);
                    let chosen = block_info_index(self@.block_infos, *id).unwrap();
                    assert(self@.block_infos[chosen].block_id == self@.block_infos[k as int].block_id);
                }
                return Some(k);
            }
            assert(self@.block_infos[k as int].block_id != *id);
            k = k + 1;
        }
        None
    }

    /// A peer connected.
    pub fn node_connected(&mut self, node: NodeId)
        requires
            old(self).well_formed(),
        ensures
            final(self).well_formed(),
            final(self)@ == old(self)@.node_connected(node),
    {
        if self.find_peer(&node).is_none() {
            let peer = PeerInfo::new(node, &self.config);
            self.peers.push(peer);
            proof {
                assert(self@.peers =~= old(self)@.peers.push(PeerModel::fresh(node)));
                assert(self@.block_infos =~= old(self)@.block_infos);
                assert forall|i: int, j: int|
                    0 <= i < self@.peers.len() && 0 <= j < self@.peers.len() && i
                        != j implies (#[trigger] self@.peers[i]).node != (
                #[trigger] self@.peers[j]).node by {
                    if i < old(self)@.peers.len() {
                        assert(self@.peers[i] == old(self)@.peers[i]);
                    }
                    if j < old(self)@.peers.len() {
                        assert(self@.peers[j] == old(self)@.peers[j]);
                    }
                }
            }
        }
    }

    /// A peer disconnected.
    pub fn node_disconnected(&mut self, node: NodeId)
        requires
            old(self).well_formed(),
        ensures
            final(self).well_formed(),
            final(self)@ == old(self)@.node_disconnected(node),
    {
        match self.find_peer(&node) {
            Some(k) => {
                self.peers.remove(k);
                proof {
                    assert(self@.peers =~= old(self)@.peers.remove(k as int));
                    assert(self@.block_infos =~= old(self)@.block_infos);
                    assert forall|i: int| 0 <= i < self.peers@.len() implies (
                    #[trigger] self.peers@[i]).well_formed(self.config) by {
                        assert(self.peers@[i] == old(self).peers@[if i < k {
                            i
                        } else {
                            i + 1
                        }]);
                    }
                    assert forall|i: int| 0 <= i < self@.peers.len() implies #[trigger] self@.peers[i]
                        == old(self)@.peers[if i < k {
                        i
                    } else {
                        i + 1
                    }] by {}
                }
            },
            None => {},
        }
    }

    /// The peer `source` sent operations.
    pub fn received_operations(&mut self, source: NodeId, operations: &Vec<Operation>) -> (result:
        IngressResult)
        requires
            old(self).well_formed(),
        ensures
            final(self).well_formed(),
            final(self)@ == old(self)@.received_operations(source, operations@),
            result@ == old(self)@.received_operations_output(source, operations@),
    {
        let at = match self.find_peer(&source) {
            Some(at) => at,
            None => { return IngressResult::silent(); },
        };
        let entries = match check_operations(operations) {
            Some(entries) => entries,
            None => { return IngressResult::ban(source); },
        };
        let ids = entry_digests_of(&entries);
        let none: Vec<crate::hash::Hash> = Vec::new();
        let config = self.config;
        self.peers[at].note(&none, &ids, &none, &config);
        let fresh = take_fresh(&mut self.checked_operations, &entries);
        proof {
            assert(none@ =~= Seq::<crate::hash::Hash>::empty());
            self.lemma_changed_peer(*old(self), at as int);
            assert(self@.block_infos =~= old(self)@.block_infos);
        }
        let pool_event = if fresh.len() == 0 {
            None
        } else {
            Some(ProtocolPoolEvent::ReceivedOperations { propagate: true, operations: fresh, source })
        };
        let result = IngressResult { network: Vec::new(), event: None, pool_event };
        assert(result@.network =~= Seq::empty());
        result
    }

    /// The peer `source` sent endorsements.
    pub fn received_endorsements(&mut self, source: NodeId, endorsements: &Vec<Endorsement>) -> (result:
        IngressResult)
        requires
            old(self).well_formed(),
        ensures
            final(self).well_formed(),
            final(self)@ == old(self)@.received_endorsements(source, endorsements@),
            result@ == old(self)@.received_endorsements_output(source, endorsements@),
    {
        let at = match self.find_peer(&source) {
            Some(at) => at,
            None => { return IngressResult::silent(); },
        };
        let entries = match check_endorsements(endorsements) {
            Some(entries) => entries,
            None => { return IngressResult::ban(source); },
        };
        let ids = entry_digests_of(&entries);
        let none: Vec<crate::hash::Hash> = Vec::new();
        let config = self.config;
        self.peers[at].note(&none, &none, &ids, &config);
        let fresh = take_fresh(&mut self.checked_endorsements, &entries);
        proof {
            assert(none@ =~= Seq::<crate::hash::Hash>::empty());
            self.lemma_changed_peer(*old(self), at as int);
            assert(self@.block_infos =~= old(self)@.block_infos);
        }
        let pool_event = if fresh.len() == 0 {
            None
        } else {
            Some(
                ProtocolPoolEvent::ReceivedEndorsements {
                    propagate: true,
                    endorsements: fresh,
                    source,
                },
            )
        };
        let result = IngressResult { network: Vec::new(), event: None, pool_event };
        assert(result@.network =~= Seq::empty());
        result
    }

    /// Sends to every peer the operations of `entries` that it does not know, and notes
    /// that it knows them now.
    pub fn propagate_operations(&mut self, entries: &Vec<(OperationId, Operation)>) -> (commands:
        Vec<NetworkCommand>)
        requires
            old(self).well_formed(),
        ensures
            final(self).well_formed(),
            final(self)@ == old(self)@.propagate_operations(entries@),
            command_views(commands@) == operation_propagation(old(self)@.peers, entries@),
    {
        let mut commands: Vec<NetworkCommand> = Vec::new();
        let none: Vec<crate::hash::Hash> = Vec::new();
        let mut k: usize = 0;
        assert(old(self)@.peers.take(0) =~= Seq::<PeerModel>::empty());
        assert(command_views(commands@) =~= Seq::<NetworkCommandView>::empty());
        while k < self.peers.len()
            invariant
                k <= self.peers@.len(),
                none@.len() == 0,
                self.peers@.len() == old(self).peers@.len(),
                self.config == old(self).config,
                self.context == old(self).context,
                self.block_infos == old(self).block_infos,
                self.checked_operations == old(self).checked_operations,
                self.checked_endorsements == old(self).checked_endorsements,
                old(self).well_formed(),
                command_views(commands@) == operation_propagation(
                    old(self)@.peers.take(k as int),
                    entries@,
                ),
                forall|i: int| k <= i < self.peers@.len() ==> self.peers@[i] == old(self).peers@[i],
                forall|i: int|
                    0 <= i < self.peers@.len() ==> (#[trigger] self.peers@[i]).well_formed(
                        self.config,
                    ),
                forall|i: int|
                    0 <= i < k ==> (#[trigger] self.peers@[i])@ == old(self)@.propagate_operations(
                        entries@,
                    ).peers[i],
            decreases self.peers@.len() - k,
        {
            proof {
                assert(old(self)@.peers.take(k + 1).drop_last() =~= old(self)@.peers.take(k as int));
                assert(old(self)@.peers.take(k + 1).last() == old(self)@.peers[k as int]);
                assert(old(self)@.peers[k as int] == old(self).peers@[k as int]@);
            }
            let ghost views_before = command_views(commands@);
            let (objects, ids) = select_unknown(&self.peers[k].known_operations, entries);
            if objects.len() > 0 {
                let peer = self.peers[k].node;
                commands.push(NetworkCommand::SendOperations { peer, operations: objects });
                assert(command_views(commands@) =~= views_before.push(
                    NetworkCommandView::SendOperations { peer, operations: objects@ },
                ));
            }
            let config = self.config;
            self.peers[k].note(&none, &ids, &none, &config);
            proof {
                assert(none@ =~= Seq::<crate::hash::Hash>::empty());
            }
            k = k + 1;
        }
        proof {
            assert(old(self)@.peers.take(k as int) =~= old(self)@.peers);
            assert(self@.peers =~= old(self)@.propagate_operations(entries@).peers);
            assert(self@.block_infos =~= old(self)@.block_infos);
            assert forall|i: int| 0 <= i < self@.peers.len() implies (#[trigger] self@.peers[i]).node
                == old(self)@.peers[i].node && self@.peers[i].well_formed(self.config) by {
                assert(self.peers@[i].well_formed(self.config));
            }
        }
        commands
    }

    /// Sends to every peer the endorsements of `entries` that it does not know, and
    /// notes that it knows them now.
    pub fn propagate_endorsements(&mut self, entries: &Vec<(EndorsementId, Endorsement)>) -> (commands:
        Vec<NetworkCommand>)
        requires
            old(self).well_formed(),
        ensures
            final(self).well_formed(),
            final(self)@ == old(self)@.propagate_endorsements(entries@),
            command_views(commands@) == endorsement_propagation(old(self)@.peers, entries@),
    {
        let mut commands: Vec<NetworkCommand> = Vec::new();
        let none: Vec<crate::hash::Hash> = Vec::new();
        let mut k: usize = 0;
        assert(old(self)@.peers.take(0) =~= Seq::<PeerModel>::empty());
        assert(command_views(commands@) =~= Seq::<NetworkCommandView>::empty());
        while k < self.peers.len()
            invariant
                k <= self.peers@.len(),
                none@.len() == 0,
                self.peers@.len() == old(self).peers@.len(),
                self.config == old(self).config,
                self.context == old(self).context,
                self.block_infos == old(self).block_infos,
                self.checked_operations == old(self).checked_operations,
                self.checked_endorsements == old(self).checked_endorsements,
                old(self).well_formed(),
                command_views(commands@) == endorsement_propagation(
                    old(self)@.peers.take(k as int),
                    entries@,
                ),
                forall|i: int| k <= i < self.peers@.len() ==> self.peers@[i] == old(self).peers@[i],
                forall|i: int|
                    0 <= i < self.peers@.len() ==> (#[trigger] self.peers@[i]).well_formed(
                        self.config,
                    ),
                forall|i: int|
                    0 <= i < k ==> (#[trigger] self.peers@[i])@ == old(self)@.propagate_endorsements(entries@).peers[i],
            decreases self.peers@.len() - k,
        {
            proof {
                assert(old(self)@.peers.take(k + 1).drop_last() =~= old(self)@.peers.take(k as int));
                assert(old(self)@.peers.take(k + 1).last() == old(self)@.peers[k as int]);
                assert(old(self)@.peers[k as int] == old(self).peers@[k as int]@);
            }
            let ghost views_before = command_views(commands@);
            let (objects, ids) = select_unknown(&self.peers[k].known_endorsements, entries);
            if objects.len() > 0 {
                let peer = self.peers[k].node;
                commands.push(NetworkCommand::SendEndorsements { peer, endorsements: objects });
                assert(command_views(commands@) =~= views_before.push(
                    NetworkCommandView::SendEndorsements { peer, endorsements: objects@ },
                ));
            }
            let config = self.config;
            self.peers[k].note(&none, &none, &ids, &config);
            proof {
                assert(none@ =~= Seq::<crate::hash::Hash>::empty());
            }
            k = k + 1;
        }
        proof {
            assert(old(self)@.peers.take(k as int) =~= old(self)@.peers);
            assert(self@.peers =~= old(self)@.propagate_endorsements(entries@).peers);
            assert(self@.block_infos =~= old(self)@.block_infos);
            assert forall|i: int| 0 <= i < self@.peers.len() implies (#[trigger] self@.peers[i]).node
                == old(self)@.peers[i].node && self@.peers[i].well_formed(self.config) by {
                assert(self.peers@[i].well_formed(self.config));
            }
        }
        commands
    }
}

} // verus!
