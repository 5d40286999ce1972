//! What the worker tracks of one connected peer, and the selections that decide what
//! a peer or the pool has not seen yet.

use vstd::prelude::*;
use crate::block::BlockId;
use crate::endorsement::EndorsementId;
use crate::events::NodeId;
use crate::known_set::{
    lemma_lru_insert_all_well_formed, lru_insert_all, lru_well_formed, KnownSet,
};
use crate::operation::OperationId;
use crate::requests::{
    alive_requests, expired_blocks, is_pending, one_request_per_block, with_all_pending,
    with_pending, without_pending, PendingBlock, PendingRequests,
};

verus! {

/// An identifier that is a digest.
pub trait Identifier: Copy {
    /// The digest.
    spec fn spec_digest(&self) -> crate::hash::Hash;

    /// The digest.
    fn digest(&self) -> (h: crate::hash::Hash)
        ensures
            h == self.spec_digest(),
    ;

    /// Two identifiers with the same digest are the same identifier.
    proof fn lemma_same_digest(a: Self, b: Self)
        requires
            a.spec_digest() == b.spec_digest(),
        ensures
            a == b,
    ;
}

impl Identifier for BlockId {
    open spec fn spec_digest(&self) -> crate::hash::Hash {
        self.0
    }

    fn digest(&self) -> (h: crate::hash::Hash) {
        self.0
    }

    proof fn lemma_same_digest(a: Self, b: Self) {
    }
}

impl Identifier for OperationId {
    open spec fn spec_digest(&self) -> crate::hash::Hash {
        self.0
    }

    fn digest(&self) -> (h: crate::hash::Hash) {
        self.0
    }

    proof fn lemma_same_digest(a: Self, b: Self) {
    }
}

impl Identifier for EndorsementId {
    open spec fn spec_digest(&self) -> crate::hash::Hash {
        self.0
    }

    fn digest(&self) -> (h: crate::hash::Hash) {
        self.0
    }

    proof fn lemma_same_digest(a: Self, b: Self) {
    }
}

/// The digests of the identifiers `ids`, in their order.
pub open spec fn digests<I: Identifier>(ids: Seq<I>) -> Seq<crate::hash::Hash> {
    Seq::new(ids.len(), |i: int| ids[i].spec_digest())
}

/// The identifiers of the entries `entries`, as digests, in their order.
pub open spec fn entry_digests<I: Identifier, T>(entries: Seq<(I, T)>) -> Seq<crate::hash::Hash> {
    Seq::new(entries.len(), |i: int| entries[i].0.spec_digest())
}

/// The objects of the entries `entries`, in their order.
pub open spec fn entry_objects<I: Identifier, T>(entries: Seq<(I, T)>) -> Seq<T> {
    Seq::new(entries.len(), |i: int| entries[i].1)
}

/// The entries of `entries` whose identifier is not in `known`, in their order.
pub open spec fn unknown_entries<I: Identifier, T>(
    known: Seq<crate::hash::Hash>,
    entries: Seq<(I, T)>,
) -> Seq<(I, T)>
    decreases entries.len(),
{
    if entries.len() == 0 {
        entries
    } else if known.contains(entries.last().0.spec_digest()) {
        unknown_entries(known, entries.drop_last())
    } else {
        unknown_entries(known, entries.drop_last()).push(entries.last())
    }
}

/// The entries of `entries` that were not seen when their turn came: an entry is seen
/// when its identifier is in `checked` after the entries before it were added there.
pub open spec fn fresh_entries<I: Identifier, T>(
    checked: Seq<crate::hash::Hash>,
    entries: Seq<(I, T)>,
    capacity: nat,
) -> Seq<(I, T)>
    decreases entries.len(),
{
    if entries.len() == 0 {
        entries
    } else {
        let front = fresh_entries(checked, entries.drop_last(), capacity);
        let seen = lru_insert_all(checked, entry_digests(entries.drop_last()), capacity);
        if seen.contains(entries.last().0.spec_digest()) {
            front
        } else {
            front.push(entries.last())
        }
    }
}

/// The digests of `ids`, as a vector.
pub fn digests_of<I: Identifier>(ids: &Vec<I>) -> (out: Vec<crate::hash::Hash>)
    ensures
        out@ == digests(ids@),
{
    let mut out: Vec<crate::hash::Hash> = Vec::new();
    let mut k: usize = 0;
    while k < ids.len()
        invariant
            k <= ids@.len(),
            out@.len() == k,
            forall|i: int| 0 <= i < k ==> out@[i] == ids@[i].spec_digest(),
        decreases ids@.len() - k,
    {
        out.push(ids[k].digest());
        k = k + 1;
    }
    assert(out@ =~= digests(ids@));
    out
}

/// The identifiers of `entries`, as a vector of digests.
pub fn entry_digests_of<I: Identifier, T>(entries: &Vec<(I, T)>) -> (out: Vec<crate::hash::Hash>)
    ensures
        out@ == entry_digests(entries@),
{
    let mut out: Vec<crate::hash::Hash> = Vec::new();
    let mut k: usize = 0;
    while k < entries.len()
        invariant
            k <= entries@.len(),
            out@.len() == k,
            forall|i: int| 0 <= i < k ==> out@[i] == entries@[i].0.spec_digest(),
        decreases entries@.len() - k,
    {
        out.push(entries[k].0.digest());
        k = k + 1;
    }
    assert(out@ =~= entry_digests(entries@));
    out
}

/// Splits off the entries that `known` does not hold: their objects and their digests.
pub fn select_unknown<I: Identifier, T: Copy>(known: &KnownSet, entries: &Vec<(I, T)>) -> (selected: (
    Vec<T>,
    Vec<crate::hash::Hash>,
))
    ensures
        selected.0@ == entry_objects(unknown_entries(known@, entries@)),
        selected.1@ == entry_digests(unknown_entries(known@, entries@)),
{
    let mut objects: Vec<T> = Vec::new();
    let mut ids: Vec<crate::hash::Hash> = Vec::new();
    let mut k: usize = 0;
    while k < entries.len()
        invariant
            k <= entries@.len(),
            objects@ == entry_objects(unknown_entries(known@, entries@.take(k as int))),
            ids@ == entry_digests(unknown_entries(known@, entries@.take(k as int))),
        decreases entries@.len() - k,
    {
        proof {
            assert(entries@.take(k + 1).drop_last() =~= entries@.take(k as int));
            assert(entries@.take(k + 1).last() == entries@[k as int]);
        }
        let id = entries[k].0.digest();
        if !known.contains(&id) {
            objects.push(entries[k].1);
            ids.push(id);
            proof {
                let front = unknown_entries(known@, entries@.take(k as int));
                assert(objects@ =~= entry_objects(front.push(entries@[k as int])));
                assert(ids@ =~= entry_digests(front.push(entries@[k as int])));
            }
        }
        k = k + 1;
    }
    assert(entries@.take(k as int) =~= entries@);
    (objects, ids)
}

/// Adds the identifiers of `entries` to `checked`, one after the other, and returns
/// the entries that were not seen when their turn came.
pub fn take_fresh<I: Identifier, T: Copy>(checked: &mut KnownSet, entries: &Vec<(I, T)>) -> (fresh:
    Vec<(I, T)>)
    requires
        old(checked).well_formed(),
    ensures
        final(checked).well_formed(),
        final(checked).spec_capacity() == old(checked).spec_capacity(),
        final(checked)@ == lru_insert_all(
            old(checked)@,
            entry_digests(entries@),
            old(checked).spec_capacity(),
        ),
        fresh@ == fresh_entries(old(checked)@, entries@, old(checked).spec_capacity()),
{
    let mut fresh: Vec<(I, T)> = Vec::new();
    let mut k: usize = 0;
    while k < entries.len()
        invariant
            k <= entries@.len(),
            checked.well_formed(),
            checked.spec_capacity() == old(checked).spec_capacity(),
            checked@ == lru_insert_all(
                old(checked)@,
                entry_digests(entries@.take(k as int)),
                old(checked).spec_capacity(),
            ),
            fresh@ == fresh_entries(
                old(checked)@,
                entries@.take(k as int),
                old(checked).spec_capacity(),
            ),
        decreases entries@.len() - k,
    {
        proof {
            assert(entries@.take(k + 1).drop_last() =~= entries@.take(k as int));
            assert(entries@.take(k + 1).last() == entries@[k as int]);
            assert(entry_digests(entries@.take(k + 1)).drop_last() =~= entry_digests(
                entries@.take(k as int),
            ));
        }
        let id = entries[k].0.digest();
        if !checked.contains(&id) {
            fresh.push(entries[k]);
        }
        checked.insert(id);
        k = k + 1;
    }
    assert(entries@.take(k as int) =~= entries@);
    fresh
}

/// Sizes of the per-peer knowledge sets and the patience for block requests.
#[derive(Clone, Copy, Debug, PartialEq, Eq)]
pub struct ProtocolConfig {
    /// Capacity of each peer's set of known blocks.
    pub max_known_blocks_size: usize,
    /// Capacity of each peer's set of known operations, and of the set of operations
    /// already handed to the pool.
    pub max_known_ops_size: usize,
    /// Capacity of each peer's set of known endorsements, and of the set of
    /// endorsements already handed to the pool.
    pub max_known_endorsements_size: usize,
    /// Time to wait for a block that was asked for, in the unit of the caller's clock.
    pub ask_block_timeout: u64,
}

/// The value of a peer's record.
pub struct PeerModel {
    pub node: NodeId,
    /// The blocks that the peer is believed to know, least recently used first.
    pub known_blocks: Seq<crate::hash::Hash>,
    /// The operations that the peer is believed to know, least recently used first.
    pub known_operations: Seq<crate::hash::Hash>,
    /// The endorsements that the peer is believed to know, least recently used first.
    pub known_endorsements: Seq<crate::hash::Hash>,
    /// The blocks that the peer asked us for and did not get yet.
    pub wanted: Seq<PendingBlock>,
    /// The blocks that we asked the peer for and did not get yet.
    pub asked: Seq<PendingBlock>,
}

impl PeerModel {
    /// The record of a peer that has just connected.
    pub open spec fn fresh(node: NodeId) -> PeerModel {
        PeerModel {
            node,
            known_blocks: Seq::empty(),
            known_operations: Seq::empty(),
            known_endorsements: Seq::empty(),
            wanted: Seq::empty(),
            asked: Seq::empty(),
        }
    }

    /// What every record satisfies under `config`.
    pub open spec fn well_formed(self, config: ProtocolConfig) -> bool {
        &&& lru_well_formed(self.known_blocks, config.max_known_blocks_size as nat)
        &&& lru_well_formed(self.known_operations, config.max_known_ops_size as nat)
        &&& lru_well_formed(self.known_endorsements, config.max_known_endorsements_size as nat)
        &&& one_request_per_block(self.wanted)
        &&& one_request_per_block(self.asked)
    }

    /// The record after the peer was noted to know the blocks `blocks`, the operations
    /// `operations` and the endorsements `endorsements`, one after the other.
    pub open spec fn note(
        self,
        blocks: Seq<crate::hash::Hash>,
        operations: Seq<crate::hash::Hash>,
        endorsements: Seq<crate::hash::Hash>,
        config: ProtocolConfig,
    ) -> PeerModel {
        PeerModel {
            node: self.node,
            known_blocks: lru_insert_all(
                self.known_blocks,
                blocks,
                config.max_known_blocks_size as nat,
            ),
            known_operations: lru_insert_all(
                self.known_operations,
                operations,
                config.max_known_ops_size as nat,
            ),
            known_endorsements: lru_insert_all(
                self.known_endorsements,
                endorsements,
                config.max_known_endorsements_size as nat,
            ),
            wanted: self.wanted,
            asked: self.asked,
        }
    }

    /// The record with other wanted blocks.
    pub open spec fn with_wanted(self, wanted: Seq<PendingBlock>) -> PeerModel {
        PeerModel {
            node: self.node,
            known_blocks: self.known_blocks,
            known_operations: self.known_operations,
            known_endorsements: self.known_endorsements,
            wanted,
            asked: self.asked,
        }
    }

    /// The record with other asked blocks.
    pub open spec fn with_asked(self, asked: Seq<PendingBlock>) -> PeerModel {
        PeerModel {
            node: self.node,
            known_blocks: self.known_blocks,
            known_operations: self.known_operations,
            known_endorsements: self.known_endorsements,
            wanted: self.wanted,
            asked,
        }
    }
}

/// Noting keeps a record well formed.
pub proof fn lemma_note_well_formed(
    peer: PeerModel,
    blocks: Seq<crate::hash::Hash>,
    operations: Seq<crate::hash::Hash>,
    endorsements: Seq<crate::hash::Hash>,
    config: ProtocolConfig,
)
    requires
        peer.well_formed(config),
    ensures
        peer.note(blocks, operations, endorsements, config).well_formed(config),
{
    lemma_lru_insert_all_well_formed(peer.known_blocks, blocks, config.max_known_blocks_size as nat);
    lemma_lru_insert_all_well_formed(
        peer.known_operations,
        operations,
        config.max_known_ops_size as nat,
    );
    lemma_lru_insert_all_well_formed(
        peer.known_endorsements,
        endorsements,
        config.max_known_endorsements_size as nat,
    );
}

/// What is tracked of one connected peer.
#[derive(Debug, Clone)]
pub struct PeerInfo {
    pub node: NodeId,
    pub known_blocks: KnownSet,
    pub known_operations: KnownSet,
    pub known_endorsements: KnownSet,
    pub requests: PendingRequests,
}

impl View for PeerInfo {
    type V = PeerModel;

    open spec fn view(&self) -> PeerModel {
        PeerModel {
            node: self.node,
            known_blocks: self.known_blocks@,
            known_operations: self.known_operations@,
            known_endorsements: self.known_endorsements@,
            wanted: self.requests.wanted@,
            asked: self.requests.asked@,
        }
    }
}

impl PeerInfo {
    /// What every peer record satisfies under `config`: its value is well formed and
    /// its sets have the configured capacities.
    pub open spec fn well_formed(&self, config: ProtocolConfig) -> bool {
        &&& self@.well_formed(config)
        &&& self.known_blocks.spec_capacity() == config.max_known_blocks_size
        &&& self.known_operations.spec_capacity() == config.max_known_ops_size
        &&& self.known_endorsements.spec_capacity() == config.max_known_endorsements_size
    }

    /// Whether the record is well formed under `config`.
    pub fn is_well_formed(&self, config: &ProtocolConfig) -> (well_formed: bool)
        ensures
            well_formed == self.well_formed(*config),
    {
        self.known_blocks.capacity() == config.max_known_blocks_size
            && self.known_operations.capacity() == config.max_known_ops_size
            && self.known_endorsements.capacity() == config.max_known_endorsements_size
            && self.known_blocks.is_well_formed() && self.known_operations.is_well_formed()
            && self.known_endorsements.is_well_formed() && self.requests.is_well_formed()
    }

    /// The record of a peer that has just connected: it knows nothing and nothing is
    /// pending.
    pub fn new(node: NodeId, config: &ProtocolConfig) -> (peer: PeerInfo)
        ensures
            peer@ == PeerModel::fresh(node),
            peer.well_formed(*config),
    {
        let peer = PeerInfo {
            node,
            known_blocks: KnownSet::new(config.max_known_blocks_size),
            known_operations: KnownSet::new(config.max_known_ops_size),
            known_endorsements: KnownSet::new(config.max_known_endorsements_size),
            requests: PendingRequests::new(),
        };
        assert(peer.requests.wanted@ =~= Seq::<PendingBlock>::empty());
        assert(peer.requests.asked@ =~= Seq::<PendingBlock>::empty());
        peer
    }

    /// Notes that the peer knows the given blocks, operations and endorsements.
    pub fn note(
        &mut self,
        blocks: &Vec<crate::hash::Hash>,
        operations: &Vec<crate::hash::Hash>,
        endorsements: &Vec<crate::hash::Hash>,
        config: &ProtocolConfig,
    )
        requires
            old(self).well_formed(*config),
        ensures
            final(self).well_formed(*config),
            final(self)@ == old(self)@.note(blocks@, operations@, endorsements@, *config),
    {
        self.known_blocks.insert_all(blocks);
        self.known_operations.insert_all(operations);
        self.known_endorsements.insert_all(endorsements);
    }

    /// Records that the peer asked us for the blocks `ids`, each until `deadline`.
    pub fn note_wanted_all(&mut self, ids: &Vec<BlockId>, deadline: u64, config: &ProtocolConfig)
        requires
            old(self).well_formed(*config),
        ensures
            final(self).well_formed(*config),
            final(self)@ == old(self)@.with_wanted(
                with_all_pending(old(self)@.wanted, ids@, deadline),
            ),
    {
        let mut k: usize = 0;
        while k < ids.len()
            invariant
                k <= ids@.len(),
                self.well_formed(*config),
                self@ == old(self)@.with_wanted(
                    with_all_pending(old(self)@.wanted, ids@.take(k as int), deadline),
                ),
            decreases ids@.len() - k,
        {
            proof {
                assert(ids@.take(k + 1).drop_last() =~= ids@.take(k as int));
                assert(ids@.take(k + 1).last() == ids@[k as int]);
            }
            self.requests.note_wanted(ids[k], deadline);
            k = k + 1;
        }
        assert(ids@.take(k as int) =~= ids@);
    }

    /// Forgets that the peer asked us for `id`; says whether it had.
    pub fn take_wanted(&mut self, id: &BlockId, config: &ProtocolConfig) -> (was_wanted: bool)
        requires
            old(self).well_formed(*config),
        ensures
            final(self).well_formed(*config),
            was_wanted == is_pending(old(self)@.wanted, *id),
            final(self)@ == old(self)@.with_wanted(without_pending(old(self)@.wanted, *id)),
    {
        self.requests.take_wanted(id)
    }

    /// Forgets our request for `id`, which the peer answered.
    pub fn answer(&mut self, id: &BlockId, config: &ProtocolConfig)
        requires
            old(self).well_formed(*config),
        ensures
            final(self).well_formed(*config),
            final(self)@ == old(self)@.with_asked(without_pending(old(self)@.asked, *id)),
    {
        self.requests.answer(id);
    }

    /// Records that we ask the peer for `id` until `deadline`; says whether the request
    /// is new.
    pub fn record_ask(&mut self, id: BlockId, deadline: u64, config: &ProtocolConfig) -> (recorded:
        bool)
        requires
            old(self).well_formed(*config),
        ensures
            final(self).well_formed(*config),
            recorded == !is_pending(old(self)@.asked, id),
            final(self)@ == old(self)@.with_asked(with_pending(old(self)@.asked, id, deadline)),
    {
        self.requests.record_ask(id, deadline)
    }

    /// Drops the requests, in both directions, that are lost at time `now`, and returns
    /// the blocks that we asked for in vain.
    pub fn expire(&mut self, now: u64, config: &ProtocolConfig) -> (lost: Vec<BlockId>)
        requires
            old(self).well_formed(*config),
        ensures
            final(self).well_formed(*config),
            final(self)@ == old(self)@.with_wanted(
                alive_requests(old(self)@.wanted, now),
            ).with_asked(alive_requests(old(self)@.asked, now)),
            lost@ == expired_blocks(old(self)@.asked, now),
    {
        self.requests.expire(now)
    }
}

/// The value of what is remembered of a block whose body is held locally.
pub struct BlockInfoModel {
    pub block_id: BlockId,
    pub operations: Seq<crate::hash::Hash>,
    pub endorsements: Seq<crate::hash::Hash>,
}

/// What is remembered of a block whose body is held locally: the identifiers of its
/// operations and of its endorsements.
#[derive(Debug, Clone)]
pub struct BlockInfo {
    pub block_id: BlockId,
    pub operations: Vec<crate::hash::Hash>,
    pub endorsements: Vec<crate::hash::Hash>,
}

impl View for BlockInfo {
    type V = BlockInfoModel;

    open spec fn view(&self) -> BlockInfoModel {
        BlockInfoModel {
            block_id: self.block_id,
            operations: self.operations@,
            endorsements: self.endorsements@,
        }
    }
}

} // verus!
