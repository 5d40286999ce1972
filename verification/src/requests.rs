//! Pending block requests of one peer: the blocks that the peer asked us for, and the
//! blocks that we asked the peer for, each with the time at which waiting ends.

use vstd::prelude::*;
use crate::block::BlockId;

verus! {

/// A block that is waited for.
#[derive(Clone, Copy, Debug, PartialEq, Eq)]
pub struct PendingBlock {
    pub block_id: BlockId,
    /// The time from which on the request counts as lost.
    pub deadline: u64,
}

/// The requests of one peer, in both directions.
#[derive(Debug, Clone)]
pub struct PendingRequests {
    /// Blocks that the peer asked us for and that we did not send yet.
    pub wanted: Vec<PendingBlock>,
    /// Blocks that we asked the peer for and that did not arrive yet.
    pub asked: Vec<PendingBlock>,
}

/// Whether one of the requests `pending` is for `id`.
pub open spec fn is_pending(pending: Seq<PendingBlock>, id: BlockId) -> bool {
    exists|i: int| 0 <= i < pending.len() && (#[trigger] pending[i]).block_id == id
}

/// The place of the request for `id` in `pending`.
pub open spec fn pending_index(pending: Seq<PendingBlock>, id: BlockId) -> int {
    choose|i: int| 0 <= i < pending.len() && (#[trigger] pending[i]).block_id == id
}

/// Whether no block is requested twice.
pub open spec fn one_request_per_block(pending: Seq<PendingBlock>) -> bool {
    forall|i: int, j: int|
        0 <= i < pending.len() && 0 <= j < pending.len() && i != j ==> (
        #[trigger] pending[i]).block_id != (#[trigger] pending[j]).block_id
}

/// The requests `pending` with one for `id` until `deadline`, unless one for `id` is
/// outstanding.
pub open spec fn with_pending(pending: Seq<PendingBlock>, id: BlockId, deadline: u64) -> Seq<
    PendingBlock,
> {
    if is_pending(pending, id) {
        pending
    } else {
        pending.push(PendingBlock { block_id: id, deadline })
    }
}

/// The requests `pending` with one until `deadline` for each of `ids` in turn, unless
/// one for it is outstanding.
pub open spec fn with_all_pending(pending: Seq<PendingBlock>, ids: Seq<BlockId>, deadline: u64) -> Seq<
    PendingBlock,
>
    decreases ids.len(),
{
    if ids.len() == 0 {
        pending
    } else {
        with_pending(with_all_pending(pending, ids.drop_last(), deadline), ids.last(), deadline)
    }
}

/// The requests `pending` without the one for `id`.
pub open spec fn without_pending(pending: Seq<PendingBlock>, id: BlockId) -> Seq<PendingBlock> {
    if is_pending(pending, id) {
        pending.remove(pending_index(pending, id))
    } else {
        pending
    }
}

/// The requests of `pending` that are still alive at time `now`, in their order.
pub open spec fn alive_requests(pending: Seq<PendingBlock>, now: u64) -> Seq<PendingBlock>
    decreases pending.len(),
{
    if pending.len() == 0 {
        pending
    } else if pending.last().deadline > now {
        alive_requests(pending.drop_last(), now).push(pending.last())
    } else {
        alive_requests(pending.drop_last(), now)
    }
}

/// The blocks whose requests in `pending` are lost at time `now`, in their order.
pub open spec fn expired_blocks(pending: Seq<PendingBlock>, now: u64) -> Seq<BlockId>
    decreases pending.len(),
{
    if pending.len() == 0 {
        Seq::<BlockId>::empty()
    } else if pending.last().deadline > now {
        expired_blocks(pending.drop_last(), now)
    } else {
        expired_blocks(pending.drop_last(), now).push(pending.last().block_id)
    }
}

/// The requests that stay alive were there, have their deadlines ahead, and keep one
/// request per block.
pub proof fn lemma_alive_requests(pending: Seq<PendingBlock>, now: u64)
    ensures
        forall|i: int|
            0 <= i < alive_requests(pending, now).len() ==> (#[trigger] alive_requests(
                pending,
                now,
            )[i]).deadline > now && pending.contains(alive_requests(pending, now)[i]),
        alive_requests(pending, now).len() <= pending.len(),
        forall|id: BlockId|
            is_pending(alive_requests(pending, now), id) ==> is_pending(pending, id),
        one_request_per_block(pending) ==> one_request_per_block(alive_requests(pending, now)),
    decreases pending.len(),
{
    let alive = alive_requests(pending, now);
    if pending.len() > 0 {
        let front = pending.drop_last();
        let alive_front = alive_requests(front, now);
        lemma_alive_requests(front, now);
        assert forall|i: int| 0 <= i < alive.len() implies (#[trigger] alive[i]).deadline > now
            && pending.contains(alive[i]) by {
            if i < alive_front.len() {
                let k = front.index_of(alive_front[i]);
                assert(pending[k] == alive_front[i]);
            } else {
                assert(pending[pending.len() - 1] == alive[i]);
            }
        }
        assert forall|id: BlockId| is_pending(alive, id) implies is_pending(pending, id) by {
            let i = choose|i: int| 0 <= i < alive.len() && (#[trigger] alive[i]).block_id == id;
            let k = pending.index_of(alive[i]);
            assert(pending[k].block_id == id);
        }
        if one_request_per_block(pending) {
            assert(one_request_per_block(front)) by {
                assert forall|i: int, j: int|
                    0 <= i < front.len() && 0 <= j < front.len() && i != j implies (
                #[trigger] front[i]).block_id != (#[trigger] front[j]).block_id by {
                    assert(front[i] == pending[i] && front[j] == pending[j]);
                }
            }
            assert forall|i: int, j: int|
                0 <= i < alive.len() && 0 <= j < alive.len() && i != j implies (
            #[trigger] alive[i]).block_id != (#[trigger] alive[j]).block_id by {
                if i < alive_front.len() && j < alive_front.len() {
                    assert(alive[i] == alive_front[i] && alive[j] == alive_front[j]);
                } else {
                    let inner = if i < j {
                        i
                    } else {
                        j
                    };
                    assert(alive[inner] == alive_front[inner]);
                    let k = front.index_of(alive_front[inner]);
                    assert(pending[k] == alive_front[inner]);
                    assert(pending[pending.len() - 1] == pending.last());
                }
            }
        }
    }
}

/// Where the request for `id` stands in `pending`.
fn position_of(pending: &Vec<PendingBlock>, id: &BlockId) -> (at: Option<usize>)
    ensures
        match at {
            Some(k) => k < pending@.len() && pending@[k as int].block_id == *id,
            None => !is_pending(pending@, *id),
        },
{
    let mut k: usize = 0;
    while k < pending.len()
        invariant
            k <= pending@.len(),
            forall|i: int| 0 <= i < k ==> pending@[i].block_id != *id,
        decreases pending@.len() - k,
    {
        if pending[k].block_id.equals(id) {
            return Some(k);
        }
        k = k + 1;
    }
    None
}

/// Whether no block is requested twice in `pending`.
fn has_one_request_per_block(pending: &Vec<PendingBlock>) -> (holds: bool)
    ensures
        holds == one_request_per_block(pending@),
{
    let mut i: usize = 0;
    while i < pending.len()
        invariant
            i <= pending@.len(),
            forall|a: int, b: int|
                0 <= a < i && a < b < pending@.len() ==> pending@[a].block_id
                    != pending@[b].block_id,
        decreases pending@.len() - i,
    {
        let mut j: usize = i + 1;
        while j < pending.len()
            invariant
                i < pending@.len(),
                i < j <= pending@.len(),
                forall|b: int| i < b < j ==> pending@[i as int].block_id != pending@[b].block_id,
            decreases pending@.len() - j,
        {
            if pending[i].block_id.equals(&pending[j].block_id) {
                assert(pending@[i as int].block_id == pending@[j as int].block_id);
                return false;
            }
            j = j + 1;
        }
        i = i + 1;
    }
    assert forall|a: int, b: int|
        0 <= a < pending@.len() && 0 <= b < pending@.len() && a != b implies (
    #[trigger] pending@[a]).block_id != (#[trigger] pending@[b]).block_id by {
        if a < b {
            assert(pending@[a].block_id != pending@[b].block_id);
        } else {
            assert(pending@[b].block_id != pending@[a].block_id);
        }
    }
    true
}

/// Adds a request for `id` until `deadline`, unless one is outstanding; says whether
/// it was added.
fn add_request(pending: &mut Vec<PendingBlock>, id: BlockId, deadline: u64) -> (added: bool)
    requires
        one_request_per_block(old(pending)@),
    ensures
        one_request_per_block(final(pending)@),
        added == !is_pending(old(pending)@, id),
        final(pending)@ == with_pending(old(pending)@, id, deadline),
{
    if position_of(pending, &id).is_some() {
        return false;
    }
    pending.push(PendingBlock { block_id: id, deadline });
    true
}

/// Removes the request for `id`; says whether there was one.
fn remove_request(pending: &mut Vec<PendingBlock>, id: &BlockId) -> (removed: bool)
    requires
        one_request_per_block(old(pending)@),
    ensures
        one_request_per_block(final(pending)@),
        removed == is_pending(old(pending)@, *id),
        final(pending)@ == without_pending(old(pending)@, *id),
        !is_pending(final(pending)@, *id),
{
    match position_of(pending, id) {
        Some(k) => {
            let ghost before = pending@;
            pending.remove(k);
            proof {
                let after = pending@;
                assert(before[pending_index(before, *id)].block_id == *id);
                assert forall|i: int| 0 <= i < after.len() implies after[i] == before[if i < k {
                    i
                } else {
                    i + 1
                }] by {}
                if is_pending(after, *id) {
                    let i = choose|i: int|
                        0 <= i < after.len() && (#[trigger] after[i]).block_id == *id;
                    assert(before[if i < k {
                        i
                    } else {
                        i + 1
                    }].block_id == *id);
                }
            }
            true
        },
        None => false,
    }
}

/// Keeps the requests that are alive at time `now` and returns the blocks of the
/// others.
fn drop_expired(pending: &mut Vec<PendingBlock>, now: u64) -> (lost: Vec<BlockId>)
    requires
        one_request_per_block(old(pending)@),
    ensures
        one_request_per_block(final(pending)@),
        final(pending)@ == alive_requests(old(pending)@, now),
        lost@ == expired_blocks(old(pending)@, now),
{
    let mut alive: Vec<PendingBlock> = Vec::new();
    let mut lost: Vec<BlockId> = Vec::new();
    let mut k: usize = 0;
    while k < pending.len()
        invariant
            k <= pending@.len(),
            pending@ == old(pending)@,
            alive@ == alive_requests(pending@.take(k as int), now),
            lost@ == expired_blocks(pending@.take(k as int), now),
        decreases pending@.len() - k,
    {
        proof {
            assert(pending@.take(k + 1).drop_last() =~= pending@.take(k as int));
            assert(pending@.take(k + 1).last() == pending@[k as int]);
        }
        let request = pending[k];
        if request.deadline > now {
            alive.push(request);
        } else {
            lost.push(request.block_id);
        }
        k = k + 1;
    }
    proof {
        assert(pending@.take(k as int) =~= pending@);
        lemma_alive_requests(pending@, now);
    }
    *pending = alive;
    lost
}

impl PendingRequests {
    /// What every tracker satisfies: in each direction, no block is requested twice.
    pub open spec fn well_formed(&self) -> bool {
        one_request_per_block(self.wanted@) && one_request_per_block(self.asked@)
    }

    /// Whether the tracker is well formed. A tracker that was made by `new` and changed
    /// by its own functions always is.
    pub fn is_well_formed(&self) -> (well_formed: bool)
        ensures
            well_formed == self.well_formed(),
    {
        has_one_request_per_block(&self.wanted) && has_one_request_per_block(&self.asked)
    }

    /// A tracker without requests.
    pub fn new() -> (requests: PendingRequests)
        ensures
            requests.wanted@.len() == 0,
            requests.asked@.len() == 0,
            requests.well_formed(),
    {
        PendingRequests { wanted: Vec::new(), asked: Vec::new() }
    }

    /// Whether the peer asked us for `id` and did not get it yet.
    pub fn is_wanted(&self, id: &BlockId) -> (wanted: bool)
        ensures
            wanted == is_pending(self.wanted@, *id),
    {
        position_of(&self.wanted, id).is_some()
    }

    /// Whether we asked the peer for `id` and did not get it yet.
    pub fn is_asked(&self, id: &BlockId) -> (asked: bool)
        ensures
            asked == is_pending(self.asked@, *id),
    {
        position_of(&self.asked, id).is_some()
    }

    /// Records that the peer asked us for `id` and waits until `deadline`. Nothing is
    /// recorded, and `false` returned, exactly when the peer's request for `id` is
    /// outstanding.
    pub fn note_wanted(&mut self, id: BlockId, deadline: u64) -> (recorded: bool)
        requires
            old(self).well_formed(),
        ensures
            final(self).well_formed(),
            final(self).asked == old(self).asked,
            recorded == !is_pending(old(self).wanted@, id),
            final(self).wanted@ == with_pending(old(self).wanted@, id, deadline),
    {
        add_request(&mut self.wanted, id, deadline)
    }

    /// Forgets that the peer asked us for `id`; says whether it had.
    pub fn take_wanted(&mut self, id: &BlockId) -> (was_wanted: bool)
        requires
            old(self).well_formed(),
        ensures
            final(self).well_formed(),
            final(self).asked == old(self).asked,
            was_wanted == is_pending(old(self).wanted@, *id),
            final(self).wanted@ == without_pending(old(self).wanted@, *id),
            !is_pending(final(self).wanted@, *id),
    {
        remove_request(&mut self.wanted, id)
    }

    /// Records that we ask the peer for `id` and wait until `deadline`. Nothing is
    /// recorded, and `false` returned, exactly when our request for `id` is
    /// outstanding.
    pub fn record_ask(&mut self, id: BlockId, deadline: u64) -> (recorded: bool)
        requires
            old(self).well_formed(),
        ensures
            final(self).well_formed(),
            final(self).wanted == old(self).wanted,
            recorded == !is_pending(old(self).asked@, id),
            final(self).asked@ == with_pending(old(self).asked@, id, deadline),
    {
        add_request(&mut self.asked, id, deadline)
    }

    /// Forgets our request for `id`, which was answered; says whether there was one.
    pub fn answer(&mut self, id: &BlockId) -> (was_asked: bool)
        requires
            old(self).well_formed(),
        ensures
            final(self).well_formed(),
            final(self).wanted == old(self).wanted,
            was_asked == is_pending(old(self).asked@, *id),
            final(self).asked@ == without_pending(old(self).asked@, *id),
            !is_pending(final(self).asked@, *id),
    {
        remove_request(&mut self.asked, id)
    }

    /// Drops, in both directions, the requests whose deadline is not after `now`, and
    /// returns the blocks that we asked for in vain, which may then be asked from
    /// another peer.
    pub fn expire(&mut self, now: u64) -> (lost: Vec<BlockId>)
        requires
            old(self).well_formed(),
        ensures
            final(self).well_formed(),
            final(self).wanted@ == alive_requests(old(self).wanted@, now),
            final(self).asked@ == alive_requests(old(self).asked@, now),
            lost@ == expired_blocks(old(self).asked@, now),
    {
        drop_expired(&mut self.wanted, now);
        drop_expired(&mut self.asked, now)
    }
}

} // verus!
