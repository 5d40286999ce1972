//! Which addresses a block involves: through its operations, as senders, recipients
//! and roll holders, and through its endorsements.

use vstd::prelude::*;
use crate::address::Address;
use crate::block::Block;
use crate::endorsement::{Endorsement, EndorsementId};
use crate::error::ModelsError;
use crate::operation::{Operation, OperationId, OperationType};
use crate::peer::Identifier;

verus! {

/// Whether the operation `op` touches the ledger entry of the address `a`: as its
/// sender, or as the recipient of a transaction.
pub open spec fn ledger_involves(op: Operation, a: Address) -> bool {
    a == Address::spec_of(op.content.sender_public_key) || (
    op.content.op matches OperationType::Transaction { recipient_address, .. } && a
        == recipient_address)
}

/// Whether the operation `op` touches the rolls of the address `a`: as the sender of a
/// roll purchase or sale.
pub open spec fn roll_involves(op: Operation, a: Address) -> bool {
    a == Address::spec_of(op.content.sender_public_key) && !(
    op.content.op is Transaction)
}

/// Whether the groups `groups` hold the identifier `id` under the address `a`.
pub open spec fn group_holds<I>(groups: Seq<(Address, Vec<I>)>, a: Address, id: I) -> bool {
    exists|k: int| 0 <= k < groups.len() && (#[trigger] groups[k]).0 == a && groups[k].1@.contains(id)
}

/// What every list of groups satisfies: no address twice, and under each address at
/// least one identifier and none twice.
pub open spec fn groups_well_formed<I>(groups: Seq<(Address, Vec<I>)>) -> bool {
    &&& forall|i: int, j: int|
        0 <= i < groups.len() && 0 <= j < groups.len() && i != j ==> (#[trigger] groups[i]).0 != (
        #[trigger] groups[j]).0
    &&& forall|i: int|
        0 <= i < groups.len() ==> (#[trigger] groups[i]).1@.no_duplicates() && groups[i].1@.len()
            > 0
}

/// Adds the identifier `id` under the address `a`, unless it is there.
pub fn add_to_group<I: Identifier>(groups: &mut Vec<(Address, Vec<I>)>, a: Address, id: I)
    requires
        groups_well_formed(old(groups)@),
    ensures
        groups_well_formed(final(groups)@),
        forall|a2: Address, id2: I|
            group_holds(final(groups)@, a2, id2) == (group_holds(old(groups)@, a2, id2) || (a2 == a
                && id2 == id)),
{
    let ghost before = groups@;
    let mut k: usize = 0;
    while k < groups.len()
        invariant
            k <= groups@.len(),
            groups@ == before,
            before == old(groups)@,
            groups_well_formed(before),
            forall|i: int| 0 <= i < k ==> (#[trigger] groups@[i]).0 != a,
        decreases groups@.len() - k,
    {
        if groups[k].0.equals(&a) {
            let mut j: usize = 0;
            while j < groups[k as usize].1.len()
                invariant
                    k < groups@.len(),
                    groups@ == before,
                    before == old(groups)@,
                    groups_well_formed(before),
                    groups@[k as int].0 == a,
                    j <= groups@[k as int].1@.len(),
                    forall|i: int| 0 <= i < j ==> groups@[k as int].1@[i] != id,
                decreases groups@[k as int].1@.len() - j,
            {
                if groups[k].1[j].digest().equals(&id.digest()) {
                    proof {
                        I::lemma_same_digest(groups@[k as int].1@[j as int], id);
                        assert forall|a2: Address, id2: I|
                            group_holds(groups@, a2, id2) == (group_holds(before, a2, id2) || (a2
                                == a && id2 == id)) by {
                            assert(before[k as int].1@[j as int] == id);
                            assert(before[k as int].0 == a && before[k as int].1@.contains(id));
                            assert(group_holds(before, a, id));
                        }
                    }
                    return ;
                }
                j = j + 1;
            }
            groups[k].1.push(id);
            proof {
                let after = groups@;
                assert(after.len() == before.len());
                assert(after[k as int].0 == a);
                assert(after[k as int].1@ == before[k as int].1@.push(id));
                assert forall|i: int| 0 <= i < after.len() && i != k implies after[i]
                    == before[i] by {}
                assert forall|i: int| 0 <= i < after.len() implies (#[trigger] after[i]).0
                    == before[i].0 by {}
                assert forall|a2: Address, id2: I|
                    group_holds(after, a2, id2) == (group_holds(before, a2, id2) || (a2 == a && id2
                        == id)) by {
                    if group_holds(before, a2, id2) {
                        let g = choose|g: int|
                            0 <= g < before.len() && (#[trigger] before[g]).0 == a2
                                && before[g].1@.contains(id2);
                        if g == k {
                            let at = before[g].1@.index_of(id2);
                            assert(after[g].1@[at] == id2);
                        }
                        assert(after[g].0 == a2 && after[g].1@.contains(id2));
                    }
                    if a2 == a && id2 == id {
                        assert(after[k as int].1@[after[k as int].1@.len() - 1] == id);
                        assert(after[k as int].0 == a2 && after[k as int].1@.contains(id2));
                    }
                    if group_holds(after, a2, id2) {
                        let g = choose|g: int|
                            0 <= g < after.len() && (#[trigger] after[g]).0 == a2
                                && after[g].1@.contains(id2);
                        if g == k {
                            let at = after[g].1@.index_of(id2);
                            if at < before[g].1@.len() {
                                assert(before[g].1@[at] == id2);
                                assert(before[g].0 == a2 && before[g].1@.contains(id2));
                            }
                        } else {
                            assert(before[g].0 == a2 && before[g].1@.contains(id2));
                        }
                    }
                }
                assert forall|i: int| 0 <= i < after.len() implies (#[trigger] after[i]).1@.no_duplicates()
                    && after[i].1@.len() > 0 by {
                    if i != k {
                        assert(after[i] == before[i]);
                    }
                }
            }
            return ;
        }
        k = k + 1;
    }
    let mut ids: Vec<I> = Vec::new();
    ids.push(id);
    groups.push((a, ids));
    proof {
        let after = groups@;
        let last = after.len() - 1;
        assert(after[last].0 == a && after[last].1@ =~= seq![id]);
        assert forall|i: int| 0 <= i < before.len() implies #[trigger] after[i] == before[i] by {}
        assert forall|a2: Address, id2: I|
            group_holds(after, a2, id2) == (group_holds(before, a2, id2) || (a2 == a && id2
                == id)) by {
            if group_holds(before, a2, id2) {
                let g = choose|g: int|
                    0 <= g < before.len() && (#[trigger] before[g]).0 == a2
                        && before[g].1@.contains(id2);
                assert(after[g].0 == a2 && after[g].1@.contains(id2));
            }
            if a2 == a && id2 == id {
                assert(after[last].1@[0] == id);
                assert(after[last].0 == a2 && after[last].1@.contains(id2));
            }
            if group_holds(after, a2, id2) {
                let g = choose|g: int|
                    0 <= g < after.len() && (#[trigger] after[g]).0 == a2 && after[g].1@.contains(
                        id2,
                    );
                if g == last {
                    let at = after[g].1@.index_of(id2);
                    assert(seq![id][at] == id2);
                } else {
                    assert(before[g].0 == a2 && before[g].1@.contains(id2));
                }
            }
        }
    }
}

/// Adds the address `a` to `set`, unless it is there.
pub fn add_address(set: &mut Vec<Address>, a: Address)
    requires
        old(set)@.no_duplicates(),
    ensures
        final(set)@.no_duplicates(),
        forall|other: Address|
            final(set)@.contains(other) == (old(set)@.contains(other) || other == a),
{
    let ghost before = set@;
    let mut k: usize = 0;
    while k < set.len()
        invariant
            k <= set@.len(),
            set@ == before,
            before == old(set)@,
            before.no_duplicates(),
            forall|i: int| 0 <= i < k ==> set@[i] != a,
        decreases set@.len() - k,
    {
        if set[k].equals(&a) {
            return ;
        }
        k = k + 1;
    }
    set.push(a);
    proof {
        let after = set@;
        assert forall|other: Address| after.contains(other) == (before.contains(other) || other
            == a) by {
            if before.contains(other) {
                let i = before.index_of(other);
                assert(after[i] == other);
            }
            if other == a {
                assert(after[after.len() - 1] == a);
            }
            if after.contains(other) {
                let i = after.index_of(other);
                if i < before.len() {
                    assert(before[i] == other);
                }
            }
        }
    }
}

impl Operation {
    /// The addresses whose ledger entries the operation touches: the sender's, and
    /// for a transaction the recipient's.
    pub fn get_ledger_involved_addresses(&self) -> (addresses: Vec<Address>)
        ensures
            addresses@.no_duplicates(),
            forall|a: Address| addresses@.contains(a) == ledger_involves(*self, a),
    {
        let mut addresses: Vec<Address> = Vec::new();
        add_address(&mut addresses, Address::from_public_key(&self.content.sender_public_key));
        match self.content.op {
            OperationType::Transaction { recipient_address, amount: _ } => {
                add_address(&mut addresses, recipient_address);
            },
            OperationType::RollBuy { roll_count: _ } => {},
            OperationType::RollSell { roll_count: _ } => {},
        }
        addresses
    }

    /// The addresses whose rolls the operation touches: the sender's, for a roll
    /// purchase or sale.
    pub fn get_roll_involved_addresses(&self) -> (addresses: Vec<Address>)
        ensures
            addresses@.no_duplicates(),
            forall|a: Address| addresses@.contains(a) == roll_involves(*self, a),
    {
        let mut addresses: Vec<Address> = Vec::new();
        match self.content.op {
            OperationType::Transaction { recipient_address: _, amount: _ } => {},
            OperationType::RollBuy { roll_count: _ } => {
                add_address(&mut addresses, Address::from_public_key(&self.content.sender_public_key));
            },
            OperationType::RollSell { roll_count: _ } => {
                add_address(&mut addresses, Address::from_public_key(&self.content.sender_public_key));
            },
        }
        addresses
    }
}

/// Whether one of the first `count` operations of `operations` touches the rolls of
/// the address `a`.
pub open spec fn rolls_involved_upto(operations: Seq<Operation>, count: int, a: Address) -> bool {
    exists|i: int| 0 <= i < count && roll_involves(#[trigger] operations[i], a)
}

/// Whether one of the first `count` entries of `operation_set` names the identifier
/// `id` and an operation of `operations` that touches the ledger entry of `a`.
pub open spec fn ledger_involved_upto(
    operations: Seq<Operation>,
    operation_set: Seq<(OperationId, (usize, u64))>,
    count: int,
    a: Address,
    id: OperationId,
) -> bool {
    exists|j: int|
        0 <= j < count && (#[trigger] operation_set[j]).0 == id && ledger_involves(
            operations[operation_set[j].1.0 as int],
            a,
        )
}

/// Whether one of the first `count` endorsements of `endorsements` has the identifier
/// `id` and a sender with the address `a`.
pub open spec fn endorsed_upto(
    endorsements: Seq<Endorsement>,
    count: int,
    a: Address,
    id: EndorsementId,
) -> bool {
    exists|i: int|
        0 <= i < count && (#[trigger] endorsements[i]).spec_endorsement_id() == id && a
            == Address::spec_of(endorsements[i].content.sender_public_key)
}

impl Block {
    /// Whether the block holds an operation with the identifier of `op`.
    pub fn contains_operation(&self, op: &Operation) -> (r: Result<bool, ModelsError>)
        ensures
            r.is_ok(),
            r.unwrap() == exists|i: int|
                0 <= i < self.operations@.len() && (#[trigger] self.operations@[i]).spec_operation_id()
                    == op.spec_operation_id(),
    {
        let wanted = op.get_operation_id();
        let mut k: usize = 0;
        while k < self.operations.len()
            invariant
                k <= self.operations@.len(),
                wanted == op.spec_operation_id(),
                forall|i: int|
                    0 <= i < k ==> (#[trigger] self.operations@[i]).spec_operation_id() != wanted,
            decreases self.operations@.len() - k,
        {
            let id = self.operations[k].get_operation_id();
            if id.0.equals(&wanted.0) {
                assert(self.operations@[k as int].spec_operation_id() == op.spec_operation_id());
                return Ok(true);
            }
            k = k + 1;
        }
        Ok(false)
    }

    /// The addresses whose rolls the block's operations touch, each once.
    pub fn get_roll_involved_addresses(&self) -> (r: Result<Vec<Address>, ModelsError>)
        ensures
            r.is_ok(),
            r.unwrap()@.no_duplicates(),
            forall|a: Address|
                r.unwrap()@.contains(a) == rolls_involved_upto(
                    self.operations@,
                    self.operations@.len() as int,
                    a,
                ),
    {
        let mut addresses: Vec<Address> = Vec::new();
        let mut k: usize = 0;
        while k < self.operations.len()
            invariant
                k <= self.operations@.len(),
                addresses@.no_duplicates(),
                forall|a: Address|
                    addresses@.contains(a) == rolls_involved_upto(self.operations@, k as int, a),
            decreases self.operations@.len() - k,
        {
            let ghost before = addresses@;
            match self.operations[k].content.op {
                OperationType::Transaction { recipient_address: _, amount: _ } => {},
                OperationType::RollBuy { roll_count: _ } => {
                    add_address(
                        &mut addresses,
                        Address::from_public_key(&self.operations[k].content.sender_public_key),
                    );
                },
                OperationType::RollSell { roll_count: _ } => {
                    add_address(
                        &mut addresses,
                        Address::from_public_key(&self.operations[k].content.sender_public_key),
                    );
                },
            }
            proof {
                let op = self.operations@[k as int];
                assert forall|a: Address|
                    addresses@.contains(a) == rolls_involved_upto(
                        self.operations@,
                        k + 1,
                        a,
                    ) by {
                    assert(addresses@.contains(a) == (before.contains(a) || roll_involves(op, a)));
                    if rolls_involved_upto(self.operations@, k + 1, a) {
                        let i = choose|i: int|
                            0 <= i < k + 1 && roll_involves(#[trigger] self.operations@[i], a);
                        if i != k {
                            assert(rolls_involved_upto(self.operations@, k as int, a));
                        }
                    }
                    if rolls_involved_upto(self.operations@, k as int, a) {
                        let i = choose|i: int|
                            0 <= i < k && roll_involves(#[trigger] self.operations@[i], a);
                        assert(0 <= i < k + 1 && roll_involves(self.operations@[i], a));
                    }
                    if roll_involves(op, a) {
                        assert(0 <= k < k + 1 && roll_involves(self.operations@[k as int], a));
                    }
                }
            }
            k = k + 1;
        }
        Ok(addresses)
    }

    /// Groups, by address, the identifiers of `operation_set` whose operations touch
    /// the ledger entry of that address. Each entry of `operation_set` names an
    /// operation of the block by its place.
    pub fn involved_addresses(&self, operation_set: &Vec<(OperationId, (usize, u64))>) -> (r: Result<
        Vec<(Address, Vec<OperationId>)>,
        ModelsError,
    >)
        requires
            forall|j: int|
                0 <= j < operation_set@.len() ==> (#[trigger] operation_set@[j]).1.0
                    < self.operations@.len(),
        ensures
            r.is_ok(),
            groups_well_formed(r.unwrap()@),
            forall|a: Address, id: OperationId|
                group_holds(r.unwrap()@, a, id) == ledger_involved_upto(
                    self.operations@,
                    operation_set@,
                    operation_set@.len() as int,
                    a,
                    id,
                ),
    {
        let mut groups: Vec<(Address, Vec<OperationId>)> = Vec::new();
        let mut k: usize = 0;
        assert forall|a: Address, id: OperationId| !group_holds(groups@, a, id) by {}
        while k < operation_set.len()
            invariant
                k <= operation_set@.len(),
                forall|j: int|
                    0 <= j < operation_set@.len() ==> (#[trigger] operation_set@[j]).1.0
                        < self.operations@.len(),
                groups_well_formed(groups@),
                forall|a: Address, id: OperationId|
                    group_holds(groups@, a, id) == ledger_involved_upto(
                        self.operations@,
                        operation_set@,
                        k as int,
                        a,
                        id,
                    ),
            decreases operation_set@.len() - k,
        {
            let id = operation_set[k].0;
            let index = operation_set[k].1.0;
            let ghost before = groups@;
            add_to_group(
                &mut groups,
                Address::from_public_key(&self.operations[index].content.sender_public_key),
                id,
            );
            match self.operations[index].content.op {
                OperationType::Transaction { recipient_address, amount: _ } => {
                    add_to_group(&mut groups, recipient_address, id);
                },
                OperationType::RollBuy { roll_count: _ } => {},
                OperationType::RollSell { roll_count: _ } => {},
            }
            proof {
                let op = self.operations@[index as int];
                assert forall|a: Address, id2: OperationId|
                    group_holds(groups@, a, id2) == ledger_involved_upto(
                        self.operations@,
                        operation_set@,
                        k + 1,
                        a,
                        id2,
                    ) by {
                    assert(group_holds(groups@, a, id2) == (group_holds(before, a, id2) || (id2
                        == id && ledger_involves(op, a))));
                    if ledger_involved_upto(self.operations@, operation_set@, k + 1, a, id2) {
                        let m = choose|m: int|
                            0 <= m < k + 1 && (#[trigger] operation_set@[m]).0 == id2
                                && ledger_involves(
                                self.operations@[operation_set@[m].1.0 as int],
                                a,
                            );
                        if m != k {
                            assert(ledger_involved_upto(
                                self.operations@,
                                operation_set@,
                                k as int,
                                a,
                                id2,
                            ));
                        }
                    }
                    if ledger_involved_upto(self.operations@, operation_set@, k as int, a, id2) {
                        let m = choose|m: int|
                            0 <= m < k && (#[trigger] operation_set@[m]).0 == id2
                                && ledger_involves(
                                self.operations@[operation_set@[m].1.0 as int],
                                a,
                            );
                        assert(0 <= m < k + 1 && operation_set@[m].0 == id2);
                    }
                    if id2 == id && ledger_involves(op, a) {
                        assert(0 <= k < k + 1 && operation_set@[k as int].0 == id2
                            && ledger_involves(
                            self.operations@[operation_set@[k as int].1.0 as int],
                            a,
                        ));
                    }
                }
            }
            k = k + 1;
        }
        Ok(groups)
    }

    /// Groups, by the address of the sender, the identifiers of the endorsements of
    /// the block's header. The argument is not read.
    pub fn addresses_to_endorsements(&self, _endo: &Vec<(EndorsementId, u32)>) -> (r: Result<
        Vec<(Address, Vec<EndorsementId>)>,
        ModelsError,
    >)
        ensures
            r.is_ok(),
            groups_well_formed(r.unwrap()@),
            forall|a: Address, id: EndorsementId|
                group_holds(r.unwrap()@, a, id) == endorsed_upto(
                    self.header.content.endorsements@,
                    self.header.content.endorsements@.len() as int,
                    a,
                    id,
                ),
    {
        let mut groups: Vec<(Address, Vec<EndorsementId>)> = Vec::new();
        let mut k: usize = 0;
        assert forall|a: Address, id: EndorsementId| !group_holds(groups@, a, id) by {}
        while k < self.header.content.endorsements.len()
            invariant
                k <= self.header.content.endorsements@.len(),
                groups_well_formed(groups@),
                forall|a: Address, id: EndorsementId|
                    group_holds(groups@, a, id) == endorsed_upto(
                        self.header.content.endorsements@,
                        k as int,
                        a,
                        id,
                    ),
            decreases self.header.content.endorsements@.len() - k,
        {
            let endorsement = self.header.content.endorsements[k];
            let address = Address::from_public_key(&endorsement.content.sender_public_key);
            let id = endorsement.compute_endorsement_id();
            add_to_group(&mut groups, address, id);
            proof {
                let all = self.header.content.endorsements@;
                assert forall|a: Address, id2: EndorsementId|
                    group_holds(groups@, a, id2) == endorsed_upto(all, k + 1, a, id2) by {
                    if endorsed_upto(all, k + 1, a, id2) {
                        let m = choose|m: int|
                            0 <= m < k + 1 && (#[trigger] all[m]).spec_endorsement_id() == id2 && a
                                == Address::spec_of(all[m].content.sender_public_key);
                        if m != k {
                            assert(endorsed_upto(all, k as int, a, id2));
                        }
                    }
                    if endorsed_upto(all, k as int, a, id2) {
                        let m = choose|m: int|
                            0 <= m < k && (#[trigger] all[m]).spec_endorsement_id() == id2 && a
                                == Address::spec_of(all[m].content.sender_public_key);
                        assert(0 <= m < k + 1 && all[m].spec_endorsement_id() == id2);
                    }
                    if a == address && id2 == id {
                        assert(all[k as int].spec_endorsement_id() == id2);
                    }
                }
            }
            k = k + 1;
        }
        Ok(groups)
    }
}

} // verus!
