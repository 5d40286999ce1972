use massa_protocol::address::Address;
use massa_protocol::block::{Block, BlockHeader, BlockHeaderContent, BlockId};
use massa_protocol::compact::{DeserializeCompact, SerializeCompact};
use massa_protocol::config::SerializationContext;
use massa_protocol::endorsement::{Endorsement, EndorsementContent};
use massa_protocol::final_state::FinalStateBootstrap;
use massa_protocol::keys::{sign, PrivateKey, PublicKey};
use massa_protocol::operation::{Amount, Operation, OperationContent, OperationType};
use massa_protocol::slot::Slot;

fn context() -> SerializationContext {
    SerializationContext {
        max_block_size: 1024 * 1024,
        max_operations_per_block: 1024,
        thread_count: 2,
        max_advertise_length: 128,
        max_message_size: 3 * 1024 * 1024,
        max_bootstrap_blocks: 100,
        max_bootstrap_cliques: 100,
        max_bootstrap_deps: 100,
        max_bootstrap_children: 100,
        max_bootstrap_pos_cycles: 1000,
        max_bootstrap_pos_entries: 1000,
        max_ask_blocks_per_message: 10,
        max_operations_per_message: 1024,
        max_endorsements_per_message: 1024,
        max_bootstrap_message_size: 100000000,
        endorsement_count: 8,
    }
}

fn key_pair(seed: u8) -> (PrivateKey, PublicKey) {
    let secret = [seed; 32];
    let context = secp256k1::Secp256k1::new();
    let pair = secp256k1::Keypair::from_seckey_slice(&context, &secret).unwrap();
    let public = pair.x_only_public_key().0.serialize();
    (PrivateKey::from_bytes(&secret), PublicKey::from_bytes(&public))
}

fn address(seed: u8) -> Address {
    Address::from_public_key(&key_pair(seed).1)
}

fn transaction(sender: u8, recipient: u8) -> Operation {
    signed(sender, OperationType::Transaction { recipient_address: address(recipient), amount: Amount(5) })
}

fn signed(sender: u8, op: OperationType) -> Operation {
    let (private_key, public_key) = key_pair(sender);
    let content = OperationContent {
        sender_public_key: public_key,
        fee: Amount(1),
        expire_period: 10,
        op,
    };
    let signature = sign(&content.compute_hash(), &private_key).unwrap();
    Operation { content, signature }
}

fn endorsement(sender: u8, index: u32) -> Endorsement {
    let (private_key, public_key) = key_pair(sender);
    let content = EndorsementContent {
        sender_public_key: public_key,
        slot: Slot::new(1, 0),
        index,
        endorsed_block: BlockId(massa_protocol::hash::Hash::from_bytes(&[3; 32])),
    };
    let signature = sign(&content.compute_hash(), &private_key).unwrap();
    Endorsement { content, signature }
}

fn block(operations: Vec<Operation>, endorsements: Vec<Endorsement>) -> Block {
    let (private_key, public_key) = key_pair(7);
    let (_, header) = BlockHeader::new_signed(
        &private_key,
        BlockHeaderContent {
            creator: public_key,
            slot: Slot::new(0, 1),
            parents: vec![],
            operation_merkle_root: massa_protocol::validation::compute_merkle_root(&operations),
            endorsements,
        },
    )
    .unwrap();
    Block { header, operations }
}

#[test]
fn an_operation_involves_its_sender_and_the_recipient_of_a_transaction() {
    assert_eq!(transaction(1, 2).get_ledger_involved_addresses(), vec![address(1), address(2)]);
    assert_eq!(transaction(1, 1).get_ledger_involved_addresses(), vec![address(1)]);
    assert_eq!(
        signed(1, OperationType::RollBuy { roll_count: 1 }).get_ledger_involved_addresses(),
        vec![address(1)]
    );
    assert_eq!(transaction(1, 2).get_roll_involved_addresses(), vec![]);
    assert_eq!(
        signed(1, OperationType::RollBuy { roll_count: 1 }).get_roll_involved_addresses(),
        vec![address(1)]
    );
    assert_eq!(
        signed(4, OperationType::RollSell { roll_count: 1 }).get_roll_involved_addresses(),
        vec![address(4)]
    );
}

#[test]
fn roll_addresses_of_a_block_are_the_senders_of_its_roll_operations() {
    let block = block(
        vec![
            transaction(1, 2),
            signed(3, OperationType::RollBuy { roll_count: 1 }),
            signed(4, OperationType::RollSell { roll_count: 2 }),
            signed(3, OperationType::RollSell { roll_count: 1 }),
        ],
        vec![],
    );
    assert_eq!(block.get_roll_involved_addresses().unwrap(), vec![address(3), address(4)]);
}

#[test]
fn involved_addresses_group_the_named_operations() {
    let operations = vec![transaction(1, 2), transaction(2, 3), signed(1, OperationType::RollBuy { roll_count: 1 })];
    let ids: Vec<_> = operations.iter().map(|op| op.get_operation_id()).collect();
    let block = block(operations, vec![]);
    let set = vec![(ids[0], (0usize, 10u64)), (ids[2], (2, 10)), (ids[1], (1, 10)), (ids[0], (0, 10))];
    let groups = block.involved_addresses(&set).unwrap();
    assert_eq!(
        groups,
        vec![
            (address(1), vec![ids[0], ids[2]]),
            (address(2), vec![ids[0], ids[1]]),
            (address(3), vec![ids[1]]),
        ]
    );
    assert_eq!(block.involved_addresses(&vec![]).unwrap(), vec![]);
}

#[test]
fn endorsements_are_grouped_by_the_address_of_their_sender() {
    let endorsements = vec![endorsement(1, 0), endorsement(2, 1), endorsement(1, 2)];
    let ids: Vec<_> = endorsements.iter().map(|e| e.compute_endorsement_id()).collect();
    let block = block(vec![], endorsements);
    assert_eq!(
        block.addresses_to_endorsements(&vec![]).unwrap(),
        vec![(address(1), vec![ids[0], ids[2]]), (address(2), vec![ids[1]])]
    );
}

#[test]
fn a_snapshot_is_its_slot_followed_by_its_ledger() {
    let ctx = context();
    // an operation stands for the ledger: any value with a compact form does
    let ledger = transaction(1, 2);
    let snapshot = FinalStateBootstrap { slot: Slot::new(300, 1), ledger };
    let bytes = snapshot.to_bytes_compact(&ctx).unwrap();
    let mut expected = vec![172u8, 2, 1];
    expected.extend(SerializeCompact::to_bytes_compact(&ledger, &ctx).unwrap());
    assert_eq!(bytes, expected);

    let mut longer = bytes.clone();
    longer.push(4);
    let (read, size) = FinalStateBootstrap::<Operation>::from_bytes_compact(&longer, &ctx).unwrap();
    assert_eq!(size, bytes.len());
    assert_eq!(read.slot, Slot::new(300, 1));
    assert_eq!(read.ledger, ledger);

    assert!(FinalStateBootstrap::<Operation>::from_bytes_compact(&bytes[..20], &ctx).is_err());
    assert!(FinalStateBootstrap::<Operation>::from_bytes_compact(&[1, 2, 0], &ctx).is_err());
}

#[test]
fn values_with_a_compact_form_are_read_from_the_start_of_a_buffer() {
    let ctx = context();
    let slot = Slot::new(5, 1);
    let bytes = SerializeCompact::to_bytes_compact(&slot, &ctx).unwrap();
    assert_eq!(bytes, vec![5, 1]);
    assert_eq!(<Slot as DeserializeCompact>::from_bytes_compact(&[5, 1, 9], &ctx).unwrap(), (slot, 2));
    assert!(<Slot as DeserializeCompact>::from_bytes_compact(&[5, 2], &ctx).is_err());

    let e = endorsement(1, 3);
    let bytes = SerializeCompact::to_bytes_compact(&e, &ctx).unwrap();
    assert_eq!(
        <Endorsement as DeserializeCompact>::from_bytes_compact(&bytes, &ctx).unwrap(),
        (e, bytes.len())
    );
    let op = transaction(1, 2);
    let bytes = SerializeCompact::to_bytes_compact(&op, &ctx).unwrap();
    assert_eq!(
        <Operation as DeserializeCompact>::from_bytes_compact(&bytes, &ctx).unwrap(),
        (op, bytes.len())
    );
}

#[test]
fn a_header_whose_endorsement_names_a_missing_thread_is_not_valid() {
    let ctx = context();
    let valid = block(vec![], vec![endorsement(1, 0)]);
    assert!(massa_protocol::validation::check_header(&valid.header, &ctx).is_some());
    assert!(massa_protocol::validation::check_block(&valid, &ctx).is_some());

    let (private_key, public_key) = key_pair(1);
    let content = EndorsementContent {
        sender_public_key: public_key,
        slot: Slot::new(1, 2),
        index: 0,
        endorsed_block: BlockId(massa_protocol::hash::Hash::from_bytes(&[3; 32])),
    };
    let signature = sign(&content.compute_hash(), &private_key).unwrap();
    let misplaced = block(vec![], vec![Endorsement { content, signature }]);
    assert!(massa_protocol::validation::check_header(&misplaced.header, &ctx).is_none());

    // an endorsement that is not signed by its sender
    let mut forged = endorsement(1, 0);
    forged.content.index = 1;
    let invalid = block(vec![], vec![forged]);
    assert!(massa_protocol::validation::check_header(&invalid.header, &ctx).is_none());

    // more endorsements than a block may hold
    let many = block(vec![], (0..9).map(|index| endorsement(1, index)).collect());
    assert!(massa_protocol::validation::check_header(&many.header, &ctx).is_none());
}
