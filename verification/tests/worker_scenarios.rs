use massa_protocol::address::Address;
use massa_protocol::block::{Block, BlockHeader, BlockHeaderContent, BlockId};
use massa_protocol::config::SerializationContext;
use massa_protocol::events::{NetworkCommand, NodeId, ProtocolEvent, ProtocolPoolEvent};
use massa_protocol::keys::{sign, PrivateKey, PublicKey};
use massa_protocol::operation::{Amount, Operation, OperationContent, OperationId, OperationType};
use massa_protocol::peer::ProtocolConfig;
use massa_protocol::slot::Slot;
use massa_protocol::validation::compute_merkle_root;
use massa_protocol::worker::ProtocolWorker;
use massa_protocol::worker_blocks::{BlockResult, BlockResultContent};

struct NodeInfo {
    private_key: PrivateKey,
    id: NodeId,
}

fn context() -> SerializationContext {
    SerializationContext {
        max_block_size: 1024 * 1024,
        max_operations_per_block: 1024,
        thread_count: 2,
        max_advertise_length: 128,
        max_message_size: 3 * 1024 * 1024,
        max_bootstrap_blocks: 100,
        max_bootstrap_cliques: 100,
        max_bootstrap_deps: 100,
        max_bootstrap_children: 100,
        max_bootstrap_pos_cycles: 1000,
        max_bootstrap_pos_entries: 1000,
        max_ask_blocks_per_message: 10,
        max_operations_per_message: 1024,
        max_endorsements_per_message: 1024,
        max_bootstrap_message_size: 100000000,
        endorsement_count: 8,
    }
}

fn settings() -> ProtocolConfig {
    ProtocolConfig {
        max_known_blocks_size: 100,
        max_known_ops_size: 1000,
        max_known_endorsements_size: 1000,
        ask_block_timeout: 500,
    }
}

fn key_pair(seed: u8) -> (PrivateKey, PublicKey) {
    let secret = [seed; 32];
    let context = secp256k1::Secp256k1::new();
    let pair = secp256k1::Keypair::from_seckey_slice(&context, &secret).unwrap();
    let public = pair.x_only_public_key().0.serialize();
    (PrivateKey::from_bytes(&secret), PublicKey::from_bytes(&public))
}

fn create_and_connect_nodes(count: u8, first_seed: u8, worker: &mut ProtocolWorker) -> Vec<NodeInfo> {
    let mut nodes = Vec::new();
    for k in 0..count {
        let (private_key, public_key) = key_pair(first_seed + k);
        let id = NodeId(public_key);
        worker.node_connected(id);
        nodes.push(NodeInfo { private_key, id });
    }
    nodes
}

fn create_operation_with_expire_period(private_key: &PrivateKey, expire_period: u64) -> Operation {
    let context = secp256k1::Secp256k1::new();
    let pair = secp256k1::Keypair::from_seckey_slice(&context, &private_key.to_bytes()).unwrap();
    let sender_public_key = PublicKey::from_bytes(&pair.x_only_public_key().0.serialize());
    let (_, recipient) = key_pair(200);
    let content = OperationContent {
        sender_public_key,
        fee: Amount(0),
        expire_period,
        op: OperationType::Transaction {
            recipient_address: Address::from_public_key(&recipient),
            amount: Amount(0),
        },
    };
    let signature = sign(&content.compute_hash(), private_key).unwrap();
    Operation { content, signature }
}

fn create_block_with_operations(
    private_key: &PrivateKey,
    creator: &PublicKey,
    slot: Slot,
    operations: Vec<Operation>,
) -> Block {
    let parent = BlockId(massa_protocol::hash::Hash::compute_from("Genesis 0".as_bytes()));
    let (_, header) = BlockHeader::new_signed(
        private_key,
        BlockHeaderContent {
            creator: *creator,
            slot,
            parents: vec![parent, parent],
            operation_merkle_root: compute_merkle_root(&operations),
            endorsements: Vec::new(),
        },
    )
    .unwrap();
    Block { header, operations }
}

fn thread_of(node: &NodeInfo) -> u8 {
    Address::from_public_key(&node.id.0).get_thread(context().thread_count)
}

fn sent_operations(commands: &[NetworkCommand]) -> Vec<(NodeId, Vec<Operation>)> {
    let mut sent = Vec::new();
    for command in commands {
        if let NetworkCommand::SendOperations { peer, operations } = command {
            sent.push((*peer, operations.clone()));
        }
    }
    sent
}

#[test]
fn test_protocol_sends_valid_operations_it_receives_to_consensus() {
    let mut worker = ProtocolWorker::new(settings(), context());
    // Create 1 node.
    let mut nodes = create_and_connect_nodes(1, 1, &mut worker);
    let creator_node = nodes.pop().expect("Failed to get node info.");

    // 1. Create an operation
    let operation = create_operation_with_expire_period(&creator_node.private_key, 1);
    let expected_operation_id = operation.verify_integrity().unwrap();

    // 3. Send operation to protocol.
    let result = worker.received_operations(creator_node.id, &vec![operation]);

    // Check protocol sends operations to consensus.
    let received_operations = match result.pool_event {
        Some(ProtocolPoolEvent::ReceivedOperations { operations, propagate, source }) => {
            assert!(propagate);
            assert_eq!(source, creator_node.id);
            operations
        }
        _ => panic!("Unexpected or no protocol pool event."),
    };
    assert!(received_operations.iter().any(|(id, _)| *id == expected_operation_id));
    assert_eq!(received_operations.len(), 1);
    assert!(result.network.is_empty());
    assert!(result.event.is_none());
}

#[test]
fn test_protocol_does_not_send_invalid_operations_it_receives_to_consensus() {
    let mut worker = ProtocolWorker::new(settings(), context());
    // Create 1 node.
    let mut nodes = create_and_connect_nodes(1, 1, &mut worker);
    let creator_node = nodes.pop().expect("Failed to get node info.");

    // 1. Create an operation.
    let mut operation = create_operation_with_expire_period(&creator_node.private_key, 1);

    // Change the fee, making the signature invalid.
    operation.content.fee = Amount(111 * 1_000_000_000);

    // 3. Send operation to protocol.
    let result = worker.received_operations(creator_node.id, &vec![operation]);

    // Check protocol does not send operations to consensus.
    if let Some(ProtocolPoolEvent::ReceivedOperations { .. }) = result.pool_event {
        panic!("Protocol send invalid operations.")
    };
    assert!(result.event.is_none());
    assert!(matches!(
        result.network.as_slice(),
        [NetworkCommand::Ban { peer }] if *peer == creator_node.id
    ));
    // the peer is not noted to know the operation
    let sent = worker.propagate_operations(&vec![(operation.get_operation_id(), operation)]);
    assert_eq!(sent_operations(&sent).len(), 1);
}

#[test]
fn test_protocol_propagates_operations_to_active_nodes() {
    let mut worker = ProtocolWorker::new(settings(), context());
    // Create 2 nodes.
    let nodes = create_and_connect_nodes(2, 1, &mut worker);

    // 1. Create an operation
    let operation = create_operation_with_expire_period(&nodes[0].private_key, 1);

    // Send operation and wait for the protocol event,
    // just to be sure the nodes are connected before sending the propagate command.
    let result = worker.received_operations(nodes[0].id, &vec![operation]);
    match result.pool_event {
        Some(ProtocolPoolEvent::ReceivedOperations { .. }) => {}
        _ => panic!("Unexpected or no protocol pool event."),
    };

    let expected_operation_id = operation.verify_integrity().unwrap();

    let ops = vec![(expected_operation_id, operation)];
    let commands = worker.propagate_operations(&ops);

    let sent = sent_operations(&commands);
    assert_eq!(commands.len(), 1);
    match sent.first() {
        Some((node, operations)) => {
            let id = operations[0].verify_integrity().unwrap();
            assert_eq!(id, expected_operation_id);
            assert_eq!(nodes[1].id, *node);
        }
        _ => panic!("Unexpected or no network command."),
    };
    assert_eq!(sent.len(), 1);
}

#[test]
fn test_protocol_propagates_operations_only_to_nodes_that_dont_know_about_it() {
    let mut worker = ProtocolWorker::new(settings(), context());
    // Create 1 nodes.
    let nodes = create_and_connect_nodes(1, 1, &mut worker);

    // 1. Create an operation
    let operation = create_operation_with_expire_period(&nodes[0].private_key, 1);

    // Send operation and wait for the protocol event,
    // just to be sure the nodes are connected before sending the propagate command.
    let result = worker.received_operations(nodes[0].id, &vec![operation]);
    match result.pool_event {
        Some(ProtocolPoolEvent::ReceivedOperations { .. }) => {}
        _ => panic!("Unexpected or no protocol pool event."),
    };
    // create and connect a node that does not know about the endorsement
    let new_nodes = create_and_connect_nodes(1, 50, &mut worker);

    let expected_operation_id = operation.verify_integrity().unwrap();

    let ops = vec![(expected_operation_id, operation)];

    // send endorsement to protocol
    // it should be propagated only to the node that doesn't know about it
    let commands = worker.propagate_operations(&ops);

    let sent = sent_operations(&commands);
    match sent.first() {
        Some((node, operations)) => {
            let id = operations[0].verify_integrity().unwrap();
            assert_eq!(id, expected_operation_id);
            assert_eq!(new_nodes[0].id, *node);
        }
        _ => panic!("Unexpected or no network command."),
    };
    assert_eq!(commands.len(), 1);

    // what was sent is known: nothing is sent a second time
    assert!(worker.propagate_operations(&ops).is_empty());
}

#[test]
fn test_protocol_propagates_operations_only_to_nodes_that_dont_know_about_it_block_integration() {
    let mut worker = ProtocolWorker::new(settings(), context());
    // Create 1 node.
    let nodes = create_and_connect_nodes(1, 1, &mut worker);
    let thread = thread_of(&nodes[0]);

    let operation = create_operation_with_expire_period(&nodes[0].private_key, 1);
    let operation_id = operation.get_operation_id();

    let block = create_block_with_operations(
        &nodes[0].private_key,
        &nodes[0].id.0,
        Slot::new(1, thread),
        vec![operation],
    );
    let block_id = block.header.compute_block_id().unwrap();

    let result = worker.asked_for_block(nodes[0].id, vec![block_id], 0);

    // Wait for the event to be sure that the node is connected,
    // and noted as interested in the block.
    match result.event {
        Some(ProtocolEvent::GetBlocks { ids, requester }) => {
            assert_eq!(ids, vec![block_id]);
            assert_eq!(requester, nodes[0].id);
        }
        _ => panic!("Unexpected or no protocol event."),
    }

    // Integrate the block,
    // this should note the node as knowning about the endorsement.
    let commands = worker.integrated_block(block_id, &vec![operation_id], &Vec::new());

    match commands.first() {
        Some(NetworkCommand::SendBlock { peer, block_id }) => {
            assert_eq!(*peer, nodes[0].id);
            assert_eq!(
                block.header.compute_block_id().expect("Fail to get block id"),
                *block_id
            );
        }
        Some(_) => panic!("Unexpected network command.."),
        None => panic!("Block not sent."),
    };
    assert_eq!(commands.len(), 1);

    // Send the endorsement to protocol
    // it should not propagate to the node that already knows about it
    // because of the previously integrated block.
    let ops = vec![(operation_id, operation)];
    let commands = worker.propagate_operations(&ops);

    match commands.first() {
        Some(NetworkCommand::SendOperations { peer, operations }) => {
            let id = operations[0].get_operation_id();
            assert_eq!(id, operation_id);
            assert_eq!(nodes[0].id, *peer);
            panic!("Unexpected propagated of operation.");
        }
        None => {}
        Some(cmd) => panic!("Unexpected network command.{:?}", cmd),
    };

    // the block is sent once: integrating it again sends nothing
    assert!(worker.integrated_block(block_id, &vec![operation_id], &Vec::new()).is_empty());
}

#[test]
fn test_protocol_propagates_operations_only_to_nodes_that_dont_know_about_it_get_block_results() {
    let mut worker = ProtocolWorker::new(settings(), context());
    // Create 1 node.
    let nodes = create_and_connect_nodes(1, 1, &mut worker);
    let thread = thread_of(&nodes[0]);

    let operation = create_operation_with_expire_period(&nodes[0].private_key, 1);
    let operation_id = operation.get_operation_id();

    let block = create_block_with_operations(
        &nodes[0].private_key,
        &nodes[0].id.0,
        Slot::new(1, thread),
        vec![operation],
    );
    let expected_block_id = block.header.compute_block_id().unwrap();

    let result = worker.asked_for_block(nodes[0].id, vec![expected_block_id], 0);

    // Wait for the event to be sure that the node is connected,
    // and noted as interested in the block.
    assert!(matches!(result.event, Some(ProtocolEvent::GetBlocks { .. })));

    // Send the block as search results.
    let results = vec![BlockResult {
        block_id: expected_block_id,
        content: Some(BlockResultContent {
            operations: Some(vec![operation_id]),
            endorsements: None,
        }),
    }];

    let commands = worker.send_get_blocks_results(&results);

    match commands.first() {
        Some(NetworkCommand::SendBlock { peer, block_id }) => {
            assert_eq!(*peer, nodes[0].id);
            assert_eq!(*block_id, expected_block_id);
        }
        Some(_) => panic!("Unexpected network command.."),
        None => panic!("Block not sent."),
    };
    assert_eq!(commands.len(), 1);

    // Send the endorsement to protocol
    // it should not propagate to the node that already knows about it
    // because of the previously integrated block.
    let ops = vec![(operation_id, operation)];
    let commands = worker.propagate_operations(&ops);

    match commands.first() {
        Some(NetworkCommand::SendOperations { peer, operations }) => {
            let id = operations[0].get_operation_id();
            assert_eq!(id, operation_id);
            assert_eq!(nodes[0].id, *peer);
            panic!("Unexpected propagated of operation.");
        }
        None => {}
        Some(cmd) => panic!("Unexpected network command.{:?}", cmd),
    };
}

#[test]
fn test_protocol_propagates_operations_only_to_nodes_that_dont_know_about_it_indirect_knowledge_via_header(
) {
    let mut worker = ProtocolWorker::new(settings(), context());
    // Create 2 nodes.
    let nodes = create_and_connect_nodes(2, 1, &mut worker);
    let thread = thread_of(&nodes[0]);

    let operation = create_operation_with_expire_period(&nodes[0].private_key, 1);
    let operation_id = operation.get_operation_id();

    let block = create_block_with_operations(
        &nodes[0].private_key,
        &nodes[0].id.0,
        Slot::new(1, thread),
        vec![operation],
    );

    let block_id = block.header.compute_block_id().expect("Fail to compute block id");

    // Node 2 sends block, resulting in operations and endorsements noted in block info.
    let result = worker.received_block(nodes[1].id, block.clone());
    assert!(matches!(
        result.event,
        Some(ProtocolEvent::ReceivedBlock { id, source, .. }) if id == block_id && source == nodes[1].id
    ));

    // Node 1 sends header, resulting in protocol using the block info to determine
    // the node knows about the operations contained in the block.
    let result = worker.received_header(nodes[0].id, block.header.clone());

    // Wait for the event to be sure that the node is connected,
    // and noted as knowing the block and its operations.
    assert!(matches!(
        result.event,
        Some(ProtocolEvent::ReceivedBlockHeader { id, source, .. }) if id == block_id && source == nodes[0].id
    ));

    // Send the operation to protocol
    // it should not propagate to the node that already knows about it
    // because of the previously received header.
    let ops = vec![(operation_id, operation)];
    let commands = worker.propagate_operations(&ops);

    match commands.first() {
        Some(NetworkCommand::SendOperations { peer, operations }) => {
            let id = operations[0].get_operation_id();
            assert_eq!(id, operation_id);
            assert_eq!(nodes[0].id, *peer);
            panic!("Unexpected propagated of operation.");
        }
        None => {}
        Some(cmd) => panic!("Unexpected network command.{:?}", cmd),
    };
}

#[test]
fn test_protocol_propagates_operations_only_to_nodes_that_dont_know_about_it_indirect_knowledge_via_header_wrong_root_hash(
) {
    let mut worker = ProtocolWorker::new(settings(), context());
    // Create 3 nodes.
    let nodes = create_and_connect_nodes(3, 1, &mut worker);
    let thread = thread_of(&nodes[0]);

    let operation = create_operation_with_expire_period(&nodes[0].private_key, 1);

    let operation_2 = create_operation_with_expire_period(&nodes[0].private_key, 2);
    let operation_id_2 = operation_2.get_operation_id();

    let mut block = create_block_with_operations(
        &nodes[0].private_key,
        &nodes[0].id.0,
        Slot::new(1, thread),
        vec![operation],
    );

    // Change the root operation hash
    block.operations = vec![operation_2];

    let block_id = block.header.compute_block_id().expect("Fail to compute block id");
    // Node 2 sends block, not resulting in operations and endorsements noted in block info,
    // because of the invalid root hash.
    let result = worker.received_block(nodes[1].id, block.clone());
    assert!(result.event.is_none());
    assert!(result.pool_event.is_none());
    assert!(matches!(
        result.network.as_slice(),
        [NetworkCommand::Ban { peer }] if *peer == nodes[1].id
    ));

    // Node 3 sends block, with the same outcome.
    let result = worker.received_block(nodes[2].id, block.clone());
    assert!(result.event.is_none());

    // Node 1 sends header, but the block is empty.
    let result = worker.received_header(nodes[0].id, block.header.clone());

    // Wait for the event to be sure that the node is connected.
    assert!(matches!(
        result.event,
        Some(ProtocolEvent::ReceivedBlockHeader { id, .. }) if id == block_id
    ));

    // Send the operation to protocol
    // it should propagate to the node because it isn't in the block.
    let ops = vec![(operation_id_2, operation_2)];
    let commands = worker.propagate_operations(&ops);

    match commands.first() {
        Some(NetworkCommand::SendOperations { peer, operations }) => {
            let id = operations[0].get_operation_id();
            assert_eq!(id, operation_id_2);
            assert_eq!(nodes[0].id, *peer);
        }
        None => panic!("Operation not propagated."),
        Some(cmd) => panic!("Unexpected network command.{:?}", cmd),
    };
}

#[test]
fn test_protocol_does_not_propagates_operations_when_receiving_those_inside_a_block() {
    let mut worker = ProtocolWorker::new(settings(), context());
    // Create 2 nodes.
    let mut nodes = create_and_connect_nodes(2, 1, &mut worker);

    let creator_node = nodes.pop().expect("Failed to get node info.");

    // 1. Create an operation
    let operation = create_operation_with_expire_period(&creator_node.private_key, 1);
    let thread = thread_of(&creator_node);

    // 2. Create a block coming from node creator_node, and including the operation.
    let block = create_block_with_operations(
        &creator_node.private_key,
        &creator_node.id.0,
        Slot::new(1, thread),
        vec![operation],
    );

    // 4. Send block to protocol.
    let result = worker.received_block(creator_node.id, block);

    // 5. Check that the operation included in the block is not propagated.
    match result.pool_event {
        None => panic!("Protocol did not send operations to pool."),
        Some(ProtocolPoolEvent::ReceivedOperations { propagate, operations, .. }) => {
            let expected_id = operation.verify_integrity().unwrap();
            assert!(!propagate);
            assert_eq!(
                operations
                    .iter()
                    .find(|(id, _)| *id == expected_id)
                    .unwrap()
                    .1
                    .verify_integrity()
                    .unwrap(),
                expected_id
            );
            assert_eq!(operations.len(), 1);
        }
        Some(_) => panic!("Unexpected protocol pool event."),
    }
    assert!(result.network.is_empty());
}

#[test]
fn events_of_a_peer_that_is_not_connected_change_nothing() {
    let mut worker = ProtocolWorker::new(settings(), context());
    let (private_key, public_key) = key_pair(9);
    let stranger = NodeId(public_key);
    let operation = create_operation_with_expire_period(&private_key, 1);
    let result = worker.received_operations(stranger, &vec![operation]);
    assert!(result.network.is_empty() && result.event.is_none() && result.pool_event.is_none());
    let result = worker.asked_for_block(stranger, vec![], 0);
    assert!(result.network.is_empty() && result.event.is_none() && result.pool_event.is_none());
    assert!(worker.peers.is_empty());
    assert!(worker.ask_for_block(stranger, BlockId(massa_protocol::hash::Hash::from_bytes(&[1; 32])), 0).is_empty());

    // after it disconnected, a peer is a stranger again
    worker.node_connected(stranger);
    worker.node_connected(stranger);
    assert_eq!(worker.peers.len(), 1);
    worker.node_disconnected(stranger);
    assert!(worker.peers.is_empty());
    let id: OperationId = operation.get_operation_id();
    assert!(worker.propagate_operations(&vec![(id, operation)]).is_empty());
}

#[test]
fn more_operations_than_a_peer_can_be_noted_to_know_push_the_first_out() {
    let mut config = settings();
    config.max_known_ops_size = 1;
    let mut worker = ProtocolWorker::new(config, context());
    let nodes = create_and_connect_nodes(1, 1, &mut worker);
    let first = create_operation_with_expire_period(&nodes[0].private_key, 1);
    let second = create_operation_with_expire_period(&nodes[0].private_key, 2);
    let ops = vec![(first.get_operation_id(), first), (second.get_operation_id(), second)];
    let sent = sent_operations(&worker.propagate_operations(&ops));
    assert_eq!(sent, vec![(nodes[0].id, vec![first, second])]);
    // only the second is still known: the first is sent again
    let sent = sent_operations(&worker.propagate_operations(&ops));
    assert_eq!(sent, vec![(nodes[0].id, vec![first])]);
}

#[test]
fn a_block_is_asked_once_from_a_peer_until_the_request_is_lost() {
    let mut worker = ProtocolWorker::new(settings(), context());
    let nodes = create_and_connect_nodes(2, 1, &mut worker);
    let wanted = BlockId(massa_protocol::hash::Hash::compute_from("wanted".as_bytes()));

    let commands = worker.ask_for_block(nodes[0].id, wanted, 1000);
    assert!(matches!(
        commands.as_slice(),
        [NetworkCommand::AskForBlock { peer, ids }] if *peer == nodes[0].id && *ids == vec![wanted]
    ));
    // at most one outstanding request for a peer and a block
    assert!(worker.ask_for_block(nodes[0].id, wanted, 1001).is_empty());
    // another peer may be asked
    assert_eq!(worker.ask_for_block(nodes[1].id, wanted, 1200).len(), 1);

    // the deadline is the time of the request plus the timeout
    assert!(worker.expire_requests(1499).is_empty());
    assert_eq!(worker.expire_requests(1500), vec![(nodes[0].id, wanted)]);
    assert_eq!(worker.expire_requests(1500), vec![]);
    // the block may be asked again from the first peer
    assert_eq!(worker.ask_for_block(nodes[0].id, wanted, 1600).len(), 1);
    assert_eq!(worker.expire_requests(u64::MAX), vec![(nodes[0].id, wanted), (nodes[1].id, wanted)]);
    // a deadline that does not fit is the end of time
    assert_eq!(worker.ask_for_block(nodes[0].id, wanted, u64::MAX - 3).len(), 1);
    assert!(worker.expire_requests(u64::MAX - 1).is_empty());
    assert_eq!(worker.expire_requests(u64::MAX), vec![(nodes[0].id, wanted)]);
}

#[test]
fn a_block_that_arrives_answers_the_request_for_it() {
    let mut worker = ProtocolWorker::new(settings(), context());
    let nodes = create_and_connect_nodes(1, 1, &mut worker);
    let operation = create_operation_with_expire_period(&nodes[0].private_key, 1);
    let block = create_block_with_operations(
        &nodes[0].private_key,
        &nodes[0].id.0,
        Slot::new(1, 0),
        vec![operation],
    );
    let block_id = block.header.compute_block_id().unwrap();
    assert_eq!(worker.ask_for_block(nodes[0].id, block_id, 10).len(), 1);
    let result = worker.received_block(nodes[0].id, block);
    assert!(result.event.is_some());
    assert!(worker.expire_requests(u64::MAX).is_empty());
}

#[test]
fn a_header_without_a_held_body_tells_nothing_of_operations() {
    let mut worker = ProtocolWorker::new(settings(), context());
    let nodes = create_and_connect_nodes(2, 1, &mut worker);
    let operation = create_operation_with_expire_period(&nodes[0].private_key, 1);
    let block = create_block_with_operations(
        &nodes[0].private_key,
        &nodes[0].id.0,
        Slot::new(1, 1),
        vec![operation],
    );
    let result = worker.received_header(nodes[0].id, block.header.clone());
    assert!(result.event.is_some());
    let sent = sent_operations(&worker.propagate_operations(&vec![(operation.get_operation_id(), operation)]));
    assert_eq!(sent, vec![(nodes[0].id, vec![operation]), (nodes[1].id, vec![operation])]);
}

#[test]
fn a_header_that_is_not_valid_is_answered_with_a_ban() {
    let mut worker = ProtocolWorker::new(settings(), context());
    let nodes = create_and_connect_nodes(1, 1, &mut worker);
    let block = create_block_with_operations(
        &nodes[0].private_key,
        &nodes[0].id.0,
        Slot::new(1, 1),
        Vec::new(),
    );

    // another slot than the signed one
    let mut header = block.header.clone();
    header.content.slot = Slot::new(2, 1);
    let result = worker.received_header(nodes[0].id, header);
    assert!(matches!(result.network.as_slice(), [NetworkCommand::Ban { .. }]));
    assert!(result.event.is_none());

    // a thread that does not exist
    let (_, header) = BlockHeader::new_signed(
        &nodes[0].private_key,
        BlockHeaderContent { slot: Slot::new(1, 2), ..block.header.content.clone() },
    )
    .unwrap();
    assert!(worker.received_header(nodes[0].id, header).event.is_none());

    // parents in period zero
    let (_, header) = BlockHeader::new_signed(
        &nodes[0].private_key,
        BlockHeaderContent { slot: Slot::new(0, 1), ..block.header.content.clone() },
    )
    .unwrap();
    assert!(worker.received_header(nodes[0].id, header).event.is_none());

    // one parent for two threads
    let (_, header) = BlockHeader::new_signed(
        &nodes[0].private_key,
        BlockHeaderContent {
            parents: vec![block.header.content.parents[0]],
            ..block.header.content.clone()
        },
    )
    .unwrap();
    assert!(worker.received_header(nodes[0].id, header).event.is_none());

    // no parents in period zero
    let (_, header) = BlockHeader::new_signed(
        &nodes[0].private_key,
        BlockHeaderContent {
            slot: Slot::new(0, 1),
            parents: Vec::new(),
            ..block.header.content.clone()
        },
    )
    .unwrap();
    assert!(worker.received_header(nodes[0].id, header).event.is_some());
}

#[test]
fn a_peer_that_asked_too_long_ago_is_not_sent_the_block() {
    let mut worker = ProtocolWorker::new(settings(), context());
    let nodes = create_and_connect_nodes(2, 1, &mut worker);
    let block_id = BlockId(massa_protocol::hash::Hash::compute_from("late".as_bytes()));
    assert!(worker.asked_for_block(nodes[0].id, vec![block_id], 100).event.is_some());
    assert!(worker.asked_for_block(nodes[1].id, vec![block_id, block_id], 300).event.is_some());
    // the first request is lost at 600, the second at 800
    assert!(worker.expire_requests(600).is_empty());
    let commands = worker.integrated_block(block_id, &Vec::new(), &Vec::new());
    assert!(matches!(
        commands.as_slice(),
        [NetworkCommand::SendBlock { peer, block_id: sent }] if *peer == nodes[1].id && *sent == block_id
    ));
}

#[test]
fn a_state_with_a_peer_twice_or_sets_of_other_sizes_is_not_well_formed() {
    let mut worker = ProtocolWorker::new(settings(), context());
    assert!(worker.is_well_formed());
    let nodes = create_and_connect_nodes(2, 1, &mut worker);
    let operation = create_operation_with_expire_period(&nodes[0].private_key, 1);
    worker.received_operations(nodes[0].id, &vec![operation]);
    worker.asked_for_block(nodes[1].id, vec![BlockId(massa_protocol::hash::Hash::from_bytes(&[1; 32]))], 5);
    assert!(worker.is_well_formed());

    let mut twice = worker.clone();
    let copy = twice.peers[0].clone();
    twice.peers.push(copy);
    assert!(!twice.is_well_formed());

    let mut resized = worker.clone();
    resized.config.max_known_ops_size = 7;
    assert!(!resized.is_well_formed());

    let mut doubled = worker.clone();
    let request = doubled.peers[1].requests.wanted[0];
    doubled.peers[1].requests.wanted.push(request);
    assert!(!doubled.is_well_formed());
    assert!(!doubled.peers[1].requests.is_well_formed());
    assert!(doubled.peers[0].is_well_formed(&doubled.config));
}
