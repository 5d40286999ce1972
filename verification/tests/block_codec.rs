use massa_protocol::block::{Block, BlockHeader, BlockHeaderContent, BlockId};
use massa_protocol::config::SerializationContext;
use massa_protocol::endorsement::{Endorsement, EndorsementContent};
use massa_protocol::keys::{sign, PrivateKey, PublicKey};
use massa_protocol::operation::{Amount, Operation, OperationContent, OperationType};
use massa_protocol::slot::Slot;
use massa_protocol::validation::{check_block, check_header};

fn context() -> SerializationContext {
    SerializationContext {
        max_block_size: 1024 * 1024,
        max_operations_per_block: 1024,
        thread_count: 3,
        max_advertise_length: 128,
        max_message_size: 3 * 1024 * 1024,
        max_bootstrap_blocks: 100,
        max_bootstrap_cliques: 100,
        max_bootstrap_deps: 100,
        max_bootstrap_children: 100,
        max_bootstrap_pos_cycles: 1000,
        max_bootstrap_pos_entries: 1000,
        max_ask_blocks_per_message: 10,
        max_operations_per_message: 1024,
        max_endorsements_per_message: 1024,
        max_bootstrap_message_size: 100000000,
        endorsement_count: 8,
    }
}

fn key_pair(seed: u8) -> (PrivateKey, PublicKey) {
    let secret = [seed; 32];
    let context = secp256k1::Secp256k1::new();
    let pair = secp256k1::Keypair::from_seckey_slice(&context, &secret).unwrap();
    let public = pair.x_only_public_key().0.serialize();
    (PrivateKey::from_bytes(&secret), PublicKey::from_bytes(&public))
}

fn block_id_of(text: &str) -> BlockId {
    BlockId(massa_protocol::hash::Hash::compute_from(text.as_bytes()))
}

#[test]
fn test_block_serialization() {
    let ctx = context();
    let (private_key, public_key) = key_pair(7);

    // create block header
    let (orig_id, orig_header) = BlockHeader::new_signed(
        &private_key,
        BlockHeaderContent {
            creator: public_key,
            slot: Slot::new(1, 2),
            parents: vec![block_id_of("abc"), block_id_of("def"), block_id_of("ghi")],
            operation_merkle_root: massa_protocol::hash::Hash::compute_from("mno".as_bytes()),
            endorsements: vec![
                Endorsement {
                    content: EndorsementContent {
                        sender_public_key: public_key,
                        slot: Slot::new(1, 1),
                        index: 1,
                        endorsed_block: block_id_of("blk1"),
                    },
                    signature: sign(
                        &massa_protocol::hash::Hash::compute_from("dta".as_bytes()),
                        &private_key,
                    )
                    .unwrap(),
                },
                Endorsement {
                    content: EndorsementContent {
                        sender_public_key: public_key,
                        slot: Slot::new(4, 0),
                        index: 3,
                        endorsed_block: block_id_of("blk2"),
                    },
                    signature: sign(
                        &massa_protocol::hash::Hash::compute_from("dat".as_bytes()),
                        &private_key,
                    )
                    .unwrap(),
                },
            ],
        },
    )
    .unwrap();

    // create block
    let orig_block = Block { header: orig_header, operations: vec![] };

    // serialize block
    let orig_bytes = orig_block.to_bytes_compact(&ctx).unwrap();

    // deserialize
    let (res_block, res_size) = Block::from_bytes_compact(&orig_bytes, &ctx).unwrap();
    assert_eq!(orig_bytes.len(), res_size);

    // check equality
    let res_id = res_block.header.compute_block_id().unwrap();
    let generated_res_id = res_block.header.compute_block_id().unwrap();
    assert_eq!(orig_id, res_id);
    assert_eq!(orig_id, generated_res_id);
    assert_eq!(res_block.header.signature, orig_block.header.signature);
}

fn operation(seed: u8, kind: u8) -> massa_protocol::operation::Operation {
    let (private_key, public_key) = key_pair(seed);
    let op = match kind {
        0 => OperationType::Transaction {
            recipient_address: massa_protocol::address::Address::from_public_key(&key_pair(99).1),
            amount: Amount(1_000_000),
        },
        1 => OperationType::RollBuy { roll_count: 300 },
        _ => OperationType::RollSell { roll_count: u64::MAX },
    };
    let content = OperationContent {
        sender_public_key: public_key,
        fee: Amount(20),
        expire_period: 128,
        op,
    };
    let signature = sign(&content.compute_hash(), &private_key).unwrap();
    Operation { content, signature }
}

fn block_with(operations: Vec<massa_protocol::operation::Operation>, period: u64) -> Block {
    let (private_key, public_key) = key_pair(7);
    let parents = if period == 0 {
        vec![]
    } else {
        vec![block_id_of("abc"), block_id_of("def"), block_id_of("ghi")]
    };
    let (_, header) = BlockHeader::new_signed(
        &private_key,
        BlockHeaderContent {
            creator: public_key,
            slot: Slot::new(period, 2),
            parents,
            operation_merkle_root: massa_protocol::validation::compute_merkle_root(&operations),
            endorsements: vec![],
        },
    )
    .unwrap();
    Block { header, operations }
}

fn same_block(a: &Block, b: &Block) -> bool {
    a.header.content.creator == b.header.content.creator
        && a.header.content.slot == b.header.content.slot
        && a.header.content.parents == b.header.content.parents
        && a.header.content.operation_merkle_root == b.header.content.operation_merkle_root
        && a.header.content.endorsements == b.header.content.endorsements
        && a.header.signature == b.header.signature
        && a.operations == b.operations
}

#[test]
fn operation_compact_form_is_fee_expiry_sender_kind_fields_signature() {
    let op = operation(3, 1);
    let mut expected = vec![20u8, 128, 1];
    expected.extend(op.content.sender_public_key.to_bytes());
    expected.extend([1u8, 172, 2]);
    expected.extend(op.signature.to_bytes());
    assert_eq!(op.to_bytes_compact(), expected);

    let op = operation(3, 0);
    let mut expected = vec![20u8, 128, 1];
    expected.extend(op.content.sender_public_key.to_bytes());
    expected.push(0);
    expected.extend(massa_protocol::address::Address::from_public_key(&key_pair(99).1).to_bytes());
    expected.extend([192u8, 132, 61]);
    expected.extend(op.signature.to_bytes());
    assert_eq!(op.to_bytes_compact(), expected);
}

#[test]
fn operation_round_trips() {
    for kind in 0..3 {
        let op = operation(3, kind);
        let mut bytes = op.to_bytes_compact();
        let len = bytes.len();
        bytes.push(1);
        assert_eq!(
            massa_protocol::operation::Operation::from_bytes_compact(&bytes).unwrap(),
            (op, len)
        );
        assert!(massa_protocol::operation::Operation::from_bytes_compact(&bytes[..len - 1]).is_err());
    }
}

#[test]
fn operation_of_an_unknown_kind_is_refused() {
    let op = operation(3, 1);
    let mut bytes = op.to_bytes_compact();
    assert_eq!(bytes[35], 1);
    bytes[35] = 3;
    assert!(matches!(
        massa_protocol::operation::Operation::from_bytes_compact(&bytes),
        Err(massa_protocol::error::ModelsError::DeserializeError(_))
    ));
}

#[test]
fn operation_identifier_is_the_digest_of_its_compact_form() {
    let op = operation(3, 0);
    let expected = massa_protocol::hash::Hash::compute_from(&op.to_bytes_compact());
    assert_eq!(op.get_operation_id().0, expected);
    assert_eq!(op.verify_integrity().unwrap().0, expected);

    // two decodings of the same bytes yield equal identifiers
    let bytes = op.to_bytes_compact();
    let (first, _) = massa_protocol::operation::Operation::from_bytes_compact(&bytes).unwrap();
    let (second, _) = massa_protocol::operation::Operation::from_bytes_compact(&bytes).unwrap();
    assert_eq!(first.verify_integrity().unwrap(), second.verify_integrity().unwrap());
    assert_eq!(first.verify_integrity().unwrap().0, expected);
}

#[test]
fn operation_changed_after_signing_fails_its_integrity_check() {
    let mut op = operation(3, 0);
    op.content.fee = massa_protocol::operation::Amount(111);
    assert_eq!(
        op.verify_integrity(),
        Err(massa_protocol::error::ModelsError::InvalidSignature)
    );
}

#[test]
fn endorsement_round_trips_and_checks_its_signature() {
    let (private_key, public_key) = key_pair(5);
    let content = EndorsementContent {
        sender_public_key: public_key,
        slot: Slot::new(300, 1),
        index: 3,
        endorsed_block: block_id_of("blk1"),
    };
    let signature = sign(&content.compute_hash(), &private_key).unwrap();
    let endorsement = Endorsement { content, signature };

    let mut expected = public_key.to_bytes().to_vec();
    expected.extend([172u8, 2, 1, 3]);
    expected.extend(block_id_of("blk1").to_bytes());
    expected.extend(signature.to_bytes());
    assert_eq!(endorsement.to_bytes_compact(), expected);

    let ctx = context();
    assert_eq!(
        Endorsement::from_bytes_compact(&expected, &ctx).unwrap(),
        (endorsement, expected.len())
    );
    let id = endorsement.verify_integrity().unwrap();
    assert_eq!(id, endorsement.compute_endorsement_id());
    assert_eq!(id.0, massa_protocol::hash::Hash::compute_from(&expected));

    let mut forged = endorsement;
    forged.content.index = 4;
    assert_eq!(
        forged.verify_integrity(),
        Err(massa_protocol::error::ModelsError::InvalidSignature)
    );
}

#[test]
fn block_with_operations_round_trips() {
    let ctx = context();
    let block = block_with(vec![operation(1, 0), operation(2, 1), operation(3, 2)], 1);
    let bytes = block.to_bytes_compact(&ctx).unwrap();
    let (read, size) = Block::from_bytes_compact(&bytes, &ctx).unwrap();
    assert_eq!(size, bytes.len());
    assert!(same_block(&block, &read));
    assert_eq!(read.to_bytes_compact(&ctx).unwrap(), bytes);
    assert_eq!(block.bytes_count(&ctx).unwrap(), bytes.len() as u64);

    // bytes behind the block are left alone
    let mut longer = bytes.clone();
    longer.extend([1, 2, 3]);
    let (read, size) = Block::from_bytes_compact(&longer, &ctx).unwrap();
    assert_eq!(size, bytes.len());
    assert!(same_block(&block, &read));
}

#[test]
fn genesis_block_round_trips_without_parents() {
    let ctx = context();
    let block = block_with(vec![], 0);
    let bytes = block.to_bytes_compact(&ctx).unwrap();
    // creator, slot (0, 2), no parents
    assert_eq!(&bytes[32..35], &[0, 2, 0]);
    let (read, size) = Block::from_bytes_compact(&bytes, &ctx).unwrap();
    assert_eq!(size, bytes.len());
    assert!(same_block(&block, &read));
}

#[test]
fn block_layout_is_header_count_operations() {
    let ctx = context();
    let op = operation(1, 1);
    let block = block_with(vec![op], 1);
    let header = block.header.to_bytes_compact().unwrap();
    let content = block.header.content.to_bytes_compact().unwrap();
    let mut expected_content = block.header.content.creator.to_bytes().to_vec();
    expected_content.extend([1u8, 2, 1]);
    expected_content.extend(block_id_of("abc").to_bytes());
    expected_content.extend(block_id_of("def").to_bytes());
    expected_content.extend(block_id_of("ghi").to_bytes());
    expected_content.extend(block.header.content.operation_merkle_root.to_bytes());
    expected_content.push(0);
    assert_eq!(content, expected_content);
    let mut expected_header = expected_content;
    expected_header.extend(block.header.signature.to_bytes());
    assert_eq!(header, expected_header);
    let mut expected = expected_header;
    // the count of operations takes the two bytes that hold the cap of 1024
    expected.extend([0u8, 1]);
    expected.extend(op.to_bytes_compact());
    assert_eq!(block.to_bytes_compact(&ctx).unwrap(), expected);
}

#[test]
fn encoding_twice_gives_the_same_bytes() {
    let ctx = context();
    let block = block_with(vec![operation(1, 0), operation(2, 1)], 1);
    assert_eq!(block.to_bytes_compact(&ctx).unwrap(), block.to_bytes_compact(&ctx).unwrap());
    assert_eq!(block.clone().to_bytes_compact(&ctx).unwrap(), block.to_bytes_compact(&ctx).unwrap());
}

#[test]
fn a_count_of_operations_above_the_cap_is_refused() {
    let mut ctx = context();
    ctx.max_operations_per_block = 2;
    let block = block_with(vec![operation(1, 0), operation(2, 1)], 1);
    let bytes = block.to_bytes_compact(&ctx).unwrap();
    assert!(Block::from_bytes_compact(&bytes, &ctx).is_ok());
    let header_len = block.header.to_bytes_compact().unwrap().len();
    assert_eq!(bytes[header_len], 2);

    // the count alone decides: nothing needs to follow it
    let mut declared = bytes[..header_len].to_vec();
    declared.push(3);
    assert!(matches!(
        Block::from_bytes_compact(&declared, &ctx),
        Err(massa_protocol::error::ModelsError::DeserializeError(_))
    ));
    let mut declared = bytes.clone();
    declared[header_len] = 255;
    assert!(matches!(
        Block::from_bytes_compact(&declared, &ctx),
        Err(massa_protocol::error::ModelsError::DeserializeError(_))
    ));

    // a block with more operations than the cap is not written
    let block = block_with(vec![operation(1, 0), operation(2, 1), operation(3, 2)], 1);
    assert!(matches!(
        block.to_bytes_compact(&ctx),
        Err(massa_protocol::error::ModelsError::SerializeError(_))
    ));
    assert!(matches!(
        block.bytes_count(&ctx),
        Err(massa_protocol::error::ModelsError::SerializeError(_))
    ));
}

#[test]
fn a_block_larger_than_the_largest_block_size_is_refused() {
    let mut ctx = context();
    let block = block_with(vec![operation(1, 0), operation(2, 1)], 1);
    let bytes = block.to_bytes_compact(&ctx).unwrap();
    let header_len = block.header.to_bytes_compact().unwrap().len();

    ctx.max_block_size = bytes.len() as u32;
    assert!(Block::from_bytes_compact(&bytes, &ctx).is_ok());
    // behind the last operation
    ctx.max_block_size = bytes.len() as u32 - 1;
    assert!(matches!(
        Block::from_bytes_compact(&bytes, &ctx),
        Err(massa_protocol::error::ModelsError::DeserializeError(_))
    ));
    // behind the first operation
    ctx.max_block_size = header_len as u32 + 2 + 10;
    assert!(matches!(
        Block::from_bytes_compact(&bytes, &ctx),
        Err(massa_protocol::error::ModelsError::DeserializeError(_))
    ));
    // behind the count
    ctx.max_block_size = header_len as u32 + 1;
    assert!(matches!(
        Block::from_bytes_compact(&bytes, &ctx),
        Err(massa_protocol::error::ModelsError::DeserializeError(_))
    ));
    // behind the header
    ctx.max_block_size = header_len as u32 - 1;
    assert!(matches!(
        Block::from_bytes_compact(&bytes, &ctx),
        Err(massa_protocol::error::ModelsError::DeserializeError(_))
    ));
}

#[test]
fn a_header_with_a_bad_flag_too_many_endorsements_or_missing_bytes_is_refused() {
    let ctx = context();
    let block = block_with(vec![], 1);
    let bytes = block.header.to_bytes_compact().unwrap();
    assert_eq!(BlockHeader::from_bytes_compact(&bytes, &ctx).unwrap().1, bytes.len());

    let mut bad_flag = bytes.clone();
    assert_eq!(bad_flag[34], 1);
    bad_flag[34] = 2;
    assert!(matches!(
        BlockHeader::from_bytes_compact(&bad_flag, &ctx),
        Err(massa_protocol::error::ModelsError::DeserializeError(_))
    ));

    let mut too_many = bytes.clone();
    let count_at = 35 + 3 * 32 + 32;
    assert_eq!(too_many[count_at], 0);
    too_many[count_at] = 9;
    assert!(matches!(
        BlockHeaderContent::from_bytes_compact(&too_many, &ctx),
        Err(massa_protocol::error::ModelsError::DeserializeError(_))
    ));

    for cut in [0, 10, 34, 35, 100, bytes.len() - 1] {
        assert!(matches!(
            BlockHeader::from_bytes_compact(&bytes[..cut], &ctx),
            Err(massa_protocol::error::ModelsError::DeserializeError(_))
        ));
    }
}

#[test]
fn header_signature_binds_the_slot_to_the_content() {
    let block = block_with(vec![], 1);
    assert_eq!(block.header.check_signature(), Ok(()));
    let content_hash = block.header.content.compute_hash().unwrap();
    assert_eq!(
        content_hash,
        massa_protocol::hash::Hash::compute_from(&block.header.content.to_bytes_compact().unwrap())
    );
    assert_eq!(block.header.verify_signature(&content_hash), Ok(()));

    // the signed message is the digest of the slot's key followed by the content's digest
    let mut message = Slot::new(1, 2).to_bytes_key().to_vec();
    message.extend(content_hash.to_bytes());
    assert_eq!(
        massa_protocol::keys::verify_signature(
            &massa_protocol::hash::Hash::compute_from(&message),
            &block.header.signature,
            &block.header.content.creator
        ),
        Ok(())
    );
    // the content's digest alone was not signed
    assert_eq!(
        massa_protocol::keys::verify_signature(
            &content_hash,
            &block.header.signature,
            &block.header.content.creator
        ),
        Err(massa_protocol::error::ModelsError::InvalidSignature)
    );
    assert_eq!(
        BlockHeader::verify_slot_hash_signature(
            &Slot::new(1, 2),
            &content_hash,
            &block.header.signature,
            &block.header.content.creator
        ),
        Ok(())
    );
    assert_eq!(
        BlockHeader::verify_slot_hash_signature(
            &Slot::new(1, 1),
            &content_hash,
            &block.header.signature,
            &block.header.content.creator
        ),
        Err(massa_protocol::error::ModelsError::InvalidSignature)
    );

    let mut moved = block.header.clone();
    moved.content.slot = Slot::new(2, 2);
    assert_eq!(
        moved.check_signature(),
        Err(massa_protocol::error::ModelsError::InvalidSignature)
    );
}

#[test]
fn block_identifier_is_the_digest_of_the_header() {
    let (private_key, public_key) = key_pair(7);
    let content = BlockHeaderContent {
        creator: public_key,
        slot: Slot::new(1, 2),
        parents: vec![block_id_of("abc"), block_id_of("def"), block_id_of("ghi")],
        operation_merkle_root: massa_protocol::hash::Hash::compute_from("mno".as_bytes()),
        endorsements: vec![],
    };
    let (id, header) = BlockHeader::new_signed(&private_key, content).unwrap();
    assert_eq!(id.0, massa_protocol::hash::Hash::compute_from(&header.to_bytes_compact().unwrap()));
    assert_eq!(header.compute_block_id().unwrap(), id);

    let refused = BlockHeader::new_signed(&PrivateKey::from_bytes(&[0; 32]), header.content.clone());
    assert!(matches!(refused, Err(massa_protocol::error::ModelsError::InvalidSignature)));
}

#[test]
fn merkle_root_is_the_digest_of_the_identifiers_in_order() {
    let first = operation(1, 0);
    let second = operation(2, 1);
    let mut bytes = first.get_operation_id().0.to_bytes().to_vec();
    bytes.extend(second.get_operation_id().0.to_bytes());
    assert_eq!(
        massa_protocol::validation::compute_merkle_root(&vec![first, second]),
        massa_protocol::hash::Hash::compute_from(&bytes)
    );
    assert_ne!(
        massa_protocol::validation::compute_merkle_root(&vec![second, first]),
        massa_protocol::hash::Hash::compute_from(&bytes)
    );
    assert_eq!(
        massa_protocol::validation::compute_merkle_root(&vec![]),
        massa_protocol::hash::Hash::compute_from(&[])
    );
}

#[test]
fn a_block_is_valid_when_signatures_counts_and_root_agree() {
    let ctx = context();
    let first = operation(1, 0);
    let block = block_with(vec![first], 1);
    let checked = check_block(&block, &ctx).unwrap();
    assert_eq!(checked.block_id, block.header.compute_block_id().unwrap());
    assert_eq!(checked.operations, vec![(first.get_operation_id(), first)]);
    assert_eq!(check_header(&block.header, &ctx), Some(checked.block_id));

    // another list of operations than the root was made of
    let mut other = block.clone();
    other.operations = vec![operation(2, 1)];
    assert!(check_block(&other, &ctx).is_none());
    assert!(check_header(&other.header, &ctx).is_some());

    // an operation that is not signed by its sender
    let mut forged = first;
    forged.content.fee = massa_protocol::operation::Amount(21);
    assert!(check_block(&block_with(vec![forged], 1), &ctx).is_none());

    // larger than the largest block size
    let mut small = ctx;
    small.max_block_size = block.bytes_count(&ctx).unwrap() as u32 - 1;
    assert!(check_block(&block, &small).is_none());
    small.max_block_size += 1;
    assert!(check_block(&block, &small).is_some());

    // more operations than a block may hold
    let mut few = ctx;
    few.max_operations_per_block = 0;
    assert!(check_block(&block, &few).is_none());
}

#[test]
fn a_block_contains_the_operations_that_it_lists() {
    let inside = operation(1, 0);
    let outside = operation(2, 0);
    let block = block_with(vec![operation(3, 1), inside], 1);
    assert_eq!(block.contains_operation(&inside), Ok(true));
    assert_eq!(block.contains_operation(&outside), Ok(false));
    assert_eq!(block_with(vec![], 1).contains_operation(&inside), Ok(false));
}
