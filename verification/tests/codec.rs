use massa_protocol::codec::{
    be_bytes_min_length, from_be_bytes_min, from_varint_bytes, from_varint_bytes_bounded,
    from_varint_bytes_bounded_u32, to_be_bytes_min, to_varint_bytes, u8_from_slice,
};
use massa_protocol::config::SerializationContext;
use massa_protocol::error::ModelsError;
use massa_protocol::slot::Slot;

fn context(thread_count: u8) -> SerializationContext {
    SerializationContext {
        max_block_size: 1024 * 1024,
        max_operations_per_block: 1024,
        thread_count,
        max_advertise_length: 128,
        max_message_size: 3 * 1024 * 1024,
        max_bootstrap_blocks: 100,
        max_bootstrap_cliques: 100,
        max_bootstrap_deps: 100,
        max_bootstrap_children: 100,
        max_bootstrap_pos_cycles: 1000,
        max_bootstrap_pos_entries: 1000,
        max_ask_blocks_per_message: 10,
        max_operations_per_message: 1024,
        max_endorsements_per_message: 1024,
        max_bootstrap_message_size: 100000000,
        endorsement_count: 8,
    }
}

#[test]
fn varint_has_seven_bits_per_byte_least_significant_first() {
    assert_eq!(to_varint_bytes(0), vec![0]);
    assert_eq!(to_varint_bytes(127), vec![127]);
    assert_eq!(to_varint_bytes(128), vec![128, 1]);
    assert_eq!(to_varint_bytes(300), vec![172, 2]);
    assert_eq!(to_varint_bytes(u32::MAX as u64), vec![255, 255, 255, 255, 15]);
    assert_eq!(
        to_varint_bytes(u64::MAX),
        vec![255, 255, 255, 255, 255, 255, 255, 255, 255, 1]
    );
}

#[test]
fn varint_round_trips_and_reports_the_position_behind_it() {
    for value in [0u64, 1, 127, 128, 300, 16383, 16384, u32::MAX as u64, u64::MAX] {
        let mut buffer = vec![9u8, 9];
        buffer.extend(to_varint_bytes(value));
        let end = buffer.len();
        buffer.push(200);
        assert_eq!(from_varint_bytes(&buffer, 2).unwrap(), (value, end));
    }
}

#[test]
fn varint_refuses_truncated_overlong_and_oversized_input() {
    assert!(matches!(from_varint_bytes(&[], 0), Err(ModelsError::DeserializeError(_))));
    assert!(matches!(from_varint_bytes(&[128], 0), Err(ModelsError::DeserializeError(_))));
    assert!(matches!(from_varint_bytes(&[1], 1), Err(ModelsError::DeserializeError(_))));
    // a continuation byte followed by a zero byte is not the shortest form of 0
    assert!(matches!(from_varint_bytes(&[128, 0], 0), Err(ModelsError::DeserializeError(_))));
    // two to the power 64
    let too_large = [128, 128, 128, 128, 128, 128, 128, 128, 128, 2];
    assert!(matches!(from_varint_bytes(&too_large, 0), Err(ModelsError::DeserializeError(_))));
    // eleven bytes
    let too_long = [255, 255, 255, 255, 255, 255, 255, 255, 255, 255, 1];
    assert!(matches!(from_varint_bytes(&too_long, 0), Err(ModelsError::DeserializeError(_))));
}

#[test]
fn bounded_varint_refuses_values_above_the_bound() {
    assert_eq!(from_varint_bytes_bounded(&[172, 2], 0, 300).unwrap(), (300, 2));
    assert!(matches!(
        from_varint_bytes_bounded(&[172, 2], 0, 299),
        Err(ModelsError::DeserializeError(_))
    ));
    assert_eq!(from_varint_bytes_bounded_u32(&[8], 0, 8).unwrap(), (8, 1));
    assert!(matches!(
        from_varint_bytes_bounded_u32(&[9], 0, 8),
        Err(ModelsError::DeserializeError(_))
    ));
    assert!(matches!(
        from_varint_bytes_bounded_u32(&[255, 255, 255, 255, 16], 0, u32::MAX),
        Err(ModelsError::DeserializeError(_))
    ));
}

#[test]
fn big_endian_width_is_the_least_that_holds_the_maximum() {
    assert_eq!(be_bytes_min_length(0), 0);
    assert_eq!(be_bytes_min_length(1), 1);
    assert_eq!(be_bytes_min_length(255), 1);
    assert_eq!(be_bytes_min_length(256), 2);
    assert_eq!(be_bytes_min_length(1024), 2);
    assert_eq!(be_bytes_min_length(65535), 2);
    assert_eq!(be_bytes_min_length(65536), 3);
    assert_eq!(be_bytes_min_length(16777215), 3);
    assert_eq!(be_bytes_min_length(16777216), 4);
    assert_eq!(be_bytes_min_length(u32::MAX), 4);
}

#[test]
fn big_endian_bytes_are_most_significant_first() {
    assert_eq!(to_be_bytes_min(0, 0).unwrap(), Vec::<u8>::new());
    assert_eq!(to_be_bytes_min(5, 255).unwrap(), vec![5]);
    assert_eq!(to_be_bytes_min(5, 1024).unwrap(), vec![0, 5]);
    assert_eq!(to_be_bytes_min(1024, 1024).unwrap(), vec![4, 0]);
    assert_eq!(to_be_bytes_min(0x01_02_03, 0x10_00_00).unwrap(), vec![1, 2, 3]);
    assert_eq!(to_be_bytes_min(0x01_02_03_04, u32::MAX).unwrap(), vec![1, 2, 3, 4]);
}

#[test]
fn big_endian_refuses_a_value_above_the_maximum() {
    assert!(matches!(to_be_bytes_min(1025, 1024), Err(ModelsError::SerializeError(_))));
    assert!(matches!(to_be_bytes_min(1, 0), Err(ModelsError::SerializeError(_))));
    assert!(matches!(
        from_be_bytes_min(&[4, 1], 0, 1024),
        Err(ModelsError::DeserializeError(_))
    ));
    assert!(matches!(from_be_bytes_min(&[4], 0, 1024), Err(ModelsError::DeserializeError(_))));
    assert!(matches!(from_be_bytes_min(&[4, 0], 1, 1024), Err(ModelsError::DeserializeError(_))));
    assert!(matches!(from_be_bytes_min(&[4, 0], 3, 1024), Err(ModelsError::DeserializeError(_))));
}

#[test]
fn big_endian_round_trips() {
    for (value, max) in [(0u32, 0u32), (0, 1), (255, 255), (256, 1024), (70000, 70000), (7, u32::MAX)] {
        let mut buffer = vec![1u8];
        buffer.extend(to_be_bytes_min(value, max).unwrap());
        let end = buffer.len();
        buffer.push(77);
        assert_eq!(from_be_bytes_min(&buffer, 1, max).unwrap(), (value, end));
    }
}

#[test]
fn one_byte_is_read_where_it_stands() {
    assert_eq!(u8_from_slice(&[3, 4], 1).unwrap(), 4);
    assert!(matches!(u8_from_slice(&[3, 4], 2), Err(ModelsError::DeserializeError(_))));
}

#[test]
fn slot_compact_form_is_period_then_thread() {
    assert_eq!(Slot::new(1, 2).to_bytes_compact(), vec![1, 2]);
    assert_eq!(Slot::new(300, 31).to_bytes_compact(), vec![172, 2, 31]);
    let ctx = context(32);
    assert_eq!(Slot::from_bytes_compact(&[172, 2, 31, 9], &ctx).unwrap(), (Slot::new(300, 31), 3));
}

#[test]
fn slot_with_a_thread_that_does_not_exist_is_refused() {
    let ctx = context(3);
    assert!(Slot::from_bytes_compact(&[1, 2], &ctx).is_ok());
    assert!(matches!(
        Slot::from_bytes_compact(&[1, 3], &ctx),
        Err(ModelsError::DeserializeError(_))
    ));
    assert!(matches!(Slot::from_bytes_compact(&[1], &ctx), Err(ModelsError::DeserializeError(_))));
}

#[test]
fn slot_key_form_is_eight_big_endian_bytes_then_thread() {
    assert_eq!(Slot::new(1, 2).to_bytes_key(), [0, 0, 0, 0, 0, 0, 0, 1, 2]);
    assert_eq!(
        Slot::new(0x0102030405060708, 9).to_bytes_key(),
        [1, 2, 3, 4, 5, 6, 7, 8, 9]
    );
}

#[test]
fn slots_are_ordered_by_period_then_thread() {
    assert!(Slot::new(1, 5).precedes(&Slot::new(2, 0)));
    assert!(Slot::new(1, 0).precedes(&Slot::new(1, 1)));
    assert!(!Slot::new(1, 1).precedes(&Slot::new(1, 1)));
    assert!(!Slot::new(2, 0).precedes(&Slot::new(1, 5)));
    assert!(Slot::new(1, 5) < Slot::new(2, 0));
    assert!(Slot::new(1, 0).to_bytes_key() < Slot::new(1, 1).to_bytes_key());
}
