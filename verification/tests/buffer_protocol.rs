use alkahest::buffer::{Buffer, Sizes};
use alkahest::bytes::Bytes;
use alkahest::error::SerializeError;
use alkahest::reference::{Reference, REFERENCE_SIZE};
use alkahest::serialize::{write_ref, write_reference, write_spans, Serialize};
use std::collections::VecDeque;

fn reference_bytes(offset: u64, length: u64) -> Vec<u8> {
    let mut bytes = offset.to_le_bytes().to_vec();
    bytes.extend_from_slice(&length.to_le_bytes());
    bytes
}

#[test]
fn write_bytes_appends_to_the_stack() {
    let mut buffer = Buffer::new();
    let mut sizes = Sizes::zero();
    buffer.write_bytes(&mut sizes, &[1, 2, 3]).unwrap();
    buffer.write_bytes(&mut sizes, &[4]).unwrap();
    assert_eq!(buffer.stack_region(), &[1, 2, 3, 4]);
    assert_eq!(buffer.heap_region(), &[] as &[u8]);
    assert_eq!(sizes, Sizes { heap: 0, stack: 4 });
}

#[test]
fn write_past_the_limit_is_out_of_space_and_changes_nothing() {
    let mut buffer = Buffer::with_limit(4);
    let mut sizes = Sizes::zero();
    buffer.write_bytes(&mut sizes, &[1, 2, 3]).unwrap();
    assert_eq!(buffer.write_bytes(&mut sizes, &[4, 5]), Err(SerializeError::OutOfSpace));
    assert_eq!(buffer.stack_region(), &[1, 2, 3]);
    assert_eq!(sizes, Sizes { heap: 0, stack: 3 });
    buffer.write_bytes(&mut sizes, &[4]).unwrap();
    assert_eq!(buffer.stack_region(), &[1, 2, 3, 4]);
    assert_eq!(buffer.pad_stack(&mut sizes, 1), Err(SerializeError::OutOfSpace));
    assert_eq!(sizes, Sizes { heap: 0, stack: 4 });
}

#[test]
fn pad_stack_appends_zero_bytes() {
    let mut buffer = Buffer::new();
    let mut sizes = Sizes::zero();
    buffer.write_bytes(&mut sizes, &[9]).unwrap();
    buffer.pad_stack(&mut sizes, 3).unwrap();
    assert_eq!(buffer.stack_region(), &[9, 0, 0, 0]);
    assert_eq!(sizes.stack, 4);
}

#[test]
fn move_to_heap_takes_the_stack_tail() {
    let mut buffer = Buffer::new();
    let mut sizes = Sizes::zero();
    buffer.write_bytes(&mut sizes, &[1, 2, 3, 4, 5]).unwrap();
    buffer.move_to_heap(&mut sizes, 2);
    assert_eq!(buffer.stack_region(), &[1, 2, 3]);
    assert_eq!(buffer.heap_region(), &[4, 5]);
    assert_eq!(sizes, Sizes { heap: 2, stack: 3 });
}

#[test]
fn reference_is_two_little_endian_words() {
    let reference = Reference { offset: 0x0102, length: 3 };
    let bytes = reference.to_bytes();
    assert_eq!(bytes.len(), REFERENCE_SIZE);
    assert_eq!(bytes, vec![2, 1, 0, 0, 0, 0, 0, 0, 3, 0, 0, 0, 0, 0, 0, 0]);
    assert_eq!(Reference::from_bytes(&bytes), Some(reference));
}

#[test]
fn write_ref_places_the_payload_in_the_heap() {
    let mut buffer = Buffer::new();
    let mut sizes = Sizes::zero();
    buffer.write_bytes(&mut sizes, &[7]).unwrap();
    let length = write_ref::<u8, u8>(42, &mut sizes, &mut buffer).unwrap();
    assert_eq!(length, 1);
    assert_eq!(buffer.stack_region(), &[7]);
    assert_eq!(buffer.heap_region(), &[42]);
    write_reference(length, sizes.heap, &mut sizes, &mut buffer).unwrap();
    let mut expected = vec![7];
    expected.extend(reference_bytes(1, 1));
    assert_eq!(buffer.stack_region(), &expected[..]);
    assert_eq!(sizes, Sizes { heap: 1, stack: 17 });
}

#[test]
fn write_value_pads_an_inline_field_to_its_bound() {
    let mut buffer = Buffer::new();
    let mut sizes = Sizes::zero();
    buffer.write_value::<Option<u8>, Option<u8>>(&mut sizes, None).unwrap();
    buffer.write_value::<Option<u8>, Option<u8>>(&mut sizes, Some(5)).unwrap();
    assert_eq!(buffer.stack_region(), &[0, 0, 1, 5]);
    assert_eq!(buffer.heap_region(), &[] as &[u8]);
    assert_eq!(sizes, Sizes { heap: 0, stack: 4 });
}

#[test]
fn write_value_puts_an_unbounded_field_behind_a_reference() {
    let mut buffer = Buffer::new();
    let mut sizes = Sizes::zero();
    let bytes: VecDeque<u8> = VecDeque::from(vec![2, 3, 4]);
    buffer.write_value::<Bytes, VecDeque<u8>>(&mut sizes, bytes).unwrap();
    assert_eq!(buffer.stack_region(), &reference_bytes(3, 3)[..]);
    assert_eq!(buffer.heap_region(), &[2, 3, 4]);
}

#[test]
fn write_last_value_writes_directly() {
    let mut buffer = Buffer::new();
    let mut sizes = Sizes::zero();
    let bytes: VecDeque<u8> = VecDeque::from(vec![2, 3, 4]);
    buffer.write_last_value::<Bytes, VecDeque<u8>>(&mut sizes, bytes).unwrap();
    assert_eq!(buffer.stack_region(), &[2, 3, 4]);
    assert_eq!(buffer.heap_region(), &[] as &[u8]);
}

#[test]
fn reborrow_writes_to_the_same_sink() {
    let mut buffer = Buffer::new();
    let mut sizes = Sizes::zero();
    buffer.reborrow().write_bytes(&mut sizes, &[1]).unwrap();
    buffer.reborrow().write_bytes(&mut sizes, &[2]).unwrap();
    assert_eq!(buffer.stack_region(), &[1, 2]);
}

#[test]
fn finish_joins_stack_and_heap() {
    let mut buffer = Buffer::new();
    let mut sizes = Sizes::zero();
    buffer.write_bytes(&mut sizes, &[1, 2, 3]).unwrap();
    buffer.move_to_heap(&mut sizes, 1);
    buffer.write_bytes(&mut sizes, &[9]).unwrap();
    assert_eq!(buffer.sizes(), sizes);
    assert_eq!(buffer.finish(&sizes), Some(vec![1, 2, 9, 3]));
}

#[test]
fn finish_rejects_an_accumulator_that_disagrees() {
    let mut buffer = Buffer::new();
    let mut sizes = Sizes::zero();
    buffer.write_bytes(&mut sizes, &[1, 2, 3]).unwrap();
    let wrong = Sizes { heap: 0, stack: 2 };
    assert_eq!(buffer.finish(&wrong), None);
}

#[test]
fn failed_field_write_keeps_what_it_had_committed() {
    let mut buffer = Buffer::with_limit(11);
    let mut sizes = Sizes::zero();
    buffer.write_bytes(&mut sizes, &[7]).unwrap();
    let bytes: VecDeque<u8> = VecDeque::from(vec![2, 3, 4]);
    let written = buffer.write_value::<Bytes, VecDeque<u8>>(&mut sizes, bytes);
    assert_eq!(written, Err(SerializeError::OutOfSpace));
    assert_eq!(buffer.sizes(), sizes);
    assert_eq!(sizes, Sizes { heap: 3, stack: 1 });
    assert_eq!(buffer.stack_region(), &[7]);
    assert_eq!(buffer.heap_region(), &[2, 3, 4]);
}

#[test]
fn failed_option_write_keeps_its_tag() {
    let mut buffer = Buffer::with_limit(1);
    let mut sizes = Sizes::zero();
    let written =
        <Option<u8> as Serialize<Option<u8>>>::serialize(Some(5), &mut sizes, &mut buffer);
    assert_eq!(written, Err(SerializeError::OutOfSpace));
    assert_eq!(sizes, Sizes { heap: 0, stack: 1 });
    assert_eq!(buffer.sizes(), sizes);
    assert_eq!(buffer.stack_region(), &[1]);
}

#[test]
fn failed_sequence_write_keeps_the_elements_before_the_failure() {
    let queue: VecDeque<VecDeque<u8>> =
        VecDeque::from(vec![VecDeque::from(vec![1, 2]), VecDeque::from(vec![3])]);
    let needed = 2 * 16 + 3;
    let mut buffer = Buffer::with_limit(needed - 1);
    let mut sizes = Sizes::zero();
    let written =
        <&VecDeque<VecDeque<u8>> as Serialize<[Bytes]>>::serialize(&queue, &mut sizes, &mut buffer);
    assert_eq!(written, Err(SerializeError::OutOfSpace));
    assert_eq!(buffer.sizes(), sizes);
    assert_eq!(sizes, Sizes { heap: 3, stack: 16 });
    assert_eq!(buffer.heap_region(), &[1, 2, 3]);
    let mut buffer = Buffer::with_limit(needed - 1);
    let mut sizes = Sizes::zero();
    let written = <VecDeque<VecDeque<u8>> as Serialize<[Bytes]>>::serialize(
        queue.clone(),
        &mut sizes,
        &mut buffer,
    );
    assert_eq!(written, Err(SerializeError::OutOfSpace));
    assert_eq!(buffer.sizes(), sizes);
    assert_eq!(sizes, Sizes { heap: 3, stack: 16 });
    let mut buffer = Buffer::with_limit(needed);
    let mut sizes = Sizes::zero();
    <VecDeque<VecDeque<u8>> as Serialize<[Bytes]>>::serialize(queue, &mut sizes, &mut buffer)
        .unwrap();
    assert_eq!(sizes, Sizes { heap: 3, stack: 2 * 16 });
}

#[test]
fn failed_byte_queue_write_keeps_its_first_span() {
    let mut queue: VecDeque<u8> = VecDeque::with_capacity(4);
    queue.push_back(3);
    queue.push_back(4);
    queue.push_front(2);
    queue.push_front(1);
    let head = queue.as_slices().0.to_vec();
    assert!(!head.is_empty() && head.len() < 4);
    let mut buffer = Buffer::with_limit(3);
    let mut sizes = Sizes::zero();
    let written = <&VecDeque<u8> as Serialize<Bytes>>::serialize(&queue, &mut sizes, &mut buffer);
    assert_eq!(written, Err(SerializeError::OutOfSpace));
    assert_eq!(sizes, Sizes { heap: 0, stack: head.len() });
    assert_eq!(buffer.stack_region(), &head[..]);
    let mut full = Buffer::with_limit(0);
    let mut sizes = Sizes::zero();
    let written = <&VecDeque<u8> as Serialize<Bytes>>::serialize(&queue, &mut sizes, &mut full);
    assert_eq!(written, Err(SerializeError::OutOfSpace));
    assert_eq!(sizes, Sizes::zero());
}

#[test]
fn two_spans_are_written_one_after_the_other() {
    let mut buffer = Buffer::with_limit(5);
    let mut sizes = Sizes::zero();
    write_spans(&[1, 2], &[3], &mut sizes, &mut buffer).unwrap();
    assert_eq!(buffer.stack_region(), &[1, 2, 3]);
    let written = write_spans(&[4, 5], &[6], &mut sizes, &mut buffer);
    assert_eq!(written, Err(SerializeError::OutOfSpace));
    assert_eq!(buffer.stack_region(), &[1, 2, 3, 4, 5]);
    assert_eq!(sizes, Sizes { heap: 0, stack: 5 });
    let written = write_spans(&[7], &[], &mut sizes, &mut buffer);
    assert_eq!(written, Err(SerializeError::OutOfSpace));
    assert_eq!(sizes, Sizes { heap: 0, stack: 5 });
}


#[test]
fn byte_queue_spans_are_written_in_order() {
    let mut queue: VecDeque<u8> = VecDeque::with_capacity(4);
    queue.push_back(3);
    queue.push_back(4);
    queue.push_front(2);
    queue.push_front(1);
    let (head, tail) = queue.as_slices();
    assert!(!head.is_empty() && !tail.is_empty());
    let mut buffer = Buffer::new();
    let mut sizes = Sizes::zero();
    <&VecDeque<u8> as Serialize<Bytes>>::serialize(&queue, &mut sizes, &mut buffer).unwrap();
    assert_eq!(buffer.stack_region(), &[1, 2, 3, 4]);
    let mut owned = Buffer::new();
    let mut owned_sizes = Sizes::zero();
    <VecDeque<u8> as Serialize<Bytes>>::serialize(queue, &mut owned_sizes, &mut owned).unwrap();
    assert_eq!(owned.stack_region(), &[1, 2, 3, 4]);
    assert_eq!(owned_sizes, Sizes { heap: 0, stack: 4 });
}
