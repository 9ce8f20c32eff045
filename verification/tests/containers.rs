use alkahest::buffer::{Buffer, Sizes};
use alkahest::bytes::Bytes;
use alkahest::deserialize::{
    deserialize, deserialize_extend_iter, deserialize_in_place, Deserialize, Deserializer,
};
use alkahest::error::{DeserializeError, SerializeError};
use alkahest::formula::{field_layout, field_width, Formula};
use alkahest::reference::Ref;
use alkahest::serialize::{serialize, serialize_to_vec, Serialize};
use std::collections::VecDeque;

fn reference_bytes(offset: u64, length: u64) -> Vec<u8> {
    let mut bytes = offset.to_le_bytes().to_vec();
    bytes.extend_from_slice(&length.to_le_bytes());
    bytes
}

fn encode<F: Formula + ?Sized, T: Serialize<F>>(value: T) -> (Vec<u8>, Vec<u8>, Sizes) {
    let mut buffer = Buffer::new();
    let mut sizes = Sizes::zero();
    value.serialize(&mut sizes, &mut buffer).unwrap();
    (buffer.stack_region().to_vec(), buffer.heap_region().to_vec(), sizes)
}

#[test]
fn formula_contracts_of_the_built_in_shapes() {
    assert_eq!(<u8 as Formula>::max_stack_size(), Some(1));
    assert!(<u8 as Formula>::exact_size());
    assert!(<u8 as Formula>::heapless());
    assert_eq!(<Option<u8> as Formula>::max_stack_size(), Some(2));
    assert!(!<Option<u8> as Formula>::exact_size());
    assert!(<Option<u8> as Formula>::heapless());
    assert_eq!(<Option<Bytes> as Formula>::max_stack_size(), None);
    assert!(<Option<Bytes> as Formula>::heapless());
    assert!(!<Option<VecDeque<u8>> as Formula>::heapless());
    assert_eq!(<Option<VecDeque<u8>> as Formula>::max_stack_size(), Some(17));
    assert_eq!(<VecDeque<u8> as Formula>::max_stack_size(), Some(16));
    assert!(<VecDeque<u8> as Formula>::exact_size());
    assert!(!<VecDeque<u8> as Formula>::heapless());
    assert_eq!(<Ref<Bytes> as Formula>::max_stack_size(), Some(16));
    assert_eq!(<Bytes as Formula>::max_stack_size(), None);
    assert!(<Bytes as Formula>::heapless());
    assert_eq!(<[u8] as Formula>::max_stack_size(), None);
    assert!(<[u8] as Formula>::heapless());
    assert!(!<[Bytes] as Formula>::heapless());
}

#[test]
fn field_layout_follows_the_formula() {
    assert_eq!(field_layout::<u8>(), Some(1));
    assert_eq!(field_width::<u8>(), 1);
    assert_eq!(field_layout::<Option<u8>>(), Some(2));
    assert_eq!(field_layout::<Bytes>(), None);
    assert_eq!(field_width::<Bytes>(), 16);
    assert_eq!(field_layout::<VecDeque<u8>>(), None);
    assert_eq!(field_width::<VecDeque<u8>>(), 16);
}

#[test]
fn absent_option_is_one_byte() {
    let (stack, heap, sizes) = encode::<Option<u8>, Option<u8>>(None);
    assert_eq!(stack, vec![0]);
    assert!(heap.is_empty());
    assert_eq!(sizes, Sizes { heap: 0, stack: 1 });
    let (stack, heap, _) = encode::<Option<Bytes>, Option<VecDeque<u8>>>(None);
    assert_eq!(stack, vec![0]);
    assert!(heap.is_empty());
}

#[test]
fn present_option_is_tag_and_value() {
    let (stack, heap, sizes) = encode::<Option<u8>, Option<u8>>(Some(5));
    assert_eq!(stack, vec![1, 5]);
    assert!(heap.is_empty());
    assert_eq!(sizes, Sizes { heap: 0, stack: 2 });
    let bytes: VecDeque<u8> = VecDeque::from(vec![7, 8, 9]);
    let (stack, heap, _) = encode::<Option<Bytes>, Option<VecDeque<u8>>>(Some(bytes));
    assert_eq!(stack, vec![1, 7, 8, 9]);
    assert!(heap.is_empty());
}

#[test]
fn option_by_reference_writes_the_same_bytes() {
    let value: Option<u8> = Some(5);
    let mut buffer = Buffer::new();
    let mut sizes = Sizes::zero();
    <&Option<u8> as Serialize<Option<u8>>>::serialize(&value, &mut sizes, &mut buffer).unwrap();
    assert_eq!(buffer.stack_region(), &[1, 5]);
    assert_eq!(
        <&Option<u8> as Serialize<Option<u8>>>::size_hint(&&value),
        Some(Sizes { heap: 0, stack: 2 })
    );
    let none: Option<u8> = None;
    assert_eq!(
        <&Option<u8> as Serialize<Option<u8>>>::size_hint(&&none),
        Some(Sizes { heap: 0, stack: 1 })
    );
}

#[test]
fn option_decodes_any_nonzero_tag_as_present() {
    for tag in [1u8, 2, 7, 255] {
        let stack = [tag, 9];
        let de = Deserializer::new(&stack, &[]);
        let value = <Option<u8> as Deserialize<Option<u8>>>::deserialize(de);
        assert_eq!(value, Ok(Some(9)));
    }
    let stack = [0u8, 9];
    let de = Deserializer::new(&stack, &[]);
    assert_eq!(<Option<u8> as Deserialize<Option<u8>>>::deserialize(de), Ok(None));
}

#[test]
fn option_decode_errors() {
    let de = Deserializer::new(&[], &[]);
    assert_eq!(
        <Option<u8> as Deserialize<Option<u8>>>::deserialize(de),
        Err(DeserializeError::UnexpectedEnd)
    );
    let stack = [1u8];
    let de = Deserializer::new(&stack, &[]);
    assert_eq!(
        <Option<u8> as Deserialize<Option<u8>>>::deserialize(de),
        Err(DeserializeError::UnexpectedEnd)
    );
}

#[test]
fn option_in_place_overwrites_or_sets() {
    let stack = [1u8, 9];
    let mut value: Option<u8> = Some(3);
    <Option<u8> as Deserialize<Option<u8>>>::deserialize_in_place(
        &mut value,
        Deserializer::new(&stack, &[]),
    )
    .unwrap();
    assert_eq!(value, Some(9));
    let mut value: Option<u8> = None;
    <Option<u8> as Deserialize<Option<u8>>>::deserialize_in_place(
        &mut value,
        Deserializer::new(&stack, &[]),
    )
    .unwrap();
    assert_eq!(value, Some(9));
    let absent = [0u8];
    <Option<u8> as Deserialize<Option<u8>>>::deserialize_in_place(
        &mut value,
        Deserializer::new(&absent, &[]),
    )
    .unwrap();
    assert_eq!(value, None);
}

#[test]
fn option_in_place_failure_keeps_presence() {
    let truncated = [1u8];
    let mut value: Option<u8> = Some(3);
    let r = <Option<u8> as Deserialize<Option<u8>>>::deserialize_in_place(
        &mut value,
        Deserializer::new(&truncated, &[]),
    );
    assert_eq!(r, Err(DeserializeError::UnexpectedEnd));
    assert_eq!(value, Some(3));
    let mut value: Option<u8> = None;
    let r = <Option<u8> as Deserialize<Option<u8>>>::deserialize_in_place(
        &mut value,
        Deserializer::new(&[], &[]),
    );
    assert_eq!(r, Err(DeserializeError::UnexpectedEnd));
    assert_eq!(value, None);
}

#[test]
fn option_size_hint_matches_the_write() {
    for value in [None, Some(0u8), Some(200)] {
        let hint = <Option<u8> as Serialize<Option<u8>>>::size_hint(&value).unwrap();
        let (stack, heap, sizes) = encode::<Option<u8>, Option<u8>>(value);
        assert_eq!(hint, sizes);
        assert_eq!(hint.stack, stack.len());
        assert_eq!(hint.heap, heap.len());
    }
}

#[test]
fn byte_sequence_behind_a_reference() {
    let queue: VecDeque<u8> = VecDeque::from(vec![2, 3, 4]);
    let (stack, heap, sizes) = encode::<Ref<Bytes>, VecDeque<u8>>(queue.clone());
    assert_eq!(stack.len(), 16);
    assert_eq!(&stack[8..16], &3u64.to_le_bytes());
    assert_eq!(stack, reference_bytes(3, 3));
    assert_eq!(heap, vec![2, 3, 4]);
    assert_eq!(sizes, Sizes { heap: 3, stack: 16 });

    let de = Deserializer::new(&stack, &heap);
    let decoded = <VecDeque<u8> as Deserialize<Ref<Bytes>>>::deserialize(de).unwrap();
    assert_eq!(decoded, queue);

    let mut existing: VecDeque<u8> = VecDeque::from(vec![9, 9, 9, 9, 9]);
    <VecDeque<u8> as Deserialize<Ref<Bytes>>>::deserialize_in_place(
        &mut existing,
        Deserializer::new(&stack, &heap),
    )
    .unwrap();
    assert_eq!(existing.len(), 3);
    assert_eq!(existing, queue);
}

#[test]
fn byte_sequence_as_a_whole_buffer() {
    let queue: VecDeque<u8> = VecDeque::from(vec![2, 3, 4]);
    let mut output = vec![1, 1, 1];
    let (written, sizes) = serialize_to_vec::<Bytes, VecDeque<u8>>(queue.clone(), &mut output);
    assert_eq!(written, 19);
    assert_eq!(sizes, Sizes { heap: 3, stack: 16 });
    let mut expected = reference_bytes(3, 3);
    expected.extend_from_slice(&[2, 3, 4]);
    assert_eq!(output, expected);
    let decoded = deserialize::<Bytes, VecDeque<u8>>(&output).unwrap();
    assert_eq!(decoded, queue);
    let mut existing: VecDeque<u8> = VecDeque::from(vec![9, 9, 9, 9, 9]);
    deserialize_in_place::<Bytes, VecDeque<u8>>(&mut existing, &output).unwrap();
    assert_eq!(existing, queue);
}

#[test]
fn queue_of_bytes_under_its_own_formula() {
    let queue: VecDeque<u8> = VecDeque::from(vec![2, 3, 4]);
    let (stack, heap, sizes) = encode::<VecDeque<u8>, VecDeque<u8>>(queue.clone());
    assert_eq!(stack, reference_bytes(3, 3));
    assert_eq!(heap, vec![2, 3, 4]);
    assert_eq!(sizes, Sizes { heap: 3, stack: 16 });
    assert_eq!(
        <VecDeque<u8> as Serialize<VecDeque<u8>>>::size_hint(&queue),
        Some(Sizes { heap: 3, stack: 16 })
    );
    let decoded =
        <VecDeque<u8> as Deserialize<VecDeque<u8>>>::deserialize(Deserializer::new(&stack, &heap))
            .unwrap();
    assert_eq!(decoded, queue);
    let mut existing: VecDeque<u8> = VecDeque::from(vec![9, 9, 9, 9, 9]);
    <VecDeque<u8> as Deserialize<VecDeque<u8>>>::deserialize_in_place(
        &mut existing,
        Deserializer::new(&stack, &heap),
    )
    .unwrap();
    assert_eq!(existing.len(), 3);
    assert_eq!(existing, queue);
}

#[test]
fn empty_queue_as_a_sequence_is_no_bytes() {
    let queue: VecDeque<u8> = VecDeque::new();
    assert_eq!(
        <VecDeque<u8> as Serialize<[u8]>>::size_hint(&queue),
        Some(Sizes { heap: 0, stack: 0 })
    );
    let (stack, heap, sizes) = encode::<[u8], VecDeque<u8>>(queue.clone());
    assert!(stack.is_empty());
    assert!(heap.is_empty());
    assert_eq!(sizes, Sizes::zero());
    let decoded =
        <VecDeque<u8> as Deserialize<[u8]>>::deserialize(Deserializer::new(&stack, &heap));
    assert_eq!(decoded, Ok(queue));
}

#[test]
fn empty_queue_round_trips() {
    let queue: VecDeque<u8> = VecDeque::new();
    let mut output = Vec::new();
    let (written, _) = serialize_to_vec::<VecDeque<u8>, VecDeque<u8>>(queue.clone(), &mut output);
    assert_eq!(written, 16 + 16);
    assert_eq!(deserialize::<VecDeque<u8>, VecDeque<u8>>(&output), Ok(queue));
}

#[test]
fn queue_of_options_pads_each_element() {
    let queue: VecDeque<Option<u8>> = VecDeque::from(vec![Some(1), None, Some(3)]);
    let (stack, heap, _) = encode::<[Option<u8>], VecDeque<Option<u8>>>(queue.clone());
    assert_eq!(stack, vec![1, 1, 0, 0, 1, 3]);
    assert!(heap.is_empty());
    let decoded = <VecDeque<Option<u8>> as Deserialize<[Option<u8>]>>::deserialize(
        Deserializer::new(&stack, &heap),
    )
    .unwrap();
    assert_eq!(decoded, queue);
}

#[test]
fn nested_queues_round_trip() {
    let inner_a: VecDeque<u8> = VecDeque::from(vec![1, 2]);
    let inner_b: VecDeque<u8> = VecDeque::new();
    let inner_c: VecDeque<u8> = VecDeque::from(vec![3, 4, 5]);
    let queue: VecDeque<VecDeque<u8>> = VecDeque::from(vec![inner_a, inner_b, inner_c]);
    let hint =
        <VecDeque<VecDeque<u8>> as Serialize<VecDeque<VecDeque<u8>>>>::size_hint(&queue).unwrap();
    let mut output = Vec::new();
    let (written, sizes) = serialize_to_vec::<VecDeque<VecDeque<u8>>, VecDeque<VecDeque<u8>>>(
        queue.clone(),
        &mut output,
    );
    assert_eq!(written, output.len());
    assert_eq!(sizes.stack, 16);
    assert_eq!(sizes.stack + sizes.heap, written);
    assert_eq!(hint.stack, 16);
    assert_eq!(hint.heap + 16, sizes.heap);
    let decoded = deserialize::<VecDeque<VecDeque<u8>>, VecDeque<VecDeque<u8>>>(&output).unwrap();
    assert_eq!(decoded, queue);

    let mut existing: VecDeque<VecDeque<u8>> = VecDeque::from(vec![VecDeque::from(vec![9u8]); 5]);
    deserialize_in_place::<VecDeque<VecDeque<u8>>, VecDeque<VecDeque<u8>>>(&mut existing, &output)
        .unwrap();
    assert_eq!(existing, queue);
}

#[test]
fn queue_of_optional_queues_round_trips() {
    let queue: VecDeque<Option<VecDeque<u8>>> =
        VecDeque::from(vec![None, Some(VecDeque::from(vec![1, 2, 3])), Some(VecDeque::new())]);
    let mut output = Vec::new();
    serialize_to_vec::<VecDeque<Option<Bytes>>, VecDeque<Option<VecDeque<u8>>>>(
        queue.clone(),
        &mut output,
    );
    let decoded =
        deserialize::<VecDeque<Option<Bytes>>, VecDeque<Option<VecDeque<u8>>>>(&output).unwrap();
    assert_eq!(decoded, queue);
}

#[test]
fn size_hint_matches_the_write_for_queues() {
    let queue: VecDeque<Option<VecDeque<u8>>> =
        VecDeque::from(vec![None, Some(VecDeque::from(vec![1, 2, 3])), Some(VecDeque::new())]);
    let hint = <VecDeque<Option<VecDeque<u8>>> as Serialize<[Option<Bytes>]>>::size_hint(&queue)
        .unwrap();
    let (stack, heap, sizes) = encode::<[Option<Bytes>], VecDeque<Option<VecDeque<u8>>>>(queue);
    assert_eq!(hint, sizes);
    assert_eq!(hint.stack, stack.len());
    assert_eq!(hint.heap, heap.len());
    assert_eq!(hint, Sizes { heap: 1 + 4 + 1, stack: 3 * 16 });
}

#[test]
fn bool_round_trips_and_rejects_other_tags() {
    for value in [false, true] {
        let mut output = Vec::new();
        serialize_to_vec::<bool, bool>(value, &mut output);
        assert_eq!(output, vec![value as u8]);
        assert_eq!(deserialize::<bool, bool>(&output), Ok(value));
    }
    assert_eq!(deserialize::<bool, bool>(&[2]), Err(DeserializeError::UnexpectedDiscriminant));
    assert_eq!(deserialize::<bool, bool>(&[]), Err(DeserializeError::UnexpectedEnd));
    let mut place = true;
    assert_eq!(
        deserialize_in_place::<bool, bool>(&mut place, &[7]),
        Err(DeserializeError::UnexpectedDiscriminant)
    );
    assert!(place);
}

#[test]
fn byte_round_trips_by_value_and_by_reference() {
    let mut output = Vec::new();
    serialize_to_vec::<u8, u8>(200, &mut output);
    assert_eq!(output, vec![200]);
    let value = 7u8;
    serialize_to_vec::<u8, &u8>(&value, &mut output);
    assert_eq!(output, vec![7]);
    assert_eq!(deserialize::<u8, u8>(&output), Ok(7));
    assert_eq!(<&u8 as Serialize<u8>>::size_hint(&&value), Some(Sizes { heap: 0, stack: 1 }));
}

#[test]
fn bounded_destination_reports_out_of_space() {
    let queue: VecDeque<u8> = VecDeque::from(vec![2, 3, 4]);
    let r = serialize::<Bytes, VecDeque<u8>>(queue.clone(), Buffer::with_limit(18));
    assert_eq!(r, Err(SerializeError::OutOfSpace));
    let (bytes, sizes) =
        serialize::<Bytes, VecDeque<u8>>(queue, Buffer::with_limit(19)).unwrap();
    assert_eq!(bytes.len(), 19);
    assert_eq!(sizes, Sizes { heap: 3, stack: 16 });
}

#[test]
fn truncated_buffer_is_unexpected_end() {
    assert_eq!(
        deserialize::<Bytes, VecDeque<u8>>(&[0u8; 15]),
        Err(DeserializeError::UnexpectedEnd)
    );
    let mut existing: VecDeque<u8> = VecDeque::from(vec![9, 9]);
    assert_eq!(
        deserialize_in_place::<Bytes, VecDeque<u8>>(&mut existing, &[0u8; 15]),
        Err(DeserializeError::UnexpectedEnd)
    );
    assert_eq!(existing, VecDeque::from(vec![9, 9]));
}

#[test]
fn reference_outside_the_heap_is_invalid() {
    let mut input = reference_bytes(4, 3);
    input.extend_from_slice(&[2, 3, 4]);
    assert_eq!(
        deserialize::<Bytes, VecDeque<u8>>(&input),
        Err(DeserializeError::InvalidReference)
    );
    let mut input = reference_bytes(2, 3);
    input.extend_from_slice(&[2, 3, 4]);
    assert_eq!(
        deserialize::<Bytes, VecDeque<u8>>(&input),
        Err(DeserializeError::InvalidReference)
    );
    let mut input = reference_bytes(u64::MAX, 1);
    input.extend_from_slice(&[2, 3, 4]);
    assert_eq!(
        deserialize::<Bytes, VecDeque<u8>>(&input),
        Err(DeserializeError::InvalidReference)
    );
}

#[test]
fn sequence_with_a_bad_element_fails_and_restores_the_target() {
    let stack = [1u8, 0, 2, 1];
    let r = <VecDeque<bool> as Deserialize<[bool]>>::deserialize(Deserializer::new(&stack, &[]));
    assert_eq!(r, Err(DeserializeError::UnexpectedDiscriminant));
    let mut existing: VecDeque<bool> = VecDeque::from(vec![true, true, false]);
    let r = <VecDeque<bool> as Deserialize<[bool]>>::deserialize_in_place(
        &mut existing,
        Deserializer::new(&stack, &[]),
    );
    assert_eq!(r, Err(DeserializeError::UnexpectedDiscriminant));
    assert_eq!(existing, VecDeque::from(vec![true, true, false]));
    let good = [1u8, 0];
    <VecDeque<bool> as Deserialize<[bool]>>::deserialize_in_place(
        &mut existing,
        Deserializer::new(&good, &[]),
    )
    .unwrap();
    assert_eq!(existing, VecDeque::from(vec![true, false]));
}

#[test]
fn sequence_count_is_the_length_divided_by_the_field_width() {
    let stack = [1u8, 5, 0, 0, 1];
    let r = <VecDeque<Option<u8>> as Deserialize<[Option<u8>]>>::deserialize(Deserializer::new(
        &stack,
        &[],
    ));
    assert_eq!(r, Ok(VecDeque::from(vec![Some(5), None])));
    let mut refs = reference_bytes(2, 2);
    refs.extend(reference_bytes(9, 1));
    let heap = [7u8, 8];
    let r = <VecDeque<VecDeque<u8>> as Deserialize<[Bytes]>>::deserialize(Deserializer::new(
        &refs,
        &heap,
    ));
    assert_eq!(r, Err(DeserializeError::InvalidReference));
    let mut existing: VecDeque<VecDeque<u8>> = VecDeque::from(vec![VecDeque::from(vec![1u8])]);
    let r = <VecDeque<VecDeque<u8>> as Deserialize<VecDeque<Bytes>>>::deserialize_in_place(
        &mut existing,
        Deserializer::new(&[0u8; 3], &heap),
    );
    assert_eq!(r, Err(DeserializeError::UnexpectedEnd));
    assert_eq!(existing, VecDeque::from(vec![VecDeque::from(vec![1u8])]));
}

#[test]
fn cursor_reads_and_splits() {
    let stack = [1u8, 2, 3, 4, 5];
    let heap = [9u8];
    let mut de = Deserializer::new(&stack, &heap);
    assert_eq!(de.remaining(), 5);
    assert_eq!(de.read_bytes(2), Ok(&stack[0..2]));
    assert_eq!(de.read_bytes(4), Err(DeserializeError::UnexpectedEnd));
    assert_eq!(de.remaining(), 3);
    let mut sub = de.sub(2).unwrap();
    assert_eq!(sub.read_value::<u8, u8>(false), Ok(3));
    assert_eq!(sub.read_value::<u8, u8>(true), Ok(4));
    assert_eq!(sub.remaining(), 0);
    assert_eq!(de.read_all_bytes(), &[5]);
}

#[test]
fn cursor_follows_a_reference() {
    let heap = [10u8, 20, 30, 40];
    let stack = reference_bytes(3, 2);
    let de = Deserializer::new(&stack, &heap).deref().unwrap();
    assert_eq!(de.read_all_bytes(), &[20, 30]);
    let short = [0u8; 15];
    assert!(matches!(
        Deserializer::new(&short, &heap).deref(),
        Err(DeserializeError::UnexpectedEnd)
    ));
}

#[test]
fn lazy_iterator_hands_out_element_cursors() {
    let stack = [7u8, 8];
    let mut iter = Deserializer::new(&stack, &[]).into_unsized_iter::<u8>();
    assert_eq!(iter.lower_bound(), 2);
    let first = iter.next().unwrap().unwrap();
    assert_eq!(first.read_all_bytes(), &[7]);
    let second = iter.next().unwrap().unwrap();
    assert_eq!(second.read_all_bytes(), &[8]);
    assert!(iter.next().is_none());
    assert!(iter.next().is_none());
}

#[test]
fn array_iterator_takes_exactly_the_count() {
    let stack = [7u8, 8, 9];
    let iter = Deserializer::new(&stack, &[]).into_unsized_array_iter::<u8>(2);
    let mut queue: VecDeque<u8> = VecDeque::from(vec![1]);
    deserialize_extend_iter::<u8, u8>(&mut queue, iter).unwrap();
    assert_eq!(queue, VecDeque::from(vec![1, 7, 8]));
    let iter = Deserializer::new(&stack, &[]).into_unsized_array_iter::<u8>(4);
    let mut queue: VecDeque<u8> = VecDeque::new();
    assert_eq!(
        deserialize_extend_iter::<u8, u8>(&mut queue, iter),
        Err(DeserializeError::UnexpectedEnd)
    );
}

#[test]
fn elements_of_no_width_are_counted_explicitly() {
    assert_eq!(<() as Formula>::max_stack_size(), Some(0));
    assert_eq!(field_layout::<()>(), Some(0));
    let queue: VecDeque<()> = VecDeque::from(vec![(), ()]);
    assert_eq!(
        <VecDeque<()> as Serialize<[()]>>::size_hint(&queue),
        Some(Sizes { heap: 0, stack: 8 })
    );
    let (stack, heap, sizes) = encode::<[()], VecDeque<()>>(queue.clone());
    assert_eq!(stack, 2u64.to_le_bytes().to_vec());
    assert!(heap.is_empty());
    assert_eq!(sizes, Sizes { heap: 0, stack: 8 });
    let mut iter = Deserializer::new(&stack, &[]).into_unsized_iter::<()>();
    assert_eq!(iter.lower_bound(), 0);
    assert!(iter.next().unwrap().is_ok());
    assert!(iter.next().unwrap().is_ok());
    assert!(iter.next().is_none());
    let decoded =
        <VecDeque<()> as Deserialize<[()]>>::deserialize(Deserializer::new(&stack, &[]));
    assert_eq!(decoded, Ok(queue.clone()));
    let mut output = Vec::new();
    serialize_to_vec::<VecDeque<()>, VecDeque<()>>(queue.clone(), &mut output);
    assert_eq!(output.len(), 16 + 16 + 8);
    assert_eq!(deserialize::<VecDeque<()>, VecDeque<()>>(&output), Ok(queue));

    let short = [2u8, 0, 0];
    let mut iter = Deserializer::new(&short, &[]).into_unsized_iter::<()>();
    assert!(matches!(iter.next(), Some(Err(DeserializeError::UnexpectedEnd))));
    assert!(iter.next().is_none());
    let mut existing: VecDeque<()> = VecDeque::from(vec![()]);
    let r = <VecDeque<()> as Deserialize<[()]>>::deserialize_in_place(
        &mut existing,
        Deserializer::new(&short, &[]),
    );
    assert_eq!(r, Err(DeserializeError::UnexpectedEnd));
    assert_eq!(existing.len(), 1);
}
