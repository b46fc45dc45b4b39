use arrow2::array::{Array, BinaryArray, BooleanArray, ListArray, PrimitiveArray, Utf8Array};
use arrow2::bitmap::Bitmap;
use arrow2::datatypes::DataType;
use arrow2::offset::OffsetsBuffer;
use repeat_by::{BinaryChunked, BooleanChunked, ChunkedArray, IdxCa, Utf8Chunked};

fn counts(values: Vec<Option<u32>>) -> IdxCa {
    ChunkedArray::new("by", values)
}

fn large_list(
    child_type: DataType,
    offsets: Vec<i64>,
    child: Box<dyn Array>,
    validity: arrow2::bitmap::MutableBitmap,
) -> ListArray<i64> {
    ListArray::<i64>::try_new(
        ListArray::<i64>::default_datatype(child_type),
        OffsetsBuffer::try_from(offsets).unwrap(),
        child,
        Some(validity.into()),
    )
    .unwrap()
}

#[test]
fn arrow_accepts_the_buffers_of_a_numeric_list() {
    let values = ChunkedArray::new("n", vec![Some(1i32), Some(2), Some(3)]);
    let by = counts(vec![Some(0), Some(2), Some(1)]);
    let list = values.repeat_by(&by).unwrap();
    let (offsets, child, validity) = list.into_array().into_parts();
    let (slots, flags) = child.into_parts();
    let child =
        PrimitiveArray::<i32>::try_new(DataType::Int32, slots.into(), Some(flags.into())).unwrap();
    let array = large_list(DataType::Int32, offsets, Box::new(child), validity);
    assert_eq!(array.len(), 3);
    let lengths: Vec<usize> = array.offsets().lengths().collect();
    assert_eq!(lengths, vec![0, 2, 1]);
    let second = array.value(1);
    let second = second.as_any().downcast_ref::<PrimitiveArray<i32>>().unwrap();
    assert_eq!(second.iter().collect::<Vec<_>>(), vec![Some(&2), Some(&2)]);
    let third = array.value(2);
    let third = third.as_any().downcast_ref::<PrimitiveArray<i32>>().unwrap();
    assert_eq!(third.iter().collect::<Vec<_>>(), vec![Some(&3)]);
}

#[test]
fn arrow_accepts_the_buffers_of_a_boolean_list() {
    let values: BooleanChunked = ChunkedArray::new("b", vec![Some(true), Some(false)]);
    let by = counts(vec![None, Some(3)]);
    let list = values.repeat_by(&by).unwrap();
    let (offsets, child, validity) = list.into_array().into_parts();
    let (slots, flags) = child.into_parts();
    let child =
        BooleanArray::try_new(DataType::Boolean, Bitmap::from(slots), Some(flags.into())).unwrap();
    let array = large_list(DataType::Boolean, offsets, Box::new(child), validity);
    assert_eq!(array.len(), 2);
    assert!(!array.is_valid(0));
    assert!(array.is_valid(1));
    let second = array.value(1);
    let second = second.as_any().downcast_ref::<BooleanArray>().unwrap();
    assert_eq!(second.iter().collect::<Vec<_>>(), vec![Some(false), Some(false), Some(false)]);
}

#[test]
fn arrow_accepts_the_buffers_of_a_binary_list() {
    let values: BinaryChunked =
        ChunkedArray::new("raw", vec![Some(vec![1u8, 2]), None, Some(vec![3u8])]);
    let by = counts(vec![Some(2), Some(1), None]);
    let list = values.repeat_by(&by).unwrap();
    let (offsets, child, validity) = list.into_array().into_parts();
    let (child_offsets, bytes, child_validity) = child.into_parts();
    let child = BinaryArray::<i64>::try_new(
        DataType::LargeBinary,
        OffsetsBuffer::try_from(child_offsets).unwrap(),
        bytes.into(),
        Some(child_validity.into()),
    )
    .unwrap();
    let array = large_list(DataType::LargeBinary, offsets, Box::new(child), validity);
    assert_eq!(array.len(), 3);
    assert!(array.is_valid(0) && array.is_valid(1) && !array.is_valid(2));
    let first = array.value(0);
    let first = first.as_any().downcast_ref::<BinaryArray<i64>>().unwrap();
    assert_eq!(first.iter().collect::<Vec<_>>(), vec![Some(&[1u8, 2][..]), Some(&[1u8, 2][..])]);
    let second = array.value(1);
    let second = second.as_any().downcast_ref::<BinaryArray<i64>>().unwrap();
    assert_eq!(second.iter().collect::<Vec<_>>(), vec![None]);
}

#[test]
fn arrow_accepts_the_buffers_of_a_text_list() {
    let values: Utf8Chunked =
        ChunkedArray::new("t", vec![Some("a".to_string()), None, Some("c\u{e7}".to_string())]);
    let by = counts(vec![Some(1), Some(2), Some(2)]);
    let list = values.repeat_by(&by).unwrap();
    let (offsets, child, validity) = list.into_array().into_parts();
    let (child_offsets, bytes, child_validity) = child.into_parts();
    let child = Utf8Array::<i64>::try_new(
        DataType::LargeUtf8,
        OffsetsBuffer::try_from(child_offsets).unwrap(),
        bytes.into(),
        Some(child_validity.into()),
    )
    .unwrap();
    let array = large_list(DataType::LargeUtf8, offsets, Box::new(child), validity);
    assert_eq!(array.len(), 3);
    let second = array.value(1);
    let second = second.as_any().downcast_ref::<Utf8Array<i64>>().unwrap();
    assert_eq!(second.iter().collect::<Vec<_>>(), vec![None, None]);
    let third = array.value(2);
    let third = third.as_any().downcast_ref::<Utf8Array<i64>>().unwrap();
    assert_eq!(third.iter().collect::<Vec<_>>(), vec![Some("c\u{e7}"), Some("c\u{e7}")]);
}
