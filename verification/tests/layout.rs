use repeat_by::{Array, BinaryChunked, BooleanChunked, ChunkedArray, IdxCa, Utf8Chunked};

fn counts(values: Vec<Option<u32>>) -> IdxCa {
    ChunkedArray::new("by", values)
}

fn bits(bitmap: &arrow2::bitmap::MutableBitmap) -> Vec<bool> {
    bitmap.iter().collect()
}

#[test]
fn numeric_buffers_are_exact() {
    let values = ChunkedArray::new("n", vec![Some(1i32), None, Some(3), Some(4)]);
    let by = counts(vec![Some(2), Some(1), None, Some(0)]);
    let list = values.repeat_by(&by).unwrap();
    let array = list.array();
    assert_eq!(array.len(), 4);
    assert_eq!(array.offsets(), &vec![0i64, 2, 3, 3, 3]);
    assert_eq!(bits(array.validity()), vec![true, true, false, true]);
    let child = array.values();
    assert_eq!(child.len(), 3);
    assert_eq!(child.values(), &vec![1, 1, 0]);
    assert_eq!(bits(child.validity()), vec![true, true, false]);
}

#[test]
fn boolean_buffers_are_exact() {
    let values: BooleanChunked = ChunkedArray::new("b", vec![Some(true), Some(false), None]);
    let by = counts(vec![Some(1), Some(2), Some(2)]);
    let list = values.repeat_by(&by).unwrap();
    let array = list.array();
    assert_eq!(array.offsets(), &vec![0i64, 1, 3, 5]);
    assert_eq!(bits(array.validity()), vec![true, true, true]);
    assert_eq!(array.values().values(), &vec![true, false, false, false, false]);
    assert_eq!(bits(array.values().validity()), vec![true, true, true, false, false]);
}

#[test]
fn binary_buffers_are_exact() {
    let values: BinaryChunked =
        ChunkedArray::new("raw", vec![Some(vec![1u8, 2, 3]), None, Some(vec![7u8])]);
    let by = counts(vec![Some(2), Some(2), Some(1)]);
    let list = values.repeat_by(&by).unwrap();
    let array = list.array();
    assert_eq!(array.offsets(), &vec![0i64, 2, 4, 5]);
    assert_eq!(bits(array.validity()), vec![true, true, true]);
    let child = array.values();
    assert_eq!(child.len(), 5);
    assert_eq!(child.offsets(), &vec![0i64, 3, 6, 6, 6, 7]);
    assert_eq!(child.values(), &vec![1u8, 2, 3, 1, 2, 3, 7]);
    assert_eq!(bits(child.validity()), vec![true, true, false, false, true]);
    assert_eq!(child.get(1), Some(Some(&[1u8, 2, 3][..])));
    assert_eq!(child.get(2), Some(None));
    assert_eq!(child.get(5), None);
}

#[test]
fn text_is_stored_as_utf8() {
    let values: Utf8Chunked =
        ChunkedArray::new("t", vec![Some("h\u{e9}".to_string()), Some("\u{6c34}".to_string())]);
    let by = counts(vec![Some(1), Some(2)]);
    let list = values.repeat_by(&by).unwrap();
    let child = list.array().values();
    assert_eq!(child.len(), 3);
    assert_eq!(child.bytes().offsets(), &vec![0i64, 3, 6, 9]);
    assert_eq!(child.bytes().values(), &vec![0x68u8, 0xc3, 0xa9, 0xe6, 0xb0, 0xb4, 0xe6, 0xb0, 0xb4]);
    assert_eq!(child.get(0), Some(Some("h\u{e9}")));
    assert_eq!(child.get(2), Some(Some("\u{6c34}")));
    assert_eq!(child.get(3), None);
    assert_eq!(child.value(1), Some(Some("\u{6c34}".to_string())));
}

#[test]
fn sublists_are_found_by_their_bounds() {
    let values = ChunkedArray::new("n", vec![Some(5u16), Some(6), Some(7)]);
    let by = counts(vec![Some(2), None, Some(3)]);
    let list = values.repeat_by(&by).unwrap();
    let array = list.array();
    assert_eq!(array.bounds(0), Some((0, 2)));
    assert_eq!(array.bounds(1), None);
    assert_eq!(array.bounds(2), Some((2, 5)));
    assert_eq!(array.bounds(3), None);
}

#[test]
fn parts_can_be_taken_out() {
    let values = ChunkedArray::new("n", vec![Some(5i64), None]);
    let by = counts(vec![Some(1), Some(2)]);
    let list = values.repeat_by(&by).unwrap();
    let (offsets, child, validity) = list.into_array().into_parts();
    assert_eq!(offsets, vec![0i64, 1, 3]);
    assert_eq!(bits(&validity), vec![true, true]);
    let (slots, flags) = child.into_parts();
    assert_eq!(slots, vec![5i64, 0, 0]);
    assert_eq!(bits(&flags), vec![true, false, false]);
}
