use repeat_by::{
    Array, BinaryChunked, BooleanChunked, ChunkedArray, IdxCa, RepeatByError, Utf8Chunked,
};

fn counts(values: Vec<Option<u32>>) -> IdxCa {
    ChunkedArray::new("by", values)
}

#[test]
fn numeric_values_are_repeated() {
    let values = ChunkedArray::new("n", vec![Some(1i32), Some(2), Some(3)]);
    let by = counts(vec![Some(0), Some(2), Some(1)]);
    let list = values.repeat_by(&by).unwrap();
    assert_eq!(
        list.array().to_vec(),
        vec![Some(vec![]), Some(vec![Some(2), Some(2)]), Some(vec![Some(3)])]
    );
}

#[test]
fn text_with_an_absent_value() {
    let values: Utf8Chunked =
        ChunkedArray::new("t", vec![Some("a".to_string()), None, Some("c".to_string())]);
    let by = counts(vec![Some(1), Some(2), Some(0)]);
    let list = values.repeat_by(&by).unwrap();
    assert_eq!(
        list.array().to_vec(),
        vec![Some(vec![Some("a".to_string())]), Some(vec![None, None]), Some(vec![])]
    );
}

#[test]
fn boolean_with_an_absent_count() {
    let values: BooleanChunked = ChunkedArray::new("b", vec![Some(true), Some(false)]);
    let by = counts(vec![None, Some(3)]);
    let list = values.repeat_by(&by).unwrap();
    assert_eq!(
        list.array().to_vec(),
        vec![None, Some(vec![Some(false), Some(false), Some(false)])]
    );
}

#[test]
fn binary_values_are_repeated() {
    let values: BinaryChunked =
        ChunkedArray::new("raw", vec![Some(vec![1u8, 2]), Some(vec![]), None, Some(vec![9u8])]);
    let by = counts(vec![Some(2), Some(1), Some(1), None]);
    let list = values.repeat_by(&by).unwrap();
    assert_eq!(
        list.array().to_vec(),
        vec![
            Some(vec![Some(vec![1u8, 2]), Some(vec![1u8, 2])]),
            Some(vec![Some(vec![])]),
            Some(vec![None]),
            None,
        ]
    );
}

#[test]
fn the_result_keeps_the_name_of_the_values() {
    let values = ChunkedArray::new("weights", vec![Some(7u64)]);
    let list = values.repeat_by(&counts(vec![Some(1)])).unwrap();
    assert_eq!(list.name(), "weights");
    assert_eq!(list.len(), 1);
}

#[test]
fn a_single_count_is_broadcast_over_numbers() {
    let values = ChunkedArray::new("n", vec![Some(4i64), None, Some(6)]);
    let single = values.repeat_by(&counts(vec![Some(2)])).unwrap();
    let full = values.repeat_by(&counts(vec![Some(2), Some(2), Some(2)])).unwrap();
    assert_eq!(single.array().to_vec(), full.array().to_vec());
    assert_eq!(
        single.array().to_vec(),
        vec![Some(vec![Some(4), Some(4)]), Some(vec![None, None]), Some(vec![Some(6), Some(6)])]
    );
}

#[test]
fn a_single_count_is_broadcast_over_booleans() {
    let values: BooleanChunked = ChunkedArray::new("b", vec![Some(true), None]);
    let single = values.repeat_by(&counts(vec![Some(1)])).unwrap();
    assert_eq!(single.array().to_vec(), vec![Some(vec![Some(true)]), Some(vec![None])]);
}

#[test]
fn a_single_count_is_broadcast_over_text() {
    let values: Utf8Chunked =
        ChunkedArray::new("t", vec![Some("x".to_string()), Some("yz".to_string())]);
    let single = values.repeat_by(&counts(vec![Some(2)])).unwrap();
    let full = values.repeat_by(&counts(vec![Some(2), Some(2)])).unwrap();
    assert_eq!(single.array().to_vec(), full.array().to_vec());
    assert_eq!(
        single.array().to_vec(),
        vec![
            Some(vec![Some("x".to_string()), Some("x".to_string())]),
            Some(vec![Some("yz".to_string()), Some("yz".to_string())]),
        ]
    );
}

#[test]
fn a_single_count_is_broadcast_over_binary() {
    let values: BinaryChunked = ChunkedArray::new("raw", vec![Some(vec![5u8]), None]);
    let single = values.repeat_by(&counts(vec![Some(1)])).unwrap();
    assert_eq!(single.array().to_vec(), vec![Some(vec![Some(vec![5u8])]), Some(vec![None])]);
}

#[test]
fn a_single_absent_count_makes_every_sublist_absent() {
    let values = ChunkedArray::new("n", vec![Some(1u8), Some(2), Some(3)]);
    let list = values.repeat_by(&counts(vec![None])).unwrap();
    assert_eq!(list.array().to_vec(), vec![None, None, None]);
    assert_eq!(list.array().values().len(), 0);
}

#[test]
fn a_single_count_over_no_values_gives_no_sublists() {
    let values: ChunkedArray<i16> = ChunkedArray::new("n", vec![]);
    let list = values.repeat_by(&counts(vec![Some(9)])).unwrap();
    assert_eq!(list.len(), 0);
    assert_eq!(list.array().offsets(), &vec![0i64]);
}

#[test]
fn one_count_for_one_value_is_paired_with_it() {
    let values = ChunkedArray::new("n", vec![Some(8i8)]);
    let list = values.repeat_by(&counts(vec![Some(3)])).unwrap();
    assert_eq!(list.array().to_vec(), vec![Some(vec![Some(8), Some(8), Some(8)])]);
}

#[test]
fn empty_columns_give_an_empty_list() {
    let values: ChunkedArray<u32> = ChunkedArray::new("n", vec![]);
    let list = values.repeat_by(&counts(vec![])).unwrap();
    assert_eq!(list.len(), 0);
    assert!(list.array().to_vec().is_empty());
}

#[test]
fn counts_of_another_length_are_refused_for_numbers() {
    let values = ChunkedArray::new("n", vec![Some(1i32), Some(2), Some(3)]);
    let result = values.repeat_by(&counts(vec![Some(1), Some(1)]));
    assert_eq!(result.err(), Some(RepeatByError::LengthMismatch));
}

#[test]
fn counts_of_another_length_are_refused_for_booleans() {
    let values: BooleanChunked = ChunkedArray::new("b", vec![Some(true)]);
    let result = values.repeat_by(&counts(vec![Some(1), Some(1)]));
    assert_eq!(result.err(), Some(RepeatByError::LengthMismatch));
}

#[test]
fn counts_of_another_length_are_refused_for_text() {
    let values: Utf8Chunked = ChunkedArray::new("t", vec![Some("a".to_string()); 4]);
    let result = values.repeat_by(&counts(vec![Some(1), Some(1), Some(1)]));
    assert_eq!(result.err(), Some(RepeatByError::LengthMismatch));
}

#[test]
fn counts_of_another_length_are_refused_for_binary() {
    let values: BinaryChunked = ChunkedArray::new("raw", vec![None, None]);
    let result = values.repeat_by(&counts(vec![]));
    assert_eq!(result.err(), Some(RepeatByError::LengthMismatch));
}

#[test]
fn no_counts_for_some_values_are_refused() {
    let values = ChunkedArray::new("n", vec![Some(1u16)]);
    let result = values.repeat_by(&counts(vec![]));
    assert_eq!(result.err(), Some(RepeatByError::LengthMismatch));
}

#[test]
fn bytes_that_outgrow_a_buffer_are_refused() {
    let large = vec![0u8; (1usize << 31) + 1];
    let values: BinaryChunked = ChunkedArray::new("raw", vec![Some(large)]);
    let result = values.repeat_by(&counts(vec![Some(u32::MAX)]));
    assert_eq!(result.err(), Some(RepeatByError::CapacityOverflow));
}

#[test]
fn each_failure_has_its_own_message() {
    assert_eq!(
        RepeatByError::LengthMismatch.message(),
        "repeat counts must have one entry, or as many as there are values"
    );
    assert_eq!(
        RepeatByError::CapacityOverflow.message(),
        "the repeated values do not fit in one list buffer"
    );
}

#[test]
fn the_greatest_count_is_honoured() {
    let values: BooleanChunked = ChunkedArray::new("b", vec![Some(true), None]);
    let list = values.repeat_by(&counts(vec![Some(70_000), Some(3)])).unwrap();
    let child = list.array().values();
    assert_eq!(child.len(), 70_003);
    assert_eq!(list.array().offsets(), &vec![0i64, 70_000, 70_003]);
    assert_eq!(child.get(69_999), Some(Some(true)));
    assert_eq!(child.get(70_000), Some(None));
    assert_eq!(child.get(70_003), None);
}

#[test]
fn every_count_one_gives_singletons() {
    let values = ChunkedArray::new("n", vec![Some(10i32), None, Some(30)]);
    let list = values.repeat_by(&counts(vec![Some(1), Some(1), Some(1)])).unwrap();
    assert_eq!(
        list.array().to_vec(),
        vec![Some(vec![Some(10)]), Some(vec![None]), Some(vec![Some(30)])]
    );
}

#[test]
fn an_absent_value_is_repeated_as_absent_elements() {
    let values: ChunkedArray<u64> = ChunkedArray::new("n", vec![None]);
    let list = values.repeat_by(&counts(vec![Some(4)])).unwrap();
    assert_eq!(list.array().to_vec(), vec![Some(vec![None, None, None, None])]);
}

#[test]
fn sublists_have_the_lengths_of_their_counts() {
    let given = vec![Some(3u32), None, Some(0), Some(5), Some(1)];
    let values = ChunkedArray::new("n", vec![Some(1u8), Some(2), None, Some(4), Some(5)]);
    let list = values.repeat_by(&counts(given.clone())).unwrap().array().to_vec();
    assert_eq!(list.len(), given.len());
    for (sublist, count) in list.iter().zip(given.iter()) {
        assert_eq!(sublist.as_ref().map(|s| s.len()), count.map(|c| c as usize));
    }
    let elements: usize = list.iter().flatten().map(|s| s.len()).sum();
    assert_eq!(elements, 9);
}
