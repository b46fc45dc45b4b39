use repeat_by::counts::{broadcast_count, buffer_limit, checked_total_count};

#[test]
fn a_count_is_broadcast_to_every_position() {
    assert_eq!(broadcast_count(Some(3), 4), vec![Some(3), Some(3), Some(3), Some(3)]);
    assert_eq!(broadcast_count(None, 2), vec![None, None]);
    assert_eq!(broadcast_count(Some(1), 0), vec![]);
}

#[test]
fn present_counts_are_added_up() {
    assert_eq!(checked_total_count(&vec![Some(0), None, Some(2), Some(1)]), Some(3));
    assert_eq!(checked_total_count(&vec![None, None]), Some(0));
    assert_eq!(checked_total_count(&vec![]), Some(0));
}

#[test]
fn the_greatest_counts_are_added_up_without_wrapping() {
    let counts = vec![Some(u32::MAX); 5];
    assert_eq!(checked_total_count(&counts), Some(5 * 4_294_967_295usize));
}

#[test]
fn a_buffer_is_limited_by_its_offsets_and_by_the_machine() {
    let limit = buffer_limit();
    assert!(limit <= i64::MAX.unsigned_abs());
    assert!(limit <= u64::try_from(usize::MAX).unwrap_or(u64::MAX));
    assert!(limit == i64::MAX.unsigned_abs() || limit == u64::try_from(usize::MAX).unwrap());
}
