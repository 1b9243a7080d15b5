use forecasts::percentiles::{sort_u64s, value_sorted};

#[test]
fn value_sorted_returns_none_for_empty_input() {
    let values: Vec<i32> = vec![];
    assert_eq!(value_sorted(&values, 50), None);
}

#[test]
fn value_sorted_clamps_to_first_and_last() {
    let values = vec![10, 20, 30];
    assert_eq!(value_sorted(&values, -1), Some(10));
    assert_eq!(value_sorted(&values, 0), Some(10));
    assert_eq!(value_sorted(&values, 100), Some(30));
    assert_eq!(value_sorted(&values, 1000), Some(30));
}

#[test]
fn value_sorted_uses_rounded_position() {
    // len=5 => indices 0..=4
    // p25 => position=1.0 => idx=1
    // p50 => position=2.0 => idx=2
    // p75 => position=3.0 => idx=3
    let values = vec![0, 1, 2, 3, 4];
    assert_eq!(value_sorted(&values, 25), Some(1));
    assert_eq!(value_sorted(&values, 50), Some(2));
    assert_eq!(value_sorted(&values, 75), Some(3));
}

#[test]
fn sort_orders_ascending_and_keeps_contents() {
    let values: Vec<u64> = vec![5, 1, 4, 1, 3];
    let sorted = sort_u64s(&values);
    assert_eq!(sorted, vec![1, 1, 3, 4, 5]);
}
