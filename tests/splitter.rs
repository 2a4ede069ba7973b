use malloc_contract::construction::Construction;
use malloc_contract::splitter::weights_sum_is_zero;

#[test]
fn test_get_split_amount_with_leftover() {
    let ret = Construction::get_split_amounts(100, &vec![10, 10, 10]);
    assert_eq!(ret, vec![33, 33, 34]);
}

#[test]
fn test_get_split_amount_even_numbers() {
    let ret = Construction::get_split_amounts(1_000_000, &vec![10, 40, 50]);
    assert_eq!(ret, vec![100_000, 400_000, 500_000]);
}

#[test]
fn split_single_weight_takes_the_whole_amount() {
    assert_eq!(Construction::get_split_amounts(77, &vec![3]), vec![77]);
}

#[test]
fn split_amounts_add_up_to_the_total() {
    let weights = vec![7, 0, 13, 1, 29];
    let total: u128 = 1_000_003;
    let ret = Construction::get_split_amounts(total, &weights);
    assert_eq!(ret.len(), weights.len());
    assert_eq!(ret.iter().sum::<u128>(), total);
    assert_eq!(ret[0], total * 7 / 50);
    assert_eq!(ret[1], 0);
    assert_eq!(ret[2], total * 13 / 50);
}

#[test]
fn split_keeps_precision_on_the_largest_values() {
    let ret = Construction::get_split_amounts(u128::MAX, &vec![u128::MAX, u128::MAX]);
    assert_eq!(ret, vec![(1u128 << 127) - 1, 1u128 << 127]);
    let ret = Construction::get_split_amounts(u128::MAX, &vec![u128::MAX, 1, u128::MAX]);
    assert_eq!(ret.iter().sum::<u128>(), u128::MAX);
    assert_eq!(ret[1], 0);
}

#[test]
fn split_with_zero_leading_weight_gives_remainder_to_last() {
    assert_eq!(Construction::get_split_amounts(10, &vec![0, 3, 3]), vec![0, 5, 5]);
    assert_eq!(Construction::get_split_amounts(0, &vec![1, 1]), vec![0, 0]);
}

#[test]
fn zero_sum_weights_are_detected() {
    assert!(weights_sum_is_zero(&vec![]));
    assert!(weights_sum_is_zero(&vec![0, 0]));
    assert!(!weights_sum_is_zero(&vec![0, 1]));
}
