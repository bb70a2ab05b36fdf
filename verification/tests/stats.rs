use ert::stats::{mean, squared_deviation_sum, sum};

#[test]
fn sum_of_samples() {
    assert_eq!(sum(&[]), 0);
    assert_eq!(sum(&[1, 2, 3]), 6);
    assert_eq!(sum(&[u64::MAX, u64::MAX]), 2 * (u64::MAX as u128));
}

#[test]
fn mean_rounds_down() {
    assert_eq!(mean(&[]), None);
    assert_eq!(mean(&[7]), Some(7));
    assert_eq!(mean(&[1, 2]), Some(1));
    assert_eq!(mean(&[10, 20, 30, 41]), Some(25));
    assert_eq!(mean(&[u64::MAX, u64::MAX, u64::MAX]), Some(u64::MAX));
}

#[test]
fn squared_deviations_on_both_sides_of_the_mean() {
    assert_eq!(squared_deviation_sum(&[], 5), Some(0));
    assert_eq!(squared_deviation_sum(&[1, 5, 9], 5), Some(32));
    assert_eq!(squared_deviation_sum(&[0, 10], 3), Some(9 + 49));
    assert_eq!(
        squared_deviation_sum(&[u64::MAX], 0),
        Some((u64::MAX as u128) * (u64::MAX as u128))
    );
}

#[test]
fn squared_deviations_that_do_not_fit() {
    assert_eq!(squared_deviation_sum(&[u64::MAX, u64::MAX], 0), None);
    assert_eq!(squared_deviation_sum(&[u64::MAX, 0, u64::MAX, 7], 0), None);
}
