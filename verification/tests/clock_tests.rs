use rolling_volatility::clock::timestamp_of;

#[test]
fn reading_after_the_epoch_is_its_distance() {
    assert_eq!(timestamp_of(Some(0)), 0);
    assert_eq!(timestamp_of(Some(1)), 1);
    assert_eq!(timestamp_of(Some(1_700_000_000_000_000_000)), 1_700_000_000_000_000_000);
    assert_eq!(timestamp_of(Some(u128::MAX)), u128::MAX);
}

#[test]
fn reading_before_the_epoch_is_the_epoch() {
    assert_eq!(timestamp_of(None), 0);
}
