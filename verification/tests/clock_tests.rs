use lumen::clock::{nanos_since_epoch, unix_timestamp_of, ClockReading};

fn reading(after_epoch: bool, secs: u64, subsec_nanos: u32) -> ClockReading {
    ClockReading { after_epoch, secs, subsec_nanos }
}

#[test]
fn timestamps_round_down() {
    assert_eq!(unix_timestamp_of(&reading(true, 1_700_000_000, 999_999_999)), Some(1_700_000_000));
    assert_eq!(unix_timestamp_of(&reading(true, 0, 0)), Some(0));
    assert_eq!(unix_timestamp_of(&reading(false, 0, 1)), Some(-1));
    assert_eq!(unix_timestamp_of(&reading(false, 5, 0)), Some(-5));
    assert_eq!(unix_timestamp_of(&reading(false, 5, 500_000_000)), Some(-6));
}

#[test]
fn timestamps_outside_years_9999_are_refused() {
    assert_eq!(unix_timestamp_of(&reading(true, 253_402_300_799, 999_999_999)), Some(253_402_300_799));
    assert_eq!(unix_timestamp_of(&reading(true, 253_402_300_800, 0)), None);
    assert_eq!(unix_timestamp_of(&reading(true, u64::MAX, 0)), None);
    assert_eq!(unix_timestamp_of(&reading(false, 377_705_116_800, 0)), Some(-377_705_116_800));
    assert_eq!(unix_timestamp_of(&reading(false, 377_705_116_800, 1)), None);
    assert_eq!(unix_timestamp_of(&reading(false, u64::MAX, 0)), None);
}

#[test]
fn nanoseconds_count_only_after_1970() {
    assert_eq!(nanos_since_epoch(&reading(true, 2, 5)), Some(2_000_000_005));
    assert_eq!(nanos_since_epoch(&reading(true, u64::MAX, 999_999_999)), Some(u64::MAX as u128 * 1_000_000_000 + 999_999_999));
    assert_eq!(nanos_since_epoch(&reading(false, 2, 5)), None);
}
