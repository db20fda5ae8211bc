use wol_proxy::clock::{elapsed, millis_from_secs, remaining, MILLIS_PER_SEC};

#[test]
fn elapsed_is_the_difference() {
    assert_eq!(elapsed(100, 350), 250);
    assert_eq!(elapsed(100, 100), 0);
    assert_eq!(elapsed(0, u64::MAX), u64::MAX);
}

#[test]
fn elapsed_is_zero_when_the_clock_reads_earlier() {
    assert_eq!(elapsed(350, 100), 0);
    assert_eq!(elapsed(u64::MAX, 0), 0);
}

#[test]
fn remaining_counts_down_to_zero() {
    assert_eq!(remaining(2000, 100, 100), 2000);
    assert_eq!(remaining(2000, 100, 1600), 500);
    assert_eq!(remaining(2000, 100, 2099), 1);
    assert_eq!(remaining(2000, 100, 2100), 0);
    assert_eq!(remaining(2000, 100, 9000), 0);
    assert_eq!(remaining(2000, 100, 50), 2000);
    assert_eq!(remaining(0, 100, 100), 0);
}

#[test]
fn seconds_become_milliseconds() {
    assert_eq!(MILLIS_PER_SEC, 1000);
    assert_eq!(millis_from_secs(0), 0);
    assert_eq!(millis_from_secs(15), 15_000);
    assert_eq!(millis_from_secs(300), 300_000);
    assert_eq!(millis_from_secs(u64::MAX / 1000), u64::MAX / 1000 * 1000);
}

#[test]
fn overlong_duration_saturates() {
    assert_eq!(millis_from_secs(u64::MAX / 1000 + 1), u64::MAX);
    assert_eq!(millis_from_secs(u64::MAX), u64::MAX);
}
