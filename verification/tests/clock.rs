use timespoof::clock::{nanos_to_ticks, EPOCH_OFFSET_SECS, NANOS_PER_TICK};
use timespoof::get_real_time_stamp;

#[test]
fn constants_of_the_tick_scale() {
    assert_eq!(EPOCH_OFFSET_SECS, 11_644_473_600);
    assert_eq!(NANOS_PER_TICK, 100);
}

#[test]
fn hundred_nanoseconds_make_one_tick() {
    assert_eq!(nanos_to_ticks(0), 0);
    assert_eq!(nanos_to_ticks(99), 0);
    assert_eq!(nanos_to_ticks(100), 1);
    assert_eq!(nanos_to_ticks(199), 1);
    assert_eq!(nanos_to_ticks(1_000_000_000), 10_000_000);
}

#[test]
fn ticks_of_the_unix_epoch() {
    let nanos = EPOCH_OFFSET_SECS as u128 * 1_000_000_000;
    assert_eq!(nanos_to_ticks(nanos), 116_444_736_000_000_000);
}

#[test]
fn ticks_wrap_at_two_to_the_sixty_fourth() {
    let top = (u64::MAX as u128) * 100;
    assert_eq!(nanos_to_ticks(top), u64::MAX);
    assert_eq!(nanos_to_ticks(top + 99), u64::MAX);
    assert_eq!(nanos_to_ticks(top + 100), 0);
    assert_eq!(nanos_to_ticks(top + 700), 6);
    assert_eq!(nanos_to_ticks(u128::MAX), ((u128::MAX / 100) % (1u128 << 64)) as u64);
}

#[test]
fn real_clock_reads_after_the_year_2020() {
    let stamp = get_real_time_stamp().expect("the clock reads a time after 1601");
    // 2020-01-01 00:00 UTC in ticks since 1601
    assert!(stamp > 132_223_104_000_000_000);
    // well before the count would wrap
    assert!(stamp < 1u64 << 63);
}

#[test]
fn real_clock_agrees_with_the_system_clock() {
    let before = std::time::SystemTime::now()
        .duration_since(std::time::UNIX_EPOCH)
        .unwrap()
        .as_secs();
    let stamp = get_real_time_stamp().unwrap();
    let seconds = stamp / 10_000_000 - EPOCH_OFFSET_SECS;
    assert!(seconds >= before.saturating_sub(5));
    assert!(seconds <= before + 5);
}
