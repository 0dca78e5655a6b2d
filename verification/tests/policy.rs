use timespoof::TimeConfig;

#[test]
fn new_keeps_every_field() {
    let config = TimeConfig::new(7, 9, true, false);
    assert_eq!(config.base_time, 7);
    assert_eq!(config.new_time, 9);
    assert!(config.real_time);
    assert!(!config.move_forward);
}

#[test]
fn frozen_policy_reports_target_whatever_the_clock() {
    let config = TimeConfig::new(55, 1234, false, false);
    for now in [0u64, 1, 1233, 1234, 1235, u64::MAX] {
        assert_eq!(config.get_current_timestamp(now), 1234);
    }
}

#[test]
fn default_policy_reports_zero() {
    let config = TimeConfig::new(0, 0, false, false);
    for now in [0u64, 1, 132_223_104_000_000_000, u64::MAX] {
        assert_eq!(config.get_current_timestamp(now), 0);
    }
}

#[test]
fn real_time_reports_clock_unchanged() {
    let config = TimeConfig::new(3, 999, true, false);
    for now in [0u64, 5, 132_223_104_000_000_000, u64::MAX] {
        assert_eq!(config.get_current_timestamp(now), now);
    }
}

#[test]
fn real_time_takes_priority_over_move_forward() {
    let both = TimeConfig::new(1000, 500, true, true);
    let real = TimeConfig::new(1000, 500, true, false);
    for now in [0u64, 999, 1000, 1005, u64::MAX] {
        assert_eq!(both.get_current_timestamp(now), now);
        assert_eq!(both.get_current_timestamp(now), real.get_current_timestamp(now));
    }
}

#[test]
fn move_forward_adds_elapsed_time_to_target() {
    let config = TimeConfig::new(1000, 500, false, true);
    assert_eq!(config.get_current_timestamp(1000), 500);
    assert_eq!(config.get_current_timestamp(1005), 505);
    assert_eq!(config.get_current_timestamp(2000), 1500);
}

#[test]
fn move_forward_wraps_below_the_base() {
    let config = TimeConfig::new(1000, 500, false, true);
    assert_eq!(config.get_current_timestamp(999), 499);
    assert_eq!(config.get_current_timestamp(500), 0);
    assert_eq!(config.get_current_timestamp(499), u64::MAX);
    assert_eq!(config.get_current_timestamp(0), u64::MAX - 499);
}

#[test]
fn move_forward_wraps_above_the_top() {
    let config = TimeConfig::new(0, u64::MAX, false, true);
    assert_eq!(config.get_current_timestamp(0), u64::MAX);
    assert_eq!(config.get_current_timestamp(1), 0);
    assert_eq!(config.get_current_timestamp(11), 10);
    let far = TimeConfig::new(u64::MAX, 5, false, true);
    assert_eq!(far.get_current_timestamp(0), 6);
}

#[test]
fn move_forward_keeps_pace_with_the_clock() {
    let config = TimeConfig::new(40, u64::MAX - 3, false, true);
    let readings = [40u64, 41, 45, 1_000_000, u64::MAX];
    for pair in readings.windows(2) {
        let earlier = config.get_current_timestamp(pair[0]);
        let later = config.get_current_timestamp(pair[1]);
        assert_eq!(later.wrapping_sub(earlier), pair[1] - pair[0]);
    }
}

#[test]
fn same_inputs_give_the_same_timestamp() {
    let config = TimeConfig::new(17, 23, false, true);
    let first = config.get_current_timestamp(4242);
    let second = config.get_current_timestamp(4242);
    assert_eq!(first, second);
    assert_eq!(first, 23 + (4242 - 17));
}

#[test]
fn update_replaces_target_and_modes_together() {
    let mut config = TimeConfig::new(11, 22, true, false);
    config.update_settings(100, false, true, false, 9999);
    assert_eq!(config, TimeConfig::new(11, 100, false, true));
}

#[test]
fn update_resets_base_to_the_clock_when_asked() {
    let mut config = TimeConfig::new(11, 22, false, false);
    config.update_settings(500, false, true, true, 1000);
    assert_eq!(config, TimeConfig::new(1000, 500, false, true));
    assert_eq!(config.get_current_timestamp(1005), 505);
}

#[test]
fn update_keeps_base_when_not_asked() {
    let mut config = TimeConfig::new(1000, 500, false, true);
    config.update_settings(700, false, true, false, 5000);
    assert_eq!(config.base_time, 1000);
    assert_eq!(config.get_current_timestamp(1001), 701);
}

#[test]
fn later_update_wins_over_earlier() {
    let mut config = TimeConfig::new(0, 0, false, false);
    config.update_settings(1, true, true, true, 10);
    config.update_settings(2, false, false, false, 20);
    assert_eq!(config, TimeConfig::new(10, 2, false, false));
}

#[test]
fn filetime_of_policy_splits_the_timestamp() {
    let config = TimeConfig::new(0, 0x0123_4567_89AB_CDEF, false, false);
    let file_time = config.get_current_filetime(77);
    assert_eq!(file_time.low_date_time, 0x89AB_CDEF);
    assert_eq!(file_time.high_date_time, 0x0123_4567);
    let real = TimeConfig::new(0, 0, true, false);
    let seen = real.get_current_filetime(0xFFFF_FFFF_0000_0001);
    assert_eq!(seen.low_date_time, 1);
    assert_eq!(seen.high_date_time, 0xFFFF_FFFF);
}
