use timespoof::FileTime;

#[test]
fn from_ticks_splits_into_low_and_high_words() {
    let file_time = FileTime::from_ticks(0x0000_0001_0000_0002);
    assert_eq!(file_time, FileTime { low_date_time: 2, high_date_time: 1 });
}

#[test]
fn from_ticks_of_zero_and_of_the_largest_count() {
    assert_eq!(FileTime::from_ticks(0), FileTime { low_date_time: 0, high_date_time: 0 });
    assert_eq!(
        FileTime::from_ticks(u64::MAX),
        FileTime { low_date_time: u32::MAX, high_date_time: u32::MAX }
    );
}

#[test]
fn from_ticks_at_the_word_boundary() {
    assert_eq!(
        FileTime::from_ticks(0xFFFF_FFFF),
        FileTime { low_date_time: 0xFFFF_FFFF, high_date_time: 0 }
    );
    assert_eq!(
        FileTime::from_ticks(0x1_0000_0000),
        FileTime { low_date_time: 0, high_date_time: 1 }
    );
}

#[test]
fn words_put_together_give_the_ticks_back() {
    for ticks in [0u64, 1, 505, 116_444_736_000_000_000, 0xDEAD_BEEF_0BAD_F00D, u64::MAX] {
        let file_time = FileTime::from_ticks(ticks);
        let joined = ((file_time.high_date_time as u64) << 32) | file_time.low_date_time as u64;
        assert_eq!(joined, ticks);
    }
}
