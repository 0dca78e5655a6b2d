use timespoof::wire::scan;
use timespoof::{ControlMessage, Scan};

fn message(timestamp: u64, real_time: bool, move_forward: bool, reset_base: bool) -> ControlMessage {
    ControlMessage { timestamp, real_time, move_forward, reset_base }
}

fn complete(timestamp: u64, real_time: bool, move_forward: bool, reset_base: bool, used: usize) -> Scan {
    Scan::Complete { message: message(timestamp, real_time, move_forward, reset_base), used }
}

#[test]
fn scan_reads_a_plain_record() {
    assert_eq!(scan(b"100 0 0 0"), complete(100, false, false, false, 9));
    assert_eq!(scan(b"500 0 1 1"), complete(500, false, true, true, 9));
    assert_eq!(scan(b"0 1 0 0"), complete(0, true, false, false, 7));
    assert_eq!(scan(b"7 1 1 1"), complete(7, true, true, true, 7));
}

#[test]
fn scan_reads_each_flag_from_its_own_field() {
    assert_eq!(scan(b"9 1 0 0"), complete(9, true, false, false, 7));
    assert_eq!(scan(b"9 0 1 0"), complete(9, false, true, false, 7));
    assert_eq!(scan(b"9 0 0 1"), complete(9, false, false, true, 7));
}

#[test]
fn scan_reads_the_largest_timestamp() {
    assert_eq!(
        scan(b"18446744073709551615 0 1 0"),
        complete(u64::MAX, false, true, false, 26)
    );
}

#[test]
fn scan_rejects_a_timestamp_beyond_u64() {
    assert_eq!(scan(b"18446744073709551616 0 1 0"), Scan::Malformed);
    assert_eq!(scan(b"99999999999999999999999999 0 0 0"), Scan::Malformed);
    // known to be too large before the record has arrived whole
    assert_eq!(scan(b"18446744073709551616"), Scan::Malformed);
}

#[test]
fn scan_accepts_leading_zeros() {
    assert_eq!(scan(b"007 0 0 1"), complete(7, false, false, true, 9));
    assert_eq!(
        scan(b"000000000000000000000000000001 1 0 0"),
        complete(1, true, false, false, 36)
    );
}

#[test]
fn scan_accepts_any_ascii_whitespace_between_fields() {
    assert_eq!(scan(b"100\t0\n0\r0"), complete(100, false, false, false, 9));
    assert_eq!(scan(b"100  1 \t 0\x0c\r\n1"), complete(100, true, false, true, 14));
}

#[test]
fn scan_skips_whitespace_before_a_record() {
    assert_eq!(scan(b" 100 0 0 0"), complete(100, false, false, false, 10));
    assert_eq!(scan(b"\r\n\t 42 1 1 0"), complete(42, true, true, false, 12));
}

#[test]
fn scan_stops_at_the_third_flag() {
    assert_eq!(scan(b"100 0 0 0\n"), complete(100, false, false, false, 9));
    assert_eq!(scan(b"100 0 0 0500 0 1 1"), complete(100, false, false, false, 9));
    assert_eq!(scan(b"100 0 0 1garbage"), complete(100, false, false, true, 9));
    assert_eq!(scan(b"100 0 0 01"), complete(100, false, false, false, 9));
}

#[test]
fn scan_takes_every_proper_prefix_of_a_record_as_incomplete() {
    let record = b" 1234 1 0 1";
    for end in 0..record.len() {
        assert_eq!(scan(&record[..end]), Scan::Incomplete, "prefix of {} bytes", end);
    }
    assert_eq!(scan(record), complete(1234, true, false, true, record.len()));
}

#[test]
fn scan_of_nothing_and_of_whitespace_is_incomplete() {
    assert_eq!(scan(b""), Scan::Incomplete);
    assert_eq!(scan(b" "), Scan::Incomplete);
    assert_eq!(scan(b"\n\n\t  \r"), Scan::Incomplete);
}

#[test]
fn scan_rejects_what_is_not_a_number() {
    assert_eq!(scan(b"abc"), Scan::Malformed);
    assert_eq!(scan(b"abc 0 0 0"), Scan::Malformed);
    assert_eq!(scan(b"-1 0 0 0"), Scan::Malformed);
    assert_eq!(scan(b"+1 0 0 0"), Scan::Malformed);
    assert_eq!(scan(b"12x 0 0 0"), Scan::Malformed);
    assert_eq!(scan(b"1_000 0 0 0"), Scan::Malformed);
    assert_eq!(scan(b"1.5 0 0 0"), Scan::Malformed);
    assert_eq!(scan(b"0x10 0 0 0"), Scan::Malformed);
    assert_eq!(scan(b" x"), Scan::Malformed);
}

#[test]
fn scan_rejects_flags_other_than_zero_and_one() {
    assert_eq!(scan(b"100 2 0 0"), Scan::Malformed);
    assert_eq!(scan(b"100 0 9 0"), Scan::Malformed);
    assert_eq!(scan(b"100 0 0 5"), Scan::Malformed);
    assert_eq!(scan(b"100 t 0 0"), Scan::Malformed);
    assert_eq!(scan(b"100 0 -1 0"), Scan::Malformed);
    assert_eq!(scan(b"100 0 0 +1"), Scan::Malformed);
    assert_eq!(scan(b"100 true false false"), Scan::Malformed);
}

#[test]
fn scan_rejects_flags_of_more_than_one_byte() {
    assert_eq!(scan(b"100 01 0 0"), Scan::Malformed);
    assert_eq!(scan(b"100 0 10 0"), Scan::Malformed);
    assert_eq!(scan(b"100 00 0 0"), Scan::Malformed);
    assert_eq!(scan(b"100 11"), Scan::Malformed);
}

#[test]
fn scan_rejects_bytes_outside_ascii() {
    assert_eq!(scan(&[0xff, 0xfe]), Scan::Malformed);
    assert_eq!(scan(&[b'1', 0xc3, 0xa9, b' ', b'0', b' ', b'0', b' ', b'0']), Scan::Malformed);
    assert_eq!(scan(&[b'1', b' ', 0x80]), Scan::Malformed);
    assert_eq!(scan(&[0x00]), Scan::Malformed);
    // a vertical tab does not separate fields
    assert_eq!(scan(b"100\x0b0 0 0"), Scan::Malformed);
}

#[test]
fn encode_writes_fields_with_single_spaces() {
    assert_eq!(message(100, false, false, false).encode(), b"100 0 0 0");
    assert_eq!(message(500, false, true, true).encode(), b"500 0 1 1");
    assert_eq!(message(0, true, false, false).encode(), b"0 1 0 0");
    assert_eq!(message(u64::MAX, true, true, true).encode(), b"18446744073709551615 1 1 1");
    assert_eq!(message(10, false, false, true).encode(), b"10 0 0 1");
}

#[test]
fn scan_reads_back_what_encode_writes() {
    let stamps = [0u64, 1, 9, 10, 99, 100, 1234567890, 132_223_104_000_000_000, u64::MAX];
    for stamp in stamps {
        for bits in 0..8u8 {
            let sent = message(stamp, bits & 1 != 0, bits & 2 != 0, bits & 4 != 0);
            let bytes = sent.encode();
            assert_eq!(scan(&bytes), Scan::Complete { message: sent, used: bytes.len() });
            let mut followed = bytes.clone();
            followed.extend_from_slice(b"77 1");
            assert_eq!(scan(&followed), Scan::Complete { message: sent, used: bytes.len() });
        }
    }
}

#[test]
fn echo_lists_the_fields_and_then_the_values() {
    assert_eq!(
        String::from_utf8(message(100, false, false, false).echo()).unwrap(),
        "[\"100\", \"0\", \"0\", \"0\"] 100 false false false"
    );
    assert_eq!(
        String::from_utf8(message(500, false, true, true).echo()).unwrap(),
        "[\"500\", \"0\", \"1\", \"1\"] 500 false true true"
    );
    assert_eq!(
        String::from_utf8(message(0, true, false, false).echo()).unwrap(),
        "[\"0\", \"1\", \"0\", \"0\"] 0 true false false"
    );
}

#[test]
fn echo_is_what_formatting_the_fields_gives() {
    let sent = message(18_446_744_073_709_551_615, true, false, true);
    let fields = vec!["18446744073709551615", "1", "0", "1"];
    let expected = format!(
        "{:?} {} {} {} {}",
        fields, sent.timestamp, sent.real_time, sent.move_forward, sent.reset_base
    );
    assert_eq!(String::from_utf8(sent.echo()).unwrap(), expected);
}
