use puretd_engine::clock::{civil_from_days, now_utc, reading_text, utc_timestamp};

#[test]
fn the_epoch_is_midnight_first_of_january_1970() {
    assert_eq!(utc_timestamp(0), "1970-01-01T00:00:00Z");
    assert_eq!(utc_timestamp(86399), "1970-01-01T23:59:59Z");
}

#[test]
fn leap_day_of_a_fourth_century() {
    assert_eq!(utc_timestamp(951782400), "2000-02-29T00:00:00Z");
    assert_eq!(civil_from_days(11016), (2000, 2, 29));
    assert_eq!(civil_from_days(11017), (2000, 3, 1));
}

#[test]
fn a_recent_timestamp() {
    assert_eq!(utc_timestamp(1725029869), "2024-08-30T14:57:49Z");
}

#[test]
fn end_of_a_century() {
    assert_eq!(utc_timestamp(4102444799), "2099-12-31T23:59:59Z");
    assert_eq!(utc_timestamp(6825600000), "2186-04-18T00:00:00Z");
}

#[test]
fn century_years_are_not_leap_unless_fourth() {
    // 2100-02-28 is day 47540, and the next day is 1 March
    assert_eq!(civil_from_days(47540), (2100, 2, 28));
    assert_eq!(civil_from_days(47541), (2100, 3, 1));
}

#[test]
fn the_largest_timestamp_has_a_long_year() {
    assert_eq!(utc_timestamp(u64::MAX), "584554051223-11-09T07:00:15Z");
}

#[test]
fn now_is_written_in_the_timestamp_shape() {
    let now = now_utc();
    let bytes = now.as_bytes();
    assert_eq!(bytes.len(), 20);
    assert_eq!(bytes[4], b'-');
    assert_eq!(bytes[7], b'-');
    assert_eq!(bytes[10], b'T');
    assert_eq!(bytes[13], b':');
    assert_eq!(bytes[16], b':');
    assert_eq!(bytes[19], b'Z');
    assert!(now.as_str() >= "2024-01-01T00:00:00Z");
}

#[test]
fn a_clock_before_the_epoch_reads_as_the_epoch() {
    assert_eq!(reading_text(None), "1970-01-01T00:00:00Z");
    assert_eq!(reading_text(Some(1725029869)), "2024-08-30T14:57:49Z");
}

#[test]
fn later_seconds_sort_later() {
    let times = [0u64, 59, 60, 3599, 3600, 86399, 86400, 951782399, 951782400, 1725029869,
        4102444799, 253402300799];
    for pair in times.windows(2) {
        assert!(utc_timestamp(pair[0]) < utc_timestamp(pair[1]));
    }
}
