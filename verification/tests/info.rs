use iview::info::{
    civil_time_text, decimal_text, file_size_text, file_time_text, CivilTime, LAST_MOMENT,
};

fn text(bytes: Vec<u8>) -> String {
    String::from_utf8(bytes).unwrap()
}

#[test]
fn decimal_digits() {
    assert_eq!(text(decimal_text(0)), "0");
    assert_eq!(text(decimal_text(7)), "7");
    assert_eq!(text(decimal_text(10)), "10");
    assert_eq!(text(decimal_text(1905)), "1905");
    assert_eq!(text(decimal_text(u64::MAX)), "18446744073709551615");
}

#[test]
fn file_sizes_in_groups() {
    assert_eq!(text(file_size_text(0)), "0");
    assert_eq!(text(file_size_text(999)), "999");
    assert_eq!(text(file_size_text(1000)), "1 000");
    assert_eq!(text(file_size_text(123456)), "123 456");
    assert_eq!(text(file_size_text(1234567)), "1 234 567");
    assert_eq!(text(file_size_text(123456789)), "123 456 789");
    assert_eq!(text(file_size_text(1234567890)), "1 234 567 890");
    assert_eq!(text(file_size_text(999999999999)), "999 999 999 999");
    assert_eq!(text(file_size_text(1234567890123)), "1234 567 890 123");
    assert_eq!(text(file_size_text(u64::MAX)), "18446744073 709 551 615");
}

#[test]
fn civil_time_as_text() {
    let t = CivilTime { year: 2024, month: 2, month_day: 29, hour: 7, min: 5, sec: 9 };
    assert_eq!(text(civil_time_text(t)), "2024-02-29 07:05:09");
    let t = CivilTime { year: 1999, month: 12, month_day: 31, hour: 23, min: 59, sec: 60 };
    assert_eq!(text(civil_time_text(t)), "1999-12-31 23:59:60");
    let t = CivilTime { year: 33, month: 0, month_day: 0, hour: 0, min: 0, sec: 0 };
    assert_eq!(text(civil_time_text(t)), "33-00-00 00:00:00");
    let t = CivilTime { year: -44, month: 3, month_day: 15, hour: 100, min: 255, sec: 10 };
    assert_eq!(text(civil_time_text(t)), "-44-03-15 100:255:10");
    let t = CivilTime { year: i16::MIN, month: 1, month_day: 1, hour: 0, min: 0, sec: 0 };
    assert_eq!(text(civil_time_text(t)), "-32768-01-01 00:00:00");
}

#[test]
fn file_times() {
    assert_eq!(text(file_time_text(0).unwrap()), "1970-01-01 00:00:00");
    assert_eq!(text(file_time_text(1_700_000_000).unwrap()), "2023-11-14 22:13:20");
    assert_eq!(text(file_time_text(951_782_400).unwrap()), "2000-02-29 00:00:00");
    assert_eq!(text(file_time_text(4_102_444_800).unwrap()), "2100-01-01 00:00:00");
    assert_eq!(LAST_MOMENT, 32_535_215_999);
    assert_eq!(text(file_time_text(LAST_MOMENT).unwrap()), "3000-12-31 23:59:59");
}

#[test]
fn moments_without_a_date() {
    assert_eq!(file_time_text(-1), None);
    assert_eq!(file_time_text(i64::MIN), None);
    assert_eq!(file_time_text(LAST_MOMENT + 1), None);
    assert_eq!(file_time_text(253_402_300_799), None);
    assert_eq!(file_time_text(67_767_976_233_532_799), None);
    assert_eq!(file_time_text(i64::MAX), None);
}
