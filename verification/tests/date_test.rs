use fast_log::date::{is_leap_year, LogDate};

#[test]
fn test_date() {
    let d = LogDate::from_str("1234-12-13 11:12:13.112345678").unwrap();
    println!("{}", d.to_string());
    assert_eq!("1234-12-13 11:12:13.112345678".to_string(), d.to_string());
}

#[test]
fn test_date_short_input_parses_to_zeros() {
    let d = LogDate::from_str("12").unwrap();
    assert_eq!(d.year, 0);
    assert_eq!(d.mon, 0);
    assert_eq!(d.nano, 0);
}

#[test]
fn test_date_partial_input() {
    let d = LogDate::from_str("1999-07").unwrap();
    assert_eq!(d.year, 1999);
    assert_eq!(d.mon, 7);
    assert_eq!(d.day, 0);
}

#[test]
fn test_from_epoch_known_instant() {
    let d = LogDate::from_epoch(1704067200, 0);
    assert_eq!(d.year, 2024);
    assert_eq!(d.mon, 1);
    assert_eq!(d.day, 1);
    assert_eq!(d.hour, 0);
    assert_eq!(d.min, 0);
    assert_eq!(d.sec, 0);
    assert_eq!(d.to_string(), "2024-01-01 00:00:00.000000000");
}

#[test]
fn test_from_epoch_leap_day() {
    // 2024-02-29T12:30:45
    let d = LogDate::from_epoch(1709209845, 500);
    assert_eq!(d.year, 2024);
    assert_eq!(d.mon, 2);
    assert_eq!(d.day, 29);
    assert_eq!(d.hour, 12);
    assert_eq!(d.min, 30);
    assert_eq!(d.sec, 45);
    assert_eq!(d.nano, 500);
}

#[test]
fn test_is_leap_year() {
    assert!(is_leap_year(2024));
    assert!(!is_leap_year(2023));
    assert!(!is_leap_year(1900));
    assert!(is_leap_year(2000));
}

#[test]
fn test_is_valid() {
    let ok = LogDate { nano: 0, sec: 0, min: 0, hour: 0, day: 29, mon: 2, year: 2024 };
    assert!(ok.is_valid());
    let bad = LogDate { nano: 0, sec: 0, min: 0, hour: 0, day: 29, mon: 2, year: 2023 };
    assert!(!bad.is_valid());
    let frac = LogDate { nano: 5, sec: 0, min: 0, hour: 0, day: 1, mon: 1, year: 2024 };
    assert!(!frac.is_valid());
}

#[test]
fn test_archive_stamp_order_is_chronological() {
    let older = LogDate { nano: 999999000, sec: 59, min: 59, hour: 23, day: 9, mon: 12, year: 2023 };
    let newer = LogDate { nano: 0, sec: 0, min: 0, hour: 0, day: 10, mon: 1, year: 2024 };
    let micro = LogDate { nano: 1000, sec: 0, min: 0, hour: 0, day: 10, mon: 1, year: 2024 };
    assert!(older.archive_stamp() < newer.archive_stamp());
    assert!(newer.archive_stamp() < micro.archive_stamp());
}

#[test]
fn test_archive_stamp() {
    let d = LogDate { nano: 452247000, sec: 17, min: 13, hour: 10, day: 20, mon: 7, year: 2023 };
    assert_eq!(d.archive_stamp(), "2023-07-20T10-13-17.452247.log");
}
