use chrono::Datelike;
use event_calendar::time::{
    days_in_month, is_leap_year, try_date_from_day_index, DateTime, Weekday,
};

fn dt(year: i32, month: u8, day: u8, hour: u8, minute: u8, second: u8) -> DateTime {
    DateTime::new(year, month, day, hour, minute, second).expect("valid timestamp")
}

fn chrono_weekday_to_ours(w: chrono::Weekday) -> Weekday {
    match w {
        chrono::Weekday::Mon => Weekday::Monday,
        chrono::Weekday::Tue => Weekday::Tuesday,
        chrono::Weekday::Wed => Weekday::Wednesday,
        chrono::Weekday::Thu => Weekday::Thursday,
        chrono::Weekday::Fri => Weekday::Friday,
        chrono::Weekday::Sat => Weekday::Saturday,
        chrono::Weekday::Sun => Weekday::Sunday,
    }
}

#[test]
fn leap_years() {
    assert!(is_leap_year(2000));
    assert!(is_leap_year(2024));
    assert!(!is_leap_year(1900));
    assert!(!is_leap_year(2023));
    assert!(!is_leap_year(2100));
}

#[test]
fn month_lengths() {
    assert_eq!(days_in_month(2024, 2), 29);
    assert_eq!(days_in_month(2023, 2), 28);
    assert_eq!(days_in_month(2024, 1), 31);
    assert_eq!(days_in_month(2024, 4), 30);
    assert_eq!(days_in_month(2024, 12), 31);
}

#[test]
fn rejects_unreal_dates() {
    assert!(DateTime::new(2024, 2, 30, 0, 0, 0).is_none());
    assert!(DateTime::new(2023, 2, 29, 0, 0, 0).is_none());
    assert!(DateTime::new(2024, 13, 1, 0, 0, 0).is_none());
    assert!(DateTime::new(2024, 0, 1, 0, 0, 0).is_none());
    assert!(DateTime::new(2024, 6, 0, 0, 0, 0).is_none());
    assert!(DateTime::new(2024, 6, 15, 24, 0, 0).is_none());
    assert!(DateTime::new(2024, 6, 15, 23, 60, 0).is_none());
    assert!(DateTime::new(-1, 6, 15, 0, 0, 0).is_none());
    assert!(DateTime::new(10000, 1, 1, 0, 0, 0).is_none());
    assert!(DateTime::new(2024, 2, 29, 23, 59, 59).is_some());
}

#[test]
fn known_weekdays() {
    assert_eq!(dt(2024, 1, 1, 0, 0, 0).weekday(), Weekday::Monday);
    assert_eq!(dt(2000, 1, 1, 0, 0, 0).weekday(), Weekday::Saturday);
    assert_eq!(dt(2024, 1, 3, 12, 0, 0).weekday(), Weekday::Wednesday);
}

#[test]
fn weekdays_match_chrono() {
    let mut date = chrono::NaiveDate::from_ymd_opt(1999, 12, 25).unwrap();
    for _ in 0..500 {
        let ours = dt(date.year(), date.month() as u8, date.day() as u8, 12, 0, 0);
        assert_eq!(ours.weekday(), chrono_weekday_to_ours(date.weekday()));
        date = date.succ_opt().unwrap();
    }
}

#[test]
fn add_days_matches_chrono() {
    let base = chrono::NaiveDate::from_ymd_opt(2023, 11, 20).unwrap();
    let ours = dt(2023, 11, 20, 9, 30, 0);
    for delta in [0i64, 1, 27, 28, 29, 30, 31, 365, 366, 1461, 146097] {
        let shifted = base + chrono::Duration::days(delta);
        let got = ours.checked_add_days(delta).unwrap();
        assert_eq!(i64::from(got.year), i64::from(shifted.year()));
        assert_eq!(u32::from(got.month), shifted.month());
        assert_eq!(u32::from(got.day), shifted.day());
        assert_eq!((got.hour, got.minute, got.second), (9, 30, 0));
    }
}

#[test]
fn add_days_past_supported_years() {
    let late = dt(9999, 12, 31, 0, 0, 0);
    assert!(late.checked_add_days(1).is_none());
    assert!(late.checked_add_days(0).is_some());
}

#[test]
fn day_index_round_trip() {
    for probe in [
        dt(0, 1, 1, 0, 0, 0),
        dt(1970, 1, 1, 0, 0, 0),
        dt(2024, 2, 29, 13, 5, 59),
        dt(9999, 12, 31, 23, 59, 59),
    ] {
        let idx = probe.to_day_index();
        let back = try_date_from_day_index(idx, probe.hour, probe.minute, probe.second).unwrap();
        assert_eq!(back, probe);
    }
}

#[test]
fn shift_months_matches_chronoutil() {
    let cases = [
        (2024, 1, 31, 1),
        (2024, 1, 31, 2),
        (2023, 1, 31, 1),
        (2024, 2, 29, 12),
        (2024, 11, 30, 3),
        (2021, 12, 31, 50),
        (2024, 5, 15, 0),
    ];
    for (y, m, d, n) in cases {
        let base = chrono::NaiveDate::from_ymd_opt(y, u32::from(m), u32::from(d)).unwrap();
        let expected = chronoutil::shift_months(base, n);
        let got = dt(y, m, d, 8, 0, 0).checked_shift_months(i64::from(n)).unwrap();
        assert_eq!(i64::from(got.year), i64::from(expected.year()));
        assert_eq!(u32::from(got.month), expected.month());
        assert_eq!(u32::from(got.day), expected.day());
    }
}

#[test]
fn shift_months_clamps_month_end() {
    let jan31 = dt(2024, 1, 31, 9, 0, 0);
    let feb = jan31.checked_shift_months(1).unwrap();
    assert_eq!((feb.year, feb.month, feb.day), (2024, 2, 29));
    let feb_common = dt(2023, 1, 31, 9, 0, 0).checked_shift_months(1).unwrap();
    assert_eq!((feb_common.year, feb_common.month, feb_common.day), (2023, 2, 28));
}

#[test]
fn key_ordering() {
    let a = dt(2024, 1, 1, 9, 0, 0);
    let b = dt(2024, 1, 1, 10, 0, 0);
    let c = dt(2024, 1, 2, 0, 0, 0);
    assert!(a.lt(&b));
    assert!(b.lt(&c));
    assert!(a.le(&a));
    assert!(!c.le(&a));
}
