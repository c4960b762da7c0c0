use timeagent::calendar::{add_months, local_hour_utc_millis, month_name, utc_date_of_timestamp, CivilDate, DayOfWeek};

fn date(y: i32, m: u32, d: u32) -> CivilDate {
    CivilDate::from_ymd(y, m, d).unwrap()
}

#[test]
fn from_ymd_accepts_real_days_only() {
    assert!(CivilDate::from_ymd(2024, 2, 29).is_some());
    assert!(CivilDate::from_ymd(2023, 2, 29).is_none());
    assert!(CivilDate::from_ymd(2024, 13, 1).is_none());
    assert!(CivilDate::from_ymd(2024, 4, 31).is_none());
    assert!(CivilDate::from_ymd(2024, 1, 0).is_none());
    assert!(CivilDate::from_ymd(-4, 2, 29).is_some());
    assert!(CivilDate::from_ymd(400000, 1, 1).is_none());
    assert!(CivilDate::from_ymd(262142, 12, 31).is_some());
    assert!(CivilDate::from_ymd(-262143, 1, 1).is_some());
    assert!(CivilDate::from_ymd(-262144, 12, 31).is_none());
    let d = date(2024, 3, 15);
    assert_eq!((d.year, d.month, d.day), (2024, 3, 15));
}

#[test]
fn weekday_of_known_days() {
    assert_eq!(date(2024, 3, 15).weekday(), DayOfWeek::Fri);
    assert_eq!(date(1970, 1, 1).weekday(), DayOfWeek::Thu);
    assert_eq!(date(2024, 3, 17).weekday(), DayOfWeek::Sun);
    assert_eq!(date(2000, 2, 29).weekday(), DayOfWeek::Tue);
}

#[test]
fn format_ymd_pads_and_signs_the_year() {
    assert_eq!(date(2024, 3, 5).format_ymd(), "2024-03-05");
    assert_eq!(date(5, 1, 9).format_ymd(), "0005-01-09");
    assert_eq!(date(-1, 12, 31).format_ymd(), "-0001-12-31");
    assert_eq!(date(10000, 10, 10).format_ymd(), "+10000-10-10");
}

#[test]
fn utc_date_of_timestamp_buckets_by_utc_day() {
    assert_eq!(utc_date_of_timestamp(0), Some(date(1970, 1, 1)));
    assert_eq!(utc_date_of_timestamp(86399), Some(date(1970, 1, 1)));
    assert_eq!(utc_date_of_timestamp(86400), Some(date(1970, 1, 2)));
    assert_eq!(utc_date_of_timestamp(-1), Some(date(1969, 12, 31)));
    assert_eq!(utc_date_of_timestamp(1709636400), Some(date(2024, 3, 5)));
    assert_eq!(utc_date_of_timestamp(i64::MAX), None);
}

#[test]
fn local_noon_to_utc_millis() {
    assert_eq!(local_hour_utc_millis(&date(1970, 1, 1), 12, 0), 43_200_000);
    assert_eq!(local_hour_utc_millis(&date(2024, 3, 5), 12, 3600), 1_709_636_400_000);
    assert_eq!(local_hour_utc_millis(&date(2024, 3, 5), 0, -18000), 1_709_614_800_000);
}

#[test]
fn month_names_and_overflow() {
    assert_eq!(month_name(1), "January");
    assert_eq!(month_name(9), "September");
    assert_eq!(month_name(12), "December");
    assert_eq!(month_name(13), "December");
}

#[test]
fn add_months_moves_to_first_of_month() {
    assert_eq!(add_months(&date(2024, 11, 15), 3), date(2025, 2, 1));
    assert_eq!(add_months(&date(2024, 1, 1), -1), date(2023, 12, 1));
    assert_eq!(add_months(&date(2024, 5, 1), 0), date(2024, 5, 1));
    assert_eq!(add_months(&date(2024, 5, 1), -29), date(2021, 12, 1));
    assert_eq!(add_months(&date(262142, 12, 20), 1), date(262142, 12, 20));
}

#[test]
fn parse_ymd_reads_dates() {
    assert_eq!(CivilDate::parse_ymd("2024-02-29"), CivilDate::from_ymd(2024, 2, 29));
    assert_eq!(CivilDate::parse_ymd("2023-02-29"), None);
    assert_eq!(CivilDate::parse_ymd("yesterday"), None);
    let d = CivilDate::parse_ymd("1999-12-31").unwrap();
    assert_eq!(d.format_ymd(), "1999-12-31");
}
