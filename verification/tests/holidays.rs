use timeagent::calendar::CivilDate;
use timeagent::holidays::{days_off_for_year, fixed_civil, is_day_off};
use timeagent::settings::Settings;

fn date(y: i32, m: u32, d: u32) -> CivilDate {
    CivilDate::from_ymd(y, m, d).unwrap()
}

fn settings(region: &str, days: &[&str], weekly: &[i64]) -> Settings {
    let mut s = Settings::with_timezone("UTC".to_string());
    s.region = region.to_string();
    s.days_off = days.iter().map(|d| d.to_string()).collect();
    s.weekly_off = weekly.to_vec();
    s
}

#[test]
fn fixed_civil_lists_the_nine_holidays() {
    assert_eq!(
        fixed_civil(2024),
        vec![(1, 1), (1, 11), (5, 1), (7, 30), (8, 14), (8, 20), (8, 21), (11, 6), (11, 18)]
    );
}

#[test]
fn days_off_without_region_are_the_listed_ones_once() {
    let s = settings("none", &["2024-06-03", "2024-06-03", "2024-07-01"], &[]);
    let days = days_off_for_year(&s, 2024);
    assert_eq!(days, vec!["2024-06-03".to_string(), "2024-07-01".to_string()]);
}

#[test]
fn days_off_in_morocco_add_civil_holidays() {
    let s = settings("morocco", &["2024-01-11", "2024-06-03"], &[]);
    let days = days_off_for_year(&s, 2024);
    assert_eq!(days.len(), 10);
    assert!(days.contains(&"2024-01-01".to_string()));
    assert!(days.contains(&"2024-11-18".to_string()));
    assert!(days.contains(&"2024-06-03".to_string()));
    assert_eq!(days.iter().filter(|d| d.as_str() == "2024-01-11").count(), 1);
}

#[test]
fn weekend_is_day_off() {
    let s = settings("none", &[], &[0, 6]);
    assert!(is_day_off(&s, &date(2024, 3, 16)));
    assert!(is_day_off(&s, &date(2024, 3, 17)));
    assert!(!is_day_off(&s, &date(2024, 3, 18)));
}

#[test]
fn listed_and_civil_days_are_days_off() {
    let s = settings("morocco", &["2024-03-20"], &[0, 6]);
    assert!(is_day_off(&s, &date(2024, 3, 20)));
    assert!(is_day_off(&s, &date(2024, 7, 30)));
    assert!(!is_day_off(&s, &date(2024, 7, 31)));
    let none = settings("none", &[], &[0, 6]);
    assert!(!is_day_off(&none, &date(2024, 7, 30)));
}
