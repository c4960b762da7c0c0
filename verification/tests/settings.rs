use timeagent::settings::{instant_or_epoch, offset_minutes, read_token, Settings};

#[test]
fn defaults_for_a_fresh_install() {
    let s = Settings::with_timezone("Africa/Casablanca".to_string());
    assert_eq!(s.timezone, "Africa/Casablanca");
    assert_eq!(s.meeting_min_minutes, 30);
    assert_eq!(s.meeting_step_minutes, 15);
    assert_eq!(s.weekly_off, vec![0, 6]);
    assert_eq!(s.region, "none");
    assert!(s.tp_url.is_empty() && s.token.is_empty());
    assert_eq!(s.my_user_id, 0);
}

#[test]
fn configured_needs_token_and_http_url() {
    let mut s = Settings::with_timezone("UTC".to_string());
    assert!(!s.is_configured());
    s.token = "abc".to_string();
    s.tp_url = "ftp://x".to_string();
    assert!(!s.is_configured());
    s.tp_url = "https://company.tpondemand.com".to_string();
    assert!(s.is_configured());
    s.token = String::new();
    assert!(!s.is_configured());
}

#[test]
fn identity_detection_and_reset() {
    let mut s = Settings::with_timezone("UTC".to_string());
    assert!(s.needs_user());
    s.set_identity(42, "Ada Lovelace".to_string(), "ada@example.com".to_string());
    assert!(!s.needs_user());
    s.set_account(s.tp_url.clone(), s.token.clone());
    assert_eq!(s.my_user_id, 42);
    s.set_account("https://other".to_string(), "tok".to_string());
    assert_eq!(s.my_user_id, 0);
    assert!(s.my_user_name.is_empty() && s.my_user_email.is_empty());
    assert!(s.needs_user());
}

#[test]
fn add_day_off_takes_ten_byte_entries() {
    let mut s = Settings::with_timezone("UTC".to_string());
    assert!(s.add_day_off("2024-05-01".to_string()));
    assert!(!s.add_day_off("2024-5-1".to_string()));
    assert_eq!(s.days_off, vec!["2024-05-01".to_string()]);
}

#[test]
fn region_check() {
    let mut s = Settings::with_timezone("UTC".to_string());
    assert!(!s.is_morocco());
    s.region = "morocco".to_string();
    assert!(s.is_morocco());
}

#[test]
fn token_is_trimmed() {
    assert_eq!(read_token(Some("  secret\n".to_string())), Some("secret".to_string()));
    assert_eq!(read_token(None), None);
}

#[test]
fn offset_of_fixed_zones() {
    let mut s = Settings::with_timezone("UTC".to_string());
    assert_eq!(s.tz_offset_minutes(), 0);
    s.timezone = "Asia/Tokyo".to_string();
    assert_eq!(s.tz_offset_minutes(), 540);
    s.timezone = "Asia/Kolkata".to_string();
    assert_eq!(s.tz_offset_minutes(), 330);
    s.timezone = "Not/AZone".to_string();
    assert_eq!(s.tz_offset_minutes(), 0);
}

#[test]
fn zone_offsets_in_minutes() {
    assert_eq!(offset_minutes(Some(3600)), 60);
    assert_eq!(offset_minutes(Some(-12600)), -210);
    assert_eq!(offset_minutes(Some(-59)), 0);
    assert_eq!(offset_minutes(Some(50400)), 840);
    assert_eq!(offset_minutes(None), 0);
}

#[test]
fn clock_readings_as_instants() {
    assert_eq!(instant_or_epoch(Ok(1_700_000_000)), 1_700_000_000);
    assert_eq!(instant_or_epoch(Err(86_400)), -86_400);
    assert_eq!(instant_or_epoch(Ok(u64::MAX)), 0);
    assert_eq!(instant_or_epoch(Ok(i64::MAX as u64)), 0);
    assert_eq!(instant_or_epoch(Err(u64::MAX)), 0);
}

#[test]
fn offsets_at_given_instants() {
    let mut s = Settings::with_timezone("America/New_York".to_string());
    assert_eq!(s.offset_minutes_at(Ok(1_700_000_000)), -300);
    assert_eq!(s.offset_minutes_at(Ok(1_690_000_000)), -240);
    s.timezone = "Asia/Kolkata".to_string();
    assert_eq!(s.offset_minutes_at(Err(86_400)), 330);
    s.timezone = "No/Zone".to_string();
    assert_eq!(s.offset_minutes_at(Ok(1_700_000_000)), 0);
}

#[test]
fn add_day_off_changes_nothing_else() {
    let mut s = Settings::with_timezone("UTC".to_string());
    s.token = "tok".to_string();
    s.region = "morocco".to_string();
    assert!(s.add_day_off("2024-12-25".to_string()));
    assert_eq!(s.token, "tok");
    assert_eq!(s.region, "morocco");
    assert_eq!(s.weekly_off, vec![0, 6]);
    assert_eq!(s.days_off, vec!["2024-12-25".to_string()]);
}
