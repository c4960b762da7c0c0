use timeagent::calendar::CivilDate;
use timeagent::tp::{
    assigned_query, assigned_where, date_string, display_name, display_type, enc, entity_path,
    entity_url, log_description, next_skip, page_query, states_where, time_path, times_where,
    tp_day, TpConfig,
};
use timeagent::tp::{entity_state_of, noon_fits, tp_day_readable, work_item_from, WorkItemFields};

fn date(y: i32, m: u32, d: u32) -> CivilDate {
    CivilDate::from_ymd(y, m, d).unwrap()
}

fn pairs(v: &[(&str, &str)]) -> Vec<(String, String)> {
    v.iter().map(|(k, x)| (k.to_string(), x.to_string())).collect()
}

#[test]
fn enc_uses_percent_twenty_and_upper_hex() {
    assert_eq!(enc("a b+c/é"), "a%20b%2Bc%2F%C3%A9");
    assert_eq!(enc("A-z_0.9~"), "A-z_0.9~");
    assert_eq!(enc(""), "");
    assert_eq!(enc("[Id,Name]"), "%5BId%2CName%5D");
}

#[test]
fn config_drops_trailing_slashes() {
    let cfg = TpConfig::new("https://x.tp.com//", "t k", 7);
    assert_eq!(cfg.base_url, "https://x.tp.com");
    assert_eq!(cfg.token, "t k");
    assert_eq!(cfg.my_user_id, 7);
}

#[test]
fn url_carries_format_token_and_query() {
    let cfg = TpConfig::new("https://x.tp.com/", "t k", 7);
    let q = pairs(&[("where", "User.Id eq 7")]);
    assert_eq!(
        cfg.url("Times", &q),
        "https://x.tp.com/api/v1/Times?format=json&access_token=t%20k&where=User.Id%20eq%207"
    );
    assert_eq!(cfg.url("Context", &vec![]), "https://x.tp.com/api/v1/Context?format=json&access_token=t%20k");
}

#[test]
fn page_query_appends_take_and_skip() {
    let q = pairs(&[("where", "w")]);
    assert_eq!(page_query(&q, 2000), pairs(&[("where", "w"), ("take", "1000"), ("skip", "2000")]));
}

#[test]
fn pagination_stops_at_short_page() {
    assert_eq!(next_skip(0, 1000), Some(1000));
    assert_eq!(next_skip(1000, 1000), Some(2000));
    assert_eq!(next_skip(2000, 999), None);
    assert_eq!(next_skip(0, 0), None);
}

#[test]
fn query_clauses() {
    assert_eq!(assigned_where(7, true), "AssignedUser.Id eq 7 and (TeamIteration.IsCurrent eq 'true')");
    assert_eq!(assigned_where(-3, false), "AssignedUser.Id eq -3");
    assert_eq!(states_where(3, "Bug"), "(Process.Id eq 3) and (EntityType.Name eq 'Bug')");
    assert_eq!(times_where(12), "User.Id eq 12");
    let q = assigned_query(7, false);
    assert_eq!(q[0], ("where".to_string(), "AssignedUser.Id eq 7".to_string()));
    assert_eq!(q[1].1, "[Id,Name,EntityState[Id,Name,IsFinal],Project[Name,Process[Id]],TeamIteration[Name],UserStory[Id,Name]]");
}

#[test]
fn paths_and_links() {
    assert_eq!(entity_path("Tasks", 12), "Tasks/12");
    assert_eq!(time_path(5), "Times/5");
    assert_eq!(entity_url("https://x.tp.com/", 9), "https://x.tp.com/entity/9");
    assert_eq!(display_type("Bugs"), "Bug");
    assert_eq!(display_type("Tasks"), "Task");
}

#[test]
fn names_and_descriptions_are_trimmed() {
    assert_eq!(display_name("Ada", "Lovelace"), "Ada Lovelace");
    assert_eq!(display_name("Ada", ""), "Ada");
    assert_eq!(display_name("", "Lovelace"), "Lovelace");
    assert_eq!(log_description("  standup \n"), Some("standup".to_string()));
    assert_eq!(log_description("   "), None);
}

#[test]
fn date_string_is_noon_at_offset() {
    assert_eq!(date_string(&date(2024, 3, 5), 60), "/Date(1709636400000+0100)/");
    assert_eq!(date_string(&date(2024, 3, 5), -300), "/Date(1709658000000-0500)/");
    assert_eq!(date_string(&date(1970, 1, 1), 0), "/Date(43200000+0000)/");
    assert_eq!(date_string(&date(2024, 3, 5), 330), "/Date(1709620200000+0530)/");
}

#[test]
fn tp_day_reads_the_embedded_offset() {
    assert_eq!(tp_day(Some("/Date(1709636400000+0100)/")), Some("2024-03-05".to_string()));
    assert_eq!(tp_day(Some("/Date(1709593200000+0100)/")), Some("2024-03-05".to_string()));
    assert_eq!(tp_day(Some("/Date(1709593200000)/")), Some("2024-03-04".to_string()));
    assert_eq!(tp_day(Some("/Date(-1000)/")), Some("1969-12-31".to_string()));
    // a negative millisecond value keeps its own '-'; the offset follows it
    assert_eq!(tp_day(Some("/Date(-7200000+1400)/")), Some("1970-01-01".to_string()));
    assert_eq!(tp_day(Some("/Date(-86400000+0000)/")), Some("1969-12-31".to_string()));
    // a '-' offset
    assert_eq!(tp_day(Some("/Date(1709658000000-0500)/")), Some("2024-03-05".to_string()));
    assert_eq!(tp_day(Some("/Date(1709607600000-0500)/")), Some("2024-03-04".to_string()));
}

#[test]
fn tp_day_rejects_unreadable_values() {
    assert_eq!(tp_day(None), None);
    assert_eq!(tp_day(Some("garbage")), None);
    assert_eq!(tp_day(Some("/Date(-)/")), None);
}

#[test]
fn written_day_reads_back() {
    for (y, m, d) in [(2024, 3, 5), (1999, 12, 31), (2000, 2, 29), (1970, 1, 1), (1969, 12, 31), (1901, 7, 4)] {
        for off in [-1439, -720, -300, -1, 0, 60, 330, 720, 840, 1439] {
            let dt = date(y, m, d);
            let s = date_string(&dt, off);
            assert_eq!(tp_day(Some(&s)), Some(dt.format_ymd()));
        }
    }
}

fn fields(id: Option<i64>) -> WorkItemFields {
    WorkItemFields {
        id,
        name: Some("Fix login".to_string()),
        state_id: None,
        state_name: None,
        is_final: None,
        project_name: Some("Portal".to_string()),
        process_id: Some(7),
        sprint: None,
        us_id: None,
        us_name: None,
    }
}

#[test]
fn work_item_fields_defaults() {
    let w = work_item_from("Bugs", &fields(Some(12))).unwrap();
    assert_eq!(w.id, 12);
    assert_eq!(w.name, "Fix login");
    assert_eq!(w.entity_type, "Bugs");
    assert_eq!(w.display_type, "Bug");
    assert_eq!(w.state_id, 0);
    assert_eq!(w.state_name, "?");
    assert!(!w.is_final);
    assert_eq!(w.project_name, "Portal");
    assert_eq!(w.process_id, 7);
    assert_eq!(w.sprint, "");
    assert_eq!(w.us_id, 0);
    assert_eq!(w.us_name, "");
    let t = work_item_from("Tasks", &fields(Some(3))).unwrap();
    assert_eq!(t.display_type, "Task");
    assert!(work_item_from("Tasks", &fields(None)).is_none());
}

#[test]
fn entity_state_defaults() {
    assert_eq!(entity_state_of(None, None), ("?".to_string(), false));
    assert_eq!(entity_state_of(Some("Done".to_string()), Some(true)), ("Done".to_string(), true));
}

#[test]
fn encoding_of_reserved_bytes() {
    assert_eq!(enc("a b+c/é"), "a%20b%2Bc%2F%C3%A9");
    assert_eq!(enc("A-z_0.~"), "A-z_0.~");
    assert_eq!(enc(""), "");
}

#[test]
fn readable_values_and_noon_range() {
    assert!(tp_day_readable("/Date(1709658000000-0500)/"));
    assert!(tp_day_readable("/Date(-86400000+0000)/"));
    assert!(tp_day_readable("garbage"));
    assert!(tp_day_readable("/Date(5+é00)/"));
    assert!(!tp_day_readable("/Date(5+000é)/"));
    assert!(!tp_day_readable("/Date(5+0é0)/"));
    let first = CivilDate::from_ymd(-262143, 1, 1).unwrap();
    let last = CivilDate::from_ymd(262142, 12, 31).unwrap();
    assert!(noon_fits(&first, 720));
    assert!(!noon_fits(&first, 721));
    assert!(noon_fits(&first, -1439));
    assert!(noon_fits(&last, -719));
    assert!(!noon_fits(&last, -720));
    assert!(noon_fits(&last, 1439));
    assert!(noon_fits(&date(2024, 3, 5), -1439));
}
