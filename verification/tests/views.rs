use timeagent::command::TrayCmd;
use timeagent::models::{DynamicMeeting, WorkItem};
use timeagent::views::{
    choice_of_region, collect_meetings, detect_failed_text, filter_items, fmt_hms, initials, meeting_label, open_items,
    parse_or, position_of_id, region_from_choice, selected_index, sort_items_by_name,
    signed_in_text, status_options, task_label, tray_icon_name, tray_menu, weekly_off_from_checks,
};

fn item(id: i64, name: &str, state: &str, is_final: bool) -> WorkItem {
    WorkItem {
        id,
        name: name.to_string(),
        entity_type: "Tasks".to_string(),
        display_type: "Task".to_string(),
        state_id: 1,
        state_name: state.to_string(),
        is_final,
        project_name: "P".to_string(),
        process_id: 3,
        sprint: String::new(),
        us_id: 0,
        us_name: String::new(),
    }
}

fn ids(v: &[WorkItem]) -> Vec<i64> {
    v.iter().map(|i| i.id).collect()
}

#[test]
fn sort_by_name_is_case_insensitive_and_stable() {
    let items = vec![item(1, "beta", "Open", false), item(2, "Alpha", "Open", false), item(3, "BETA", "Open", false), item(4, "alpha", "Open", false)];
    assert_eq!(ids(&sort_items_by_name(&items, false)), vec![2, 4, 1, 3]);
    assert_eq!(ids(&sort_items_by_name(&items, true)), vec![1, 3, 2, 4]);
    assert!(sort_items_by_name(&vec![], false).is_empty());
}

#[test]
fn filter_by_search_active_and_status() {
    let items = vec![
        item(101, "Fix Login", "Open", false),
        item(202, "Write docs", "Done", true),
        item(303, "login page", "In Progress", false),
    ];
    assert_eq!(ids(&filter_items(&items, "LOGIN", false, None)), vec![101, 303]);
    assert_eq!(ids(&filter_items(&items, "20", false, None)), vec![202]);
    assert_eq!(ids(&filter_items(&items, "", true, None)), vec![101, 303]);
    assert_eq!(ids(&filter_items(&items, "", false, Some("Done"))), vec![202]);
    assert_eq!(ids(&filter_items(&items, "", false, Some("All statuses"))), vec![101, 202, 303]);
}

#[test]
fn status_options_are_sorted_and_distinct() {
    let items = vec![
        item(1, "a", "Open", false),
        item(2, "b", "Done", false),
        item(3, "c", "", false),
        item(4, "d", "Open", false),
    ];
    assert_eq!(status_options(&items), vec!["All statuses".to_string(), "Done".to_string(), "Open".to_string()]);
    assert_eq!(status_options(&vec![]), vec!["All statuses".to_string()]);
}

#[test]
fn selection_follows_the_status_name() {
    let opts = vec!["All statuses".to_string(), "Done".to_string(), "Open".to_string()];
    assert_eq!(selected_index(&opts, Some("Open")), 2);
    assert_eq!(selected_index(&opts, Some("Gone")), 0);
    assert_eq!(selected_index(&opts, None), 0);
}

#[test]
fn picker_helpers() {
    let items = vec![item(1, "a", "Open", true), item(2, "b", "Open", false), item(3, "c", "Open", false)];
    assert_eq!(ids(&open_items(&items)), vec![2, 3]);
    assert_eq!(position_of_id(&items, 3), Some(2));
    assert_eq!(position_of_id(&items, 9), None);
    assert_eq!(task_label(&items[1]), "#2 — b");
    let m = DynamicMeeting { id: "x".to_string(), name: "Standup".to_string(), task_id: 55, description: String::new() };
    assert_eq!(meeting_label(&m), "Standup (#55)");
}

#[test]
fn hms_and_initials() {
    assert_eq!(fmt_hms(0), "0:00:00");
    assert_eq!(fmt_hms(3725), "1:02:05");
    assert_eq!(fmt_hms(36000), "10:00:00");
    assert_eq!(initials("ada lovelace byron"), "AL");
    assert_eq!(initials("  grace   hopper "), "GH");
    assert_eq!(initials("plato"), "P");
    assert_eq!(initials(""), "");
}

#[test]
fn settings_form_conversions() {
    assert_eq!(parse_or("42", 0), 42);
    assert_eq!(parse_or("4x", 30), 30);
    assert_eq!(parse_or("", 15), 15);
    assert_eq!(parse_or("-7", 0), -7);
    let keep = DynamicMeeting { id: "1".to_string(), name: "old".to_string(), task_id: 3, description: "desc".to_string() };
    let rows = vec![
        ("Review".to_string(), "12".to_string(), keep.clone()),
        ("  ".to_string(), "0".to_string(), keep.clone()),
        ("".to_string(), "x".to_string(), keep.clone()),
        ("".to_string(), "8".to_string(), keep.clone()),
    ];
    let saved = collect_meetings(&rows);
    assert_eq!(saved.len(), 2);
    assert_eq!((saved[0].name.as_str(), saved[0].task_id, saved[0].description.as_str()), ("Review", 12, "desc"));
    assert_eq!((saved[1].name.as_str(), saved[1].task_id), ("", 8));
    assert_eq!(weekly_off_from_checks(&vec![true, false, false, false, false, true, true]), vec![0, 5, 6]);
    assert_eq!(region_from_choice(1), "morocco");
    assert_eq!(region_from_choice(0), "none");
    assert_eq!(choice_of_region("morocco"), 1);
    assert_eq!(choice_of_region("none"), 0);
}

#[test]
fn tray_menu_depends_on_meeting() {
    let idle: Vec<Option<TrayCmd>> = tray_menu(false).iter().map(|r| r.map(|(_, c)| c)).collect();
    assert_eq!(idle, vec![Some(TrayCmd::OpenTasks), Some(TrayCmd::OpenSettings), Some(TrayCmd::Refresh), None, Some(TrayCmd::Quit)]);
    let busy = tray_menu(true);
    assert_eq!(busy.len(), 8);
    assert_eq!(busy[0], Some(("⏹▶ Split meeting", TrayCmd::Split)));
    assert_eq!(tray_icon_name(true), "appointment-soon");
    assert_eq!(tray_icon_name(false), "appointment-new");
}

#[test]
fn account_form_texts() {
    assert_eq!(signed_in_text("Ada Lovelace", 42), "Signed in: Ada Lovelace (id 42)");
    assert_eq!(detect_failed_text(""), "Could not detect user — check the URL and token.");
    assert_eq!(detect_failed_text("Load failed: HTTP 401"), "Could not detect user — Load failed: HTTP 401");
}

#[test]
fn tray_menu_labels() {
    let idle = tray_menu(false);
    assert_eq!(idle[0], Some(("Open tasks…", TrayCmd::OpenTasks)));
    assert_eq!(idle[1], Some(("Settings…", TrayCmd::OpenSettings)));
    assert_eq!(idle[2], Some(("Refresh", TrayCmd::Refresh)));
    assert_eq!(idle[4], Some(("Quit", TrayCmd::Quit)));
    let busy = tray_menu(true);
    assert_eq!(busy[1], Some(("⏹ Stop tracking", TrayCmd::StopTracking)));
    assert_eq!(busy[2], None);
}

#[test]
fn parse_or_edges() {
    assert_eq!(parse_or("+5", 0), 5);
    assert_eq!(parse_or("-", 3), 3);
    assert_eq!(parse_or("+", 3), 3);
    assert_eq!(parse_or(" 5", 3), 3);
    assert_eq!(parse_or("007", 0), 7);
    assert_eq!(parse_or("9223372036854775807", 0), i64::MAX);
    assert_eq!(parse_or("9223372036854775808", 1), 1);
    assert_eq!(parse_or("-9223372036854775808", 0), i64::MIN);
    assert_eq!(parse_or("-9223372036854775809", 2), 2);
    assert_eq!(parse_or("٣", 4), 4);
}

#[test]
fn initials_split_on_unicode_spaces() {
    assert_eq!(initials("ada\u{3000}lovelace"), "AL");
    assert_eq!(initials("\u{a0}grace\u{2009}hopper"), "GH");
    assert_eq!(initials("ada\u{200b}lovelace"), "A");
}

#[test]
fn labels_render_extreme_ids() {
    let mut it = WorkItem {
        id: i64::MIN,
        name: "x".to_string(),
        entity_type: "Tasks".to_string(),
        display_type: "Task".to_string(),
        state_id: 0,
        state_name: String::new(),
        is_final: false,
        project_name: String::new(),
        process_id: 0,
        sprint: String::new(),
        us_id: 0,
        us_name: String::new(),
    };
    assert_eq!(task_label(&it), format!("#{} — x", i64::MIN));
    it.id = 0;
    assert_eq!(task_label(&it), "#0 — x");
    assert_eq!(fmt_hms(u64::MAX), format!("{}:{:02}:{:02}", u64::MAX / 3600, (u64::MAX % 3600) / 60, u64::MAX % 60));
}
