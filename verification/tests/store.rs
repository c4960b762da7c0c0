use timeagent::calendar::CivilDate;
use timeagent::models::{RecurringEntry, WorkItem};
use timeagent::settings::Settings;
use timeagent::store::{apply_state_change, due_recurring, loaded_status, recurring_due_today, state_changed_status};

fn entry(id: &str, task_id: i64) -> RecurringEntry {
    RecurringEntry { id: id.to_string(), label: id.to_string(), task_id, hours_bits: 1.5f64.to_bits() }
}

fn item(id: i64, name: &str) -> WorkItem {
    WorkItem {
        id,
        name: name.to_string(),
        entity_type: "Tasks".to_string(),
        display_type: "Task".to_string(),
        state_id: 1,
        state_name: "Open".to_string(),
        is_final: false,
        project_name: "P".to_string(),
        process_id: 3,
        sprint: String::new(),
        us_id: 0,
        us_name: String::new(),
    }
}

#[test]
fn recurring_entries_fire_once_per_day() {
    let rs = vec![entry("a", 10), entry("b", 0), entry("c", 11)];
    let mut logged = vec!["2024-03-04|a".to_string()];
    let picked = due_recurring(&rs, "2024-03-05", &mut logged);
    assert_eq!(picked, vec![0, 2]);
    assert_eq!(
        logged,
        vec!["2024-03-04|a".to_string(), "2024-03-05|a".to_string(), "2024-03-05|c".to_string()]
    );
    let again = due_recurring(&rs, "2024-03-05", &mut logged);
    assert_eq!(again, Vec::<usize>::new());
    assert_eq!(logged.len(), 3);
}

#[test]
fn duplicate_recurring_ids_fire_once() {
    let rs = vec![entry("a", 10), entry("a", 12)];
    let mut logged = vec![];
    assert_eq!(due_recurring(&rs, "2024-03-05", &mut logged), vec![0]);
}

#[test]
fn nothing_recurs_on_a_day_off() {
    let mut s = Settings::with_timezone("UTC".to_string());
    s.recurring = vec![entry("a", 10)];
    let mut logged = vec![];
    let sunday = CivilDate::from_ymd(2024, 3, 17).unwrap();
    assert_eq!(recurring_due_today(&s, &sunday, &mut logged), Vec::<usize>::new());
    assert!(logged.is_empty());
    let monday = CivilDate::from_ymd(2024, 3, 18).unwrap();
    assert_eq!(recurring_due_today(&s, &monday, &mut logged), vec![0]);
    assert_eq!(logged, vec!["2024-03-18|a".to_string()]);
}

#[test]
fn state_change_updates_first_matching_item() {
    let mut items = vec![item(1, "one"), item(2, "two"), item(2, "dup")];
    apply_state_change(&mut items, 2, 9, "Done".to_string(), true);
    assert_eq!(items[1].state_id, 9);
    assert_eq!(items[1].state_name, "Done");
    assert!(items[1].is_final);
    assert_eq!(items[2].state_id, 1);
    assert_eq!(items[0].state_name, "Open");
    let before = items.clone();
    apply_state_change(&mut items, 77, 9, "Done".to_string(), true);
    assert_eq!(items.len(), before.len());
    assert_eq!(items[0].state_id, before[0].state_id);
}

#[test]
fn status_texts() {
    assert_eq!(loaded_status(12, true), "Loaded 12 items");
    assert_eq!(loaded_status(0, false), "Loaded 0 items (current sprint)");
    assert_eq!(state_changed_status(42, "In Progress"), "#42 → In Progress");
}
