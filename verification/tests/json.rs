use timeagent::json::{parse, Json};
use timeagent::store::{logged_keys, marker_entries};
use timeagent::tp::{
    created_id, entity_state_in, identity_of, page_items, parse_reply, state_row_of, time_date_readable,
    time_row_of, work_item_of, IdentityError,
};

fn reply(text: &str) -> Json {
    parse_reply(text).expect("JSON")
}

#[test]
fn replies_parse() {
    assert!(matches!(parse_reply(""), Some(Json::Object(ref es)) if es.is_empty()));
    assert!(parse_reply("{not json").is_none());
    assert!(matches!(parse("[1, 2.5, \"x\", true, null]"), Some(Json::Array(ref a)) if a.len() == 5));
}

#[test]
fn identity_from_context() {
    let r = reply(r#"{"LoggedUser": {"Id": 7, "FirstName": "Ada", "LastName": "Lovelace", "Email": "ada@x.org"}}"#);
    assert_eq!(identity_of(&r), Ok((7, "Ada Lovelace".to_string(), "ada@x.org".to_string())));
    let r = reply(r#"{"LoggedUser": {"Id": 8, "LastName": "Hopper"}}"#);
    assert_eq!(identity_of(&r), Ok((8, "Hopper".to_string(), String::new())));
    assert_eq!(identity_of(&reply(r#"{"LoggedUser": {"Id": "8"}}"#)), Err(IdentityError::NoId));
    assert_eq!(identity_of(&reply(r#"{"Other": 1}"#)), Err(IdentityError::NoLoggedUser));
}

#[test]
fn work_items_from_a_page() {
    let r = reply(
        r#"{"Items": [
            {"Id": 12, "Name": "Fix login", "EntityState": {"Id": 3, "Name": "Open", "IsFinal": false},
             "Project": {"Name": "Portal", "Process": {"Id": 9}}, "TeamIteration": {"Name": "S1"},
             "UserStory": {"Id": 40, "Name": "Login"}},
            {"Name": "no id"},
            {"Id": 13}
        ], "Next": "..."}"#,
    );
    let items = page_items(r);
    assert_eq!(items.len(), 3);
    let a = work_item_of("Bugs", &items[0]).unwrap();
    assert_eq!((a.id, a.name.as_str(), a.display_type.as_str()), (12, "Fix login", "Bug"));
    assert_eq!((a.state_id, a.state_name.as_str(), a.is_final), (3, "Open", false));
    assert_eq!((a.project_name.as_str(), a.process_id, a.sprint.as_str()), ("Portal", 9, "S1"));
    assert_eq!((a.us_id, a.us_name.as_str()), (40, "Login"));
    assert!(work_item_of("Bugs", &items[1]).is_none());
    let c = work_item_of("Tasks", &items[2]).unwrap();
    assert_eq!((c.state_name.as_str(), c.name.as_str(), c.display_type.as_str()), ("?", "", "Task"));
    assert!(page_items(reply(r#"{"Items": 5}"#)).is_empty());
    assert!(page_items(reply("[]")).is_empty());
}

#[test]
fn time_rows_from_a_page() {
    let items = page_items(reply(
        r#"{"Items": [
            {"Id": 1, "Spent": 1.5, "Date": "/Date(1709636400000+0100)/", "Description": "standup", "Assignable": {"Id": 12}},
            {"Id": 2, "Date": "/Date(1709658000000-0500)/"},
            {"Id": 3, "Spent": 2},
            {"Spent": 2, "Date": "/Date(1709636400000+0100)/"},
            {"Id": 4, "Date": "garbage"}
        ]}"#,
    ));
    assert!(items.iter().all(time_date_readable));
    let a = time_row_of(&items[0]).unwrap();
    assert_eq!((a.id, a.item_id, a.spent.as_deref(), a.day.as_str(), a.description.as_str()), (1, 12, Some("1.5"), "2024-03-05", "standup"));
    let b = time_row_of(&items[1]).unwrap();
    assert_eq!((b.item_id, b.spent.clone(), b.day.as_str(), b.description.as_str()), (0, None, "2024-03-05", ""));
    assert!(time_row_of(&items[2]).is_none());
    assert!(time_row_of(&items[3]).is_none());
    assert!(time_row_of(&items[4]).is_none());
    assert!(!time_date_readable(&reply(r#"{"Date": "/Date(5+0é0)/"}"#)));
}

#[test]
fn states_and_created_ids() {
    let items = page_items(reply(r#"{"Items": [{"Id": 5, "Name": "Done", "IsFinal": true, "NumericPriority": 2.5}, {"Name": "x"}]}"#));
    let s = state_row_of(&items[0]).unwrap();
    assert_eq!((s.id, s.name.as_str(), s.is_final, s.priority.as_deref()), (5, "Done", true, Some("2.5")));
    assert!(state_row_of(&items[1]).is_none());
    assert_eq!(entity_state_in(&reply(r#"{"EntityState": {"Name": "Done", "IsFinal": true}}"#)), ("Done".to_string(), true));
    assert_eq!(entity_state_in(&reply("{}")), ("?".to_string(), false));
    assert_eq!(created_id(&reply(r#"{"Id": 99}"#)), Some(99));
    assert_eq!(created_id(&reply(r#"{"Id": "99"}"#)), None);
}

#[test]
fn marker_file_entries() {
    let e = marker_entries(r#"{"2024-03-05|a": true, "2024-03-04|b": false}"#);
    assert_eq!(e.len(), 2);
    let keys = logged_keys(&e);
    assert_eq!(keys, vec!["2024-03-05|a".to_string()]);
    assert!(marker_entries(r#"{"k": 1}"#).is_empty());
    assert!(marker_entries("").is_empty());
    assert!(marker_entries("[true]").is_empty());
}
