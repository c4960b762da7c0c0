use timeagent::watcher::{
    clear_busy, poll, poll_delay, split_with, stop_with, wall_time_of, MeetingEvent, WatcherState,
    ACTIVE_MS, IDLE_MS,
};

fn not_in_meeting() -> MeetingEvent {
    MeetingEvent::State { in_meeting: false, session_start: None }
}

#[test]
fn capture_starts_a_session_once() {
    let mut st = WatcherState::default();
    assert_eq!(poll(&mut st, 1_000, true), vec![MeetingEvent::State { in_meeting: true, session_start: Some(1_000) }]);
    assert_eq!(st.session_start, Some(1_000));
    assert_eq!(poll(&mut st, 4_000, true), vec![]);
    assert_eq!(st.last_seen, Some(4_000));
    assert_eq!(st.session_start, Some(1_000));
}

#[test]
fn silence_after_a_long_session_reports_the_meeting() {
    let mut st = WatcherState::default();
    poll(&mut st, 0, true);
    poll(&mut st, 70_000, true);
    let ev = poll(&mut st, 73_000, false);
    assert_eq!(ev, vec![not_in_meeting(), MeetingEvent::Ended { start: 0, end: 73_000 }]);
    assert!(st.busy);
    assert_eq!(st.session_start, None);
    assert_eq!(st.last_seen, None);
}

#[test]
fn short_session_is_not_reported() {
    let mut st = WatcherState::default();
    poll(&mut st, 0, true);
    let ev = poll(&mut st, 30_000, false);
    assert_eq!(ev, vec![not_in_meeting()]);
    assert!(!st.busy);
}

#[test]
fn long_silence_gap_is_not_billed() {
    let mut st = WatcherState::default();
    poll(&mut st, 0, true);
    poll(&mut st, 100_000, true);
    // next observation comes 30 s later (> 3 idle periods): end at last sighting
    let ev = poll(&mut st, 130_000, false);
    assert_eq!(ev, vec![not_in_meeting(), MeetingEvent::Ended { start: 0, end: 100_000 }]);
}

#[test]
fn busy_watcher_ignores_polls_until_cleared() {
    let mut st = WatcherState::default();
    poll(&mut st, 0, true);
    poll(&mut st, 60_000, true);
    poll(&mut st, 61_000, false);
    assert!(st.busy);
    let before = st;
    assert_eq!(poll(&mut st, 70_000, true), vec![]);
    assert_eq!(st, before);
    clear_busy(&mut st);
    assert!(!st.busy);
    assert_eq!(poll(&mut st, 80_000, true), vec![MeetingEvent::State { in_meeting: true, session_start: Some(80_000) }]);
}

#[test]
fn split_ends_meeting_and_capture_restarts() {
    let mut st = WatcherState::default();
    poll(&mut st, 0, true);
    let ev = split_with(&mut st, 90_000);
    assert_eq!(ev, vec![not_in_meeting(), MeetingEvent::Ended { start: 0, end: 90_000 }]);
    assert!(!st.suppressed);
    clear_busy(&mut st);
    assert_eq!(poll(&mut st, 93_000, true), vec![MeetingEvent::State { in_meeting: true, session_start: Some(93_000) }]);
}

#[test]
fn stop_suppresses_ongoing_capture_for_a_while() {
    let mut st = WatcherState::default();
    poll(&mut st, 0, true);
    let ev = stop_with(&mut st, 10_000);
    assert_eq!(ev, vec![not_in_meeting()]);
    assert!(st.suppressed);
    assert_eq!(st.suppressed_at, Some(10_000));
    assert_eq!(poll(&mut st, 50_000, true), vec![not_in_meeting()]);
    assert_eq!(st.session_start, None);
    // after 90 s the suppression lapses and the capture starts a session
    assert_eq!(poll(&mut st, 100_001, true), vec![MeetingEvent::State { in_meeting: true, session_start: Some(100_001) }]);
    assert!(!st.suppressed);
}

#[test]
fn stop_is_lifted_when_capture_stops() {
    let mut st = WatcherState::default();
    poll(&mut st, 0, true);
    stop_with(&mut st, 5_000);
    assert_eq!(poll(&mut st, 8_000, false), vec![]);
    assert!(!st.suppressed);
    assert_eq!(st.suppressed_at, None);
}

#[test]
fn split_without_session_does_nothing() {
    let mut st = WatcherState::default();
    assert_eq!(split_with(&mut st, 5_000), vec![]);
    assert_eq!(stop_with(&mut st, 5_000), vec![]);
    assert_eq!(st, WatcherState::default());
}

#[test]
fn poll_delay_depends_on_meeting() {
    let mut st = WatcherState::default();
    assert_eq!(poll_delay(&st), IDLE_MS);
    poll(&mut st, 0, true);
    assert_eq!(poll_delay(&st), ACTIVE_MS);
}

#[test]
fn wall_time_of_past_reading() {
    assert_eq!(wall_time_of(1_700_000_000_000, 50_000, 20_000), 1_699_999_970_000);
    assert_eq!(wall_time_of(1_700_000_000_000, 50_000, 60_000), 1_700_000_000_000);
}
