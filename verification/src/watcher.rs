//! Meeting detection as a state machine. The application polls the
//! microphone on a timer and hands each observation to [`poll`]; the
//! tray's Split / Stop actions go through [`split_with`] / [`stop_with`].
//! Each step returns the events to forward to the UI, in order.
//!
//! Times are readings of a monotonic clock in milliseconds.
use vstd::prelude::*;

verus! {

/// Shortest session that is reported as a meeting (60 s).
pub const MIN_MEETING_MS: u64 = 60_000;

/// Poll period while no meeting is in progress.
pub const IDLE_MS: u64 = 8_000;

/// Poll period while a meeting is in progress.
pub const ACTIVE_MS: u64 = 3_000;

/// Longest time a Stop keeps an ongoing capture from starting a new session.
pub const SUPPRESS_MAX_MS: u64 = 90_000;

/// What the watcher reports to the UI.
#[derive(Clone, Copy, Debug, PartialEq, Eq, Structural)]
pub enum MeetingEvent {
    /// Meeting status changed (or was re-asserted).
    State { in_meeting: bool, session_start: Option<u64> },
    /// A session long enough to log has ended.
    Ended { start: u64, end: u64 },
}

/// The watcher's memory between polls.
#[derive(Clone, Copy, Debug, PartialEq, Eq, Structural)]
pub struct WatcherState {
    /// When the current session started, if one is in progress.
    pub session_start: Option<u64>,
    /// When the microphone was last seen in use during this session.
    pub last_seen: Option<u64>,
    /// A Stop asked to ignore the capture that is still going on.
    pub suppressed: bool,
    pub suppressed_at: Option<u64>,
    /// An ended meeting is waiting for the user's answer; polling pauses.
    pub busy: bool,
}

impl WatcherState {
    /// The state at start-up: no session, nothing suppressed, not busy.
    pub open spec fn initial() -> WatcherState {
        WatcherState {
            session_start: None,
            last_seen: None,
            suppressed: false,
            suppressed_at: None,
            busy: false,
        }
    }

    /// The consistency every reachable state has.
    pub open spec fn wf(self) -> bool {
        &&& (self.session_start is None <==> self.last_seen is None)
        &&& (self.suppressed <==> self.suppressed_at is Some)
        &&& (self.suppressed ==> self.session_start is None)
        &&& (self.session_start matches Some(a) ==> a <= self.last_seen->0)
    }

    pub open spec fn in_meeting(self) -> bool {
        self.session_start is Some
    }
}

impl Default for WatcherState {
    fn default() -> (r: WatcherState)
        ensures
            r == WatcherState::initial(),
    {
        WatcherState {
            session_start: None,
            last_seen: None,
            suppressed: false,
            suppressed_at: None,
            busy: false,
        }
    }
}

/// Time from `since` to `now`, zero when `since` is later (as
/// `Instant::duration_since` saturates).
pub open spec fn elapsed(now: u64, since: u64) -> int {
    if now >= since {
        now - since
    } else {
        0
    }
}

fn elapsed_ms(now: u64, since: u64) -> (r: u64)
    ensures
        r == elapsed(now, since),
{
    if now >= since {
        now - since
    } else {
        0
    }
}

/// A suppression has run out: it has no start time or is older than 90 s.
pub open spec fn suppression_lapsed(s: WatcherState, now: u64) -> bool {
    match s.suppressed_at {
        Some(a) => elapsed(now, a) > SUPPRESS_MAX_MS,
        None => true,
    }
}

/// The meeting's end: the last time the microphone was seen in use when
/// that is more than three idle periods ago, otherwise now.
pub open spec fn session_end(seen: u64, now: u64) -> u64 {
    if elapsed(now, seen) > 3 * IDLE_MS {
        seen
    } else {
        now
    }
}

pub open spec fn not_in_meeting() -> MeetingEvent {
    MeetingEvent::State { in_meeting: false, session_start: None }
}

/// One observation of the microphone at time `now`: the next state and the
/// events it emits.
pub open spec fn poll_step(s: WatcherState, now: u64, active: bool) -> (WatcherState, Seq<MeetingEvent>) {
    if s.busy {
        (s, Seq::empty())
    } else if s.suppressed && active && !suppression_lapsed(s, now) {
        (s, seq![not_in_meeting()])
    } else {
        let s1 = if s.suppressed {
            WatcherState { suppressed: false, suppressed_at: None, ..s }
        } else {
            s
        };
        if active {
            if s1.session_start is None {
                (
                    WatcherState { session_start: Some(now), last_seen: Some(now), ..s1 },
                    seq![MeetingEvent::State { in_meeting: true, session_start: Some(now) }],
                )
            } else {
                (WatcherState { last_seen: Some(now), ..s1 }, Seq::empty())
            }
        } else {
            match s1.session_start {
                Some(start) => {
                    let seen = match s1.last_seen {
                        Some(t) => t,
                        None => start,
                    };
                    let end = session_end(seen, now);
                    let long = elapsed(end, start) >= MIN_MEETING_MS;
                    let s2 = WatcherState { session_start: None, last_seen: None, busy: long, ..s1 };
                    if long {
                        (s2, seq![not_in_meeting(), MeetingEvent::Ended { start, end }])
                    } else {
                        (s2, seq![not_in_meeting()])
                    }
                },
                None => (s1, Seq::empty()),
            }
        }
    }
}

/// Ends the current session at `now`, if there is one; with `suppress`, the
/// capture still going on is ignored for a while (Stop tracking).
pub open spec fn split_step(s: WatcherState, now: u64, suppress: bool) -> (WatcherState, Seq<MeetingEvent>) {
    match s.session_start {
        Some(start) => {
            let long = elapsed(now, start) >= MIN_MEETING_MS;
            let s1 = WatcherState {
                session_start: None,
                last_seen: None,
                suppressed: if suppress {
                    true
                } else {
                    s.suppressed
                },
                suppressed_at: if suppress {
                    Some(now)
                } else {
                    s.suppressed_at
                },
                busy: if long {
                    true
                } else {
                    s.busy
                },
            };
            if long {
                (s1, seq![not_in_meeting(), MeetingEvent::Ended { start, end: now }])
            } else {
                (s1, seq![not_in_meeting()])
            }
        },
        None => (s, Seq::empty()),
    }
}

/// Processes one microphone observation (`active`: a live capture from a
/// real input) made at `now`, returning the events to send.
pub fn poll(st: &mut WatcherState, now: u64, active: bool) -> (events: Vec<MeetingEvent>)
    ensures
        (*final(st), events@) == poll_step(*old(st), now, active),
{
    let mut events: Vec<MeetingEvent> = Vec::new();
    if st.busy {
        return events;
    }
    if st.suppressed {
        let expired = match st.suppressed_at {
            Some(a) => elapsed_ms(now, a) > SUPPRESS_MAX_MS,
            None => true,
        };
        if !active || expired {
            st.suppressed = false;
            st.suppressed_at = None;
        } else {
            events.push(MeetingEvent::State { in_meeting: false, session_start: None });
            assert(events@ =~= seq![not_in_meeting()]);
            return events;
        }
    }
    if active {
        if st.session_start.is_none() {
            st.session_start = Some(now);
            events.push(MeetingEvent::State { in_meeting: true, session_start: Some(now) });
        }
        st.last_seen = Some(now);
        assert(events@ =~= poll_step(*old(st), now, active).1);
    } else if let Some(start) = st.session_start {
        let seen = match st.last_seen {
            Some(t) => t,
            None => start,
        };
        st.session_start = None;
        st.last_seen = None;
        events.push(MeetingEvent::State { in_meeting: false, session_start: None });
        let end = if elapsed_ms(now, seen) > IDLE_MS * 3 {
            seen
        } else {
            now
        };
        if elapsed_ms(end, start) >= MIN_MEETING_MS {
            st.busy = true;
            events.push(MeetingEvent::Ended { start, end });
        }
        assert(events@ =~= poll_step(*old(st), now, active).1);
    }
    events
}

/// Ends the current session at `now` (see [`split_step`]).
pub fn split_state(st: &mut WatcherState, now: u64, suppress: bool) -> (events: Vec<MeetingEvent>)
    ensures
        (*final(st), events@) == split_step(*old(st), now, suppress),
{
    let mut events: Vec<MeetingEvent> = Vec::new();
    if let Some(start) = st.session_start {
        st.session_start = None;
        st.last_seen = None;
        if suppress {
            st.suppressed = true;
            st.suppressed_at = Some(now);
        }
        events.push(MeetingEvent::State { in_meeting: false, session_start: None });
        if elapsed_ms(now, start) >= MIN_MEETING_MS {
            st.busy = true;
            events.push(MeetingEvent::Ended { start, end: now });
        }
        assert(events@ =~= split_step(*old(st), now, suppress).1);
    }
    events
}

/// Split: end the current meeting now and let a still-running capture start
/// a new one.
pub fn split_with(st: &mut WatcherState, now: u64) -> (events: Vec<MeetingEvent>)
    ensures
        (*final(st), events@) == split_step(*old(st), now, false),
{
    split_state(st, now, false)
}

/// Stop tracking: end the current meeting now and ignore the capture that is
/// still going on (for at most 90 s, or until it stops).
pub fn stop_with(st: &mut WatcherState, now: u64) -> (events: Vec<MeetingEvent>)
    ensures
        (*final(st), events@) == split_step(*old(st), now, true),
{
    split_state(st, now, true)
}

/// The user has answered the end-of-meeting prompt; polling resumes.
pub fn clear_busy(st: &mut WatcherState)
    ensures
        *final(st) == (WatcherState { busy: false, ..*old(st) }),
{
    st.busy = false;
}

/// How long to wait before the next poll.
pub fn poll_delay(st: &WatcherState) -> (r: u64)
    ensures
        r == if st.in_meeting() {
            ACTIVE_MS
        } else {
            IDLE_MS
        },
{
    if st.session_start.is_some() {
        ACTIVE_MS
    } else {
        IDLE_MS
    }
}

/// Wall-clock milliseconds of the monotonic reading `t`, given the two clocks
/// read together as `now_wall` and `now_mono` (readings after `now_mono` map to
/// `now_wall`).
pub fn wall_time_of(now_wall: i64, now_mono: u64, t: u64) -> (r: i64)
    requires
        elapsed(now_mono, t) <= i64::MAX,
        now_wall - elapsed(now_mono, t) >= i64::MIN,
    ensures
        r == now_wall - elapsed(now_mono, t),
{
    let back = elapsed_ms(now_mono, t);
    now_wall - back as i64
}

// ---------------------------------------------------------------------------
// Laws
// ---------------------------------------------------------------------------

/// No time recorded in `s` is later than `now` (the clock does not run back).
pub open spec fn recorded_before(s: WatcherState, now: u64) -> bool {
    &&& (s.session_start matches Some(a) ==> a <= now)
    &&& (s.last_seen matches Some(a) ==> a <= now)
    &&& (s.suppressed_at matches Some(a) ==> a <= now)
}

/// The start-up state is consistent.
pub proof fn law_initial_wf()
    ensures
        WatcherState::initial().wf(),
{
}

/// Polling, Split, Stop and answering the prompt keep the state consistent,
/// and no step records a time later than the clock reading it was given.
pub proof fn law_steps_preserve_wf(s: WatcherState, now: u64, active: bool, suppress: bool)
    requires
        s.wf(),
        recorded_before(s, now),
    ensures
        poll_step(s, now, active).0.wf(),
        recorded_before(poll_step(s, now, active).0, now),
        split_step(s, now, suppress).0.wf(),
        recorded_before(split_step(s, now, suppress).0, now),
        (WatcherState { busy: false, ..s }).wf(),
{
}

/// While an ended meeting awaits the user's answer, polling changes nothing
/// and reports nothing.
pub proof fn law_busy_pauses_polling(s: WatcherState, now: u64, active: bool)
    requires
        s.busy,
    ensures
        poll_step(s, now, active) == (s, Seq::<MeetingEvent>::empty()),
{
}

/// A step reports at most one ended meeting, last; it is the session that
/// was in progress, it lasted at least a minute, it does not end after the
/// clock reading, and the watcher then waits for the user's answer.
pub proof fn law_ended_meetings(s: WatcherState, now: u64, active: bool, suppress: bool)
    requires
        s.wf(),
        recorded_before(s, now),
    ensures
        ({
            let (p, pe) = poll_step(s, now, active);
            let (q, qe) = split_step(s, now, suppress);
            &&& pe.len() <= 2 && qe.len() <= 2
            &&& forall|i: int|
                0 <= i < pe.len() && (#[trigger] pe[i]) is Ended ==> {
                    &&& i == pe.len() - 1
                    &&& s.session_start == Some(pe[i]->start)
                    &&& pe[i]->end <= now
                    &&& pe[i]->end - pe[i]->start >= MIN_MEETING_MS
                    &&& p.busy
                }
            &&& forall|i: int|
                0 <= i < qe.len() && (#[trigger] qe[i]) is Ended ==> {
                    &&& i == qe.len() - 1
                    &&& s.session_start == Some(qe[i]->start)
                    &&& qe[i]->end == now
                    &&& qe[i]->end - qe[i]->start >= MIN_MEETING_MS
                    &&& q.busy
                }
        }),
{
}

/// A capture seen with no session in progress (and no Stop holding it back)
/// starts a session at that moment and announces it; a capture seen during a
/// session only moves its last-seen time.
pub proof fn law_capture_starts_session(s: WatcherState, now: u64)
    requires
        s.wf(),
        !s.busy,
        !s.suppressed || suppression_lapsed(s, now),
    ensures
        s.session_start is None ==> poll_step(s, now, true) == (
            WatcherState {
                session_start: Some(now),
                last_seen: Some(now),
                suppressed: false,
                suppressed_at: None,
                ..s
            },
            seq![MeetingEvent::State { in_meeting: true, session_start: Some(now) }],
        ),
        s.session_start is Some ==> poll_step(s, now, true) == (
            WatcherState { last_seen: Some(now), suppressed: false, suppressed_at: None, ..s },
            Seq::<MeetingEvent>::empty(),
        ),
{
}

/// A silent microphone ends the session in progress; the time after the
/// last sighting is not counted when it exceeds three idle periods.
pub proof fn law_silence_ends_session(s: WatcherState, now: u64)
    requires
        s.wf(),
        !s.busy,
        s.session_start is Some,
    ensures
        ({
            let (p, pe) = poll_step(s, now, false);
            let start = s.session_start->0;
            let end = session_end(s.last_seen->0, now);
            &&& p.session_start is None
            &&& pe[0] == not_in_meeting()
            &&& (elapsed(end, start) >= MIN_MEETING_MS <==> pe.len() == 2)
            &&& (pe.len() == 2 ==> pe[1] == MeetingEvent::Ended { start, end })
        }),
{
}

/// After Stop, a capture that keeps going does not start a new session for
/// up to 90 s; once the capture stops, or after 90 s, suppression is lifted.
pub proof fn law_stop_suppresses_capture(s: WatcherState, t: u64, now: u64, active: bool)
    requires
        s.wf(),
        s.session_start is Some,
    ensures
        ({
            let s1 = split_step(s, t, true).0;
            &&& s1.suppressed
            &&& (!s1.busy && active && elapsed(now, t) <= SUPPRESS_MAX_MS) ==> poll_step(
                s1,
                now,
                active,
            ) == (s1, seq![not_in_meeting()])
            &&& (!s1.busy && (!active || elapsed(now, t) > SUPPRESS_MAX_MS)) ==> !poll_step(
                s1,
                now,
                active,
            ).0.suppressed
        }),
{
}

/// After Split, a capture that keeps going starts a new session at once
/// (unless the split-off meeting awaits the user's answer).
pub proof fn law_split_restarts_session(s: WatcherState, t: u64, now: u64)
    requires
        s.wf(),
        s.session_start is Some,
    ensures
        ({
            let s1 = split_step(s, t, false).0;
            &&& s1.session_start is None
            &&& !s1.busy ==> poll_step(s1, now, true).0.session_start == Some(now)
        }),
{
}

/// Split and Stop without a session in progress change nothing.
pub proof fn law_split_without_session(s: WatcherState, now: u64, suppress: bool)
    requires
        s.session_start is None,
    ensures
        split_step(s, now, suppress) == (s, Seq::<MeetingEvent>::empty()),
{
}

/// Split and Stop both report the session they end when it lasted at least
/// a minute: the UI learns the meeting is over, then gets the ended meeting
/// (from its start to now) to log, and the watcher waits for the answer.
/// Stop differs from Split only in holding back the capture still going on.
pub proof fn law_split_and_stop_report_long_meetings(s: WatcherState, now: u64, suppress: bool)
    requires
        s.session_start is Some,
        s.session_start->0 + 60_000 <= now,
    ensures
        ({
            let start = s.session_start->0;
            let (t, events) = split_step(s, now, suppress);
            &&& events == seq![
                MeetingEvent::State { in_meeting: false, session_start: None },
                MeetingEvent::Ended { start, end: now },
            ]
            &&& t.busy
            &&& t.session_start is None
            &&& t.suppressed == (suppress || s.suppressed)
        }),
{
}

/// A session shorter than a minute is dropped by Split and Stop alike: only
/// the end of the meeting is announced, and nothing waits for an answer.
pub proof fn law_split_and_stop_drop_short_sessions(s: WatcherState, now: u64, suppress: bool)
    requires
        s.session_start is Some,
        now < s.session_start->0 + 60_000,
    ensures
        ({
            let (t, events) = split_step(s, now, suppress);
            &&& events == seq![MeetingEvent::State { in_meeting: false, session_start: None }]
            &&& t.busy == s.busy
            &&& t.session_start is None
        }),
{
}

} // verus!
