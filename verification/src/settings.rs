//! User settings: the account, meeting rounding, recurring entries and days
//! off. Loading and saving the JSON file and the keyring token are done by
//! the application; this module holds the rules over the values.
use crate::models::{DynamicMeeting, RecurringEntry};
use crate::calendar::{max_epoch_day, min_epoch_day, utc_date_of_timestamp, CivilDate};
use crate::tp::div_toward_zero;
use crate::text::{byte_len, has_prefix, same_text, starts_with, trim, trimmed};
use chrono::Offset;
use vstd::prelude::*;

verus! {

#[derive(Debug)]
pub struct Settings {
    pub tp_url: String,
    pub my_user_id: i64,
    pub my_user_name: String,
    pub my_user_email: String,
    pub timezone: String,
    pub daily_task_id: i64,
    pub meetings_task_id: i64,
    pub meeting_min_minutes: i64,
    pub meeting_step_minutes: i64,
    pub recurring: Vec<RecurringEntry>,
    pub dynamic_meetings: Vec<DynamicMeeting>,
    /// Specific days off as `YYYY-MM-DD`.
    pub days_off: Vec<String>,
    /// Weekly days off, 0 = Sunday … 6 = Saturday.
    pub weekly_off: Vec<i64>,
    /// `"none"` or `"morocco"`.
    pub region: String,
    /// The API token (kept in the keyring, not in the settings file).
    pub token: String,
}

pub open spec fn http_text() -> Seq<char> {
    seq!['h', 't', 't', 'p']
}

pub open spec fn none_text() -> Seq<char> {
    seq!['n', 'o', 'n', 'e']
}

pub open spec fn morocco_text() -> Seq<char> {
    seq!['m', 'o', 'r', 'o', 'c', 'c', 'o']
}

/// The settings a fresh installation starts from, in the given time zone.
pub open spec fn is_default_settings(s: Settings, timezone: Seq<char>) -> bool {
    &&& s.tp_url@.len() == 0
    &&& s.my_user_id == 0
    &&& s.my_user_name@.len() == 0
    &&& s.my_user_email@.len() == 0
    &&& s.timezone@ == timezone
    &&& s.daily_task_id == 0
    &&& s.meetings_task_id == 0
    &&& s.meeting_min_minutes == 30
    &&& s.meeting_step_minutes == 15
    &&& s.recurring@.len() == 0
    &&& s.dynamic_meetings@.len() == 0
    &&& s.days_off@.len() == 0
    &&& s.weekly_off@ == seq![0i64, 6i64]
    &&& s.region@ == none_text()
    &&& s.token@.len() == 0
}

/// Everything but the account fields and the detected identity is the same.
pub open spec fn same_preferences(a: Settings, b: Settings) -> bool {
    &&& a.timezone == b.timezone
    &&& a.daily_task_id == b.daily_task_id
    &&& a.meetings_task_id == b.meetings_task_id
    &&& a.meeting_min_minutes == b.meeting_min_minutes
    &&& a.meeting_step_minutes == b.meeting_step_minutes
    &&& a.recurring == b.recurring
    &&& a.dynamic_meetings == b.dynamic_meetings
    &&& a.days_off == b.days_off
    &&& a.weekly_off == b.weekly_off
    &&& a.region == b.region
}

/// `after` is `before` with the instance URL and token set to `url` and
/// `token`; when either changed, the detected user is forgotten.
pub open spec fn account_set(before: Settings, after: Settings, url: Seq<char>, token: Seq<char>) -> bool {
    &&& after.tp_url@ == url
    &&& after.token@ == token
    &&& same_preferences(after, before)
    &&& if token != before.token@ || url != before.tp_url@ {
        &&& after.my_user_id == 0
        &&& after.my_user_name@.len() == 0
        &&& after.my_user_email@.len() == 0
    } else {
        &&& after.my_user_id == before.my_user_id
        &&& after.my_user_name == before.my_user_name
        &&& after.my_user_email == before.my_user_email
    }
}

/// Saving a different URL or token makes the user be detected again;
/// saving the same ones keeps the detected user.
pub proof fn law_new_account_redetects(before: Settings, after: Settings, url: Seq<char>, token: Seq<char>)
    requires
        account_set(before, after, url, token),
    ensures
        (token != before.token@ || url != before.tp_url@) ==> after.identity_unknown(),
        (token == before.token@ && url == before.tp_url@) ==> (after.identity_unknown()
            == before.identity_unknown()),
{
}

fn text(s: &str) -> (r: String)
    ensures
        r@ == s@,
{
    s.to_owned()
}

impl Settings {
    /// Default settings, using `timezone` (the system's zone, or `"UTC"`).
    pub fn with_timezone(timezone: String) -> (r: Settings)
        ensures
            is_default_settings(r, timezone@),
    {
        let mut weekly_off: Vec<i64> = Vec::new();
        weekly_off.push(0);
        weekly_off.push(6);
        let region = text("none");
        proof {
            reveal_strlit("none");
            assert(region@ =~= none_text());
            assert(weekly_off@ =~= seq![0i64, 6i64]);
        }
        Settings {
            tp_url: String::new(),
            my_user_id: 0,
            my_user_name: String::new(),
            my_user_email: String::new(),
            timezone,
            daily_task_id: 0,
            meetings_task_id: 0,
            meeting_min_minutes: 30,
            meeting_step_minutes: 15,
            recurring: Vec::new(),
            dynamic_meetings: Vec::new(),
            days_off: Vec::new(),
            weekly_off,
            region,
            token: String::new(),
        }
    }

    pub open spec fn configured(&self) -> bool {
        self.token@.len() > 0 && has_prefix(self.tp_url@, http_text())
    }

    /// A token is set and the instance URL is an http(s) URL.
    pub fn is_configured(&self) -> (r: bool)
        ensures
            r == self.configured(),
    {
        let http = "http";
        proof {
            reveal_strlit("http");
            assert(http@ =~= http_text());
        }
        !self.token.as_str().is_empty() && starts_with(self.tp_url.as_str(), http)
    }

    pub open spec fn identity_unknown(&self) -> bool {
        self.my_user_id == 0 || self.my_user_name@.len() == 0
    }

    /// The user behind the token still has to be detected.
    pub fn needs_user(&self) -> (r: bool)
        ensures
            r == self.identity_unknown(),
    {
        self.my_user_id == 0 || self.my_user_name.as_str().is_empty()
    }

    /// Records the detected user.
    pub fn set_identity(&mut self, id: i64, name: String, email: String)
        ensures
            final(self).my_user_id == id,
            final(self).my_user_name == name,
            final(self).my_user_email == email,
            final(self).tp_url == old(self).tp_url,
            final(self).token == old(self).token,
            same_preferences(*final(self), *old(self)),
    {
        self.my_user_id = id;
        self.my_user_name = name;
        self.my_user_email = email;
    }

    /// Sets the instance URL and token; a change of either forgets the
    /// detected user so that it is detected again.
    pub fn set_account(&mut self, url: String, token: String)
        ensures
            account_set(*old(self), *final(self), url@, token@),
    {
        let changed = token != self.token || url != self.tp_url;
        self.tp_url = url;
        self.token = token;
        if changed {
            self.my_user_id = 0;
            self.my_user_name = String::new();
            self.my_user_email = String::new();
        }
    }

    /// Adds a specific day off; only a ten-byte entry (`YYYY-MM-DD`) is taken.
    pub fn add_day_off(&mut self, day: String) -> (added: bool)
        ensures
            added == (byte_len(day@) == 10),
            added ==> final(self).days_off@ == old(self).days_off@.push(day),
            !added ==> final(self).days_off@ == old(self).days_off@,
            *final(self) == (Settings { days_off: final(self).days_off, ..*old(self) }),
    {
        let d = day.as_str();
        assert(d@ == day@);
        if d.len() == 10 {
            self.days_off.push(day);
            true
        } else {
            false
        }
    }

    pub open spec fn in_morocco(&self) -> bool {
        self.region@ == morocco_text()
    }

    /// The region is Morocco (civil holidays apply).
    pub fn is_morocco(&self) -> (r: bool)
        ensures
            r == self.in_morocco(),
    {
        let m = "morocco";
        proof {
            reveal_strlit("morocco");
            assert(m@ =~= morocco_text());
        }
        same_text(self.region.as_str(), m)
    }

    /// Minutes east of UTC of the configured time zone at this moment (UTC,
    /// offset 0, when the zone name is unknown): the zone's offset at the
    /// instant the system clock reads (see [`Settings::offset_minutes_at`]).
    pub fn tz_offset_minutes(&self) -> (r: i32)
        ensures
            -1440 < r < 1440,
            !known_time_zone(self.timezone@) ==> r == 0,
            exists|t: i64|
                min_epoch_day() <= t / 86400 <= max_epoch_day() && r == zone_minutes(
                    #[trigger] zone_offset_at(self.timezone@, t),
                ),
    {
        let reading = clock_secs();
        let r = self.offset_minutes_at(reading);
        let now = instant_or_epoch(reading);
        assert(min_epoch_day() <= now / 86400 <= max_epoch_day() && r == zone_minutes(
            zone_offset_at(self.timezone@, now),
        ));
        r
    }

    /// Minutes east of UTC of the configured time zone at the instant a
    /// clock reading names (see [`instant_of`]), in whole minutes rounded
    /// toward zero; 0 when the zone name is unknown.
    pub fn offset_minutes_at(&self, reading: Result<u64, u64>) -> (r: i32)
        ensures
            r == zone_minutes(zone_offset_at(self.timezone@, instant_of(reading) as i64)),
            -1440 < r < 1440,
            !known_time_zone(self.timezone@) ==> r == 0,
    {
        let now = instant_or_epoch(reading);
        offset_minutes(zone_offset_at_secs(self.timezone.as_str(), now))
    }
}

/// The instant (seconds since the Unix epoch) a clock reading names: `Ok`
/// of whole seconds after the epoch, or `Err` of whole seconds before it;
/// the epoch itself when that instant lies outside what chrono represents.
pub open spec fn instant_of(reading: Result<u64, u64>) -> int {
    let t: int = match reading {
        Ok(s) => s as int,
        Err(s) => -(s as int),
    };
    if i64::MIN <= t <= i64::MAX && min_epoch_day() <= t / 86400 <= max_epoch_day() {
        t
    } else {
        0
    }
}

/// The instant a clock reading names, as [`instant_of`] says.
pub fn instant_or_epoch(reading: Result<u64, u64>) -> (r: i64)
    ensures
        r == instant_of(reading),
        min_epoch_day() <= r / 86400 <= max_epoch_day(),
{
    proof {
        assert(min_epoch_day() <= 0 <= max_epoch_day()) by {
            let lo = CivilDate { year: crate::calendar::MIN_YEAR, month: 1, day: 1 };
            let hi = CivilDate { year: crate::calendar::MAX_YEAR, month: 12, day: 31 };
            let z = CivilDate { year: 1970, month: 1, day: 1 };
            crate::calendar::lemma_epoch_order(lo, z);
            crate::calendar::lemma_epoch_order(z, hi);
        }
    }
    let t: i64 = match reading {
        Ok(s) => {
            if s <= i64::MAX as u64 {
                s as i64
            } else {
                return 0;
            }
        },
        Err(s) => {
            if s <= i64::MAX as u64 {
                -(s as i64)
            } else {
                return 0;
            }
        },
    };
    if utc_date_of_timestamp(t).is_some() {
        t
    } else {
        0
    }
}

/// Minutes east of UTC of a zone offset in seconds (`None`: UTC).
pub open spec fn zone_minutes(zone_secs: Option<i32>) -> int {
    match zone_secs {
        Some(s) => div_toward_zero(s as int, 60),
        None => 0,
    }
}

/// Minutes east of UTC for a zone offset in seconds (whole minutes, rounded
/// toward zero); an unknown zone (`None`) reads as UTC.
pub fn offset_minutes(zone_secs: Option<i32>) -> (r: i32)
    ensures
        r == match zone_secs {
            Some(s) => div_toward_zero(s as int, 60),
            None => 0,
        },
        zone_secs matches Some(s) && -86400 < s < 86400 ==> -1440 < r < 1440,
{
    match zone_secs {
        Some(s) => s / 60,
        None => 0,
    }
}

/// Whether chrono-tz's compiled-in IANA database has a zone of this name.
pub uninterp spec fn known_time_zone(name: Seq<char>) -> bool;

/// The UTC offset, in seconds (`local_minus_utc`), that chrono-tz's
/// compiled-in database gives the zone named `name` at the instant `secs`
/// seconds after the Unix epoch; `None` when the name is not a zone.
pub uninterp spec fn zone_offset_at(name: Seq<char>, secs: i64) -> Option<i32>;

/// chrono-tz `Tz::from_str` on `name`, then chrono `DateTime::from_timestamp(secs, 0)`,
/// `with_timezone`, `offset().fix().local_minus_utc()`. The result is named;
/// it exists exactly when the name parses (the instant is in chrono's range),
/// and as a `FixedOffset` it lies strictly within a day.
#[verifier::external_body]
fn zone_offset_at_secs(name: &str, secs: i64) -> (r: Option<i32>)
    requires
        min_epoch_day() <= secs / 86400 <= max_epoch_day(),
    ensures
        r == zone_offset_at(name@, secs),
        r is Some <==> known_time_zone(name@),
        r matches Some(s) ==> -86400 < s < 86400,
{
    match (name.parse::<chrono_tz::Tz>(), chrono::DateTime::from_timestamp(secs, 0)) {
        (Ok(tz), Some(t)) => Some(t.with_timezone(&tz).offset().fix().local_minus_utc()),
        _ => None,
    }
}

/// std `SystemTime::now().duration_since(UNIX_EPOCH)`: `Ok` of the whole
/// seconds after the epoch (`Duration::as_secs`), or `Err` of the whole
/// seconds before it when the clock reads earlier (`SystemTimeError::duration`).
/// It depends on the clock, so nothing is stated of the reading.
#[verifier::external_body]
fn clock_secs() -> (r: Result<u64, u64>) {
    match std::time::SystemTime::now().duration_since(std::time::UNIX_EPOCH) {
        Ok(d) => Ok(d.as_secs()),
        Err(e) => Err(e.duration().as_secs()),
    }
}

/// The token as read from the keyring, with surrounding whitespace removed.
pub fn read_token(stored: Option<String>) -> (r: Option<String>)
    ensures
        r is Some <==> stored is Some,
        r matches Some(t) ==> t@ == trimmed(stored->0@),
{
    match stored {
        Some(s) => Some(trim(s.as_str())),
        None => None,
    }
}

} // verus!
