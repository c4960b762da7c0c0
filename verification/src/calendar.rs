//! Proleptic Gregorian calendar dates, modelled as plain (year, month, day)
//! triples. The calendar arithmetic and formatting the application needs are
//! done by chrono; the contracts below state what chrono computes.
use crate::text::{zero_padded};
use chrono::{Datelike, TimeZone};
use vstd::prelude::*;

verus! {

/// Earliest year chrono's `NaiveDate` represents.
pub const MIN_YEAR: i32 = -262143;

/// Latest year chrono's `NaiveDate` represents.
pub const MAX_YEAR: i32 = 262142;

pub open spec fn is_leap_year(y: int) -> bool {
    (y % 4 == 0 && y % 100 != 0) || y % 400 == 0
}

pub open spec fn days_in_month(y: int, m: int) -> int {
    if m == 2 {
        if is_leap_year(y) {
            29
        } else {
            28
        }
    } else if m == 4 || m == 6 || m == 9 || m == 11 {
        30
    } else {
        31
    }
}

/// A calendar date that chrono's `NaiveDate` can hold.
pub open spec fn is_valid_ymd(y: int, m: int, d: int) -> bool {
    &&& MIN_YEAR <= y <= MAX_YEAR
    &&& 1 <= m <= 12
    &&& 1 <= d <= days_in_month(y, m)
}

/// Days in the months of year `y` before month `m`.
pub open spec fn days_before_month(y: int, m: int) -> int
    decreases m,
{
    if m <= 1 {
        0
    } else {
        days_before_month(y, m - 1) + days_in_month(y, m - 1)
    }
}

/// Days from 0001-01-01 to the first day of year `y` (negative before year 1).
pub open spec fn days_before_year(y: int) -> int {
    365 * (y - 1) + (y - 1) / 4 - (y - 1) / 100 + (y - 1) / 400
}

/// Number of days from 1970-01-01 to the given date.
pub open spec fn epoch_day(y: int, m: int, d: int) -> int {
    days_before_year(y) + days_before_month(y, m) + d - 1 - 719162
}

pub open spec fn min_epoch_day() -> int {
    epoch_day(MIN_YEAR as int, 1, 1)
}

pub open spec fn max_epoch_day() -> int {
    epoch_day(MAX_YEAR as int, 12, 31)
}

/// Day of the week counted from Sunday = 0 (1970-01-01 was a Thursday).
pub open spec fn weekday_from_sunday(y: int, m: int, d: int) -> int {
    (epoch_day(y, m, d) + 4) % 7
}

/// Year rendered as chrono's `%Y` does: four digits, zero-padded, with an
/// explicit sign outside 0..=9999.
pub open spec fn year_text(y: int) -> Seq<char> {
    if 0 <= y <= 9999 {
        zero_padded(y as nat, 4)
    } else if y < 0 {
        seq!['-'] + zero_padded((-y) as nat, 4)
    } else {
        seq!['+'] + zero_padded(y as nat, 4)
    }
}

/// The `YYYY-MM-DD` rendering (`%Y-%m-%d`) of a date.
pub open spec fn ymd_text(y: int, m: int, d: int) -> Seq<char> {
    year_text(y) + seq!['-'] + zero_padded(m as nat, 2) + seq!['-'] + zero_padded(d as nat, 2)
}

/// The pattern chrono is handed to render `YYYY-MM-DD`.
pub open spec fn ymd_pattern() -> Seq<char> {
    seq!['%', 'Y', '-', '%', 'm', '-', '%', 'd']
}

/// A calendar date (year, month 1..=12, day 1..=31).
#[derive(Clone, Copy, Debug, PartialEq, Eq, Structural)]
pub struct CivilDate {
    pub year: i32,
    pub month: u32,
    pub day: u32,
}

/// Day of the week.
#[derive(Clone, Copy, Debug, PartialEq, Eq, Structural)]
pub enum DayOfWeek {
    Mon,
    Tue,
    Wed,
    Thu,
    Fri,
    Sat,
    Sun,
}

impl DayOfWeek {
    /// Position in the week counted from Sunday = 0.
    pub open spec fn from_sunday(self) -> int {
        match self {
            DayOfWeek::Sun => 0,
            DayOfWeek::Mon => 1,
            DayOfWeek::Tue => 2,
            DayOfWeek::Wed => 3,
            DayOfWeek::Thu => 4,
            DayOfWeek::Fri => 5,
            DayOfWeek::Sat => 6,
        }
    }
}

impl CivilDate {
    /// The date names a real day in chrono's range.
    pub open spec fn wf(&self) -> bool {
        is_valid_ymd(self.year as int, self.month as int, self.day as int)
    }

    pub open spec fn epoch(&self) -> int {
        epoch_day(self.year as int, self.month as int, self.day as int)
    }

    pub open spec fn text(&self) -> Seq<char> {
        ymd_text(self.year as int, self.month as int, self.day as int)
    }

    pub open spec fn weekday_spec(&self) -> int {
        weekday_from_sunday(self.year as int, self.month as int, self.day as int)
    }

    /// The date `year-month-day`, when it exists.
    pub fn from_ymd(year: i32, month: u32, day: u32) -> (r: Option<CivilDate>)
        ensures
            r is Some <==> is_valid_ymd(year as int, month as int, day as int),
            r matches Some(c) ==> c.wf() && c.year == year && c.month == month && c.day == day,
    {
        chrono_from_ymd(year, month, day)
    }

    /// Day of the week.
    pub fn weekday(&self) -> (r: DayOfWeek)
        requires
            self.wf(),
        ensures
            r.from_sunday() == self.weekday_spec(),
    {
        chrono_weekday(self)
    }

    /// `YYYY-MM-DD`.
    pub fn format_ymd(&self) -> (r: String)
        requires
            self.wf(),
        ensures
            r@ == self.text(),
    {
        let pattern = "%Y-%m-%d";
        proof {
            reveal_strlit("%Y-%m-%d");
            assert(pattern@ =~= ymd_pattern());
        }
        chrono_format(self, pattern)
    }

    /// The date a `YYYY-MM-DD` text names, read as chrono reads the pattern
    /// `%Y-%m-%d`; `None` when the text does not parse as a date.
    pub fn parse_ymd(text: &str) -> (r: Option<CivilDate>)
        ensures
            match r {
                Some(c) => c.wf() && ymd_parsed(text@) == Some((c.year, c.month, c.day)),
                None => ymd_parsed(text@) is None,
            },
    {
        let pattern = "%Y-%m-%d";
        proof {
            reveal_strlit("%Y-%m-%d");
            assert(pattern@ =~= ymd_pattern());
        }
        chrono_parse_ymd(text, pattern)
    }
}

/// What chrono's `NaiveDate::parse_from_str` reads from `text` with the
/// pattern `%Y-%m-%d`: the (year, month, day) of the date, or `None` when the
/// text does not parse.
pub uninterp spec fn ymd_parsed(text: Seq<char>) -> Option<(i32, u32, u32)>;

/// chrono `NaiveDate::parse_from_str(text, "%Y-%m-%d")`. A date it gives
/// back is a real date in chrono's range; which texts it accepts is named,
/// not stated.
#[verifier::external_body]
fn chrono_parse_ymd(text: &str, pattern: &str) -> (r: Option<CivilDate>)
    requires
        pattern@ == ymd_pattern(),
    ensures
        match r {
            Some(c) => c.wf() && ymd_parsed(text@) == Some((c.year, c.month, c.day)),
            None => ymd_parsed(text@) is None,
        },
{
    match chrono::NaiveDate::parse_from_str(text, pattern) {
        Ok(d) => Some(CivilDate { year: d.year(), month: d.month(), day: d.day() }),
        Err(_) => None,
    }
}

/// chrono `NaiveDate::from_ymd_opt`: a date exists exactly when the month and
/// day are in range for the (leap-aware) Gregorian calendar and the year is in
/// `MIN_YEAR..=MAX_YEAR`; the date it gives back has the fields asked for.
#[verifier::external_body]
fn chrono_from_ymd(year: i32, month: u32, day: u32) -> (r: Option<CivilDate>)
    ensures
        r is Some <==> is_valid_ymd(year as int, month as int, day as int),
        r matches Some(c) ==> c.year == year && c.month == month && c.day == day,
{
    match chrono::NaiveDate::from_ymd_opt(year, month, day) {
        Some(d) => Some(CivilDate { year: d.year(), month: d.month(), day: d.day() }),
        None => None,
    }
}

/// chrono `Datelike::weekday` on a valid date; claims the proleptic Gregorian
/// weekday, counted from 1970-01-01 (a Thursday).
#[verifier::external_body]
fn chrono_weekday(date: &CivilDate) -> (r: DayOfWeek)
    requires
        date.wf(),
    ensures
        r.from_sunday() == date.weekday_spec(),
{
    match chrono::NaiveDate::from_ymd_opt(date.year, date.month, date.day).unwrap().weekday() {
        chrono::Weekday::Mon => DayOfWeek::Mon,
        chrono::Weekday::Tue => DayOfWeek::Tue,
        chrono::Weekday::Wed => DayOfWeek::Wed,
        chrono::Weekday::Thu => DayOfWeek::Thu,
        chrono::Weekday::Fri => DayOfWeek::Fri,
        chrono::Weekday::Sat => DayOfWeek::Sat,
        chrono::Weekday::Sun => DayOfWeek::Sun,
    }
}

/// chrono `NaiveDate::format` with the pattern `%Y-%m-%d`, rendered with
/// `to_string`: `%Y` is the year zero-padded to four digits with a sign
/// outside 0..=9999, `%m` and `%d` are zero-padded to two digits.
#[verifier::external_body]
fn chrono_format(date: &CivilDate, pattern: &str) -> (r: String)
    requires
        date.wf(),
        pattern@ == ymd_pattern(),
    ensures
        r@ == date.text(),
{
    chrono::NaiveDate::from_ymd_opt(date.year, date.month, date.day).unwrap().format(
        pattern,
    ).to_string()
}

/// The UTC calendar date `secs` seconds after 1970-01-01T00:00:00Z, when
/// chrono can represent it.
pub fn utc_date_of_timestamp(secs: i64) -> (r: Option<CivilDate>)
    ensures
        r is Some <==> min_epoch_day() <= secs / 86400 <= max_epoch_day(),
        r matches Some(c) ==> c.wf() && c.epoch() == secs / 86400,
{
    chrono_utc_date(secs)
}

/// chrono `DateTime::from_timestamp(secs, 0)` followed by `date_naive`: the
/// date exists when the day `secs.div_euclid(86400)` after 1970-01-01 lies in
/// chrono's range, and is that day.
#[verifier::external_body]
fn chrono_utc_date(secs: i64) -> (r: Option<CivilDate>)
    ensures
        r is Some <==> min_epoch_day() <= secs / 86400 <= max_epoch_day(),
        r matches Some(c) ==> c.wf() && c.epoch() == secs / 86400,
{
    match chrono::DateTime::from_timestamp(secs, 0) {
        Some(dt) => {
            let d = dt.date_naive();
            Some(CivilDate { year: d.year(), month: d.month(), day: d.day() })
        },
        None => None,
    }
}

/// The instant `hour`:00:00 on `date`, read at a fixed offset of
/// `offset_secs` seconds east of UTC, stays inside chrono's range.
pub open spec fn local_hour_representable(date: CivilDate, hour: int, offset_secs: int) -> bool {
    min_epoch_day() <= date.epoch() + (hour * 3600 - offset_secs) / 86400 <= max_epoch_day()
}

/// Milliseconds since the Unix epoch of `hour`:00:00 local time on `date` at a
/// fixed offset of `offset_secs` seconds east of UTC.
pub fn local_hour_utc_millis(date: &CivilDate, hour: u32, offset_secs: i32) -> (r: i64)
    requires
        date.wf(),
        hour < 24,
        -86400 < offset_secs < 86400,
        local_hour_representable(*date, hour as int, offset_secs as int),
    ensures
        r == date.epoch() * 86_400_000 + hour * 3_600_000 - offset_secs * 1000,
{
    chrono_local_millis(date, hour, offset_secs)
}

/// chrono `FixedOffset::east_opt(offset_secs)`, `NaiveDate::and_hms_opt(hour, 0, 0)`,
/// `TimeZone::from_local_datetime` and `DateTime::timestamp_millis`: the local
/// wall time minus the offset, in milliseconds since the Unix epoch.
#[verifier::external_body]
fn chrono_local_millis(date: &CivilDate, hour: u32, offset_secs: i32) -> (r: i64)
    requires
        date.wf(),
        hour < 24,
        -86400 < offset_secs < 86400,
        local_hour_representable(*date, hour as int, offset_secs as int),
    ensures
        r == date.epoch() * 86_400_000 + hour * 3_600_000 - offset_secs * 1000,
{
    let off = chrono::FixedOffset::east_opt(offset_secs).unwrap();
    let local = chrono::NaiveDate::from_ymd_opt(date.year, date.month, date.day).unwrap().and_hms_opt(
        hour,
        0,
        0,
    ).unwrap();
    off.from_local_datetime(&local).unwrap().timestamp_millis()
}

// ---------------------------------------------------------------------------
// Day numbers are one-to-one
// ---------------------------------------------------------------------------

proof fn lemma_div_step(y: int, d: int)
    requires
        d > 0,
    ensures
        y / d - (y - 1) / d == (if y % d == 0 {
            1int
        } else {
            0int
        }),
{
    let q1 = y / d;
    let r1 = y % d;
    let q0 = (y - 1) / d;
    let r0 = (y - 1) % d;
    assert(y == d * q1 + r1 && 0 <= r1 < d) by {
        vstd::arithmetic::div_mod::lemma_fundamental_div_mod(y, d);
    }
    assert(y - 1 == d * q0 + r0 && 0 <= r0 < d) by {
        vstd::arithmetic::div_mod::lemma_fundamental_div_mod(y - 1, d);
    }
    assert(q1 - q0 == (if r1 == 0 {
        1int
    } else {
        0int
    })) by (nonlinear_arith)
        requires
            y == d * q1 + r1,
            0 <= r1 < d,
            y - 1 == d * q0 + r0,
            0 <= r0 < d,
            d > 0,
    ;
}

/// A year has 365 days, 366 in a leap year.
proof fn lemma_year_length(y: int)
    ensures
        days_before_year(y + 1) - days_before_year(y) == 365 + (if is_leap_year(y) {
            1int
        } else {
            0int
        }),
{
    lemma_div_step(y, 4);
    lemma_div_step(y, 100);
    lemma_div_step(y, 400);
    assert(y % 400 == 0 ==> y % 100 == 0 && y % 4 == 0) by {
        vstd::arithmetic::div_mod::lemma_fundamental_div_mod(y, 400);
        vstd::arithmetic::div_mod::lemma_fundamental_div_mod(y, 100);
        vstd::arithmetic::div_mod::lemma_fundamental_div_mod(y, 4);
        if y % 400 == 0 {
            assert(y == 400 * (y / 400));
            assert(y == 100 * (4 * (y / 400)));
            assert(y == 4 * (100 * (y / 400)));
            vstd::arithmetic::div_mod::lemma_mod_multiples_basic(4 * (y / 400), 100);
            vstd::arithmetic::div_mod::lemma_mod_multiples_basic(100 * (y / 400), 4);
        }
    }
    assert(y % 100 == 0 ==> y % 4 == 0) by {
        vstd::arithmetic::div_mod::lemma_fundamental_div_mod(y, 100);
        if y % 100 == 0 {
            assert(y == 4 * (25 * (y / 100)));
            vstd::arithmetic::div_mod::lemma_mod_multiples_basic(25 * (y / 100), 4);
        }
    }
}

proof fn lemma_days_before_month_steps(y: int, m: int)
    requires
        1 <= m <= 12,
    ensures
        days_before_month(y, m + 1) == days_before_month(y, m) + days_in_month(y, m),
        days_before_month(y, 13) == 365 + (if is_leap_year(y) {
            1int
        } else {
            0int
        }),
{
    reveal_with_fuel(days_before_month, 13);
}

proof fn lemma_days_before_month_mono(y: int, m: int, m2: int)
    requires
        1 <= m <= m2 <= 13,
    ensures
        days_before_month(y, m) + (m2 - m) * 28 <= days_before_month(y, m2),
    decreases m2 - m,
{
    if m < m2 {
        lemma_days_before_month_mono(y, m, m2 - 1);
        lemma_days_before_month_steps(y, m2 - 1);
    }
}

proof fn lemma_days_before_year_mono(y: int, y2: int)
    requires
        y <= y2,
    ensures
        days_before_year(y) + (y2 - y) * 365 <= days_before_year(y2),
    decreases y2 - y,
{
    if y < y2 {
        lemma_days_before_year_mono(y, y2 - 1);
        lemma_year_length(y2 - 1);
    }
}

/// The day number grows with the date.
proof fn lemma_epoch_increasing(y: int, m: int, d: int, y2: int, m2: int, d2: int)
    requires
        is_valid_ymd(y, m, d),
        is_valid_ymd(y2, m2, d2),
        y < y2 || (y == y2 && m < m2) || (y == y2 && m == m2 && d < d2),
    ensures
        epoch_day(y, m, d) < epoch_day(y2, m2, d2),
{
    lemma_days_before_month_steps(y, m);
    lemma_days_before_month_mono(y, m + 1, 13);
    if y < y2 {
        lemma_year_length(y);
        lemma_days_before_year_mono(y + 1, y2);
        lemma_days_before_month_mono(y2, 1, m2);
        assert(days_before_month(y2, 1) == 0);
    } else if m < m2 {
        lemma_days_before_month_mono(y, m + 1, m2);
    }
}

/// Later dates have larger day numbers.
pub proof fn lemma_epoch_order(a: CivilDate, b: CivilDate)
    requires
        a.wf(),
        b.wf(),
        a.year < b.year || (a.year == b.year && a.month < b.month) || (a.year == b.year
            && a.month == b.month && a.day < b.day),
    ensures
        a.epoch() < b.epoch(),
{
    lemma_epoch_increasing(
        a.year as int,
        a.month as int,
        a.day as int,
        b.year as int,
        b.month as int,
        b.day as int,
    );
}

/// Different valid dates have different day numbers.
pub proof fn lemma_epoch_injective(a: CivilDate, b: CivilDate)
    requires
        a.wf(),
        b.wf(),
        a.epoch() == b.epoch(),
    ensures
        a == b,
{
    let (y, m, d) = (a.year as int, a.month as int, a.day as int);
    let (y2, m2, d2) = (b.year as int, b.month as int, b.day as int);
    if y < y2 || (y == y2 && m < m2) || (y == y2 && m == m2 && d < d2) {
        lemma_epoch_increasing(y, m, d, y2, m2, d2);
    } else if y2 < y || (y2 == y && m2 < m) || (y2 == y && m2 == m && d2 < d) {
        lemma_epoch_increasing(y2, m2, d2, y, m, d);
    }
}

/// English month names.
pub open spec fn month_names() -> Seq<Seq<char>> {
    seq![
        "January"@,
        "February"@,
        "March"@,
        "April"@,
        "May"@,
        "June"@,
        "July"@,
        "August"@,
        "September"@,
        "October"@,
        "November"@,
        "December"@,
    ]
}

/// English name of month `m` (1 = January); months past 12 read as December.
pub fn month_name(m: u32) -> (r: &'static str)
    requires
        m >= 1,
    ensures
        r@ == month_names()[if m > 12 {
            11
        } else {
            m - 1
        }],
{
    let names = [
        "January",
        "February",
        "March",
        "April",
        "May",
        "June",
        "July",
        "August",
        "September",
        "October",
        "November",
        "December",
    ];
    let i = if m - 1 < 11 {
        (m - 1) as usize
    } else {
        11
    };
    let r = names[i];
    proof {
        reveal_strlit("January");
        reveal_strlit("February");
        reveal_strlit("March");
        reveal_strlit("April");
        reveal_strlit("May");
        reveal_strlit("June");
        reveal_strlit("July");
        reveal_strlit("August");
        reveal_strlit("September");
        reveal_strlit("October");
        reveal_strlit("November");
        reveal_strlit("December");
    }
    r
}

/// Month index (0-based, counted from year 0) of a (year, month) pair.
pub open spec fn month_index(y: int, m: int) -> int {
    y * 12 + (m - 1)
}

/// The first day of the month `delta` months after the month of `date`
/// (`date` itself when that month is outside chrono's range).
pub fn add_months(date: &CivilDate, delta: i32) -> (r: CivilDate)
    requires
        date.wf(),
        date.month - 1 + delta <= i32::MAX,
    ensures
        r.wf(),
        ({
            let target = month_index(date.year as int, date.month as int) + delta;
            if MIN_YEAR <= target / 12 <= MAX_YEAR {
                r.day == 1 && month_index(r.year as int, r.month as int) == target
            } else {
                r == *date
            }
        }),
{
    let m0: i32 = date.month as i32 - 1 + delta;
    let mut q: i32 = m0 / 12;
    let mut rem: i32 = m0 % 12;
    if rem < 0 {
        q = q - 1;
        rem = rem + 12;
    }
    assert(q == m0 / 12 && rem == m0 % 12) by(nonlinear_arith)
        requires q * 12 + rem == m0, 0 <= rem < 12;
    let y: i32 = date.year + q;
    match CivilDate::from_ymd(y, (rem + 1) as u32, 1) {
        Some(c) => c,
        None => *date,
    }
}

} // verus!
