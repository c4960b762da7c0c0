//! Morocco civil holidays and the day-off check used to skip recurring
//! auto-logging.
use crate::calendar::{is_valid_ymd, ymd_text, CivilDate, DayOfWeek};
use crate::settings::Settings;
use vstd::prelude::*;

verus! {

/// Gregorian-fixed Moroccan public holidays as (month, day).
pub open spec fn civil_holidays() -> Seq<(u32, u32)> {
    seq![
        (1u32, 1u32),  // New Year
        (1u32, 11u32),  // Proclamation of Independence
        (5u32, 1u32),  // Labour Day
        (7u32, 30u32),  // Throne Day
        (8u32, 14u32),  // Oued Ed-Dahab
        (8u32, 20u32),  // Revolution Day
        (8u32, 21u32),  // Youth Day
        (11u32, 6u32),  // Green March
        (11u32, 18u32),  // Independence Day
    ]
}

/// Fixed Morocco civil holidays for a given year (month, day).
pub fn fixed_civil(year: i32) -> (r: Vec<(u32, u32)>)
    ensures
        r@ == civil_holidays(),
{
    let _ = year;
    let r = vec![
        (1, 1),
        (1, 11),
        (5, 1),
        (7, 30),
        (8, 14),
        (8, 20),
        (8, 21),
        (11, 6),
        (11, 18),
    ];
    assert(r@ =~= civil_holidays());
    r
}

/// `t` is the `YYYY-MM-DD` text of the `q`-th civil holiday in `year`, and
/// that holiday exists in `year`.
pub open spec fn civil_text_at(year: int, q: int, t: Seq<char>) -> bool {
    let c = civil_holidays()[q];
    is_valid_ymd(year, c.0 as int, c.1 as int) && t == ymd_text(year, c.0 as int, c.1 as int)
}

/// `t` is the text of one of the first `k` civil holidays of `year`.
pub open spec fn civil_text_before(year: int, k: int, t: Seq<char>) -> bool {
    exists|q: int| 0 <= q < k && #[trigger] civil_text_at(year, q, t)
}

/// `t` is the `YYYY-MM-DD` text of a civil holiday of `year`.
pub open spec fn is_civil_holiday_text(year: int, t: Seq<char>) -> bool {
    civil_text_before(year, civil_holidays().len() as int, t)
}

proof fn lemma_civil_step(year: int, k: int, t: Seq<char>)
    requires
        0 <= k,
    ensures
        civil_text_before(year, k + 1, t) == (civil_text_before(year, k, t) || civil_text_at(
            year,
            k,
            t,
        )),
{
    if civil_text_before(year, k + 1, t) {
        let q = choose|q: int| 0 <= q < k + 1 && #[trigger] civil_text_at(year, q, t);
        if q < k {
            assert(civil_text_before(year, k, t));
        }
    }
    if civil_text_before(year, k, t) {
        let q = choose|q: int| 0 <= q < k && #[trigger] civil_text_at(year, q, t);
        assert(0 <= q < k + 1 && civil_text_at(year, q, t));
    }
    if civil_text_at(year, k, t) {
        assert(0 <= k < k + 1 && civil_text_at(year, k, t));
    }
}

/// `t` is one of the user's specific days off.
pub open spec fn is_listed_day_off(s: Settings, t: Seq<char>) -> bool {
    exists|i: int| 0 <= i < s.days_off@.len() && #[trigger] s.days_off@[i]@ == t
}

/// `t` is a specific day off in `year`: listed by the user, or a civil
/// holiday of that year when the region is Morocco.
pub open spec fn is_day_off_text(s: Settings, year: int, t: Seq<char>) -> bool {
    is_listed_day_off(s, t) || (s.in_morocco() && is_civil_holiday_text(year, t))
}

pub open spec fn holds_text(v: Seq<String>, t: Seq<char>) -> bool {
    exists|i: int| 0 <= i < v.len() && #[trigger] v[i]@ == t
}

pub open spec fn distinct_texts(v: Seq<String>) -> bool {
    forall|i: int, j: int| 0 <= i < j < v.len() ==> #[trigger] v[i]@ != #[trigger] v[j]@
}

fn find_text(v: &Vec<String>, t: &String) -> (r: bool)
    ensures
        r == holds_text(v@, t@),
{
    let mut i: usize = 0;
    while i < v.len()
        invariant
            i <= v.len(),
            forall|j: int| 0 <= j < i ==> v@[j]@ != t@,
        decreases v.len() - i,
    {
        if v[i] == *t {
            return true;
        }
        i = i + 1;
    }
    false
}

fn insert_text(v: &mut Vec<String>, t: String)
    requires
        distinct_texts(old(v)@),
    ensures
        distinct_texts(final(v)@),
        forall|u: Seq<char>| holds_text(final(v)@, u) <==> (holds_text(old(v)@, u) || u == t@),
{
    if !find_text(v, &t) {
        let ghost before = v@;
        let ghost tv = t@;
        v.push(t);
        assert forall|u: Seq<char>| holds_text(v@, u) <==> (holds_text(before, u) || u == tv) by {
            if holds_text(before, u) {
                let i = choose|i: int| 0 <= i < before.len() && #[trigger] before[i]@ == u;
                assert(v@[i] == before[i]);
            }
            if u == tv {
                assert(v@[before.len() as int]@ == u);
            }
            if holds_text(v@, u) {
                let i = choose|i: int| 0 <= i < v@.len() && #[trigger] v@[i]@ == u;
                if i < before.len() {
                    assert(before[i] == v@[i]);
                }
            }
        }
    } else {
    }
}

/// All specific days off of a year, as `YYYY-MM-DD` texts without repeats:
/// the user's days off, plus the civil holidays when the region is Morocco.
/// Weekly days off are handled separately.
pub fn days_off_for_year(s: &Settings, year: i32) -> (r: Vec<String>)
    ensures
        distinct_texts(r@),
        forall|t: Seq<char>| holds_text(r@, t) <==> is_day_off_text(*s, year as int, t),
{
    let mut out: Vec<String> = Vec::new();
    let mut i: usize = 0;
    while i < s.days_off.len()
        invariant
            i <= s.days_off.len(),
            distinct_texts(out@),
            forall|t: Seq<char>|
                holds_text(out@, t) <==> exists|j: int| 0 <= j < i && #[trigger] s.days_off@[j]@ == t,
        decreases s.days_off.len() - i,
    {
        let ghost before = out@;
        insert_text(&mut out, s.days_off[i].clone());
        assert forall|t: Seq<char>|
            holds_text(out@, t) <==> exists|j: int|
                0 <= j < i + 1 && #[trigger] s.days_off@[j]@ == t by {
            if holds_text(out@, t) && t != s.days_off@[i as int]@ {
                assert(holds_text(before, t));
            }
            if t == s.days_off@[i as int]@ {
                assert(s.days_off@[i as int]@ == t);
            }
        }
        i = i + 1;
    }
    let morocco = s.is_morocco();
    let civil = fixed_civil(year);
    if morocco {
        let mut k: usize = 0;
        while k < civil.len()
            invariant
                k <= civil.len(),
                civil@ == civil_holidays(),
                morocco == s.in_morocco(),
                distinct_texts(out@),
                forall|t: Seq<char>|
                    #![trigger holds_text(out@, t)]
                    holds_text(out@, t) <==> (is_listed_day_off(*s, t) || civil_text_before(
                        year as int,
                        k as int,
                        t,
                    )),
            decreases civil.len() - k,
        {
            let (m, d) = civil[k];
            let ghost before = out@;
            let ghost added: Option<Seq<char>> = None;
            match CivilDate::from_ymd(year, m, d) {
                Some(date) => {
                    let t = date.format_ymd();
                    proof {
                        added = Some(t@);
                    }
                    insert_text(&mut out, t);
                },
                None => {},
            }
            k = k + 1;
            assert forall|t: Seq<char>|
                #![trigger holds_text(out@, t)]
                holds_text(out@, t) <==> (is_listed_day_off(*s, t) || civil_text_before(
                    year as int,
                    k as int,
                    t,
                )) by {
                lemma_civil_step(year as int, k - 1, t);
                assert(civil@[k - 1] == civil_holidays()[k - 1]);
                if civil_text_at(year as int, k - 1, t) {
                    assert(added == Some(t));
                    assert(holds_text(out@, t));
                }
                if holds_text(out@, t) {
                    if added != Some(t) {
                        assert(holds_text(before, t));
                    }
                }
            }
        }
    }
    assert forall|t: Seq<char>| holds_text(out@, t) <==> is_day_off_text(*s, year as int, t) by {
        assert(civil_holidays().len() == 9);
    }
    out
}

/// Weekday number 0 = Sunday … 6 = Saturday.
pub fn day_number(d: DayOfWeek) -> (r: i64)
    ensures
        r == d.from_sunday(),
{
    match d {
        DayOfWeek::Sun => 0,
        DayOfWeek::Mon => 1,
        DayOfWeek::Tue => 2,
        DayOfWeek::Wed => 3,
        DayOfWeek::Thu => 4,
        DayOfWeek::Fri => 5,
        DayOfWeek::Sat => 6,
    }
}

/// `date` is a non-working day: one of the weekly days off, or a specific
/// day off of its year.
pub open spec fn is_day_off_spec(s: Settings, date: CivilDate) -> bool {
    s.weekly_off@.contains(date.weekday_spec() as i64) || is_day_off_text(
        s,
        date.year as int,
        date.text(),
    )
}

/// Is `date` a non-working day (weekly off or a specific day off)?
pub fn is_day_off(s: &Settings, date: &CivilDate) -> (r: bool)
    requires
        date.wf(),
    ensures
        r == is_day_off_spec(*s, *date),
{
    let dow = day_number(date.weekday());
    let mut i: usize = 0;
    while i < s.weekly_off.len()
        invariant
            i <= s.weekly_off.len(),
            dow == date.weekday_spec(),
            forall|j: int| 0 <= j < i ==> s.weekly_off@[j] != dow,
        decreases s.weekly_off.len() - i,
    {
        if s.weekly_off[i] == dow {
            assert(s.weekly_off@.contains(dow));
            return true;
        }
        i = i + 1;
    }
    let key = date.format_ymd();
    let days = days_off_for_year(s, date.year);
    find_text(&days, &key)
}

/// A weekday the user marked as a weekly day off is always a day off.
pub proof fn law_weekly_off_is_day_off(s: Settings, date: CivilDate)
    requires
        s.weekly_off@.contains(date.weekday_spec() as i64),
    ensures
        is_day_off_spec(s, date),
{
}

/// A day the user listed is a day off.
pub proof fn law_listed_day_is_day_off(s: Settings, date: CivilDate, i: int)
    requires
        0 <= i < s.days_off@.len(),
        s.days_off@[i]@ == date.text(),
    ensures
        is_day_off_spec(s, date),
{
    assert(is_listed_day_off(s, date.text()));
}

/// In Morocco, each fixed civil holiday is a day off.
pub proof fn law_civil_holiday_is_day_off(s: Settings, date: CivilDate, k: int)
    requires
        s.in_morocco(),
        date.wf(),
        0 <= k < civil_holidays().len(),
        date.month == civil_holidays()[k].0,
        date.day == civil_holidays()[k].1,
    ensures
        is_day_off_spec(s, date),
{
    assert(civil_text_at(date.year as int, k, date.text()));
    assert(is_civil_holiday_text(date.year as int, date.text()));
}

/// Outside Morocco, a civil holiday is a day off only if it is a weekly day
/// off or the user listed it.
pub proof fn law_civil_holiday_needs_region(s: Settings, date: CivilDate)
    requires
        !s.in_morocco(),
        !s.weekly_off@.contains(date.weekday_spec() as i64),
        !is_listed_day_off(s, date.text()),
    ensures
        !is_day_off_spec(s, date),
{
}

} // verus!
