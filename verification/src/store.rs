//! Decisions behind the application's cached state: which recurring entries
//! are due today, applying a status change to the cached items, and the
//! status-line texts. The HTTP calls, the marker file and the UI
//! notifications are done by the application.
use crate::calendar::CivilDate;
use crate::holidays::{is_day_off, is_day_off_spec};
use crate::json::{json_parsed, Json};
use crate::models::{RecurringEntry, WorkItem};
use crate::settings::Settings;
use crate::text::{decimal, push_str, signed_decimal, i64_text, u64_text};
use vstd::prelude::*;

verus! {

/// UI-bound notifications sent from async operations to the main loop.
#[derive(Debug)]
pub enum Update {
    Items,
    Times,
    Status(String),
    UserInfo,
    MeetingEnded { start_ms: i64, end_ms: i64 },
    MeetingState(bool),
}

impl Clone for Update {
    fn clone(&self) -> (r: Self)
        ensures
            r == *self,
    {
        match self {
            Update::Items => Update::Items,
            Update::Times => Update::Times,
            Update::Status(s) => Update::Status(s.clone()),
            Update::UserInfo => Update::UserInfo,
            Update::MeetingEnded { start_ms, end_ms } => Update::MeetingEnded {
                start_ms: *start_ms,
                end_ms: *end_ms,
            },
            Update::MeetingState(b) => Update::MeetingState(*b),
        }
    }
}

// ---------------------------------------------------------------------------
// Recurring entries
// ---------------------------------------------------------------------------

/// The marker key of a recurring entry on a day: `{YYYY-MM-DD}|{id}`.
pub open spec fn marker_key(day: Seq<char>, id: Seq<char>) -> Seq<char> {
    day + seq!['|'] + id
}

pub open spec fn holds_key(keys: Seq<Seq<char>>, k: Seq<char>) -> bool {
    exists|i: int| 0 <= i < keys.len() && keys[i] == k
}

/// Walking the first `n` entries: the positions to log, and the marker keys
/// logged so far (the given ones, then one per position chosen).
pub open spec fn due_upto(rs: Seq<RecurringEntry>, day: Seq<char>, logged: Seq<Seq<char>>, n: int) -> (Seq<usize>, Seq<Seq<char>>)
    decreases n,
{
    if n <= 0 {
        (Seq::empty(), logged)
    } else {
        let (picked, keys) = due_upto(rs, day, logged, n - 1);
        let r = rs[n - 1];
        let k = marker_key(day, r.id@);
        if r.task_id == 0 || holds_key(keys, k) {
            (picked, keys)
        } else {
            (picked.push((n - 1) as usize), keys.push(k))
        }
    }
}

pub open spec fn due(rs: Seq<RecurringEntry>, day: Seq<char>, logged: Seq<Seq<char>>) -> (Seq<usize>, Seq<Seq<char>>) {
    due_upto(rs, day, logged, rs.len() as int)
}

pub open spec fn key_views(v: Seq<String>) -> Seq<Seq<char>> {
    v.map_values(|s: String| s@)
}

/// The recurring entries to log on `day` (`YYYY-MM-DD`), in order: those with
/// a task whose marker key is not logged yet. Each chosen key is appended to
/// `logged`, so an entry fires at most once per day.
pub fn due_recurring(recurring: &Vec<RecurringEntry>, day: &str, logged: &mut Vec<String>) -> (picked: Vec<usize>)
    ensures
        (picked@, key_views(final(logged)@)) == due(recurring@, day@, key_views(old(logged)@)),
{
    let ghost logged0 = key_views(logged@);
    let mut picked: Vec<usize> = Vec::new();
    let mut i: usize = 0;
    while i < recurring.len()
        invariant
            i <= recurring.len(),
            (picked@, key_views(logged@)) == due_upto(recurring@, day@, logged0, i as int),
        decreases recurring.len() - i,
    {
        let r = &recurring[i];
        let mut k = String::new();
        push_str(&mut k, day);
        push_str(&mut k, "|");
        push_str(&mut k, r.id.as_str());
        proof {
            reveal_strlit("|");
            assert(k@ =~= marker_key(day@, r.id@));
        }
        if r.task_id != 0 && !holds_string(logged, &k) {
            let ghost before = logged@;
            logged.push(k);
            picked.push(i);
            assert(key_views(logged@) =~= key_views(before).push(marker_key(day@, r.id@)));
        }
        i = i + 1;
    }
    picked
}

fn holds_string(v: &Vec<String>, k: &String) -> (r: bool)
    ensures
        r == holds_key(key_views(v@), k@),
{
    let mut i: usize = 0;
    while i < v.len()
        invariant
            i <= v.len(),
            forall|j: int| 0 <= j < i ==> v@[j]@ != k@,
        decreases v.len() - i,
    {
        if v[i] == *k {
            assert(key_views(v@)[i as int] == k@);
            return true;
        }
        i = i + 1;
    }
    false
}

/// The recurring entries to log on `today`: none on a day off, otherwise
/// those not yet logged today (see [`due_recurring`]).
pub fn recurring_due_today(s: &Settings, today: &CivilDate, logged: &mut Vec<String>) -> (picked: Vec<usize>)
    requires
        today.wf(),
    ensures
        is_day_off_spec(*s, *today) ==> picked@.len() == 0 && final(logged)@ == old(logged)@,
        !is_day_off_spec(*s, *today) ==> (picked@, key_views(final(logged)@)) == due(
            s.recurring@,
            today.text(),
            key_views(old(logged)@),
        ),
{
    if is_day_off(s, today) {
        return Vec::new();
    }
    let day = today.format_ymd();
    due_recurring(&s.recurring, day.as_str(), logged)
}

/// Every member of the object is a flag.
pub open spec fn all_flags(es: Seq<(String, Json)>) -> bool {
    forall|i: int| 0 <= i < es.len() ==> (#[trigger] es[i]).1 is Bool
}

/// The marker file's entries (key, logged) as read from its text: a JSON
/// object of flags; anything else reads as no entries.
pub open spec fn markers_read(text: Seq<char>, r: Seq<(String, bool)>) -> bool {
    match json_parsed(text) {
        Some(Json::Object(es)) => if all_flags(es@) {
            r.len() == es@.len() && forall|i: int|
                0 <= i < r.len() ==> (#[trigger] r[i]).0 == es@[i].0 && Json::Bool(r[i].1)
                    == es@[i].1
        } else {
            r.len() == 0
        },
        _ => r.len() == 0,
    }
}

/// Reads the marker file's text.
pub fn marker_entries(text: &str) -> (r: Vec<(String, bool)>)
    ensures
        markers_read(text@, r@),
{
    match crate::json::parse(text) {
        Some(Json::Object(es)) => {
            let mut out: Vec<(String, bool)> = Vec::new();
            let mut i: usize = 0;
            while i < es.len()
                invariant
                    i <= es@.len(),
                    json_parsed(text@) matches Some(Json::Object(e)) && e == es,
                    out@.len() == i,
                    forall|j: int|
                        0 <= j < i ==> (#[trigger] out@[j]).0 == es@[j].0 && Json::Bool(out@[j].1)
                            == es@[j].1,
                    forall|j: int| 0 <= j < i ==> (#[trigger] es@[j]).1 is Bool,
                decreases es.len() - i,
            {
                match &es[i].1 {
                    Json::Bool(b) => {
                        out.push((es[i].0.clone(), *b));
                    },
                    _ => {
                        assert(!all_flags(es@));
                        return Vec::new();
                    },
                }
                i = i + 1;
            }
            out
        },
        _ => Vec::new(),
    }
}

/// The keys marked as logged, in order.
pub open spec fn logged_of(es: Seq<(String, bool)>) -> Seq<Seq<char>>
    decreases es.len(),
{
    if es.len() == 0 {
        Seq::empty()
    } else if es.last().1 {
        logged_of(es.drop_last()).push(es.last().0@)
    } else {
        logged_of(es.drop_last())
    }
}

/// The keys of the entries marked as logged.
pub fn logged_keys(entries: &Vec<(String, bool)>) -> (r: Vec<String>)
    ensures
        key_views(r@) == logged_of(entries@),
{
    let mut out: Vec<String> = Vec::new();
    let mut i: usize = 0;
    while i < entries.len()
        invariant
            i <= entries@.len(),
            key_views(out@) == logged_of(entries@.take(i as int)),
        decreases entries.len() - i,
    {
        assert(entries@.take(i + 1).drop_last() =~= entries@.take(i as int));
        if entries[i].1 {
            let ghost before = out@;
            out.push(entries[i].0.clone());
            assert(key_views(out@) =~= key_views(before).push(entries@[i as int].0@));
        }
        i = i + 1;
    }
    assert(entries@.take(entries@.len() as int) =~= entries@);
    out
}

proof fn lemma_due_grows(rs: Seq<RecurringEntry>, day: Seq<char>, logged: Seq<Seq<char>>, n: int)
    requires
        0 <= n <= rs.len(),
    ensures
        forall|k: Seq<char>| holds_key(logged, k) ==> holds_key(due_upto(rs, day, logged, n).1, k),
        forall|j: int|
            0 <= j < n && rs[j].task_id != 0 ==> holds_key(
                due_upto(rs, day, logged, n).1,
                #[trigger] marker_key(day, rs[j].id@),
            ),
        forall|p: int|
            0 <= p < due_upto(rs, day, logged, n).0.len() ==> (#[trigger] due_upto(rs, day, logged, n).0[p]) < n,
    decreases n,
{
    if n > 0 {
        lemma_due_grows(rs, day, logged, n - 1);
        let (picked, keys) = due_upto(rs, day, logged, n - 1);
        let k = marker_key(day, rs[n - 1].id@);
        if !(rs[n - 1].task_id == 0 || holds_key(keys, k)) {
            let keys2 = keys.push(k);
            assert forall|q: Seq<char>| holds_key(keys, q) implies holds_key(keys2, q) by {
                let i = choose|i: int| 0 <= i < keys.len() && keys[i] == q;
                assert(keys2[i] == q);
            }
            assert(keys2[keys.len() as int] == k);
        }
    }
}

proof fn lemma_due_nothing_new(rs: Seq<RecurringEntry>, day: Seq<char>, logged: Seq<Seq<char>>, n: int)
    requires
        0 <= n <= rs.len(),
        forall|j: int|
            0 <= j < rs.len() && rs[j].task_id != 0 ==> holds_key(
                logged,
                #[trigger] marker_key(day, rs[j].id@),
            ),
    ensures
        due_upto(rs, day, logged, n) == (Seq::<usize>::empty(), logged),
    decreases n,
{
    if n > 0 {
        lemma_due_nothing_new(rs, day, logged, n - 1);
    }
}

/// Recurring entries fire once per day: a second pass on the same day, with
/// the keys the first pass logged, picks nothing and logs nothing new.
pub proof fn law_recurring_once_per_day(rs: Seq<RecurringEntry>, day: Seq<char>, logged: Seq<Seq<char>>)
    ensures
        ({
            let after = due(rs, day, logged).1;
            due(rs, day, after) == (Seq::<usize>::empty(), after)
        }),
{
    lemma_due_grows(rs, day, logged, rs.len() as int);
    lemma_due_nothing_new(rs, day, due(rs, day, logged).1, rs.len() as int);
}

/// Only entries with a task fire, each at most once in a pass, never one
/// whose key was already logged, and in their listed order.
pub proof fn law_recurring_picks(rs: Seq<RecurringEntry>, day: Seq<char>, logged: Seq<Seq<char>>, n: int)
    requires
        0 <= n <= rs.len(),
        rs.len() <= usize::MAX,
    ensures
        ({
            let picked = due_upto(rs, day, logged, n).0;
            &&& forall|p: int| 0 <= p < picked.len() ==> (#[trigger] picked[p]) < n
            &&& forall|p: int| 0 <= p < picked.len() ==> rs[#[trigger] picked[p] as int].task_id != 0
            &&& forall|p: int|
                0 <= p < picked.len() ==> !holds_key(logged, marker_key(day, rs[#[trigger] picked[p] as int].id@))
            &&& forall|p: int, q: int| 0 <= p < q < picked.len() ==> #[trigger] picked[p] < #[trigger] picked[q]
        }),
    decreases n,
{
    lemma_due_grows(rs, day, logged, n);
    if n > 0 {
        law_recurring_picks(rs, day, logged, n - 1);
        lemma_due_grows(rs, day, logged, n - 1);
        let (picked, keys) = due_upto(rs, day, logged, n - 1);
        let k = marker_key(day, rs[n - 1].id@);
        if !(rs[n - 1].task_id == 0 || holds_key(keys, k)) {
            let picked2 = picked.push((n - 1) as usize);
            assert forall|p: int| 0 <= p < picked2.len() implies !holds_key(
                logged,
                marker_key(day, rs[#[trigger] picked2[p] as int].id@),
            ) by {
                if p == picked.len() {
                    if holds_key(logged, k) {
                        assert(holds_key(keys, k));
                    }
                } else {
                    assert(picked2[p] == picked[p]);
                }
            }
            assert forall|p: int, q: int| 0 <= p < q < picked2.len() implies #[trigger] picked2[p]
                < #[trigger] picked2[q] by {
                if q == picked.len() {
                    assert(picked2[p] == picked[p]);
                } else {
                    assert(picked2[p] == picked[p] && picked2[q] == picked[q]);
                }
            }
        }
    }
}

// ---------------------------------------------------------------------------
// Cached items
// ---------------------------------------------------------------------------

/// Position of the first item with this id.
pub open spec fn first_with_id(items: Seq<WorkItem>, id: i64) -> int {
    choose|k: int|
        0 <= k < items.len() && items[k].id == id && (forall|j: int|
            0 <= j < k ==> (#[trigger] items[j]).id != id)
}

pub open spec fn has_id(items: Seq<WorkItem>, id: i64) -> bool {
    exists|k: int| 0 <= k < items.len() && (#[trigger] items[k]).id == id
}

/// Records a status change on the first cached item with `item_id`; the
/// other items, and the cache when no item has that id, stay as they were.
pub fn apply_state_change(items: &mut Vec<WorkItem>, item_id: i64, state_id: i64, state_name: String, is_final: bool)
    ensures
        final(items)@.len() == old(items)@.len(),
        !has_id(old(items)@, item_id) ==> final(items)@ == old(items)@,
        has_id(old(items)@, item_id) ==> {
            let k = first_with_id(old(items)@, item_id);
            &&& 0 <= k < old(items)@.len()
            &&& final(items)@ == old(items)@.update(
                k,
                WorkItem { state_id, state_name, is_final, ..old(items)@[k] },
            )
        },
{
    let mut k: usize = 0;
    while k < items.len()
        invariant
            k <= items.len(),
            items@ == old(items)@,
            forall|j: int| 0 <= j < k ==> (#[trigger] items@[j]).id != item_id,
        decreases items.len() - k,
    {
        if items[k].id == item_id {
            let mut it = items[k].clone();
            it.state_id = state_id;
            it.state_name = state_name;
            it.is_final = is_final;
            proof {
                let kk = first_with_id(old(items)@, item_id);
                assert(0 <= k < items@.len() && items@[k as int].id == item_id);
                if kk != k {
                    if kk < k {
                        assert(items@[kk].id != item_id);
                    } else {
                        assert(old(items)@[k as int].id != item_id);
                    }
                }
            }
            items.set(k, it);
            return;
        }
        k = k + 1;
    }
}

// ---------------------------------------------------------------------------
// Status texts
// ---------------------------------------------------------------------------

/// `Loaded {n} items`, with ` (current sprint)` unless all items were asked for.
pub fn loaded_status(n: usize, scope_all: bool) -> (r: String)
    ensures
        r@ == "Loaded "@ + decimal(n as nat) + " items"@ + (if scope_all {
            Seq::empty()
        } else {
            " (current sprint)"@
        }),
{
    let mut t = String::new();
    push_str(&mut t, "Loaded ");
    let c = u64_text(n as u64);
    push_str(&mut t, c.as_str());
    push_str(&mut t, " items");
    if !scope_all {
        push_str(&mut t, " (current sprint)");
    }
    assert(t@ =~= "Loaded "@ + decimal(n as nat) + " items"@ + (if scope_all {
        Seq::empty()
    } else {
        " (current sprint)"@
    }));
    t
}

/// `#{id} → {state}` after a status change.
pub fn state_changed_status(id: i64, state_name: &str) -> (r: String)
    ensures
        r@ == seq!['#'] + signed_decimal(id as int) + " → "@ + state_name@,
{
    let mut t = String::new();
    push_str(&mut t, "#");
    let n = i64_text(id);
    push_str(&mut t, n.as_str());
    push_str(&mut t, " → ");
    push_str(&mut t, state_name);
    proof {
        reveal_strlit("#");
        assert(t@ =~= seq!['#'] + signed_decimal(id as int) + " → "@ + state_name@);
    }
    t
}

} // verus!
