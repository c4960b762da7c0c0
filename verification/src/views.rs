//! What the windows show: the task list's search / filter / sort, the
//! status dropdown's options, labels, and the settings form's conversions.
//! The widgets themselves are built by the application.
use crate::command::TrayCmd;
use crate::models::{DynamicMeeting, WorkItem};
use crate::ordering::{is_stable_order, lex_less, stable_order};
use crate::text::{
    chars_of, contains_text, decimal, has_substring, i64_text, is_whitespace, lowercase,
    parse_i64, parsed_i64, push_char, push_str, push_two_digits, same_text, signed_decimal,
    string_of, to_lowercase, to_uppercase, trim, trimmed, u64_text, unicode_white_space,
    uppercase, zero_padded,
};
use vstd::prelude::*;

verus! {

// ---------------------------------------------------------------------------
// Sorting by name
// ---------------------------------------------------------------------------

/// The sort key of an item: its name, lowercased.
pub open spec fn name_keys(items: Seq<WorkItem>) -> Seq<Seq<char>> {
    items.map_values(|it: WorkItem| lowercase(it.name@))
}

/// `sorted` is `items` stably sorted by lowercased name (descending when
/// `descending`).
pub open spec fn sorted_by_name(items: Seq<WorkItem>, descending: bool, sorted: Seq<WorkItem>) -> bool {
    exists|order: Seq<usize>|
        is_stable_order(name_keys(items), descending, order) && sorted.len() == order.len()
            && forall|p: int| 0 <= p < order.len() ==> sorted[p] == items[#[trigger] order[p] as int]
}

/// Items stably sorted by lowercased name, A–Z (or Z–A when `descending`).
pub fn sort_items_by_name(items: &Vec<WorkItem>, descending: bool) -> (r: Vec<WorkItem>)
    ensures
        sorted_by_name(items@, descending, r@),
{
    let mut keys: Vec<Vec<char>> = Vec::new();
    let mut i: usize = 0;
    while i < items.len()
        invariant
            i <= items.len(),
            keys@.len() == i,
            forall|j: int| 0 <= j < i ==> (#[trigger] keys@[j])@ == lowercase(items@[j].name@),
        decreases items.len() - i,
    {
        let low = to_lowercase(items[i].name.as_str());
        keys.push(chars_of(low.as_str()));
        i = i + 1;
    }
    let ghost ks = keys@.map_values(|k: Vec<char>| k@);
    assert(ks =~= name_keys(items@));
    let order = stable_order(&keys, descending);
    let mut out: Vec<WorkItem> = Vec::new();
    let mut p: usize = 0;
    while p < order.len()
        invariant
            p <= order.len(),
            is_stable_order(name_keys(items@), descending, order@),
            order@.len() == items@.len(),
            out@.len() == p,
            forall|q: int| 0 <= q < p ==> out@[q] == items@[#[trigger] order@[q] as int],
        decreases order.len() - p,
    {
        let it = items[order[p]].clone();
        out.push(it);
        p = p + 1;
    }
    out
}

/// Sorting by name orders by the whole lowercased name: A–Z, no name sorts
/// before one that precedes it; Z–A, the reverse; and the result has as
/// many items as the list, each taken from it.
pub proof fn law_sorted_by_whole_name(items: Seq<WorkItem>, descending: bool, sorted: Seq<WorkItem>)
    requires
        sorted_by_name(items, descending, sorted),
    ensures
        sorted.len() == items.len(),
        forall|p: int, q: int|
            0 <= p < q < sorted.len() ==> if descending {
                !lex_less(
                    lowercase((#[trigger] sorted[p]).name@),
                    lowercase((#[trigger] sorted[q]).name@),
                )
            } else {
                !lex_less(lowercase(sorted[q].name@), lowercase(sorted[p].name@))
            },
        forall|p: int| 0 <= p < sorted.len() ==> items.contains(#[trigger] sorted[p]),
{
    let order = choose|order: Seq<usize>|
        is_stable_order(name_keys(items), descending, order) && sorted.len() == order.len()
            && forall|p: int| 0 <= p < order.len() ==> sorted[p] == items[#[trigger] order[p] as int];
    let keys = name_keys(items);
    assert forall|p: int, q: int| 0 <= p < q < sorted.len() implies if descending {
        !lex_less(lowercase((#[trigger] sorted[p]).name@), lowercase((#[trigger] sorted[q]).name@))
    } else {
        !lex_less(lowercase(sorted[q].name@), lowercase(sorted[p].name@))
    } by {
        let i = order[p] as int;
        let j = order[q] as int;
        assert(crate::ordering::sorts_before(keys, descending, i, j));
        assert(sorted[p] == items[i] && sorted[q] == items[j]);
        assert(keys[i] == lowercase(items[i].name@));
        assert(keys[j] == lowercase(items[j].name@));
        crate::ordering::lemma_lex_total(keys[i], keys[j]);
        crate::ordering::lemma_lex_irreflexive(keys[i]);
    }
    assert forall|p: int| 0 <= p < sorted.len() implies items.contains(#[trigger] sorted[p]) by {
        let i = order[p] as int;
        assert(keys.len() == items.len());
        assert(0 <= i < items.len());
        assert(items[i] == sorted[p]);
    }
}

// ---------------------------------------------------------------------------
// Search and filters
// ---------------------------------------------------------------------------

pub open spec fn all_statuses_text() -> Seq<char> {
    "All statuses"@
}

/// The status picked in the filter, if it narrows the list.
pub open spec fn status_filter(sel: Option<Seq<char>>) -> Option<Seq<char>> {
    match sel {
        Some(s) => if s == all_statuses_text() {
            None
        } else {
            Some(s)
        },
        None => None,
    }
}

/// An item is shown: active when only active items are asked for, matching
/// the (lowercased) search text by lowercased name or by `#id` digits, and in
/// the picked status.
pub open spec fn item_shown(it: WorkItem, q: Seq<char>, active_only: bool, status: Option<Seq<char>>) -> bool {
    &&& !(active_only && it.is_final)
    &&& (q.len() == 0 || has_substring(lowercase(it.name@), q) || has_substring(
        signed_decimal(it.id as int),
        q,
    ))
    &&& (status matches Some(st) ==> it.state_name@ == st)
}

/// The items of `items` that are shown, in order.
pub open spec fn shown_items(items: Seq<WorkItem>, q: Seq<char>, active_only: bool, status: Option<Seq<char>>) -> Seq<WorkItem>
    decreases items.len(),
{
    if items.len() == 0 {
        Seq::empty()
    } else if item_shown(items.last(), q, active_only, status) {
        shown_items(items.drop_last(), q, active_only, status).push(items.last())
    } else {
        shown_items(items.drop_last(), q, active_only, status)
    }
}

/// The task list after search (`query`), the active-only switch and the
/// status filter (`status_sel`, the dropdown's current text).
pub fn filter_items(items: &Vec<WorkItem>, query: &str, active_only: bool, status_sel: Option<&str>) -> (r: Vec<WorkItem>)
    ensures
        r@ == shown_items(
            items@,
            lowercase(query@),
            active_only,
            status_filter(
                match status_sel {
                    Some(t) => Some(t@),
                    None => None,
                },
            ),
        ),
{
    let q = to_lowercase(query);
    let status_on = match status_sel {
        Some(s) => !same_text(s, "All statuses"),
        None => false,
    };
    let ghost st = status_filter(
        match status_sel {
            Some(t) => Some(t@),
            None => None,
        },
    );
    proof {
        reveal_strlit("All statuses");
    }
    let mut out: Vec<WorkItem> = Vec::new();
    let mut i: usize = 0;
    while i < items.len()
        invariant
            i <= items.len(),
            q@ == lowercase(query@),
            st == status_filter(
                match status_sel {
                    Some(t) => Some(t@),
                    None => None,
                },
            ),
            status_on == (st is Some),
            status_on ==> st == Some(status_sel->0@),
            out@ == shown_items(items@.take(i as int), q@, active_only, st),
        decreases items.len() - i,
    {
        let item = &items[i];
        let mut keep = true;
        if active_only && item.is_final {
            keep = false;
        }
        if keep && !q.as_str().is_empty() {
            let name_low = to_lowercase(item.name.as_str());
            let id_text = i64_text(item.id);
            if !(contains_text(name_low.as_str(), q.as_str()) || contains_text(
                id_text.as_str(),
                q.as_str(),
            )) {
                keep = false;
            }
        }
        if keep && status_on {
            let sel = status_sel.unwrap();
            if !same_text(item.state_name.as_str(), sel) {
                keep = false;
            }
        }
        proof {
            assert(items@.take(i + 1).drop_last() =~= items@.take(i as int));
            assert(items@.take(i + 1).last() == *item);
            assert(keep == item_shown(*item, q@, active_only, st));
        }
        if keep {
            out.push(item.clone());
        }
        i = i + 1;
    }
    assert(items@.take(items.len() as int) =~= items@);
    out
}

/// The task list's filters, each on its own: not final when only active
/// items are asked for; the name (lowercased) or the `#id` digits contain the
/// search text when one is typed; the status is the picked one when a status
/// is picked.
pub open spec fn passes_filters(it: WorkItem, q: Seq<char>, active_only: bool, status: Option<Seq<char>>) -> bool {
    &&& (active_only ==> !it.is_final)
    &&& (q.len() > 0 ==> has_substring(lowercase(it.name@), q) || has_substring(
        signed_decimal(it.id as int),
        q,
    ))
    &&& (status is Some ==> it.state_name@ == status->0)
}

proof fn lemma_shown_items_members(items: Seq<WorkItem>, q: Seq<char>, active_only: bool, status: Option<Seq<char>>)
    ensures
        forall|k: int|
            0 <= k < shown_items(items, q, active_only, status).len() ==> passes_filters(
                #[trigger] shown_items(items, q, active_only, status)[k],
                q,
                active_only,
                status,
            ) && (exists|j: int|
                0 <= j < items.len() && items[j] == shown_items(items, q, active_only, status)[k]),
        forall|j: int|
            0 <= j < items.len() && passes_filters(#[trigger] items[j], q, active_only, status)
                ==> exists|k: int|
                0 <= k < shown_items(items, q, active_only, status).len() && shown_items(
                    items,
                    q,
                    active_only,
                    status,
                )[k] == items[j],
    decreases items.len(),
{
    if items.len() > 0 {
        let pre = items.drop_last();
        lemma_shown_items_members(pre, q, active_only, status);
        let sp = shown_items(pre, q, active_only, status);
        let sh = shown_items(items, q, active_only, status);
        assert forall|k: int| 0 <= k < sh.len() implies passes_filters(
            #[trigger] sh[k],
            q,
            active_only,
            status,
        ) && (exists|j: int| 0 <= j < items.len() && items[j] == sh[k]) by {
            if k < sp.len() {
                assert(sh[k] == sp[k]);
                let j = choose|j: int| 0 <= j < pre.len() && pre[j] == sp[k];
                assert(items[j] == pre[j]);
            } else {
                assert(sh[k] == items.last());
                assert(items[items.len() - 1] == sh[k]);
            }
        }
        assert forall|j: int|
            0 <= j < items.len() && passes_filters(#[trigger] items[j], q, active_only, status)
            implies exists|k: int| 0 <= k < sh.len() && sh[k] == items[j] by {
            if j < pre.len() {
                assert(pre[j] == items[j]);
                assert(passes_filters(pre[j], q, active_only, status));
                let k = choose|k: int| 0 <= k < sp.len() && sp[k] == pre[j];
                assert(sh[k] == sp[k]);
            } else {
                assert(item_shown(items.last(), q, active_only, status));
                assert(sh[sh.len() - 1] == items[j]);
            }
        }
    }
}

/// What the filtered task list holds: every item it shows passes each filter
/// on its own (so a picked status applies whatever the search text), and
/// every item that passes them all is shown.
pub proof fn law_filters_apply_together(items: Seq<WorkItem>, q: Seq<char>, active_only: bool, status: Option<Seq<char>>)
    ensures
        forall|k: int|
            0 <= k < shown_items(items, q, active_only, status).len() ==> passes_filters(
                #[trigger] shown_items(items, q, active_only, status)[k],
                q,
                active_only,
                status,
            ),
        forall|k: int|
            0 <= k < shown_items(items, q, active_only, status).len() ==> exists|j: int|
                0 <= j < items.len() && items[j] == #[trigger] shown_items(
                    items,
                    q,
                    active_only,
                    status,
                )[k],
        forall|j: int|
            0 <= j < items.len() && passes_filters(#[trigger] items[j], q, active_only, status)
                ==> exists|k: int|
                0 <= k < shown_items(items, q, active_only, status).len() && shown_items(
                    items,
                    q,
                    active_only,
                    status,
                )[k] == items[j],
{
    lemma_shown_items_members(items, q, active_only, status);
}

/// Items that are still open (not in a final state), in order.
pub open spec fn open_items_of(items: Seq<WorkItem>) -> Seq<WorkItem>
    decreases items.len(),
{
    if items.len() == 0 {
        Seq::empty()
    } else if !items.last().is_final {
        open_items_of(items.drop_last()).push(items.last())
    } else {
        open_items_of(items.drop_last())
    }
}

/// The items offered when logging a meeting to a task: the open ones.
pub fn open_items(items: &Vec<WorkItem>) -> (r: Vec<WorkItem>)
    ensures
        r@ == open_items_of(items@),
{
    let mut out: Vec<WorkItem> = Vec::new();
    let mut i: usize = 0;
    while i < items.len()
        invariant
            i <= items.len(),
            out@ == open_items_of(items@.take(i as int)),
        decreases items.len() - i,
    {
        assert(items@.take(i + 1).drop_last() =~= items@.take(i as int));
        if !items[i].is_final {
            out.push(items[i].clone());
        }
        i = i + 1;
    }
    assert(items@.take(items.len() as int) =~= items@);
    out
}

/// Position of the first item with `id`.
pub fn position_of_id(items: &Vec<WorkItem>, id: i64) -> (r: Option<usize>)
    ensures
        match r {
            Some(k) => k < items@.len() && items@[k as int].id == id && forall|j: int|
                0 <= j < k ==> (#[trigger] items@[j]).id != id,
            None => forall|j: int| 0 <= j < items@.len() ==> (#[trigger] items@[j]).id != id,
        },
{
    let mut k: usize = 0;
    while k < items.len()
        invariant
            k <= items.len(),
            forall|j: int| 0 <= j < k ==> (#[trigger] items@[j]).id != id,
        decreases items.len() - k,
    {
        if items[k].id == id {
            return Some(k);
        }
        k = k + 1;
    }
    None
}

// ---------------------------------------------------------------------------
// Status dropdown
// ---------------------------------------------------------------------------

/// `t` is the status of some item.
pub open spec fn is_item_status(items: Seq<WorkItem>, t: Seq<char>) -> bool {
    exists|i: int| 0 <= i < items.len() && #[trigger] items[i].state_name@ == t
}

/// The status dropdown's options: `All statuses`, then each distinct
/// non-empty status of the items, sorted.
pub open spec fn is_status_options(items: Seq<WorkItem>, opts: Seq<Seq<char>>) -> bool {
    &&& opts.len() >= 1
    &&& opts[0] == all_statuses_text()
    &&& forall|p: int, q: int| 1 <= p < q < opts.len() ==> lex_less(#[trigger] opts[p], #[trigger] opts[q])
    &&& forall|t: Seq<char>|
        #![trigger options_have(opts, t)]
        #![trigger is_item_status(items, t)]
        options_have(opts, t) <==> (t.len() > 0 && is_item_status(items, t))
}

/// `t` is one of the options after the first.
pub open spec fn options_have(opts: Seq<Seq<char>>, t: Seq<char>) -> bool {
    exists|p: int| 1 <= p < opts.len() && #[trigger] opts[p] == t
}

pub open spec fn string_views(v: Seq<String>) -> Seq<Seq<char>> {
    v.map_values(|s: String| s@)
}

/// Builds the status dropdown's options from the current items.
pub fn status_options(items: &Vec<WorkItem>) -> (r: Vec<String>)
    ensures
        is_status_options(items@, string_views(r@)),
{
    // the non-empty statuses, in item order
    let mut names: Vec<Vec<char>> = Vec::new();
    let mut i: usize = 0;
    while i < items.len()
        invariant
            i <= items.len(),
            forall|p: int| 0 <= p < names@.len() ==> (#[trigger] names@[p])@.len() > 0,
            forall|t: Seq<char>|
                (exists|p: int| 0 <= p < names@.len() && #[trigger] names@[p]@ == t) <==> (t.len()
                    > 0 && exists|j: int| 0 <= j < i && #[trigger] items@[j].state_name@ == t),
        decreases items.len() - i,
    {
        let cs = chars_of(items[i].state_name.as_str());
        let ghost before = names@;
        if cs.len() > 0 {
            names.push(cs);
        }
        proof {
            assert forall|t: Seq<char>|
                (exists|p: int| 0 <= p < names@.len() && #[trigger] names@[p]@ == t) <==> (t.len()
                    > 0 && exists|j: int| 0 <= j < i + 1 && #[trigger] items@[j].state_name@ == t) by {
                if exists|p: int| 0 <= p < names@.len() && #[trigger] names@[p]@ == t {
                    let p = choose|p: int| 0 <= p < names@.len() && #[trigger] names@[p]@ == t;
                    if p < before.len() {
                        assert(before[p] == names@[p]);
                    } else {
                        assert(items@[i as int].state_name@ == t);
                    }
                }
                if t.len() > 0 && exists|j: int| 0 <= j < i + 1 && #[trigger] items@[j].state_name@ == t {
                    let j = choose|j: int| 0 <= j < i + 1 && #[trigger] items@[j].state_name@ == t;
                    if j < i {
                        let p = choose|p: int| 0 <= p < before.len() && #[trigger] before[p]@ == t;
                        assert(names@[p] == before[p]);
                    } else {
                        assert(names@[before.len() as int]@ == t);
                    }
                }
            }
        }
        i = i + 1;
    }
    let order = stable_order(&names, false);
    let ghost ks = names@.map_values(|k: Vec<char>| k@);
    let mut out: Vec<String> = Vec::new();
    out.push("All statuses".to_owned());
    proof {
        reveal_strlit("All statuses");
    }
    // walk the sorted statuses, keeping the first of each run of equals
    let mut p: usize = 0;
    while p < order.len()
        invariant
            ks == names@.map_values(|k: Vec<char>| k@),
            is_stable_order(ks, false, order@),
            p <= order.len(),
            out@.len() >= 1,
            out@[0]@ == all_statuses_text(),
            forall|a: int, b: int|
                1 <= a < b < out@.len() ==> lex_less(#[trigger] out@[a]@, #[trigger] out@[b]@),
            // the last one kept sorts no later than the next candidate
            p < order.len() && out@.len() > 1 ==> (lex_less(out@.last()@, ks[order@[p as int] as int])
                || out@.last()@ == ks[order@[p as int] as int]),
            forall|t: Seq<char>|
                #![trigger kept_has(out@, t)]
                #![trigger walked_has(ks, order@, p as int, t)]
                kept_has(out@, t) <==> walked_has(ks, order@, p as int, t),
        decreases order.len() - p,
    {
        let cur = &names[order[p]];
        let ghost cv = ks[order@[p as int] as int];
        assert(cur@ == cv);
        let last_chars = chars_of(out[out.len() - 1].as_str());
        let dup = out.len() > 1 && !crate::ordering::text_less(&last_chars, cur);
        let ghost before = out@;
        if !dup {
            out.push(string_of(cur));
        }
        proof {
            status_walk_step(ks, order@, p as int);
            if dup {
                crate::ordering::lemma_lex_total(before.last()@, cv);
                assert(before.last()@ == cv);
                assert(kept_has(before, cv)) by {
                    assert(before[before.len() - 1]@ == cv);
                }
            } else {
                assert(out@.last()@ == cv);
                assert forall|x: int, y: int| 1 <= x < y < out@.len() implies lex_less(
                    #[trigger] out@[x]@,
                    #[trigger] out@[y]@,
                ) by {
                    if y == out@.len() - 1 {
                        assert(before.len() > 1);
                        if x < before.len() - 1 {
                            assert(lex_less(before[x]@, before.last()@));
                            crate::ordering::lemma_lex_transitive(before[x]@, before.last()@, cv);
                        }
                    } else {
                        assert(out@[x] == before[x] && out@[y] == before[y]);
                    }
                }
            }
            assert forall|t: Seq<char>| kept_has(out@, t) <==> walked_has(ks, order@, p + 1, t) by {
                if kept_has(out@, t) {
                    let a = choose|a: int| 1 <= a < out@.len() && #[trigger] out@[a]@ == t;
                    if a < before.len() {
                        assert(kept_has(before, t));
                        assert(walked_has(ks, order@, p as int, t));
                        let q = choose|q: int| 0 <= q < p && #[trigger] ks[order@[q] as int] == t;
                        assert(0 <= q < p + 1);
                    } else {
                        assert(t == cv);
                        assert(ks[order@[p as int] as int] == t);
                    }
                }
                if walked_has(ks, order@, p + 1, t) {
                    let q = choose|q: int| 0 <= q < p + 1 && #[trigger] ks[order@[q] as int] == t;
                    if q < p {
                        assert(walked_has(ks, order@, p as int, t));
                        assert(kept_has(before, t));
                        let a = choose|a: int| 1 <= a < before.len() && #[trigger] before[a]@ == t;
                        assert(out@[a] == before[a]);
                    } else {
                        assert(t == cv);
                        if !dup {
                            assert(out@[before.len() as int]@ == t);
                        }
                    }
                }
            }
        }
        p = p + 1;
    }
    proof {
        let sv = string_views(out@);
        assert(sv.len() == out@.len());
        assert forall|t: Seq<char>|
            #![trigger options_have(sv, t)]
            #![trigger is_item_status(items@, t)]
            options_have(sv, t) <==> (t.len() > 0 && is_item_status(items@, t)) by {
            if options_have(sv, t) {
                let a = choose|a: int| 1 <= a < sv.len() && #[trigger] sv[a] == t;
                assert(out@[a]@ == t);
                assert(kept_has(out@, t));
                let q = choose|q: int| 0 <= q < order@.len() && #[trigger] ks[order@[q] as int] == t;
                let k = order@[q] as int;
                assert(names@[k]@ == t);
            }
            if t.len() > 0 && is_item_status(items@, t) {
                let j = choose|j: int| 0 <= j < items@.len() && #[trigger] items@[j].state_name@ == t;
                let k = choose|k: int| 0 <= k < names@.len() && #[trigger] names@[k]@ == t;
                assert(ks.len() == names@.len());
                permutation_covers(ks, order@, k);
                let q = choose|q: int| 0 <= q < order@.len() && order@[q] == k;
                assert(ks[order@[q] as int] == t);
                assert(walked_has(ks, order@, order@.len() as int, t));
                assert(kept_has(out@, t));
                let a = choose|a: int| 1 <= a < out@.len() && #[trigger] out@[a]@ == t;
                assert(sv[a] == t);
            }
        }
        assert forall|x: int, y: int| 1 <= x < y < out@.len() implies lex_less(
            #[trigger] string_views(out@)[x],
            #[trigger] string_views(out@)[y],
        ) by {
            assert(lex_less(out@[x]@, out@[y]@));
        }
        assert(string_views(out@)[0] == all_statuses_text());
        assert(string_views(out@).len() == out@.len());
        assert(string_views(out@).len() >= 1);
        assert(forall|p: int, q: int|
            1 <= p < q < string_views(out@).len() ==> lex_less(
                #[trigger] string_views(out@)[p],
                #[trigger] string_views(out@)[q],
            ));
    }
    out
}

pub open spec fn kept_has(out: Seq<String>, t: Seq<char>) -> bool {
    exists|a: int| 1 <= a < out.len() && #[trigger] out[a]@ == t
}

pub open spec fn walked_has(ks: Seq<Seq<char>>, order: Seq<usize>, p: int, t: Seq<char>) -> bool {
    exists|q: int| 0 <= q < p && #[trigger] ks[order[q] as int] == t
}

proof fn status_walk_step(ks: Seq<Seq<char>>, order: Seq<usize>, p: int)
    requires
        is_stable_order(ks, false, order),
        0 <= p < order.len(),
    ensures
        p + 1 < order.len() ==> (lex_less(ks[order[p] as int], ks[order[p + 1] as int])
            || ks[order[p] as int] == ks[order[p + 1] as int]),
{
    if p + 1 < order.len() {
        assert(crate::ordering::sorts_before(ks, false, order[p] as int, order[p + 1] as int));
    }
}

/// A stable order lists every index.
proof fn permutation_covers(ks: Seq<Seq<char>>, order: Seq<usize>, k: int)
    requires
        is_stable_order(ks, false, order),
        0 <= k < ks.len(),
        ks.len() <= usize::MAX,
    ensures
        exists|q: int| 0 <= q < order.len() && order[q] == k,
{
    // distinct entries below ks.len(), as many as ks.len(): all indices occur
    let n = ks.len();
    assert forall|p: int, q: int| 0 <= p < q < order.len() implies order[p] != order[q] by {
        assert(crate::ordering::sorts_before(ks, false, order[p] as int, order[q] as int));
        crate::ordering::lemma_lex_irreflexive(ks[order[p] as int]);
    }
    assert(order.no_duplicates()) by {
        assert forall|p: int, q: int| 0 <= p < order.len() && 0 <= q < order.len() && p != q implies order[p] != order[q] by {
            if p < q {
                assert(crate::ordering::sorts_before(ks, false, order[p] as int, order[q] as int));
                crate::ordering::lemma_lex_irreflexive(ks[order[p] as int]);
            } else {
                assert(crate::ordering::sorts_before(ks, false, order[q] as int, order[p] as int));
                crate::ordering::lemma_lex_irreflexive(ks[order[q] as int]);
            }
        }
    }
    if !(exists|q: int| 0 <= q < order.len() && order[q] == k) {
        let s = order.to_set();
        let small = Set::new(|y: usize| y < n && y != k);
        assert forall|x: usize| s.contains(x) implies small.contains(x) by {
            assert(order.contains(x));
            let q = choose|q: int| 0 <= q < order.len() && order[q] == x;
        }
        assert(s.subset_of(small));
        order.unique_seq_to_set();
        lemma_bounded_usize_set(n as nat, k as usize);
        vstd::set_lib::lemma_len_subset(s, small);
    }
}

proof fn lemma_bounded_usize_set(n: nat, k: usize)
    requires
        k < n,
    ensures
        Set::new(|y: usize| y < n && y != k).finite(),
        Set::new(|y: usize| y < n && y != k).len() < n,
    decreases n,
{
    let full = Set::new(|y: usize| y < n);
    assert(full.finite() && full.len() <= n) by {
        lemma_usize_range(n);
    }
    let s = Set::new(|y: usize| y < n && y != k);
    assert(s =~= full.remove(k));
}

proof fn lemma_usize_range(n: nat)
    ensures
        Set::new(|y: usize| y < n).finite(),
        Set::new(|y: usize| y < n).len() <= n,
    decreases n,
{
    if n == 0 {
        assert(Set::new(|y: usize| y < n) =~= Set::<usize>::empty());
    } else {
        lemma_usize_range((n - 1) as nat);
        let a = Set::new(|y: usize| y < (n - 1) as nat);
        let b = Set::new(|y: usize| y < n);
        if n - 1 <= usize::MAX {
            assert(b =~= a.insert((n - 1) as usize));
        } else {
            assert(b =~= a);
        }
    }
}

/// Position of the first `t` in `v` at or after `i`, or -1.
pub open spec fn first_index_from(v: Seq<String>, t: Seq<char>, i: int) -> int
    decreases v.len() - i,
{
    if i < 0 || i >= v.len() {
        -1
    } else if v[i]@ == t {
        i
    } else {
        first_index_from(v, t, i + 1)
    }
}

/// Position of the previously picked status among the new options, or 0.
pub fn selected_index(options: &Vec<String>, prev: Option<&str>) -> (r: u32)
    ensures
        r == match prev {
            Some(p) => {
                let k = first_index_from(options@, p@, 0);
                if k >= 0 {
                    (k % 0x1_0000_0000) as u32
                } else {
                    0u32
                }
            },
            None => 0u32,
        },
{
    match prev {
        Some(p) => {
            let mut k: usize = 0;
            while k < options.len()
                invariant
                    k <= options.len(),
                    prev == Some(p),
                    first_index_from(options@, p@, 0) == first_index_from(options@, p@, k as int),
                decreases options.len() - k,
            {
                let o = options[k].as_str();
                assert(o@ == options@[k as int]@);
                if same_text(o, p) {
                    assert(first_index_from(options@, p@, k as int) == k as int);
                    return ((k as u64) % 0x1_0000_0000) as u32;
                }
                k = k + 1;
            }
            0
        },
        None => 0,
    }
}

// ---------------------------------------------------------------------------
// Labels
// ---------------------------------------------------------------------------

/// `#{id} — {name}`, an item in the task picker.
pub fn task_label(item: &WorkItem) -> (r: String)
    ensures
        r@ == seq!['#'] + signed_decimal(item.id as int) + " — "@ + item.name@,
{
    let mut t = String::new();
    push_char(&mut t, '#');
    let n = i64_text(item.id);
    push_str(&mut t, n.as_str());
    push_str(&mut t, " — ");
    push_str(&mut t, item.name.as_str());
    t
}

/// `{name} (#{task id})`, a meeting shortcut in the picker.
pub fn meeting_label(m: &DynamicMeeting) -> (r: String)
    ensures
        r@ == m.name@ + " (#"@ + signed_decimal(m.task_id as int) + seq![')'],
{
    let mut t = String::new();
    push_str(&mut t, m.name.as_str());
    push_str(&mut t, " (#");
    let n = i64_text(m.task_id);
    push_str(&mut t, n.as_str());
    push_char(&mut t, ')');
    t
}

/// `h:mm:ss` for a number of seconds.
pub fn fmt_hms(secs: u64) -> (r: String)
    ensures
        r@ == decimal((secs / 3600) as nat) + seq![':'] + zero_padded(((secs % 3600) / 60) as nat, 2)
            + seq![':'] + zero_padded((secs % 60) as nat, 2),
{
    let h = u64_text(secs / 3600);
    let mut t = String::new();
    push_str(&mut t, h.as_str());
    push_char(&mut t, ':');
    push_two_digits(&mut t, ((secs % 3600) / 60) as u32);
    push_char(&mut t, ':');
    push_two_digits(&mut t, (secs % 60) as u32);
    t
}

/// The first characters of the words of `s` (maximal runs of non-White_Space
/// characters), in order.
pub open spec fn word_initials(s: Seq<char>) -> Seq<char>
    decreases s.len(),
{
    if s.len() == 0 {
        Seq::empty()
    } else {
        let starts_word = !unicode_white_space(s.last()) && (s.len() == 1 || unicode_white_space(
            s[s.len() - 2],
        ));
        if starts_word {
            word_initials(s.drop_last()).push(s.last())
        } else {
            word_initials(s.drop_last())
        }
    }
}

pub open spec fn first_two(s: Seq<char>) -> Seq<char> {
    if s.len() <= 2 {
        s
    } else {
        s.take(2)
    }
}

/// The avatar text: the first letters of the first two words, uppercased.
pub fn initials(name: &str) -> (r: String)
    ensures
        r@ == uppercase(first_two(word_initials(name@))),
{
    let cs = chars_of(name);
    let mut picked: Vec<char> = Vec::new();
    let mut i: usize = 0;
    let mut prev_ws = true;
    while i < cs.len()
        invariant
            i <= cs.len(),
            cs@ == name@,
            picked@ == word_initials(cs@.take(i as int)),
            prev_ws == (i == 0 || unicode_white_space(cs@[i - 1])),
        decreases cs.len() - i,
    {
        let ws = is_whitespace(cs[i]);
        assert(cs@.take(i + 1).drop_last() =~= cs@.take(i as int));
        if !ws && prev_ws {
            picked.push(cs[i]);
        }
        prev_ws = ws;
        i = i + 1;
    }
    assert(cs@.take(cs.len() as int) =~= cs@);
    let mut two: Vec<char> = Vec::new();
    let mut k: usize = 0;
    while k < picked.len() && k < 2
        invariant
            k <= picked.len(),
            k <= 2,
            two@ == picked@.take(k as int),
        decreases picked.len() - k,
    {
        two.push(picked[k]);
        k = k + 1;
        assert(two@ =~= picked@.take(k as int));
    }
    assert(two@ =~= first_two(picked@));
    let t = string_of(&two);
    to_uppercase(t.as_str())
}

// ---------------------------------------------------------------------------
// Settings form
// ---------------------------------------------------------------------------

/// A whole-number field: its value, or `default` when it does not read as one.
pub fn parse_or(text: &str, default: i64) -> (r: i64)
    ensures
        r == match parsed_i64(vstd::utf8::encode_utf8(text@)) {
            Some(v) => v,
            None => default,
        },
{
    match parse_i64(text) {
        Some(v) => v,
        None => default,
    }
}

/// One edited row of the meeting shortcuts: its name text, task-id text, and
/// the shortcut it was made from.
pub open spec fn meeting_row_kept(name: Seq<char>, tid: i64) -> bool {
    !(trimmed(name).len() == 0 && tid == 0)
}

pub open spec fn row_task_id(tid_text: Seq<char>) -> i64 {
    match parsed_i64(vstd::utf8::encode_utf8(tid_text)) {
        Some(v) => v,
        None => 0,
    }
}

/// The saved shortcuts: rows with a name or a task id, keeping each
/// shortcut's id and description.
pub open spec fn saved_meetings(rows: Seq<(String, String, DynamicMeeting)>) -> Seq<DynamicMeeting>
    decreases rows.len(),
{
    if rows.len() == 0 {
        Seq::empty()
    } else {
        let (n, t, m) = rows.last();
        let tid = row_task_id(t@);
        if meeting_row_kept(n@, tid) {
            saved_meetings(rows.drop_last()).push(
                DynamicMeeting { id: m.id, name: n, task_id: tid, description: m.description },
            )
        } else {
            saved_meetings(rows.drop_last())
        }
    }
}

/// Turns the edited meeting rows into the shortcuts to save.
pub fn collect_meetings(rows: &Vec<(String, String, DynamicMeeting)>) -> (r: Vec<DynamicMeeting>)
    ensures
        r@ == saved_meetings(rows@),
{
    let mut out: Vec<DynamicMeeting> = Vec::new();
    let mut i: usize = 0;
    while i < rows.len()
        invariant
            i <= rows.len(),
            out@ == saved_meetings(rows@.take(i as int)),
        decreases rows.len() - i,
    {
        let (n, t, m) = &rows[i];
        let tid = parse_or(t.as_str(), 0);
        let name_blank = trim(n.as_str()).as_str().is_empty();
        assert(rows@.take(i + 1).drop_last() =~= rows@.take(i as int));
        assert(rows@.take(i + 1).last() == rows@[i as int]);
        if !(name_blank && tid == 0) {
            out.push(
                DynamicMeeting {
                    id: m.id.clone(),
                    name: n.clone(),
                    task_id: tid,
                    description: m.description.clone(),
                },
            );
        }
        i = i + 1;
    }
    assert(rows@.take(rows.len() as int) =~= rows@);
    out
}

/// The weekly days off ticked in the form (0 = Sunday … 6 = Saturday).
pub fn weekly_off_from_checks(checks: &Vec<bool>) -> (r: Vec<i64>)
    requires
        checks@.len() <= i64::MAX,
    ensures
        forall|d: i64| r@.contains(d) <==> (0 <= d < checks@.len() && checks@[d as int]),
        forall|p: int, q: int| 0 <= p < q < r@.len() ==> #[trigger] r@[p] < #[trigger] r@[q],
{
    let mut out: Vec<i64> = Vec::new();
    let mut i: usize = 0;
    while i < checks.len()
        invariant
            i <= checks.len(),
            checks@.len() <= i64::MAX,
            forall|d: i64| out@.contains(d) <==> (0 <= d < i && checks@[d as int]),
            forall|p: int| 0 <= p < out@.len() ==> 0 <= #[trigger] out@[p] < i,
            forall|p: int, q: int| 0 <= p < q < out@.len() ==> #[trigger] out@[p] < #[trigger] out@[q],
        decreases checks.len() - i,
    {
        let ghost before = out@;
        if checks[i] {
            out.push(i as i64);
            assert forall|d: i64| out@.contains(d) <==> (0 <= d < i + 1 && checks@[d as int]) by {
                if out@.contains(d) {
                    let p = choose|p: int| 0 <= p < out@.len() && out@[p] == d;
                    if p < before.len() {
                        assert(before.contains(d));
                    }
                }
                if 0 <= d < i + 1 && checks@[d as int] {
                    if d < i {
                        assert(before.contains(d));
                        let p = choose|p: int| 0 <= p < before.len() && before[p] == d;
                        assert(out@[p] == d);
                    } else {
                        assert(out@[before.len() as int] == d);
                    }
                }
            }
        } else {
            assert forall|d: i64| out@.contains(d) <==> (0 <= d < i + 1 && checks@[d as int]) by {
                if out@.contains(d) {
                    let p = choose|p: int| 0 <= p < out@.len() && out@[p] == d;
                    assert(d < i);
                }
            }
        }
        i = i + 1;
    }
    out
}

/// The region picked in the form: the second entry is Morocco.
pub fn region_from_choice(selected: u32) -> (r: String)
    ensures
        r@ == if selected == 1 {
            "morocco"@
        } else {
            "none"@
        },
{
    if selected == 1 {
        "morocco".to_owned()
    } else {
        "none".to_owned()
    }
}

/// The form entry showing a region.
pub fn choice_of_region(region: &str) -> (r: u32)
    ensures
        r == if region@ == "morocco"@ {
            1u32
        } else {
            0u32
        },
{
    if same_text(region, "morocco") {
        1
    } else {
        0
    }
}

// ---------------------------------------------------------------------------
// Tray
// ---------------------------------------------------------------------------

/// The tray icon: a different one while a meeting is being tracked.
pub fn tray_icon_name(in_meeting: bool) -> (r: &'static str)
    ensures
        r@ == if in_meeting {
            "appointment-soon"@
        } else {
            "appointment-new"@
        },
{
    if in_meeting {
        "appointment-soon"
    } else {
        "appointment-new"
    }
}

/// One tray-menu row: a labelled command, or a separator (`None`).
pub type MenuRow = Option<(&'static str, TrayCmd)>;

/// The tray menu, top to bottom: Split and Stop only while in a meeting,
/// then Open tasks, Settings, Refresh, a separator, and Quit; each row is its
/// label and command (`None` for a separator).
pub open spec fn tray_menu_rows(in_meeting: bool) -> Seq<Option<(Seq<char>, TrayCmd)>> {
    (if in_meeting {
        seq![
            Some(("⏹▶ Split meeting"@, TrayCmd::Split)),
            Some(("⏹ Stop tracking"@, TrayCmd::StopTracking)),
            None,
        ]
    } else {
        Seq::empty()
    }) + seq![
        Some(("Open tasks…"@, TrayCmd::OpenTasks)),
        Some(("Settings…"@, TrayCmd::OpenSettings)),
        Some(("Refresh"@, TrayCmd::Refresh)),
        None,
        Some(("Quit"@, TrayCmd::Quit)),
    ]
}

pub open spec fn row_view(r: MenuRow) -> Option<(Seq<char>, TrayCmd)> {
    match r {
        Some(p) => Some((p.0@, p.1)),
        None => None,
    }
}

/// The tray menu's rows.
pub fn tray_menu(in_meeting: bool) -> (r: Vec<MenuRow>)
    ensures
        r@.map_values(|x: MenuRow| row_view(x)) == tray_menu_rows(in_meeting),
{
    let mut items: Vec<MenuRow> = Vec::new();
    if in_meeting {
        items.push(Some(("⏹▶ Split meeting", TrayCmd::Split)));
        items.push(Some(("⏹ Stop tracking", TrayCmd::StopTracking)));
        items.push(None);
    }
    items.push(Some(("Open tasks…", TrayCmd::OpenTasks)));
    items.push(Some(("Settings…", TrayCmd::OpenSettings)));
    items.push(Some(("Refresh", TrayCmd::Refresh)));
    items.push(None);
    items.push(Some(("Quit", TrayCmd::Quit)));
    assert(items@.map_values(|x: MenuRow| row_view(x)) =~= tray_menu_rows(in_meeting));
    items
}

// ---------------------------------------------------------------------------
// Account form
// ---------------------------------------------------------------------------

/// `Signed in: {name} (id {id})`.
pub fn signed_in_text(name: &str, id: i64) -> (r: String)
    ensures
        r@ == "Signed in: "@ + name@ + " (id "@ + signed_decimal(id as int) + ")"@,
{
    let mut t = String::new();
    push_str(&mut t, "Signed in: ");
    push_str(&mut t, name);
    push_str(&mut t, " (id ");
    let n = i64_text(id);
    push_str(&mut t, n.as_str());
    push_str(&mut t, ")");
    t
}

/// What the account form shows when the user could not be detected: the
/// last status line when there is one, else a hint to check URL and token.
pub fn detect_failed_text(status: &str) -> (r: String)
    ensures
        r@ == if status@.len() == 0 {
            "Could not detect user — check the URL and token."@
        } else {
            "Could not detect user — "@ + status@
        },
{
    if status.is_empty() {
        "Could not detect user — check the URL and token.".to_owned()
    } else {
        let mut t = String::new();
        push_str(&mut t, "Could not detect user — ");
        push_str(&mut t, status);
        t
    }
}

} // verus!
