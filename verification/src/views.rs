//! Query views over a task collection: pre-filters (status, identifier
//! range, keyword), the four windowing modes, and the stable ordering.
use vstd::prelude::*;

use crate::date::Date;
use crate::date::spec_date_le;
use crate::date::spec_date_lt;
use crate::date::spec_valid_date;
use crate::date::spec_week_start;
use crate::date::week_range;
use crate::search::description_matches;
use crate::search::lower_of;
use crate::search::spec_contains_sub;
use crate::task::Task;
use vstd::assert_multisets_equal;

verus! {

/// The combined pre-filter of a listing: status, identifier range and
/// keyword, each optional.
pub open spec fn spec_filters_pred(
    show_done: bool,
    show_pending: bool,
    from_id: Option<usize>,
    to_id: Option<usize>,
    keyword: Option<String>,
) -> spec_fn(Task) -> bool {
    |t: Task|
        (if show_done && !show_pending {
            t.done
        } else if show_pending && !show_done {
            !t.done
        } else {
            true
        }) && (match from_id {
            Some(f) => t.id >= f,
            None => true,
        }) && (match to_id {
            Some(to) => t.id <= to,
            None => true,
        }) && (match keyword {
            Some(kw) => spec_contains_sub(lower_of(t.task@), lower_of(kw@)),
            None => true,
        })
}

/// Tasks dated exactly `d`.
pub open spec fn spec_on_date_pred(d: Date) -> spec_fn(Task) -> bool {
    |t: Task| t.date == d
}

/// Tasks dated within the closed window from `lo` to `hi`.
pub open spec fn spec_window_pred(lo: Date, hi: Date) -> spec_fn(Task) -> bool {
    |t: Task| spec_date_le(lo, t.date) && spec_date_le(t.date, hi)
}

/// The default view: unfinished tasks from the week's Monday up to but
/// excluding `today`, together with every task dated exactly `today`.
pub open spec fn spec_default_pred(today: Date) -> spec_fn(Task) -> bool {
    |t: Task|
        (spec_date_le(spec_week_start(today), t.date) && spec_date_lt(t.date, today) && !t.done)
            || t.date == today
}

/// The review digest: unfinished tasks dated strictly before the week's
/// Monday.
pub open spec fn spec_review_pred(today: Date) -> spec_fn(Task) -> bool {
    |t: Task| !t.done && spec_date_lt(t.date, spec_week_start(today))
}

/// The display order: by date ascending; with `by_id`, ties are broken by
/// identifier ascending.
pub open spec fn spec_key_le(a: Task, b: Task, by_id: bool) -> bool {
    spec_date_lt(a.date, b.date) || (a.date == b.date && (!by_id || a.id <= b.id))
}

/// `t` placed behind every element of the sorted sequence `s` that does
/// not come after it, keeping equal keys in arrival order.
pub open spec fn spec_insert_sorted(s: Seq<Task>, t: Task, by_id: bool) -> Seq<Task>
    decreases s.len(),
{
    if s.len() == 0 {
        seq![t]
    } else if spec_key_le(s.last(), t, by_id) {
        s.push(t)
    } else {
        spec_insert_sorted(s.drop_last(), t, by_id).push(s.last())
    }
}

/// Stable insertion sort of `s` under the display order.
pub open spec fn spec_sort_tasks(s: Seq<Task>, by_id: bool) -> Seq<Task>
    decreases s.len(),
{
    if s.len() == 0 {
        Seq::<Task>::empty()
    } else {
        spec_insert_sorted(spec_sort_tasks(s.drop_last(), by_id), s.last(), by_id)
    }
}

/// Every member of a filtered sequence is a member of the sequence.
pub proof fn lemma_filter_subset(s: Seq<Task>, pred: spec_fn(Task) -> bool)
    ensures
        forall|i: int|
            0 <= i < s.filter(pred).len() ==> s.contains(#[trigger] s.filter(pred)[i]),
    decreases s.len(),
{
    reveal(Seq::filter);
    if s.len() > 0 {
        lemma_filter_subset(s.drop_last(), pred);
        let f = s.filter(pred);
        let fd = s.drop_last().filter(pred);
        assert forall|i: int| 0 <= i < f.len() implies s.contains(#[trigger] f[i]) by {
            if pred(s.last()) && i == f.len() - 1 {
                assert(s[s.len() - 1] == f[i]);
            } else {
                assert(f[i] == fd[i]);
                assert(s.drop_last().contains(fd[i]));
                let j = choose|j: int| 0 <= j < s.drop_last().len() && s.drop_last()[j] == fd[i];
                assert(s[j] == fd[i]);
            }
        }
    }
}

/// Every member of an inserted-into sequence is the inserted task or a
/// member of the sequence inserted into.
pub proof fn lemma_insert_sorted_elems(s: Seq<Task>, t: Task, by_id: bool)
    ensures
        spec_insert_sorted(s, t, by_id).len() == s.len() + 1,
        forall|i: int|
            0 <= i < spec_insert_sorted(s, t, by_id).len() ==> (#[trigger] spec_insert_sorted(
                s,
                t,
                by_id,
            )[i] == t || s.contains(spec_insert_sorted(s, t, by_id)[i])),
    decreases s.len(),
{
    let r = spec_insert_sorted(s, t, by_id);
    if s.len() == 0 {
    } else if spec_key_le(s.last(), t, by_id) {
        assert forall|i: int| 0 <= i < r.len() implies (#[trigger] r[i] == t || s.contains(
            r[i],
        )) by {
            if i < s.len() {
                assert(s[i] == r[i]);
            }
        }
    } else {
        lemma_insert_sorted_elems(s.drop_last(), t, by_id);
        let rd = spec_insert_sorted(s.drop_last(), t, by_id);
        assert forall|i: int| 0 <= i < r.len() implies (#[trigger] r[i] == t || s.contains(
            r[i],
        )) by {
            if i == r.len() - 1 {
                assert(r[i] == s.last());
                assert(s[s.len() - 1] == s.last());
            } else {
                assert(r[i] == rd[i]);
                if rd[i] != t {
                    assert(s.drop_last().contains(rd[i]));
                    let j = choose|j: int|
                        0 <= j < s.drop_last().len() && s.drop_last()[j] == rd[i];
                    assert(s[j] == rd[i]);
                }
            }
        }
    }
}

/// Every member of a sorted sequence is a member of the sequence sorted.
pub proof fn lemma_sort_elems(s: Seq<Task>, by_id: bool)
    ensures
        spec_sort_tasks(s, by_id).len() == s.len(),
        forall|i: int|
            0 <= i < spec_sort_tasks(s, by_id).len() ==> s.contains(
                #[trigger] spec_sort_tasks(s, by_id)[i],
            ),
    decreases s.len(),
{
    if s.len() > 0 {
        lemma_sort_elems(s.drop_last(), by_id);
        let sd = spec_sort_tasks(s.drop_last(), by_id);
        lemma_insert_sorted_elems(sd, s.last(), by_id);
        let r = spec_sort_tasks(s, by_id);
        assert forall|i: int| 0 <= i < r.len() implies s.contains(#[trigger] r[i]) by {
            if r[i] == s.last() {
                assert(s[s.len() - 1] == s.last());
            } else {
                assert(sd.contains(r[i]));
                let j = choose|j: int| 0 <= j < sd.len() && sd[j] == r[i];
                assert(s.drop_last().contains(sd[j]));
                let k = choose|k: int| 0 <= k < s.drop_last().len() && s.drop_last()[k] == sd[j];
                assert(s[k] == r[i]);
            }
        }
    }
}

/// Members of a sorted filtered selection come from the source sequence
/// and satisfy the filter.
pub proof fn lemma_selection_elems(s: Seq<Task>, pred: spec_fn(Task) -> bool, by_id: bool)
    ensures
        forall|i: int|
            0 <= i < spec_sort_tasks(s.filter(pred), by_id).len() ==> s.contains(
                #[trigger] spec_sort_tasks(s.filter(pred), by_id)[i],
            ) && pred(spec_sort_tasks(s.filter(pred), by_id)[i]),
{
    broadcast use vstd::seq_lib::group_filter_ensures;

    let f = s.filter(pred);
    lemma_filter_subset(s, pred);
    lemma_sort_elems(f, by_id);
    let r = spec_sort_tasks(f, by_id);
    assert forall|i: int| 0 <= i < r.len() implies s.contains(#[trigger] r[i]) && pred(r[i]) by {
        assert(f.contains(r[i]));
        let j = choose|j: int| 0 <= j < f.len() && f[j] == r[i];
        assert(pred(f[j]));
        assert(s.contains(f[j]));
        let k = choose|k: int| 0 <= k < s.len() && s[k] == f[j];
        assert(s[k] == r[i]);
    }
}

/// Whether `a` comes no later than `b` in the display order.
fn key_le(a: &Task, b: &Task, by_id: bool) -> (r: bool)
    ensures
        r == spec_key_le(*a, *b, by_id),
{
    a.date.lt(&b.date) || (a.date == b.date && (!by_id || a.id <= b.id))
}

/// Inserting at the position found by a right-to-left scan realizes
/// `spec_insert_sorted`.
proof fn lemma_insert_sorted_at(s: Seq<Task>, t: Task, by_id: bool, p: int)
    requires
        0 <= p <= s.len(),
        forall|j: int| p <= j < s.len() ==> !spec_key_le(#[trigger] s[j], t, by_id),
        p > 0 ==> spec_key_le(s[p - 1], t, by_id),
    ensures
        spec_insert_sorted(s, t, by_id) == s.insert(p, t),
    decreases s.len(),
{
    if p == s.len() {
        if s.len() == 0 {
            assert(spec_insert_sorted(s, t, by_id) =~= s.insert(p, t));
        } else {
            assert(spec_key_le(s.last(), t, by_id));
            assert(s.push(t) =~= s.insert(p, t));
        }
    } else {
        assert(!spec_key_le(s.last(), t, by_id));
        lemma_insert_sorted_at(s.drop_last(), t, by_id, p);
        assert(s.drop_last().insert(p, t).push(s.last()) =~= s.insert(p, t));
    }
}

/// Inserts `t` into the sorted vector `out`, after every element that
/// does not come after it.
fn insert_sorted(out: &mut Vec<Task>, t: Task, by_id: bool)
    ensures
        final (out)@ == spec_insert_sorted(old(out)@, t, by_id),
{
    let ghost s0 = out@;
    let mut p = out.len();
    while p > 0 && !key_le(&out[p - 1], &t, by_id)
        invariant
            p <= s0.len(),
            out@ == s0,
            forall|j: int| p <= j < s0.len() ==> !spec_key_le(#[trigger] s0[j], t, by_id),
        decreases p,
    {
        p = p - 1;
    }
    proof {
        lemma_insert_sorted_at(s0, t, by_id, p as int);
    }
    out.insert(p, t);
}

/// Stable sort of the tasks under the display order.
pub fn sort_tasks(tasks: &Vec<Task>, by_id: bool) -> (r: Vec<Task>)
    ensures
        r@ == spec_sort_tasks(tasks@, by_id),
{
    let mut out: Vec<Task> = Vec::new();
    let mut i: usize = 0;
    while i < tasks.len()
        invariant
            i <= tasks@.len(),
            out@ == spec_sort_tasks(tasks@.take(i as int), by_id),
        decreases tasks@.len() - i,
    {
        proof {
            assert(tasks@.take(i as int + 1).drop_last() =~= tasks@.take(i as int));
        }
        insert_sorted(&mut out, tasks[i].clone(), by_id);
        i = i + 1;
    }
    proof {
        assert(tasks@.take(tasks@.len() as int) =~= tasks@);
    }
    out
}

/// Applies the optional pre-filters in order: status, identifier range,
/// keyword (a case-insensitive substring match on the description).
pub fn apply_filters(
    tasks: &Vec<Task>,
    show_done: bool,
    show_pending: bool,
    from_id: Option<usize>,
    to_id: Option<usize>,
    keyword: &Option<String>,
) -> (r: Vec<Task>)
    ensures
        r@ == tasks@.filter(spec_filters_pred(show_done, show_pending, from_id, to_id, *keyword)),
        forall|i: int| 0 <= i < r@.len() ==> tasks@.contains(#[trigger] r@[i]),
{
    proof {
        lemma_filter_subset(
            tasks@,
            spec_filters_pred(show_done, show_pending, from_id, to_id, *keyword),
        );
    }
    let ghost pred = spec_filters_pred(show_done, show_pending, from_id, to_id, *keyword);
    let mut out: Vec<Task> = Vec::new();
    let mut i: usize = 0;
    while i < tasks.len()
        invariant
            i <= tasks@.len(),
            out@ == tasks@.take(i as int).filter(pred),
            pred == spec_filters_pred(show_done, show_pending, from_id, to_id, *keyword),
        decreases tasks@.len() - i,
    {
        let t = &tasks[i];
        let status_ok = if show_done && !show_pending {
            t.done
        } else if show_pending && !show_done {
            !t.done
        } else {
            true
        };
        let from_ok = match from_id {
            Some(f) => t.id >= f,
            None => true,
        };
        let to_ok = match to_id {
            Some(to) => t.id <= to,
            None => true,
        };
        let kw_ok = match keyword {
            Some(kw) => description_matches(t.task.as_str(), kw.as_str()),
            None => true,
        };
        proof {
            reveal(Seq::filter);
            assert(tasks@.take(i as int + 1).drop_last() =~= tasks@.take(i as int));
        }
        if status_ok && from_ok && to_ok && kw_ok {
            out.push(tasks[i].clone());
        }
        i = i + 1;
    }
    proof {
        assert(tasks@.take(tasks@.len() as int) =~= tasks@);
    }
    out
}

/// Tasks dated exactly `d`, ordered by date and identifier.
pub fn select_on_date(tasks: &Vec<Task>, d: Date) -> (r: Vec<Task>)
    ensures
        r@ == spec_sort_tasks(tasks@.filter(spec_on_date_pred(d)), true),
        forall|i: int|
            0 <= i < r@.len() ==> tasks@.contains(#[trigger] r@[i]) && (spec_on_date_pred(d))(
                r@[i],
            ),
{
    proof {
        lemma_selection_elems(tasks@, spec_on_date_pred(d), true);
    }
    let ghost pred = spec_on_date_pred(d);
    let mut sel: Vec<Task> = Vec::new();
    let mut i: usize = 0;
    while i < tasks.len()
        invariant
            i <= tasks@.len(),
            sel@ == tasks@.take(i as int).filter(pred),
            pred == spec_on_date_pred(d),
        decreases tasks@.len() - i,
    {
        proof {
            reveal(Seq::filter);
            assert(tasks@.take(i as int + 1).drop_last() =~= tasks@.take(i as int));
        }
        if tasks[i].date == d {
            sel.push(tasks[i].clone());
        }
        i = i + 1;
    }
    proof {
        assert(tasks@.take(tasks@.len() as int) =~= tasks@);
    }
    sort_tasks(&sel, true)
}

/// Tasks dated within the closed window from `lo` to `hi`, ordered by
/// date, equal dates keeping their arrival order.
pub fn select_window(tasks: &Vec<Task>, lo: Date, hi: Date) -> (r: Vec<Task>)
    ensures
        r@ == spec_sort_tasks(tasks@.filter(spec_window_pred(lo, hi)), false),
        forall|i: int|
            0 <= i < r@.len() ==> tasks@.contains(#[trigger] r@[i]) && (spec_window_pred(lo, hi))(
                r@[i],
            ),
{
    proof {
        lemma_selection_elems(tasks@, spec_window_pred(lo, hi), false);
    }
    let ghost pred = spec_window_pred(lo, hi);
    let mut sel: Vec<Task> = Vec::new();
    let mut i: usize = 0;
    while i < tasks.len()
        invariant
            i <= tasks@.len(),
            sel@ == tasks@.take(i as int).filter(pred),
            pred == spec_window_pred(lo, hi),
        decreases tasks@.len() - i,
    {
        proof {
            reveal(Seq::filter);
            assert(tasks@.take(i as int + 1).drop_last() =~= tasks@.take(i as int));
        }
        if lo.le(&tasks[i].date) && tasks[i].date.le(&hi) {
            sel.push(tasks[i].clone());
        }
        i = i + 1;
    }
    proof {
        assert(tasks@.take(tasks@.len() as int) =~= tasks@);
    }
    sort_tasks(&sel, false)
}

/// The default view's selection: unfinished backlog from the week's
/// Monday up to `today`, plus everything dated `today`, ordered by date
/// and identifier.
pub fn select_default(tasks: &Vec<Task>, today: Date) -> (r: Vec<Task>)
    requires
        spec_valid_date(today),
        1 <= today.year <= 9998,
    ensures
        r@ == spec_sort_tasks(tasks@.filter(spec_default_pred(today)), true),
        forall|i: int|
            0 <= i < r@.len() ==> tasks@.contains(#[trigger] r@[i]) && (spec_default_pred(today))(
                r@[i],
            ),
{
    proof {
        lemma_selection_elems(tasks@, spec_default_pred(today), true);
    }
    let (monday, _sunday) = week_range(&today);
    let ghost pred = spec_default_pred(today);
    let mut sel: Vec<Task> = Vec::new();
    let mut i: usize = 0;
    while i < tasks.len()
        invariant
            i <= tasks@.len(),
            sel@ == tasks@.take(i as int).filter(pred),
            pred == spec_default_pred(today),
            monday == spec_week_start(today),
        decreases tasks@.len() - i,
    {
        proof {
            reveal(Seq::filter);
            assert(tasks@.take(i as int + 1).drop_last() =~= tasks@.take(i as int));
        }
        let t = &tasks[i];
        let is_past_undone = monday.le(&t.date) && t.date.lt(&today) && !t.done;
        let is_today = t.date == today;
        if is_past_undone || is_today {
            sel.push(tasks[i].clone());
        }
        i = i + 1;
    }
    proof {
        assert(tasks@.take(tasks@.len() as int) =~= tasks@);
    }
    sort_tasks(&sel, true)
}

/// The review digest's selection: unfinished tasks dated strictly before
/// the week's Monday, ordered by date, equal dates keeping arrival order.
pub fn select_review(tasks: &Vec<Task>, today: Date) -> (r: Vec<Task>)
    requires
        spec_valid_date(today),
        1 <= today.year <= 9998,
    ensures
        r@ == spec_sort_tasks(tasks@.filter(spec_review_pred(today)), false),
        forall|i: int|
            0 <= i < r@.len() ==> tasks@.contains(#[trigger] r@[i]) && (spec_review_pred(today))(
                r@[i],
            ),
{
    proof {
        lemma_selection_elems(tasks@, spec_review_pred(today), false);
    }
    let (monday, _sunday) = week_range(&today);
    let ghost pred = spec_review_pred(today);
    let mut sel: Vec<Task> = Vec::new();
    let mut i: usize = 0;
    while i < tasks.len()
        invariant
            i <= tasks@.len(),
            sel@ == tasks@.take(i as int).filter(pred),
            pred == spec_review_pred(today),
            monday == spec_week_start(today),
        decreases tasks@.len() - i,
    {
        proof {
            reveal(Seq::filter);
            assert(tasks@.take(i as int + 1).drop_last() =~= tasks@.take(i as int));
        }
        let t = &tasks[i];
        if !t.done && t.date.lt(&monday) {
            sel.push(tasks[i].clone());
        }
        i = i + 1;
    }
    proof {
        assert(tasks@.take(tasks@.len() as int) =~= tasks@);
    }
    sort_tasks(&sel, false)
}

/// Law: the display order is total, so a sorted sequence is ordered at
/// every adjacent pair.
pub open spec fn spec_sorted_tasks(s: Seq<Task>, by_id: bool) -> bool {
    forall|a: int, b: int| 0 <= a < b < s.len() ==> spec_key_le(#[trigger] s[a], #[trigger] s[b], by_id)
}

/// Inserting into a sorted sequence keeps it sorted.
proof fn lemma_insert_sorted_sorted(s: Seq<Task>, t: Task, by_id: bool)
    requires
        spec_sorted_tasks(s, by_id),
    ensures
        spec_sorted_tasks(spec_insert_sorted(s, t, by_id), by_id),
    decreases s.len(),
{
    let r = spec_insert_sorted(s, t, by_id);
    if s.len() == 0 {
    } else if spec_key_le(s.last(), t, by_id) {
        assert forall|a: int, b: int| 0 <= a < b < r.len() implies spec_key_le(
            #[trigger] r[a],
            #[trigger] r[b],
            by_id,
        ) by {
            if b == r.len() - 1 {
                assert(r[a] == s[a]);
                if a < s.len() - 1 {
                    assert(spec_key_le(s[a], s[s.len() - 1], by_id));
                }
            } else {
                assert(r[a] == s[a] && r[b] == s[b]);
            }
        }
    } else {
        assert forall|a: int, b: int| 0 <= a < b < s.len() - 1 implies spec_key_le(
            #[trigger] s.drop_last()[a],
            #[trigger] s.drop_last()[b],
            by_id,
        ) by {
            assert(s.drop_last()[a] == s[a] && s.drop_last()[b] == s[b]);
        }
        lemma_insert_sorted_sorted(s.drop_last(), t, by_id);
        let rd = spec_insert_sorted(s.drop_last(), t, by_id);
        lemma_insert_sorted_elems(s.drop_last(), t, by_id);
        assert forall|a: int, b: int| 0 <= a < b < r.len() implies spec_key_le(
            #[trigger] r[a],
            #[trigger] r[b],
            by_id,
        ) by {
            if b == r.len() - 1 {
                assert(r[b] == s.last());
                assert(r[a] == rd[a]);
                if rd[a] == t {
                    assert(spec_key_le(t, s.last(), by_id));
                } else {
                    assert(s.drop_last().contains(rd[a]));
                    let j = choose|j: int|
                        0 <= j < s.drop_last().len() && s.drop_last()[j] == rd[a];
                    assert(s[j] == rd[a]);
                    assert(spec_key_le(s[j], s[s.len() - 1], by_id));
                }
            } else {
                assert(r[a] == rd[a] && r[b] == rd[b]);
            }
        }
    }
}

/// Law: sorting orders the tasks by the display order and keeps exactly
/// the tasks given, as a multiset.
pub proof fn lemma_sort_tasks_sorted(s: Seq<Task>, by_id: bool)
    ensures
        spec_sorted_tasks(spec_sort_tasks(s, by_id), by_id),
        spec_sort_tasks(s, by_id).to_multiset() == s.to_multiset(),
    decreases s.len(),
{
    broadcast use vstd::seq_lib::group_to_multiset_ensures;

    if s.len() > 0 {
        lemma_sort_tasks_sorted(s.drop_last(), by_id);
        lemma_insert_sorted_sorted(spec_sort_tasks(s.drop_last(), by_id), s.last(), by_id);
        lemma_insert_sorted_multiset(spec_sort_tasks(s.drop_last(), by_id), s.last(), by_id);
        assert(s.drop_last().push(s.last()) =~= s);
        assert(s.drop_last().push(s.last()).to_multiset() == s.to_multiset());
        assert(s.drop_last().to_multiset().insert(s.last()) == s.to_multiset());
    }
}

/// Inserting a task adds exactly it to the multiset of tasks.
proof fn lemma_insert_sorted_multiset(s: Seq<Task>, t: Task, by_id: bool)
    ensures
        spec_insert_sorted(s, t, by_id).to_multiset() == s.to_multiset().insert(t),
    decreases s.len(),
{
    broadcast use vstd::seq_lib::group_to_multiset_ensures;

    if s.len() == 0 {
        assert(seq![t] =~= Seq::<Task>::empty().push(t));
        assert(Seq::<Task>::empty().push(t).to_multiset() == Seq::<Task>::empty()
            .to_multiset()
            .insert(t));
        assert(Seq::<Task>::empty().to_multiset() =~= s.to_multiset());
    } else if spec_key_le(s.last(), t, by_id) {
    } else {
        lemma_insert_sorted_multiset(s.drop_last(), t, by_id);
        let rd = spec_insert_sorted(s.drop_last(), t, by_id);
        assert(rd.push(s.last()).to_multiset() == rd.to_multiset().insert(s.last()));
        assert(s.drop_last().push(s.last()) =~= s);
        assert(s.drop_last().push(s.last()).to_multiset() == s.drop_last()
            .to_multiset()
            .insert(s.last()));
        assert_multisets_equal!(
            s.drop_last().to_multiset().insert(t).insert(s.last()),
            s.drop_last().to_multiset().insert(s.last()).insert(t)
        );
    }
}

} // verus!
