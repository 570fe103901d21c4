//! Rendering of tasks into the texts the command line shows: listing
//! lines with their annotations, the prompt summary, the review digest,
//! and the status messages of the mutating commands.
use vstd::prelude::*;

use crate::date::Date;
use crate::date::spec_date_chars;
use crate::date::spec_date_le;
use crate::date::spec_date_lt;
use crate::date::spec_day_number;
use crate::date::spec_valid_date;
use crate::date::days_between;
use crate::date::lemma_date_le_day_number;
use crate::store::TaskStore;
use crate::task::Task;
use crate::task::TdError;
use crate::task::spec_has_id;
use crate::task::spec_index_of_id;
use crate::task::spec_task_with_id;
use crate::text::dec_string;
use crate::text::pad_left;
use crate::text::spec_dec;
use crate::text::spec_pad_left;
use vstd::string::StrSliceExecFns;
use vstd::string::StringExecFns;

verus! {

/// The annotation part naming the task a record was reused from.
pub open spec fn spec_reused_part(rid: usize) -> Seq<char> {
    "reused from #"@ + spec_dec(rid as int)
}

/// The annotation part counting days overdue.
pub open spec fn spec_overdue_part(days: int) -> Seq<char> {
    "overdue "@ + spec_dec(days) + " days"@
}

/// The date overdue counting measures against: the chain root's date when
/// the back-reference points at an existing record, else the task's own.
pub open spec fn spec_overdue_ref_date(t: Task, s: Seq<Task>) -> Date {
    match t.reuse_by {
        Some(rid) => if spec_has_id(s, rid as int) {
            spec_task_with_id(s, rid as int).date
        } else {
            t.date
        },
        None => t.date,
    }
}

/// Days between the overdue reference date and `today`.
pub open spec fn spec_overdue_days(t: Task, s: Seq<Task>, today: Date) -> int {
    spec_day_number(today) - spec_day_number(spec_overdue_ref_date(t, s))
}

/// The extra annotation of a displayed task: its reuse origin, and, when
/// the task is unfinished and its reference date lies strictly before
/// `today`, the overdue-day count.
pub open spec fn spec_extra_info(t: Task, s: Seq<Task>, today: Date) -> Seq<char> {
    let od = !t.done && spec_date_lt(spec_overdue_ref_date(t, s), today);
    match t.reuse_by {
        Some(rid) => if od {
            " ("@ + spec_reused_part(rid) + ", "@ + spec_overdue_part(
                spec_overdue_days(t, s, today),
            ) + ")"@
        } else {
            " ("@ + spec_reused_part(rid) + ")"@
        },
        None => if od {
            " ("@ + spec_overdue_part(spec_overdue_days(t, s, today)) + ")"@
        } else {
            Seq::<char>::empty()
        },
    }
}

/// The extra annotation of `t`, looking the chain root up in `store`.
pub fn get_task_extra_info(t: &Task, store: &TaskStore, today: Date) -> (r: String)
    requires
        store.wf(),
        spec_valid_date(t.date),
        spec_valid_date(today),
    ensures
        r@ == spec_extra_info(*t, store@, today),
{
    proof {
        reveal_strlit(" (");
        reveal_strlit(")");
        reveal_strlit(", ");
        reveal_strlit("reused from #");
        reveal_strlit("overdue ");
        reveal_strlit(" days");
    }
    let ref_date: Date = match t.reuse_by {
        Some(rid) => {
            match store.find_task_by_id(rid) {
                Ok(Some(orig)) => {
                    proof {
                        let s = store@;
                        let w = spec_index_of_id(s, rid as int);
                        assert(0 <= w < s.len() && s[w] == spec_task_with_id(s, rid as int));
                    }
                    orig.date
                },
                _ => t.date,
            }
        },
        None => t.date,
    };
    let overdue = !t.done && ref_date.lt(&today);
    match t.reuse_by {
        Some(rid) => {
            let mut out = String::from_str(" (");
            out.append("reused from #");
            let rid_str = dec_string(rid);
            out.append(rid_str.as_str());
            if overdue {
                out.append(", ");
                out.append("overdue ");
                let days = days_between(&ref_date, &today);
                let days_str = dec_string(days as usize);
                out.append(days_str.as_str());
                out.append(" days");
            }
            out.append(")");
            proof {
                assert(out@ =~= spec_extra_info(*t, store@, today));
            }
            out
        },
        None => {
            if overdue {
                let mut out = String::from_str(" (");
                out.append("overdue ");
                let days = days_between(&ref_date, &today);
                let days_str = dec_string(days as usize);
                out.append(days_str.as_str());
                out.append(" days");
                out.append(")");
                proof {
                    assert(out@ =~= spec_extra_info(*t, store@, today));
                }
                out
            } else {
                let out = String::new();
                proof {
                    assert(out@ =~= spec_extra_info(*t, store@, today));
                }
                out
            }
        },
    }
}

/// The status column of a listing line.
pub open spec fn spec_status_str(done: bool) -> Seq<char> {
    if done {
        "[✓]"@
    } else {
        "[ ]"@
    }
}

/// The main listing line of a task: its identifier right-aligned in four
/// columns, its status, and its description.
pub open spec fn spec_task_line(t: Task) -> Seq<char> {
    spec_pad_left(spec_dec(t.id as int), 4) + " "@ + spec_status_str(t.done) + " "@ + t.task@
}

/// The line or two lines a displayed task contributes: its main line,
/// and an indented annotation line when the annotation is not empty.
pub open spec fn spec_task_lines(t: Task, s: Seq<Task>, today: Date) -> Seq<Seq<char>> {
    let extra = spec_extra_info(t, s, today);
    if extra.len() == 0 {
        seq![spec_task_line(t)]
    } else {
        seq![spec_task_line(t), "       "@ + extra]
    }
}

/// The lines of a whole selection, in its order.
pub open spec fn spec_listing_lines(sel: Seq<Task>, s: Seq<Task>, today: Date) -> Seq<Seq<char>>
    decreases sel.len(),
{
    if sel.len() == 0 {
        Seq::<Seq<char>>::empty()
    } else {
        spec_listing_lines(sel.drop_last(), s, today) + spec_task_lines(sel.last(), s, today)
    }
}

/// Renders the main line of one task.
fn render_task_line(t: &Task) -> (r: String)
    ensures
        r@ == spec_task_line(*t),
{
    proof {
        reveal_strlit(" ");
        reveal_strlit("[✓]");
        reveal_strlit("[ ]");
    }
    let id_str = dec_string(t.id);
    let mut out = pad_left(id_str.as_str(), 4);
    out.append(" ");
    if t.done {
        out.append("[✓]");
    } else {
        out.append("[ ]");
    }
    out.append(" ");
    out.append(t.task.as_str());
    proof {
        assert(out@ =~= spec_task_line(*t));
    }
    out
}

/// Renders a selection into its listing lines, looking annotations up in
/// the full store.
pub fn render_listing(sel: &Vec<Task>, store: &TaskStore, today: Date) -> (r: Vec<String>)
    requires
        store.wf(),
        crate::task::spec_valid_dates(sel@),
        spec_valid_date(today),
    ensures
        r.deep_view() == spec_listing_lines(sel@, store@, today),
{
    proof {
        reveal_strlit("       ");
    }
    let mut out: Vec<String> = Vec::new();
    let mut i: usize = 0;
    while i < sel.len()
        invariant
            i <= sel@.len(),
            store.wf(),
            crate::task::spec_valid_dates(sel@),
            spec_valid_date(today),
            out.deep_view() == spec_listing_lines(sel@.take(i as int), store@, today),
        decreases sel@.len() - i,
    {
        proof {
            assert(sel@.take(i as int + 1).drop_last() =~= sel@.take(i as int));
            assert(sel@.take(i as int + 1).last() == sel@[i as int]);
        }
        let t = &sel[i];
        let line = render_task_line(t);
        out.push(line);
        let extra = get_task_extra_info(t, store, today);
        if extra.unicode_len() > 0 {
            let mut indent = String::from_str("       ");
            indent.append(extra.as_str());
            out.push(indent);
        }
        i = i + 1;
        proof {
            assert(out.deep_view() =~= spec_listing_lines(sel@.take(i as int), store@, today));
        }
    }
    proof {
        assert(sel@.take(sel@.len() as int) =~= sel@);
    }
    out
}

/// Appends one line to a line vector.
fn push_string(out: &mut Vec<String>, line: String)
    ensures
        final (out).deep_view() == old(out).deep_view().push(line@),
{
    let ghost prev = out@;
    let ghost lv = line@;
    out.push(line);
    proof {
        assert forall|k: int| 0 <= k < out.deep_view().len() implies out.deep_view()[k] == old(
            out,
        ).deep_view().push(lv)[k] by {
            if k < prev.len() {
                assert(out@[k] == prev[k]);
            }
        }
        assert(out.deep_view() =~= old(out).deep_view().push(lv));
    }
}

/// The prompt icon of a task: done, rescheduled-pending, or plain pending.
pub open spec fn spec_icon_str(t: Task) -> Seq<char> {
    if t.done {
        "🟢"@
    } else if t.reuse_by is Some {
        "🟡"@
    } else {
        "🔴"@
    }
}

/// One prompt token: the icon followed by the identifier.
pub open spec fn spec_prompt_token(t: Task) -> Seq<char> {
    spec_icon_str(t) + "#"@ + spec_dec(t.id as int)
}

/// The prompt summary of a selection: its tokens joined by single spaces,
/// empty when the selection is empty.
pub open spec fn spec_prompt_text(sel: Seq<Task>) -> Seq<char>
    decreases sel.len(),
{
    if sel.len() == 0 {
        Seq::<char>::empty()
    } else if sel.len() == 1 {
        spec_prompt_token(sel[0])
    } else {
        spec_prompt_text(sel.drop_last()) + " "@ + spec_prompt_token(sel.last())
    }
}

/// The compact prompt summary: one icon-and-identifier token for each
/// task of the default view's selection, space-joined; empty when the
/// selection is empty.
pub fn prompt_today(store: &TaskStore, today: Date) -> (r: String)
    requires
        store.wf(),
        spec_valid_date(today),
        1 <= today.year <= 9998,
    ensures
        r@ == spec_prompt_text(
            crate::views::spec_sort_tasks(
                store@.filter(crate::views::spec_default_pred(today)),
                true,
            ),
        ),
{
    proof {
        reveal_strlit(" ");
        reveal_strlit("#");
        reveal_strlit("🟢");
        reveal_strlit("🟡");
        reveal_strlit("🔴");
    }
    let all = match store.get_all_tasks() {
        Ok(v) => v,
        Err(_) => Vec::new(),
    };
    let sel = crate::views::select_default(&all, today);
    let mut out = String::new();
    let mut i: usize = 0;
    while i < sel.len()
        invariant
            i <= sel@.len(),
            out@ == spec_prompt_text(sel@.take(i as int)),
        decreases sel@.len() - i,
    {
        proof {
            reveal_strlit(" ");
            reveal_strlit("#");
            reveal_strlit("🟢");
            reveal_strlit("🟡");
            reveal_strlit("🔴");
            assert(sel@.take(i as int + 1).drop_last() =~= sel@.take(i as int));
            assert(sel@.take(i as int + 1).last() == sel@[i as int]);
        }
        if i > 0 {
            out.append(" ");
        }
        let t = &sel[i];
        if t.done {
            out.append("🟢");
        } else if t.reuse_by.is_some() {
            out.append("🟡");
        } else {
            out.append("🔴");
        }
        out.append("#");
        let id_str = dec_string(t.id);
        out.append(id_str.as_str());
        i = i + 1;
        proof {
            assert(out@ =~= spec_prompt_text(sel@.take(i as int)));
        }
    }
    proof {
        assert(sel@.take(sel@.len() as int) =~= sel@);
    }
    out
}

/// One row of the review digest: identifier, date, overdue-day count and
/// the truncated description, column-aligned.
pub open spec fn spec_review_row(t: Task, today: Date) -> Seq<char> {
    crate::text::spec_pad_right(spec_dec(t.id as int), 4) + " "@ + crate::text::spec_pad_right(
        spec_date_chars(t.date),
        11,
    ) + "  "@ + crate::text::spec_pad_right(
        spec_dec(spec_day_number(today) - spec_day_number(t.date)),
        12,
    ) + "   "@ + crate::text::spec_truncate(t.task@, 22) + ":"@
}

/// The rows of the review digest, one per selected task, in order.
pub open spec fn spec_review_rows(sel: Seq<Task>, today: Date) -> Seq<Seq<char>>
    decreases sel.len(),
{
    if sel.len() == 0 {
        Seq::<Seq<char>>::empty()
    } else {
        spec_review_rows(sel.drop_last(), today) + seq![spec_review_row(sel.last(), today)]
    }
}

/// The full review digest: a heading, then either a placeholder when no
/// task qualifies, or the column headers, the rows, and the action help.
pub open spec fn spec_review_lines(s: Seq<Task>, today: Date) -> Seq<Seq<char>> {
    let sel = crate::views::spec_sort_tasks(s.filter(crate::views::spec_review_pred(today)), false);
    if sel.len() == 0 {
        seq![
            ""@,
            "--- Tasks Overdue From Before Current Week ---"@,
            "No tasks currently overdue from before the current week."@,
        ]
    } else {
        seq![
            ""@,
            "--- Tasks Overdue From Before Current Week ---"@,
            "ID   Date         Days Overdue   Task Description"@,
            "---  -----------  ------------   -----------------------"@,
        ] + spec_review_rows(sel, today) + seq![
            ""@,
            "You can choose from the following actions:"@,
            "- Complete task: td done <Task ID>"@,
            "- Reschedule task: td reuse <Old Task ID> --date YYYY-MM-DD"@,
            "- Delete task: td rm <Task ID>"@,
        ]
    }
}

/// Renders one row of the review digest.
fn render_review_row(t: &Task, today: &Date) -> (r: String)
    requires
        spec_valid_date(t.date),
        spec_valid_date(*today),
        spec_date_le(t.date, *today),
    ensures
        r@ == spec_review_row(*t, *today),
{
    proof {
        reveal_strlit(" ");
        reveal_strlit("  ");
        reveal_strlit("   ");
        reveal_strlit(":");
    }
    let id_str = dec_string(t.id);
    let mut out = crate::text::pad_right(id_str.as_str(), 4);
    out.append(" ");
    let date_str = t.date.format_date();
    let date_col = crate::text::pad_right(date_str.as_str(), 11);
    out.append(date_col.as_str());
    out.append("  ");
    let days = days_between(&t.date, today);
    let days_str = dec_string(days as usize);
    let days_col = crate::text::pad_right(days_str.as_str(), 12);
    out.append(days_col.as_str());
    out.append("   ");
    let desc = crate::text::truncate_string(t.task.as_str(), 22);
    out.append(desc.as_str());
    out.append(":");
    proof {
        assert(out@ =~= spec_review_row(*t, *today));
    }
    out
}

/// The review digest: all unfinished tasks dated before the current
/// week's Monday, by date ascending, each with its overdue-day count and
/// a truncated description.
pub fn review(store: &TaskStore, today: Date) -> (r: Vec<String>)
    requires
        store.wf(),
        spec_valid_date(today),
        1 <= today.year <= 9998,
    ensures
        r.deep_view() == spec_review_lines(store@, today),
{
    let all = match store.get_all_tasks() {
        Ok(v) => v,
        Err(_) => Vec::new(),
    };
    let (monday, _sunday) = crate::date::week_range(&today);
    let sel = crate::views::select_review(&all, today);
    let mut out: Vec<String> = Vec::new();
    out.push(String::from_str(""));
    out.push(String::from_str("--- Tasks Overdue From Before Current Week ---"));
    if sel.len() == 0 {
        out.push(String::from_str("No tasks currently overdue from before the current week."));
        proof {
            assert(out.deep_view() =~= spec_review_lines(store@, today));
        }
        out
    } else {
        out.push(String::from_str("ID   Date         Days Overdue   Task Description"));
        out.push(String::from_str("---  -----------  ------------   -----------------------"));
        let ghost head = out.deep_view();
        proof {
            assert(head + spec_review_rows(sel@.take(0), today) =~= head);
            assert forall|k: int| 0 <= k < sel@.len() implies spec_valid_date(
                #[trigger] sel@[k].date,
            ) && (crate::views::spec_review_pred(today))(sel@[k]) by {
                assert(all@.contains(sel@[k]));
                let j = choose|j: int| 0 <= j < all@.len() && all@[j] == sel@[k];
            }
        }
        let mut i: usize = 0;
        while i < sel.len()
            invariant
                i <= sel@.len(),
                spec_valid_date(today),
                monday == crate::date::spec_week_start(today),
                spec_valid_date(monday),
                spec_day_number(monday) <= spec_day_number(today),
                forall|k: int|
                    0 <= k < sel@.len() ==> spec_valid_date(#[trigger] sel@[k].date) && (
                    crate::views::spec_review_pred(today))(sel@[k]),
                out.deep_view() == head + spec_review_rows(sel@.take(i as int), today),
            decreases sel@.len() - i,
        {
            proof {
                assert(out.deep_view().len() == head.len() + spec_review_rows(
                    sel@.take(i as int),
                    today,
                ).len());
            }
            let t = &sel[i];
            proof {
                lemma_date_le_day_number(t.date, monday);
                lemma_date_le_day_number(t.date, today);
            }
            proof {
                assert(sel@.take(i as int + 1).drop_last() =~= sel@.take(i as int));
                assert(sel@.take(i as int + 1).last() == sel@[i as int]);
            }
            let row = render_review_row(t, &today);
            let ghost prev = out@;
            out.push(row);
            i = i + 1;
            proof {
                let si = sel@.take(i as int);
                assert(si.drop_last() =~= sel@.take(i as int - 1));
                assert(si.last() == sel@[i as int - 1]);
                assert(spec_review_rows(si, today) == spec_review_rows(
                    sel@.take(i as int - 1),
                    today,
                ) + seq![spec_review_row(sel@[i as int - 1], today)]);
                let lhs = out.deep_view();
                let rhs = head + spec_review_rows(si, today);
                assert forall|k: int| 0 <= k < lhs.len() implies lhs[k] == rhs[k] by {
                    assert(lhs[k] == out@[k].deep_view());
                    if k < prev.len() {
                        assert(out@[k] == prev[k]);
                        assert(prev[k].deep_view() == (head + spec_review_rows(
                            sel@.take(i as int - 1),
                            today,
                        ))[k]);
                    } else {
                        assert(out@[k] == row);
                    }
                }
                assert(lhs =~= rhs);
            }
        }
        proof {
            assert(sel@.take(sel@.len() as int) =~= sel@);
        }
        push_string(&mut out, String::from_str(""));
        push_string(&mut out, String::from_str("You can choose from the following actions:"));
        push_string(&mut out, String::from_str("- Complete task: td done <Task ID>"));
        push_string(
            &mut out,
            String::from_str("- Reschedule task: td reuse <Old Task ID> --date YYYY-MM-DD"),
        );
        push_string(&mut out, String::from_str("- Delete task: td rm <Task ID>"));
        proof {
            assert(out.deep_view() =~= spec_review_lines(store@, today));
        }
        out
    }
}

/// The message `add` reports: the fresh identifier of the new task.
pub fn added_message(id: usize) -> (r: String)
    ensures
        r@ == "[+] Added task #"@ + spec_dec(id as int),
{
    proof {
        reveal_strlit("[+] Added task #");
    }
    let mut out = String::from_str("[+] Added task #");
    let id_str = dec_string(id);
    out.append(id_str.as_str());
    out
}

/// The message `edit` reports on success.
pub fn updated_message(id: usize) -> (r: String)
    ensures
        r@ == "[✓] Task #"@ + spec_dec(id as int) + " updated."@,
{
    proof {
        reveal_strlit("[✓] Task #");
        reveal_strlit(" updated.");
    }
    let mut out = String::from_str("[✓] Task #");
    let id_str = dec_string(id);
    out.append(id_str.as_str());
    out.append(" updated.");
    out
}

/// The message `edit` reports when nothing was changed.
pub fn no_changes_message(id: usize) -> (r: String)
    ensures
        r@ == "No changes made to task #"@ + spec_dec(id as int) + "."@,
{
    proof {
        reveal_strlit("No changes made to task #");
        reveal_strlit(".");
    }
    let mut out = String::from_str("No changes made to task #");
    let id_str = dec_string(id);
    out.append(id_str.as_str());
    out.append(".");
    out
}

/// The message `done` reports on success.
pub fn marked_done_message(id: usize) -> (r: String)
    ensures
        r@ == "[✓] Task #"@ + spec_dec(id as int) + " marked done."@,
{
    proof {
        reveal_strlit("[✓] Task #");
        reveal_strlit(" marked done.");
    }
    let mut out = String::from_str("[✓] Task #");
    let id_str = dec_string(id);
    out.append(id_str.as_str());
    out.append(" marked done.");
    out
}

/// The message `rm` reports on success.
pub fn removed_message(id: usize) -> (r: String)
    ensures
        r@ == "[-] Task #"@ + spec_dec(id as int) + " removed."@,
{
    proof {
        reveal_strlit("[-] Task #");
        reveal_strlit(" removed.");
    }
    let mut out = String::from_str("[-] Task #");
    let id_str = dec_string(id);
    out.append(id_str.as_str());
    out.append(" removed.");
    out
}

/// The message every identifier-keyed command reports when no task
/// carries the identifier.
pub fn not_found_message(id: usize) -> (r: String)
    ensures
        r@ == "Task #"@ + spec_dec(id as int) + " not found."@,
{
    proof {
        reveal_strlit("Task #");
        reveal_strlit(" not found.");
    }
    let mut out = String::from_str("Task #");
    let id_str = dec_string(id);
    out.append(id_str.as_str());
    out.append(" not found.");
    out
}

/// The message `reuse` reports: the reused identifier and the fresh one.
pub fn reused_message(id: usize, new_id: usize) -> (r: String)
    ensures
        r@ == "[+] Reused task #"@ + spec_dec(id as int) + " as new task #"@ + spec_dec(
            new_id as int,
        ) + ". Original task marked done."@,
{
    proof {
        reveal_strlit("[+] Reused task #");
        reveal_strlit(" as new task #");
        reveal_strlit(". Original task marked done.");
    }
    let mut out = String::from_str("[+] Reused task #");
    let id_str = dec_string(id);
    out.append(id_str.as_str());
    out.append(" as new task #");
    let new_id_str = dec_string(new_id);
    out.append(new_id_str.as_str());
    out.append(". Original task marked done.");
    out
}

/// Appends copies of the lines of `more` to `out`.
fn extend_lines(out: &mut Vec<String>, more: &Vec<String>)
    ensures
        final (out).deep_view() == old(out).deep_view() + more.deep_view(),
{
    let mut i: usize = 0;
    while i < more.len()
        invariant
            i <= more@.len(),
            out.deep_view() == old(out).deep_view() + more.deep_view().take(i as int),
        decreases more@.len() - i,
    {
        push_string(out, more[i].clone());
        i = i + 1;
        proof {
            assert(out.deep_view() =~= old(out).deep_view() + more.deep_view().take(i as int));
        }
    }
    proof {
        assert(more.deep_view().take(more@.len() as int) =~= more.deep_view());
    }
}

/// The heading of a single-date listing, showing the date as given.
pub open spec fn spec_date_header(ds: Seq<char>) -> Seq<char> {
    "--- For "@ + ds + " ---"@
}

/// The heading of the week listing, showing the window.
pub open spec fn spec_week_header(today: Date) -> Seq<char> {
    "--- For Current Week ("@ + spec_date_chars(crate::date::spec_week_start(today)) + " to "@
        + spec_date_chars(crate::date::spec_week_end(today)) + ") ---"@
}

/// The heading of the month listing, showing year and month.
pub open spec fn spec_month_header(today: Date) -> Seq<char> {
    "--- For Current Month ("@ + spec_date_chars(today).take(7) + ") ---"@
}

/// The first day of the month containing `today`.
pub open spec fn spec_month_first(today: Date) -> Date {
    Date { year: today.year, month: today.month, day: 1 }
}

/// The last day of the month containing `today`.
pub open spec fn spec_month_last(today: Date) -> Date {
    Date {
        year: today.year,
        month: today.month,
        day: crate::date::spec_days_in_month(today.year as int, today.month as int) as u32,
    }
}

/// The lines of the `list` command. Exactly one windowing mode applies,
/// chosen by precedence: an explicit date, then the week, then the month,
/// then the default view.
pub fn list(
    store: &TaskStore,
    today: Date,
    date_arg: Option<String>,
    show_week: bool,
    show_month: bool,
    show_done: bool,
    show_pending: bool,
    from_id: Option<usize>,
    to_id: Option<usize>,
    search_keyword: Option<String>,
) -> (r: Result<Vec<String>, TdError>)
    requires
        store.wf(),
        spec_valid_date(today),
        1 <= today.year <= 9998,
    ensures
        ({
            let filtered = store@.filter(
                crate::views::spec_filters_pred(
                    show_done,
                    show_pending,
                    from_id,
                    to_id,
                    search_keyword,
                ),
            );
            match date_arg {
                Some(ds) => match crate::date::spec_parse_date(ds@) {
                    Some(d) => r is Ok && r->Ok_0.deep_view() == seq!["Tasks:"@, spec_date_header(ds@)]
                        + spec_listing_lines(
                        crate::views::spec_sort_tasks(
                            filtered.filter(crate::views::spec_on_date_pred(d)),
                            true,
                        ),
                        store@,
                        today,
                    ),
                    None => r == Err::<Vec<String>, TdError>(crate::task::TdError::InvalidDate),
                },
                None => if show_week {
                    r is Ok && r->Ok_0.deep_view() == seq!["Tasks:"@, spec_week_header(today)]
                        + spec_listing_lines(
                        crate::views::spec_sort_tasks(
                            filtered.filter(
                                crate::views::spec_window_pred(
                                    crate::date::spec_week_start(today),
                                    crate::date::spec_week_end(today),
                                ),
                            ),
                            false,
                        ),
                        store@,
                        today,
                    )
                } else if show_month {
                    r is Ok && r->Ok_0.deep_view() == seq!["Tasks:"@, spec_month_header(today)]
                        + spec_listing_lines(
                        crate::views::spec_sort_tasks(
                            filtered.filter(
                                crate::views::spec_window_pred(
                                    spec_month_first(today),
                                    spec_month_last(today),
                                ),
                            ),
                            false,
                        ),
                        store@,
                        today,
                    )
                } else {
                    let sel = crate::views::spec_sort_tasks(
                        filtered.filter(crate::views::spec_default_pred(today)),
                        true,
                    );
                    r is Ok && r->Ok_0.deep_view() == (if sel.len() == 0 {
                        seq![
                            "Tasks:"@,
                            "--- Current Tasks ---"@,
                            "No tasks for today or overdue this week."@,
                        ]
                    } else {
                        seq!["Tasks:"@, "--- Current Tasks ---"@] + spec_listing_lines(
                            sel,
                            store@,
                            today,
                        )
                    })
                },
            }
        }),
{
    let all = match store.get_all_tasks() {
        Ok(v) => v,
        Err(_) => Vec::new(),
    };
    let filtered = crate::views::apply_filters(
        &all,
        show_done,
        show_pending,
        from_id,
        to_id,
        &search_keyword,
    );
    proof {
        crate::task::lemma_valid_dates_from_contains(filtered@, all@);
    }
    let mut out: Vec<String> = Vec::new();
    push_string(&mut out, String::from_str("Tasks:"));
    match date_arg {
        Some(ds) => {
            let d = match Date::parse_date_str(ds.as_str()) {
                Ok(d) => d,
                Err(e) => {
                    return Err(e);
                },
            };
            let mut hdr = String::from_str("--- For ");
            hdr.append(ds.as_str());
            hdr.append(" ---");
            proof {
                assert(hdr@ =~= spec_date_header(ds@));
            }
            push_string(&mut out, hdr);
            let sel = crate::views::select_on_date(&filtered, d);
            proof {
                crate::task::lemma_valid_dates_from_contains(sel@, filtered@);
            }
            let lines = render_listing(&sel, store, today);
            extend_lines(&mut out, &lines);
            proof {
                assert(out.deep_view() =~= seq!["Tasks:"@, spec_date_header(ds@)]
                    + lines.deep_view());
            }
            Ok(out)
        },
        None => {
            if show_week {
                let (ws, we) = crate::date::week_range(&today);
                let mut hdr = String::from_str("--- For Current Week (");
                let ws_str = ws.format_date();
                hdr.append(ws_str.as_str());
                hdr.append(" to ");
                let we_str = we.format_date();
                hdr.append(we_str.as_str());
                hdr.append(") ---");
                proof {
                    assert(hdr@ =~= spec_week_header(today));
                }
                push_string(&mut out, hdr);
                let sel = crate::views::select_window(&filtered, ws, we);
                proof {
                    crate::task::lemma_valid_dates_from_contains(sel@, filtered@);
                }
                let lines = render_listing(&sel, store, today);
                extend_lines(&mut out, &lines);
                proof {
                    assert(out.deep_view() =~= seq!["Tasks:"@, spec_week_header(today)]
                        + lines.deep_view());
                }
                Ok(out)
            } else if show_month {
                let (mf, ml) = crate::date::month_range(&today);
                let today_str = today.format_date();
                let ym = today_str.as_str().substring_char(0, 7);
                let mut hdr = String::from_str("--- For Current Month (");
                hdr.append(ym);
                hdr.append(") ---");
                proof {
                    assert(hdr@ =~= spec_month_header(today));
                }
                push_string(&mut out, hdr);
                let sel = crate::views::select_window(&filtered, mf, ml);
                proof {
                    crate::task::lemma_valid_dates_from_contains(sel@, filtered@);
                }
                let lines = render_listing(&sel, store, today);
                extend_lines(&mut out, &lines);
                proof {
                    assert(out.deep_view() =~= seq!["Tasks:"@, spec_month_header(today)]
                        + lines.deep_view());
                }
                Ok(out)
            } else {
                push_string(&mut out, String::from_str("--- Current Tasks ---"));
                let sel = crate::views::select_default(&filtered, today);
                proof {
                    crate::task::lemma_valid_dates_from_contains(sel@, filtered@);
                }
                if sel.len() == 0 {
                    push_string(
                        &mut out,
                        String::from_str("No tasks for today or overdue this week."),
                    );
                    proof {
                        assert(out.deep_view() =~= seq![
                            "Tasks:"@,
                            "--- Current Tasks ---"@,
                            "No tasks for today or overdue this week."@,
                        ]);
                    }
                    Ok(out)
                } else {
                    let lines = render_listing(&sel, store, today);
                    extend_lines(&mut out, &lines);
                    proof {
                        assert(out.deep_view() =~= seq!["Tasks:"@, "--- Current Tasks ---"@]
                            + lines.deep_view());
                    }
                    Ok(out)
                }
            }
        },
    }
}

} // verus!
