//! The command operations on a store: adding, editing, completing and
//! reusing (rescheduling) tasks, with identifier assignment.
use vstd::prelude::*;

use crate::date::Date;
use crate::date::spec_parse_date;
use crate::date::spec_valid_date;
use crate::store::TaskStore;
use crate::store::lemma_max_id_bound;
use crate::store::spec_max_id;
use crate::task::Task;
use crate::task::TdError;
use crate::task::spec_has_id;
use crate::task::spec_index_of_id;
use crate::task::spec_task_with_id;

verus! {

/// The outcome of an `edit` call on an existing collection.
#[derive(Clone, Copy, PartialEq, Eq, Structural, Debug)]
pub enum EditOutcome {
    Updated,
    NoChanges,
    NotFound,
}

/// The date an operation uses: the given text parsed, or `today` when
/// none was given. Nothing when the given text is malformed.
pub open spec fn spec_chosen_date(date: Option<String>, today: Date) -> Option<Date> {
    match date {
        Some(ds) => spec_parse_date(ds@),
        None => Some(today),
    }
}

/// The task `add` appends for the given inputs.
pub open spec fn spec_added_task(s: Seq<Task>, task: String, chosen: Date) -> Task {
    Task {
        id: (spec_max_id(s) + 1) as usize,
        task: task,
        date: chosen,
        done: false,
        reuse_by: None,
    }
}

/// `t` with its completion flag raised.
pub open spec fn spec_with_done(t: Task) -> Task {
    Task { id: t.id, task: t.task, date: t.date, done: true, reuse_by: t.reuse_by }
}

/// Appends a new task with a fresh identifier, the given description, and
/// the given date (or `today` when none is given). A malformed date aborts
/// before any mutation.
pub fn add(store: &mut TaskStore, task: String, date: Option<String>, today: Date) -> (r: Result<
    usize,
    TdError,
>)
    requires
        old(store).wf(),
        spec_valid_date(today),
        spec_max_id(old(store)@) < usize::MAX,
    ensures
        final (store).wf(),
        match spec_chosen_date(date, today) {
            Some(chosen) => r == Ok::<usize, TdError>((spec_max_id(old(store)@) + 1) as usize)
                && final (store)@ == old(store)@.push(
                spec_added_task(old(store)@, task, chosen),
            ),
            None => r == Err::<usize, TdError>(TdError::InvalidDate) && final (store)@ == old(
                store,
            )@,
        },
{
    let chosen: Date = match date {
        Some(ds) => {
            match Date::parse_date_str(ds.as_str()) {
                Ok(d) => d,
                Err(e) => {
                    return Err(e);
                },
            }
        },
        None => today,
    };
    let max = match store.get_max_id() {
        Ok(m) => m,
        Err(e) => {
            return Err(e);
        },
    };
    let new_id = max + 1;
    proof {
        let s = store@;
        if spec_has_id(s, new_id as int) {
            let w = spec_index_of_id(s, new_id as int);
            assert(0 <= w < s.len() && s[w].id == new_id);
            lemma_max_id_bound(s, w);
        }
    }
    let t = Task { id: new_id, task, date: chosen, done: false, reuse_by: None };
    match store.add_task(t) {
        Ok(_) => Ok(new_id),
        Err(e) => Err(e),
    }
}

/// Marks the task carrying `id` as done, reporting whether one was found.
pub fn mark_done(store: &mut TaskStore, id: usize) -> (found: bool)
    requires
        old(store).wf(),
    ensures
        final (store).wf(),
        found == spec_has_id(old(store)@, id as int),
        found ==> final (store)@ == old(store)@.update(
            spec_index_of_id(old(store)@, id as int),
            spec_with_done(spec_task_with_id(old(store)@, id as int)),
        ),
        !found ==> final (store)@ == old(store)@,
{
    let found = match store.find_task_by_id(id) {
        Ok(f) => f,
        Err(_) => None,
    };
    match found {
        Some(task) => {
            let updated = Task {
                id: task.id,
                task: task.task,
                date: task.date,
                done: true,
                reuse_by: task.reuse_by,
            };
            proof {
                let s = store@;
                let w = spec_index_of_id(s, id as int);
                assert(0 <= w < s.len() && s[w].id == id);
            }
            let r = store.update_task(id, updated);
            match r {
                Ok(b) => b,
                Err(_) => false,
            }
        },
        None => false,
    }
}

/// Edits the description and/or the date of the task carrying `id`.
/// A malformed date aborts before any mutation; a missing identifier or
/// an edit with nothing to change leaves the collection as it was.
pub fn edit(store: &mut TaskStore, id: usize, new_task: Option<String>, new_date: Option<String>)
    -> (r: Result<EditOutcome, TdError>)
    requires
        old(store).wf(),
    ensures
        final (store).wf(),
        !spec_has_id(old(store)@, id as int) ==> r == Ok::<EditOutcome, TdError>(
            EditOutcome::NotFound,
        ) && final (store)@ == old(store)@,
        spec_has_id(old(store)@, id as int) && new_task is None && new_date is None ==> r == Ok::<
            EditOutcome,
            TdError,
        >(EditOutcome::NoChanges) && final (store)@ == old(store)@,
        spec_has_id(old(store)@, id as int) && (new_date matches Some(ds) && spec_parse_date(ds@)
            is None) ==> r == Err::<EditOutcome, TdError>(TdError::InvalidDate) && final (store)@
            == old(store)@,
        spec_has_id(old(store)@, id as int) && (new_task is Some || new_date is Some) && (match
            new_date {
            Some(ds) => spec_parse_date(ds@) is Some,
            None => true,
        }) ==> r == Ok::<EditOutcome, TdError>(EditOutcome::Updated) && final (store)@ == old(
            store,
        )@.update(
            spec_index_of_id(old(store)@, id as int),
            spec_edited_task(
                spec_task_with_id(old(store)@, id as int),
                new_task,
                spec_edit_date(new_date),
            ),
        ),
{
    let found = match store.find_task_by_id(id) {
        Ok(f) => f,
        Err(_) => None,
    };
    match found {
        Some(task) => {
            let parsed: Option<Date> = match &new_date {
                Some(ds) => {
                    match Date::parse_date_str(ds.as_str()) {
                        Ok(d) => Some(d),
                        Err(e) => {
                            return Err(e);
                        },
                    }
                },
                None => None,
            };
            let any_change = new_task.is_some() || parsed.is_some();
            if !any_change {
                return Ok(EditOutcome::NoChanges);
            }
            let updated = Task {
                id: task.id,
                task: (match new_task {
                    Some(nt) => nt,
                    None => task.task,
                }),
                date: (match parsed {
                    Some(d) => d,
                    None => task.date,
                }),
                done: task.done,
                reuse_by: task.reuse_by,
            };
            proof {
                let s = store@;
                let w = spec_index_of_id(s, id as int);
                assert(0 <= w < s.len() && s[w].id == id);
            }
            match store.update_task(id, updated) {
                Ok(_) => Ok(EditOutcome::Updated),
                Err(e) => Err(e),
            }
        },
        None => Ok(EditOutcome::NotFound),
    }
}

/// The parsed replacement date of an `edit`, when one was given.
pub open spec fn spec_edit_date(new_date: Option<String>) -> Option<Date> {
    match new_date {
        Some(ds) => spec_parse_date(ds@),
        None => None,
    }
}

/// `t` with its description and/or date replaced.
pub open spec fn spec_edited_task(t: Task, new_task: Option<String>, new_date: Option<
    Date,
>) -> Task {
    Task {
        id: t.id,
        task: (match new_task {
            Some(nt) => nt,
            None => t.task,
        }),
        date: (match new_date {
            Some(d) => d,
            None => t.date,
        }),
        done: t.done,
        reuse_by: t.reuse_by,
    }
}

/// The root of the reuse chain the new task points at: the reused task's
/// own back-reference when it has one, else the reused task itself.
pub open spec fn spec_reuse_root(t: Task, id: usize) -> usize {
    match t.reuse_by {
        Some(r) => r,
        None => id,
    }
}

/// The task `reuse` spawns for the given inputs.
pub open spec fn spec_reused_task(s: Seq<Task>, id: usize, chosen: Date) -> Task {
    Task {
        id: (spec_max_id(s) + 1) as usize,
        task: spec_task_with_id(s, id as int).task,
        date: chosen,
        done: false,
        reuse_by: Some(spec_reuse_root(spec_task_with_id(s, id as int), id)),
    }
}

/// Reuses (reschedules) the task carrying `id`: spawns a new task with a
/// fresh identifier, the same description, the given date (or `today`),
/// and a back-reference to the chain root, then marks the original done.
pub fn reuse(store: &mut TaskStore, id: usize, date: Option<String>, today: Date) -> (r: Result<
    usize,
    TdError,
>)
    requires
        old(store).wf(),
        spec_valid_date(today),
        spec_max_id(old(store)@) < usize::MAX,
    ensures
        final (store).wf(),
        !spec_has_id(old(store)@, id as int) ==> r == Err::<usize, TdError>(TdError::NotFound)
            && final (store)@ == old(store)@,
        spec_has_id(old(store)@, id as int) ==> match spec_chosen_date(date, today) {
            Some(chosen) => r == Ok::<usize, TdError>((spec_max_id(old(store)@) + 1) as usize)
                && final (store)@ == old(store)@.update(
                spec_index_of_id(old(store)@, id as int),
                spec_with_done(spec_task_with_id(old(store)@, id as int)),
            ).push(spec_reused_task(old(store)@, id, chosen)),
            None => r == Err::<usize, TdError>(TdError::InvalidDate) && final (store)@ == old(
                store,
            )@,
        },
{
    let found = match store.find_task_by_id(id) {
        Ok(f) => f,
        Err(_) => None,
    };
    match found {
        Some(task_to_reuse) => {
            let chosen: Date = match date {
                Some(ds) => {
                    match Date::parse_date_str(ds.as_str()) {
                        Ok(d) => d,
                        Err(e) => {
                            return Err(e);
                        },
                    }
                },
                None => today,
            };
            let max = match store.get_max_id() {
                Ok(m) => m,
                Err(_) => {
                    return Err(TdError::NotFound);
                },
            };
            let new_id = max + 1;
            let new_reuse_by_id = match task_to_reuse.reuse_by {
                Some(r) => r,
                None => id,
            };
            let new_task = Task {
                id: new_id,
                task: task_to_reuse.task.clone(),
                date: chosen,
                done: false,
                reuse_by: Some(new_reuse_by_id),
            };
            proof {
                let s = store@;
                let w = spec_index_of_id(s, id as int);
                assert(0 <= w < s.len() && s[w].id == id);
                if spec_has_id(s, new_id as int) {
                    let v = spec_index_of_id(s, new_id as int);
                    assert(0 <= v < s.len() && s[v].id == new_id);
                    lemma_max_id_bound(s, v);
                }
            }
            let ghost mid = store@;
            let _add_ok = store.add_task(new_task);
            let original_task = Task {
                id: task_to_reuse.id,
                task: task_to_reuse.task,
                date: task_to_reuse.date,
                done: true,
                reuse_by: task_to_reuse.reuse_by,
            };
            proof {
                let s = store@;
                let w = spec_index_of_id(mid, id as int);
                assert(s == mid.push(new_task));
                assert(s[w].id == id);
                crate::task::lemma_task_with_id_unique(s, id as int, w);
            }
            let _upd_ok = store.update_task(id, original_task);
            proof {
                let olds = old(store)@;
                let w = spec_index_of_id(olds, id as int);
                assert(store@ =~= olds.update(w, spec_with_done(spec_task_with_id(olds, id as int))).push(
                    spec_reused_task(olds, id, chosen),
                ));
            }
            Ok(new_id)
        },
        None => Err(TdError::NotFound),
    }
}

} // verus!
