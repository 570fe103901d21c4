//! The task record and the well-formedness conditions of a task collection.
use vstd::prelude::*;

use crate::date::Date;
use crate::date::spec_valid_date;

verus! {

/// One task record: an identifier, a description, a due date, a completion
/// flag, and an optional back-reference to the task it was reused from.
#[derive(Debug)]
pub struct Task {
    pub id: usize,
    pub task: String,
    pub date: Date,
    pub done: bool,
    pub reuse_by: Option<usize>,
}

impl Clone for Task {
    fn clone(&self) -> (r: Task)
        ensures
            r == *self,
    {
        Task {
            id: self.id,
            task: self.task.clone(),
            date: self.date,
            done: self.done,
            reuse_by: self.reuse_by,
        }
    }
}

/// The mathematical value of a task record.
pub ghost struct TaskV {
    pub id: int,
    pub task: Seq<char>,
    pub date: Date,
    pub done: bool,
    pub reuse_by: Option<int>,
}

impl View for Task {
    type V = TaskV;

    open spec fn view(&self) -> TaskV {
        TaskV {
            id: self.id as int,
            task: self.task@,
            date: self.date,
            done: self.done,
            reuse_by: match self.reuse_by {
                Some(r) => Some(r as int),
                None => None,
            },
        }
    }
}

/// The values of a task collection.
pub open spec fn spec_views_of(s: Seq<Task>) -> Seq<TaskV> {
    Seq::new(s.len(), |i: int| s[i]@)
}

/// Errors the core operations report. A missing identifier is non-fatal;
/// a malformed date aborts an operation before any mutation.
#[derive(Clone, Copy, PartialEq, Eq, Structural, Debug)]
pub enum TdError {
    NotFound,
    InvalidDate,
}

/// Some task in `s` carries the identifier `id`.
pub open spec fn spec_has_id(s: Seq<Task>, id: int) -> bool {
    exists|i: int| 0 <= i < s.len() && s[i].id == id
}

/// No two tasks in `s` share an identifier.
pub open spec fn spec_unique_ids(s: Seq<Task>) -> bool {
    forall|i: int, j: int| 0 <= i < j < s.len() ==> s[i].id != s[j].id
}

/// Every task in `s` carries a well-formed calendar date.
pub open spec fn spec_valid_dates(s: Seq<Task>) -> bool {
    forall|i: int| 0 <= i < s.len() ==> spec_valid_date(s[i].date)
}

/// A well-formed collection: unique identifiers and well-formed dates.
pub open spec fn spec_wf(s: Seq<Task>) -> bool {
    spec_unique_ids(s) && spec_valid_dates(s)
}

/// The position of the task carrying `id`; meaningful when `spec_has_id`.
pub open spec fn spec_index_of_id(s: Seq<Task>, id: int) -> int {
    choose|i: int| 0 <= i < s.len() && s[i].id == id
}

/// The task carrying `id`; meaningful when `spec_has_id`.
pub open spec fn spec_task_with_id(s: Seq<Task>, id: int) -> Task {
    s[spec_index_of_id(s, id)]
}

/// A selection drawn from a collection of well-formed dates carries
/// well-formed dates.
pub proof fn lemma_valid_dates_from_contains(sel: Seq<Task>, src: Seq<Task>)
    requires
        forall|i: int| 0 <= i < sel.len() ==> src.contains(#[trigger] sel[i]),
        spec_valid_dates(src),
    ensures
        spec_valid_dates(sel),
{
    assert forall|i: int| 0 <= i < sel.len() implies spec_valid_date(#[trigger] sel[i].date) by {
        assert(src.contains(sel[i]));
        let j = choose|j: int| 0 <= j < src.len() && src[j] == sel[i];
    }
}

/// In a collection with unique identifiers, any member carrying `id`
/// is the task `spec_task_with_id` denotes.
pub proof fn lemma_task_with_id_unique(s: Seq<Task>, id: int, i: int)
    requires
        spec_unique_ids(s),
        0 <= i < s.len(),
        s[i].id == id,
    ensures
        spec_index_of_id(s, id) == i,
        spec_task_with_id(s, id) == s[i],
{
    assert(spec_has_id(s, id));
    let j = spec_index_of_id(s, id);
    assert(0 <= j < s.len() && s[j].id == id);
    if i != j {
        assert(s[i].id != s[j].id);
    }
}

} // verus!
