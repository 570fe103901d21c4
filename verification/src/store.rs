//! The in-memory task store: the authoritative collection for one run,
//! with identifier assignment, lookup and mutation.
use vstd::prelude::*;

use crate::date::spec_valid_date;
use crate::task::Task;
use crate::task::TdError;
use crate::task::lemma_task_with_id_unique;
use crate::task::spec_has_id;
use crate::task::spec_index_of_id;
use crate::task::spec_unique_ids;
use crate::task::spec_valid_dates;
use crate::task::spec_wf;

verus! {

/// Largest identifier among the tasks of `s`, or 0 when `s` is empty.
pub open spec fn spec_max_id(s: Seq<Task>) -> int
    decreases s.len(),
{
    if s.len() == 0 {
        0
    } else {
        let rest = spec_max_id(s.drop_last());
        if s.last().id > rest {
            s.last().id as int
        } else {
            rest
        }
    }
}

/// Every identifier in `s` is at most `spec_max_id(s)`.
pub proof fn lemma_max_id_bound(s: Seq<Task>, i: int)
    requires
        0 <= i < s.len(),
    ensures
        s[i].id <= spec_max_id(s),
        spec_max_id(s) >= 0,
    decreases s.len(),
{
    if i == s.len() - 1 {
        lemma_max_id_nonneg(s);
    } else {
        lemma_max_id_bound(s.drop_last(), i);
        assert(s.drop_last()[i] == s[i]);
    }
}

pub proof fn lemma_max_id_nonneg(s: Seq<Task>)
    ensures
        spec_max_id(s) >= 0,
    decreases s.len(),
{
    if s.len() > 0 {
        lemma_max_id_nonneg(s.drop_last());
    }
}

/// Whether a loaded collection satisfies the store invariant.
fn tasks_well_formed(tasks: &Vec<Task>) -> (ok: bool)
    ensures
        ok == spec_wf(tasks@),
{
    let n = tasks.len();
    let mut ok = true;
    let mut i: usize = 0;
    while i < n
        invariant
            i <= n,
            n == tasks@.len(),
            ok <==> ((forall|a: int| 0 <= a < i ==> spec_valid_date(tasks@[a].date)) && (forall|
                a: int,
                k: int,
            |
                0 <= a < i && a < k < n ==> tasks@[a].id != tasks@[k].id)),
        decreases n - i,
    {
        let date_ok = tasks[i].date.is_valid();
        let mut no_dup = true;
        let mut j: usize = i + 1;
        while j < n
            invariant
                i < j <= n,
                n == tasks@.len(),
                no_dup <==> (forall|k: int| i < k < j ==> tasks@[k].id != tasks@[i as int].id),
            decreases n - j,
        {
            if tasks[j].id == tasks[i].id {
                no_dup = false;
            }
            j = j + 1;
        }
        ok = ok && date_ok && no_dup;
        i = i + 1;
    }
    proof {
        if ok {
            assert(spec_valid_dates(tasks@));
            assert(spec_unique_ids(tasks@));
        } else {
            if spec_wf(tasks@) {
                assert(forall|a: int| 0 <= a < n ==> spec_valid_date(tasks@[a].date));
                assert(forall|a: int, k: int|
                    0 <= a < n && a < k < n ==> tasks@[a].id != tasks@[k].id);
            }
        }
    }
    ok
}

/// The in-memory task collection of one process run.
pub struct TaskStore {
    tasks: Vec<Task>,
}

impl View for TaskStore {
    type V = Seq<Task>;

    closed spec fn view(&self) -> Seq<Task> {
        self.tasks@
    }
}

impl TaskStore {
    /// The collection invariant: unique identifiers, well-formed dates.
    pub open spec fn wf(&self) -> bool {
        spec_wf(self@)
    }

    /// An empty store.
    pub fn new() -> (s: TaskStore)
        ensures
            s@ == Seq::<Task>::empty(),
            s.wf(),
    {
        TaskStore { tasks: Vec::new() }
    }

    /// Populates the store with a loaded collection. A collection that
    /// breaks the invariant (a duplicated identifier or an ill-formed
    /// date) is treated as corrupt and replaced by an empty one.
    pub fn init(tasks: Vec<Task>) -> (s: TaskStore)
        ensures
            s.wf(),
            spec_wf(tasks@) ==> s@ == tasks@,
            !spec_wf(tasks@) ==> s@ == Seq::<Task>::empty(),
    {
        if tasks_well_formed(&tasks) {
            TaskStore { tasks }
        } else {
            TaskStore { tasks: Vec::new() }
        }
    }

    /// A copy of the whole collection.
    pub fn get_all_tasks(&self) -> (r: Result<Vec<Task>, TdError>)
        ensures
            r is Ok,
            r->Ok_0@ == self@,
    {
        let mut out: Vec<Task> = Vec::new();
        let mut i: usize = 0;
        while i < self.tasks.len()
            invariant
                i <= self.tasks@.len(),
                out@ == self.tasks@.take(i as int),
            decreases self.tasks@.len() - i,
        {
            out.push(self.tasks[i].clone());
            i = i + 1;
            proof {
                assert(out@ =~= self.tasks@.take(i as int));
            }
        }
        proof {
            assert(self.tasks@.take(self.tasks@.len() as int) =~= self.tasks@);
        }
        Ok(out)
    }

    /// Appends a task. The caller supplies a fresh identifier and a
    /// well-formed date, so the invariant is preserved.
    pub fn add_task(&mut self, task: Task) -> (r: Result<(), TdError>)
        requires
            old(self).wf(),
            !spec_has_id(old(self)@, task.id as int),
            spec_valid_date(task.date),
        ensures
            r is Ok,
            final(self)@ == old(self)@.push(task),
            final(self).wf(),
    {
        self.tasks.push(task);
        proof {
            let s = self.tasks@;
            assert forall|i: int, j: int| 0 <= i < j < s.len() implies s[i].id != s[j].id by {
                if j == s.len() - 1 {
                    assert(old(self)@[i] == s[i]);
                    if s[i].id == task.id {
                        assert(spec_has_id(old(self)@, task.id as int));
                    }
                }
            }
        }
        Ok(())
    }

    /// Replaces the record carrying `id`, reporting whether one was found.
    /// The replacement keeps the identifier, or introduces a fresh one,
    /// so the invariant is preserved.
    pub fn update_task(&mut self, id: usize, updated_task: Task) -> (r: Result<bool, TdError>)
        requires
            old(self).wf(),
            spec_valid_date(updated_task.date),
            updated_task.id == id || !spec_has_id(old(self)@, updated_task.id as int),
        ensures
            r is Ok,
            r->Ok_0 == spec_has_id(old(self)@, id as int),
            spec_has_id(old(self)@, id as int) ==> final(self)@ == old(self)@.update(
                spec_index_of_id(old(self)@, id as int),
                updated_task,
            ),
            !spec_has_id(old(self)@, id as int) ==> final(self)@ == old(self)@,
            final(self).wf(),
    {
        let ghost s0 = self.tasks@;
        let n = self.tasks.len();
        let mut i: usize = 0;
        while i < n
            invariant
                i <= n,
                n == s0.len(),
                s0 == old(self)@,
                self.tasks@ == s0,
                spec_wf(s0),
                spec_valid_date(updated_task.date),
                updated_task.id == id || !spec_has_id(s0, updated_task.id as int),
                forall|k: int| 0 <= k < i ==> s0[k].id != id,
            decreases n - i,
        {
            if self.tasks[i].id == id {
                proof {
                    lemma_task_with_id_unique(s0, id as int, i as int);
                }
                self.tasks.set(i, updated_task);
                proof {
                    let s = self.tasks@;
                    assert(s == s0.update(i as int, updated_task));
                    assert(spec_has_id(s0, id as int));
                    assert forall|a: int, b: int| 0 <= a < b < s.len() implies s[a].id
                        != s[b].id by {
                        if a != i && b != i {
                            assert(s[a] == s0[a] && s[b] == s0[b]);
                        } else if updated_task.id == id {
                            assert(s0[a].id != s0[b].id);
                        } else {
                            if s0[a].id == updated_task.id {
                                assert(spec_has_id(s0, updated_task.id as int));
                            }
                            if s0[b].id == updated_task.id {
                                assert(spec_has_id(s0, updated_task.id as int));
                            }
                        }
                    }
                    assert forall|k: int| 0 <= k < s.len() implies spec_valid_date(s[k].date) by {
                        if k != i {
                            assert(s[k] == s0[k]);
                        }
                    }
                }
                return Ok(true);
            }
            i = i + 1;
        }
        proof {
            if spec_has_id(s0, id as int) {
                let w = spec_index_of_id(s0, id as int);
                assert(0 <= w < s0.len() && s0[w].id == id);
            }
        }
        Ok(false)
    }

    /// Deletes the record carrying `id`, reporting whether one was found.
    pub fn remove_task(&mut self, id: usize) -> (r: Result<bool, TdError>)
        requires
            old(self).wf(),
        ensures
            r is Ok,
            r->Ok_0 == spec_has_id(old(self)@, id as int),
            spec_has_id(old(self)@, id as int) ==> final(self)@ == old(self)@.remove(
                spec_index_of_id(old(self)@, id as int),
            ),
            !spec_has_id(old(self)@, id as int) ==> final(self)@ == old(self)@,
            !spec_has_id(final(self)@, id as int),
            final(self).wf(),
    {
        let ghost s0 = self.tasks@;
        let n = self.tasks.len();
        let mut i: usize = 0;
        while i < n
            invariant
                i <= n,
                n == s0.len(),
                s0 == old(self)@,
                self.tasks@ == s0,
                spec_wf(s0),
                forall|k: int| 0 <= k < i ==> s0[k].id != id,
            decreases n - i,
        {
            if self.tasks[i].id == id {
                proof {
                    lemma_task_with_id_unique(s0, id as int, i as int);
                }
                self.tasks.remove(i);
                proof {
                    let s = self.tasks@;
                    assert(s == s0.remove(i as int));
                    assert(spec_has_id(s0, id as int));
                    assert forall|a: int, b: int| 0 <= a < b < s.len() implies s[a].id
                        != s[b].id by {
                        let a0: int = if a < i { a } else { a + 1 };
                        let b0: int = if b < i { b } else { b + 1 };
                        assert(s[a] == s0[a0] && s[b] == s0[b0]);
                    }
                    assert forall|k: int| 0 <= k < s.len() implies spec_valid_date(s[k].date) by {
                        let k0: int = if k < i { k } else { k + 1 };
                        assert(s[k] == s0[k0]);
                    }
                    assert forall|k: int| 0 <= k < s.len() implies s[k].id != id by {
                        let k0: int = if k < i { k } else { k + 1 };
                        assert(s[k] == s0[k0]);
                        if k0 != i {
                            assert(s0[k0].id != s0[i as int].id);
                        }
                    }
                }
                return Ok(true);
            }
            i = i + 1;
        }
        proof {
            if spec_has_id(s0, id as int) {
                let w = spec_index_of_id(s0, id as int);
                assert(0 <= w < s0.len() && s0[w].id == id);
            }
        }
        Ok(false)
    }

    /// The largest identifier in the collection, or 0 when it is empty.
    /// Computed fresh from the current state on every call, so a deleted
    /// identifier is never handed out again while a larger one remains.
    pub fn get_max_id(&self) -> (r: Result<usize, TdError>)
        ensures
            r is Ok,
            r->Ok_0 == spec_max_id(self@),
    {
        let mut best: usize = 0;
        let mut i: usize = 0;
        while i < self.tasks.len()
            invariant
                i <= self.tasks@.len(),
                best == spec_max_id(self.tasks@.take(i as int)),
            decreases self.tasks@.len() - i,
        {
            proof {
                assert(self.tasks@.take(i as int + 1).drop_last() =~= self.tasks@.take(i as int));
            }
            if self.tasks[i].id > best {
                best = self.tasks[i].id;
            }
            i = i + 1;
        }
        proof {
            assert(self.tasks@.take(self.tasks@.len() as int) =~= self.tasks@);
        }
        Ok(best)
    }

    /// The record carrying `id`, or nothing when no record carries it.
    pub fn find_task_by_id(&self, id: usize) -> (r: Result<Option<Task>, TdError>)
        requires
            self.wf(),
        ensures
            r is Ok,
            spec_has_id(self@, id as int) ==> r->Ok_0 == Some(
                crate::task::spec_task_with_id(self@, id as int),
            ),
            !spec_has_id(self@, id as int) ==> r->Ok_0 is None,
    {
        let n = self.tasks.len();
        let mut i: usize = 0;
        while i < n
            invariant
                i <= n,
                n == self.tasks@.len(),
                spec_wf(self.tasks@),
                forall|k: int| 0 <= k < i ==> self.tasks@[k].id != id,
            decreases n - i,
        {
            if self.tasks[i].id == id {
                proof {
                    lemma_task_with_id_unique(self.tasks@, id as int, i as int);
                }
                return Ok(Some(self.tasks[i].clone()));
            }
            i = i + 1;
        }
        proof {
            if spec_has_id(self@, id as int) {
                let w = spec_index_of_id(self@, id as int);
                assert(0 <= w < self@.len() && self@[w].id == id);
            }
        }
        Ok(None)
    }

    /// Renders the whole current collection as the persistence text, to
    /// be written to the backing store as one atomic unit by the caller.
    pub fn save_to_disk(&self) -> (r: Result<String, TdError>)
        requires
            self.wf(),
        ensures
            r is Ok,
            r->Ok_0@ == crate::codec::spec_encode_tasks(crate::task::spec_views_of(self@)),
    {
        Ok(crate::codec::encode_tasks(&self.tasks))
    }

    /// Empties the collection, giving a test a known starting state.
    pub fn reset_store_for_testing(&mut self)
        ensures
            final(self)@ == Seq::<Task>::empty(),
            final(self).wf(),
    {
        self.tasks = Vec::new();
    }

    /// Empties the collection, giving a test a known starting state.
    pub fn reset_for_testing_integration(&mut self)
        ensures
            final(self)@ == Seq::<Task>::empty(),
            final(self).wf(),
    {
        self.tasks = Vec::new();
    }
}

} // verus!
