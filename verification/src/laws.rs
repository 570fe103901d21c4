//! The laws of the store and of the reuse operation, stated over the
//! same specification functions the operations' contracts use.
use vstd::prelude::*;

use crate::date::Date;
use crate::ops::spec_added_task;
use crate::ops::spec_reused_task;
use crate::ops::spec_with_done;
use crate::store::lemma_max_id_bound;
use crate::store::lemma_max_id_nonneg;
use crate::store::spec_max_id;
use crate::task::Task;
use crate::task::lemma_task_with_id_unique;
use crate::task::spec_has_id;
use crate::task::spec_index_of_id;
use crate::task::spec_task_with_id;
use crate::task::spec_unique_ids;
use crate::task::spec_wf;

verus! {

/// Law: the largest identifier is attained by some record, so the fresh
/// identifier, one past it, exceeds every existing identifier by exactly
/// one: every identifier is strictly below it, and, unless the collection
/// is empty, some identifier is exactly one below it.
pub proof fn lemma_next_id_exceeds(s: Seq<Task>)
    ensures
        forall|i: int| 0 <= i < s.len() ==> #[trigger] s[i].id < spec_max_id(s) + 1,
        s.len() > 0 ==> exists|i: int|
            0 <= i < s.len() && #[trigger] s[i].id + 1 == spec_max_id(s) + 1,
    decreases s.len(),
{
    lemma_max_id_nonneg(s);
    assert forall|i: int| 0 <= i < s.len() implies #[trigger] s[i].id < spec_max_id(s) + 1 by {
        lemma_max_id_bound(s, i);
    }
    if s.len() > 0 {
        if s.last().id == spec_max_id(s) {
            assert(s[s.len() - 1].id + 1 == spec_max_id(s) + 1);
        } else {
            lemma_next_id_exceeds(s.drop_last());
            assert(spec_max_id(s) == spec_max_id(s.drop_last()));
            let i = choose|i: int|
                0 <= i < s.drop_last().len() && #[trigger] s.drop_last()[i].id + 1 == spec_max_id(
                    s.drop_last(),
                ) + 1;
            assert(s[i].id + 1 == spec_max_id(s) + 1);
        }
    }
}

/// Law: adding a record under the fresh identifier and then looking that
/// identifier up returns exactly the added record.
pub proof fn lemma_add_then_find(s: Seq<Task>, task: String, chosen: Date)
    requires
        spec_wf(s),
        spec_max_id(s) < usize::MAX,
    ensures
        ({
            let t = spec_added_task(s, task, chosen);
            let s2 = s.push(t);
            spec_has_id(s2, t.id as int) && spec_task_with_id(s2, t.id as int) == t
        }),
{
    lemma_max_id_nonneg(s);
    let t = spec_added_task(s, task, chosen);
    let s2 = s.push(t);
    assert(s2[s.len() as int] == t);
    assert(spec_has_id(s2, t.id as int));
    assert forall|i: int, j: int| 0 <= i < j < s2.len() implies s2[i].id != s2[j].id by {
        if j == s2.len() - 1 {
            lemma_max_id_bound(s, i);
        }
    }
    lemma_task_with_id_unique(s2, t.id as int, s.len() as int);
}

/// Law: deleting the record carrying an identifier leaves no record
/// carrying it, so a lookup after the deletion reports it missing; when
/// no record carries the identifier, the collection is left as it was.
pub proof fn lemma_remove_then_find(s: Seq<Task>, id: usize)
    requires
        spec_wf(s),
    ensures
        spec_has_id(s, id as int) ==> !spec_has_id(
            s.remove(spec_index_of_id(s, id as int)),
            id as int,
        ),
{
    if spec_has_id(s, id as int) {
        let w = spec_index_of_id(s, id as int);
        assert(0 <= w < s.len() && s[w].id == id);
        let s2 = s.remove(w);
        assert forall|k: int| 0 <= k < s2.len() implies s2[k].id != id by {
            let k0: int = if k < w {
                k
            } else {
                k + 1
            };
            assert(s2[k] == s[k0]);
            if k0 != w {
                assert(s[k0].id != s[w].id);
            }
        }
        if spec_has_id(s2, id as int) {
            let v = choose|v: int| 0 <= v < s2.len() && s2[v].id == id;
            assert(s2[v].id != id);
        }
    }
}

/// Law: reuse chains stay flat. Reusing a root task yields a record
/// pointing at the root; reusing that record in turn yields a record
/// still pointing at the root, not at the intermediate record.
pub proof fn lemma_reuse_chain_flattens(s: Seq<Task>, a: usize, d1: Date, d2: Date)
    requires
        spec_wf(s),
        spec_has_id(s, a as int),
        spec_task_with_id(s, a as int).reuse_by is None,
        spec_max_id(s) + 1 < usize::MAX,
    ensures
        ({
            let b = spec_reused_task(s, a, d1);
            let s1 = s.update(
                spec_index_of_id(s, a as int),
                spec_with_done(spec_task_with_id(s, a as int)),
            ).push(b);
            let c = spec_reused_task(s1, b.id, d2);
            b.reuse_by == Some(a) && c.reuse_by == Some(a) && b.id != a
        }),
{
    lemma_max_id_nonneg(s);
    let w = spec_index_of_id(s, a as int);
    assert(0 <= w < s.len() && s[w].id == a);
    lemma_task_with_id_unique(s, a as int, w);
    let b = spec_reused_task(s, a, d1);
    let s1 = s.update(w, spec_with_done(spec_task_with_id(s, a as int))).push(b);
    lemma_max_id_bound(s, w);
    assert(b.id != a);
    assert(s1[s.len() as int] == b);
    assert(spec_has_id(s1, b.id as int));
    assert forall|i: int, j: int| 0 <= i < j < s1.len() implies s1[i].id != s1[j].id by {
        if j == s1.len() - 1 {
            assert(s1[i].id == s[i].id);
            lemma_max_id_bound(s, i);
        } else {
            assert(s1[i].id == s[i].id && s1[j].id == s[j].id);
        }
    }
    lemma_task_with_id_unique(s1, b.id as int, s.len() as int);
    assert(spec_task_with_id(s1, b.id as int) == b);
}

} // verus!
