use vstd::prelude::*;
use crate::store::{
    TaskView, add_spec, delete_spec, first_index, has_id, lemma_first_index,
    lemma_first_index_unique, mark_spec, next_id,
};

verus! {

/// Every task's identifier equals its position plus one, the shape a store
/// has when it was built from empty by add operations alone.
pub open spec fn sequential_ids(ts: Seq<TaskView>) -> bool {
    forall|i: int| 0 <= i < ts.len() ==> (#[trigger] ts[i]).id == i + 1
}

/// No two tasks carry the same identifier.
pub open spec fn distinct_ids(ts: Seq<TaskView>) -> bool {
    forall|i: int, j: int|
        0 <= i < j < ts.len() ==> (#[trigger] ts[i]).id != (#[trigger] ts[j]).id
}

/// How many tasks carry the given identifier.
pub open spec fn count_id(ts: Seq<TaskView>, id: u32) -> nat
    decreases ts.len(),
{
    if ts.len() == 0 {
        0
    } else {
        count_id(ts.drop_last(), id) + (if ts.last().id == id {
            1nat
        } else {
            0nat
        })
    }
}

/// The empty store has position-based identifiers.
pub proof fn lemma_empty_sequential()
    ensures
        sequential_ids(Seq::<TaskView>::empty()),
{
}

/// Position-based identifiers are pairwise distinct.
pub proof fn lemma_sequential_distinct(ts: Seq<TaskView>)
    requires
        sequential_ids(ts),
    ensures
        distinct_ids(ts),
{
    assert forall|i: int, j: int| 0 <= i < j < ts.len() implies (#[trigger] ts[i]).id != (
    #[trigger] ts[j]).id by {
        assert(ts[i].id == i + 1);
        assert(ts[j].id == j + 1);
    }
}

/// Adding keeps identifiers position-based: the new task gets `length + 1`,
/// the slot just past the existing ones. So any store built from empty by
/// adds alone has pairwise-distinct identifiers, each matching the exact
/// length-based assignment rule.
pub proof fn lemma_add_sequential(ts: Seq<TaskView>, d: Seq<char>)
    requires
        sequential_ids(ts),
        ts.len() < u32::MAX,
    ensures
        sequential_ids(add_spec(ts, d)),
        distinct_ids(add_spec(ts, d)),
{
    let r = add_spec(ts, d);
    assert(r[ts.len() as int].id == next_id(ts));
    assert(forall|i: int| 0 <= i < ts.len() ==> #[trigger] r[i] == ts[i]);
    lemma_sequential_distinct(r);
}

/// Setting a task complete and then incomplete gives exactly the store in
/// which it was only set incomplete: the task keeps its identifier and
/// description and ends with a clear flag, every other task is untouched,
/// and an absent identifier changes nothing at all.
pub proof fn lemma_mark_round_trip(ts: Seq<TaskView>, id: u32)
    ensures
        mark_spec(mark_spec(ts, id, true), id, false) == mark_spec(ts, id, false),
        !has_id(ts, id) ==> mark_spec(mark_spec(ts, id, true), id, false) == ts,
        has_id(ts, id) ==> {
            let i = first_index(ts, id);
            let r = mark_spec(mark_spec(ts, id, true), id, false);
            &&& r.len() == ts.len()
            &&& r[i].id == ts[i].id
            &&& r[i].description == ts[i].description
            &&& !r[i].completed
            &&& forall|j: int| 0 <= j < ts.len() && j != i ==> r[j] == ts[j]
        },
{
    lemma_first_index(ts, id);
    if has_id(ts, id) {
        let i = first_index(ts, id);
        let s1 = mark_spec(ts, id, true);
        assert(forall|j: int| 0 <= j < i ==> #[trigger] s1[j] == ts[j]);
        assert(s1[i].id == id);
        lemma_first_index_unique(s1, id, i);
        assert(mark_spec(s1, id, false) =~= mark_spec(ts, id, false));
    }
}

/// A store never keeps a task with a deleted identifier; deleting shrinks
/// the store by exactly the number of tasks that carried the identifier
/// (by one when exactly one did); deleting an identifier that no task
/// carries leaves the store unchanged.
pub proof fn lemma_delete_effect(ts: Seq<TaskView>, id: u32)
    ensures
        !has_id(delete_spec(ts, id), id),
        count_id(ts, id) <= ts.len(),
        delete_spec(ts, id).len() == ts.len() - count_id(ts, id),
        count_id(ts, id) == 1 ==> delete_spec(ts, id).len() == ts.len() - 1,
        count_id(ts, id) == 0 <==> !has_id(ts, id),
        !has_id(ts, id) ==> delete_spec(ts, id) == ts,
    decreases ts.len(),
{
    if ts.len() == 0 {
        assert(!has_id(delete_spec(ts, id), id));
        assert(!has_id(ts, id));
    } else {
        let front = ts.drop_last();
        lemma_delete_effect(front, id);
        let df = delete_spec(front, id);
        let d = delete_spec(ts, id);
        if ts.last().id == id {
            assert(d == df);
        } else {
            assert(d == df.push(ts.last()));
            assert forall|j: int| 0 <= j < d.len() implies (#[trigger] d[j]).id != id by {
                if j < df.len() {
                    assert(d[j] == df[j]);
                } else {
                    assert(d[j] == ts.last());
                }
            }
        }
        // relate has_id on the whole store to the front and the last task
        if has_id(ts, id) {
            let w = choose|w: int| 0 <= w < ts.len() && ts[w].id == id;
            if w < ts.len() - 1 {
                assert(front[w].id == id);
                assert(has_id(front, id));
            }
        }
        if has_id(front, id) {
            let w = choose|w: int| 0 <= w < front.len() && front[w].id == id;
            assert(ts[w].id == id);
            assert(has_id(ts, id));
        }
        if ts.last().id == id {
            assert(ts[ts.len() - 1].id == id);
            assert(has_id(ts, id));
        }
        if !has_id(ts, id) {
            assert(ts.last().id != id);
            assert(!has_id(front, id));
            assert(df == front);
            assert(d == front.push(ts.last()));
            assert(front.push(ts.last()) =~= ts);
        }
    }
}

} // verus!
