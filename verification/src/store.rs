use crate::errors::TodoError;
use crate::task::{Task, TaskView};
use vstd::prelude::*;

verus! {

/// Some stored task carries this id.
pub open spec fn contains_id(ts: Seq<TaskView>, id: u32) -> bool {
    exists|i: int| 0 <= i < ts.len() && ts[i].id == id
}

/// The greatest id among the tasks; zero when there are none.
pub open spec fn max_id(ts: Seq<TaskView>) -> u32
    decreases ts.len(),
{
    if ts.len() == 0 {
        0
    } else {
        let m = max_id(ts.drop_last());
        if ts.last().id > m {
            ts.last().id
        } else {
            m
        }
    }
}

/// The same task with its completion flag flipped.
pub open spec fn flip(t: TaskView) -> TaskView {
    TaskView { id: t.id, description: t.description, completed: !t.completed }
}

/// The list after toggling the first task whose id is `id`; unchanged when
/// no task has it.
pub open spec fn toggle_spec(ts: Seq<TaskView>, id: u32) -> Seq<TaskView>
    decreases ts.len(),
{
    if ts.len() == 0 {
        ts
    } else if ts[0].id == id {
        seq![flip(ts[0])] + ts.skip(1)
    } else {
        seq![ts[0]] + toggle_spec(ts.skip(1), id)
    }
}

/// The list after removing the first task whose id is `id`, the others
/// keeping their order; unchanged when no task has it.
pub open spec fn remove_spec(ts: Seq<TaskView>, id: u32) -> Seq<TaskView>
    decreases ts.len(),
{
    if ts.len() == 0 {
        ts
    } else if ts[0].id == id {
        ts.skip(1)
    } else {
        seq![ts[0]] + remove_spec(ts.skip(1), id)
    }
}

/// How many tasks are completed.
pub open spec fn completed_count_spec(ts: Seq<TaskView>) -> nat
    decreases ts.len(),
{
    if ts.len() == 0 {
        0
    } else {
        completed_count_spec(ts.drop_last()) + if ts.last().completed {
            1nat
        } else {
            0nat
        }
    }
}

/// The store's invariant: ids are unique among the stored tasks.
pub open spec fn wf(ts: Seq<TaskView>) -> bool {
    forall|i: int, j: int| 0 <= i < j < ts.len() ==> ts[i].id != ts[j].id
}

/// The greatest id among the stored tasks, zero when there are none.
pub fn highest_id(tasks: &Vec<Task>) -> (m: u32)
    ensures
        m == max_id(tasks.deep_view()),
{
    let ghost ts = tasks.deep_view();
    let mut m: u32 = 0;
    let mut i: usize = 0;
    assert(ts.take(0) =~= Seq::<TaskView>::empty());
    while i < tasks.len()
        invariant
            i <= tasks@.len(),
            ts == tasks.deep_view(),
            m == max_id(ts.take(i as int)),
        decreases tasks@.len() - i,
    {
        assert(ts.take(i as int + 1).drop_last() =~= ts.take(i as int));
        assert(ts.take(i as int + 1).last() == ts[i as int]);
        let t_id = tasks[i].id;
        assert(t_id == ts[i as int].id);
        if t_id > m {
            m = t_id;
        }
        i += 1;
    }
    assert(ts.take(tasks@.len() as int) =~= ts);
    m
}

/// Appends a fresh incomplete task under the next id: one more than the
/// greatest stored id, so one when the list is empty.
pub fn add_task(tasks: &mut Vec<Task>, description: Vec<u8>) -> (id: u32)
    requires
        max_id(old(tasks).deep_view()) < u32::MAX,
    ensures
        id == max_id(old(tasks).deep_view()) + 1,
        final(tasks).deep_view() == old(tasks).deep_view().push(
            TaskView { id, description: description@, completed: false },
        ),
{
    let id = highest_id(tasks) + 1;
    let ghost d = description@;
    let t = Task::new(id, description);
    tasks.push(t);
    assert(tasks.deep_view() =~= old(tasks).deep_view().push(
        TaskView { id, description: d, completed: false },
    ));
    id
}

/// Flips the completion flag of the task with the given id; reports
/// `NotFound`, changing nothing, when no stored task has it.
pub fn toggle_task(tasks: &mut Vec<Task>, id: u32) -> (r: Result<(), TodoError>)
    ensures
        final(tasks).deep_view() == toggle_spec(old(tasks).deep_view(), id),
        (r matches Ok(u)) <==> contains_id(old(tasks).deep_view(), id),
        r matches Err(e) ==> e == TodoError::NotFound(id) && final(tasks).deep_view() == old(
            tasks,
        ).deep_view(),
{
    let ghost ts = old(tasks).deep_view();
    let mut i: usize = 0;
    while i < tasks.len()
        invariant
            i <= tasks@.len(),
            *tasks == *old(tasks),
            ts == tasks.deep_view(),
            forall|k: int| 0 <= k < i ==> ts[k].id != id,
        decreases tasks@.len() - i,
    {
        if tasks[i].id == id {
            proof {
                assert(ts[i as int].id == id);
                assert(contains_id(ts, id));
            }
            let mut t = tasks.remove(i);
            t.completed = !t.completed;
            tasks.insert(i, t);
            proof {
                lemma_toggle_at_first(ts, id, i as int);
                assert(tasks.deep_view() =~= ts.update(i as int, flip(ts[i as int])));
            }
            return Ok(());
        }
        i += 1;
    }
    proof {
        assert(!contains_id(ts, id));
        lemma_toggle_absent(ts, id);
    }
    Err(TodoError::NotFound(id))
}

/// Removes the task with the given id, the others keeping their order;
/// reports `NotFound`, changing nothing, when no stored task has it.
pub fn del_task(tasks: &mut Vec<Task>, id: u32) -> (r: Result<(), TodoError>)
    ensures
        final(tasks).deep_view() == remove_spec(old(tasks).deep_view(), id),
        (r matches Ok(u)) <==> contains_id(old(tasks).deep_view(), id),
        r matches Err(e) ==> e == TodoError::NotFound(id) && final(tasks).deep_view() == old(
            tasks,
        ).deep_view(),
{
    let ghost ts = old(tasks).deep_view();
    let mut i: usize = 0;
    while i < tasks.len()
        invariant
            i <= tasks@.len(),
            *tasks == *old(tasks),
            ts == tasks.deep_view(),
            forall|k: int| 0 <= k < i ==> ts[k].id != id,
        decreases tasks@.len() - i,
    {
        if tasks[i].id == id {
            proof {
                assert(ts[i as int].id == id);
                assert(contains_id(ts, id));
            }
            tasks.remove(i);
            proof {
                lemma_remove_at_first(ts, id, i as int);
                assert(tasks.deep_view() =~= ts.remove(i as int));
            }
            return Ok(());
        }
        i += 1;
    }
    proof {
        assert(!contains_id(ts, id));
        lemma_remove_absent(ts, id);
    }
    Err(TodoError::NotFound(id))
}

/// Empties the list.
pub fn clear_all_tasks(tasks: &mut Vec<Task>)
    ensures
        final(tasks).deep_view() == Seq::<TaskView>::empty(),
        final(tasks)@.len() == 0,
{
    tasks.clear();
    assert(tasks.deep_view() =~= Seq::<TaskView>::empty());
}

/// How many stored tasks are completed.
pub fn completed_count(tasks: &Vec<Task>) -> (n: usize)
    ensures
        n == completed_count_spec(tasks.deep_view()),
{
    let ghost ts = tasks.deep_view();
    let mut n: usize = 0;
    let mut i: usize = 0;
    assert(ts.take(0) =~= Seq::<TaskView>::empty());
    while i < tasks.len()
        invariant
            i <= tasks@.len(),
            ts == tasks.deep_view(),
            n <= i,
            n == completed_count_spec(ts.take(i as int)),
        decreases tasks@.len() - i,
    {
        assert(ts.take(i as int + 1).drop_last() =~= ts.take(i as int));
        assert(ts.take(i as int + 1).last() == ts[i as int]);
        if tasks[i].completed {
            n += 1;
        }
        i += 1;
    }
    assert(ts.take(tasks@.len() as int) =~= ts);
    n
}

/// Completion percentage of the list, rounded down; zero when it is empty.
pub fn progress_percent(tasks: &Vec<Task>) -> (p: u32)
    ensures
        tasks@.len() == 0 ==> p == 0,
        tasks@.len() > 0 ==> p == completed_count_spec(tasks.deep_view()) * 100 / tasks@.len(),
        p <= 100,
{
    let total = tasks.len();
    if total == 0 {
        return 0;
    }
    let done = completed_count(tasks);
    proof {
        lemma_completed_count_bound(tasks.deep_view());
    }
    let wide: u128 = done as u128 * 100 / total as u128;
    assert(done * 100 / total as int <= 100) by (nonlinear_arith)
        requires
            0 < total,
            0 <= done <= total,
    ;
    wide as u32
}

proof fn lemma_completed_count_bound(ts: Seq<TaskView>)
    ensures
        completed_count_spec(ts) <= ts.len(),
    decreases ts.len(),
{
    if ts.len() > 0 {
        lemma_completed_count_bound(ts.drop_last());
    }
}

/// Law: every stored id is at most the list's greatest id.
pub proof fn lemma_max_id_bounds(ts: Seq<TaskView>)
    ensures
        forall|i: int| 0 <= i < ts.len() ==> #[trigger] ts[i].id <= max_id(ts),
    decreases ts.len(),
{
    if ts.len() > 0 {
        lemma_max_id_bounds(ts.drop_last());
        assert forall|i: int| 0 <= i < ts.len() implies #[trigger] ts[i].id <= max_id(ts) by {
            if i < ts.len() - 1 {
                assert(ts.drop_last()[i] == ts[i]);
                assert(ts.drop_last()[i].id <= max_id(ts.drop_last()));
            } else {
                assert(ts[i] == ts.last());
            }
        }
    }
}

/// Law: the id `add_task` assigns — one more than the greatest stored id —
/// is strictly greater than every id already stored, and becomes the new
/// greatest id. Across any sequence of additions the assigned ids therefore
/// strictly increase, whatever removals came in between; and adding keeps
/// ids unique.
pub proof fn lemma_add_id_fresh(ts: Seq<TaskView>, t: TaskView)
    requires
        max_id(ts) < u32::MAX,
        t.id == max_id(ts) + 1,
    ensures
        forall|i: int| 0 <= i < ts.len() ==> #[trigger] ts[i].id < t.id,
        max_id(ts.push(t)) == t.id,
        wf(ts) ==> wf(ts.push(t)),
{
    lemma_max_id_bounds(ts);
    assert(ts.push(t).drop_last() =~= ts);
    assert(ts.push(t).last() == t);
    assert forall|i: int, j: int| 0 <= i < j < ts.push(t).len() && wf(ts) implies ts.push(t)[i].id
        != ts.push(t)[j].id by {
        if j < ts.len() {
            assert(ts[i].id != ts[j].id);
        } else {
            assert(ts.push(t)[i] == ts[i]);
            assert(ts[i].id < t.id);
        }
    }
}

/// Where the first match sits, toggling is an update at that spot.
proof fn lemma_toggle_at_first(ts: Seq<TaskView>, id: u32, i: int)
    requires
        0 <= i < ts.len(),
        ts[i].id == id,
        forall|k: int| 0 <= k < i ==> ts[k].id != id,
    ensures
        toggle_spec(ts, id) == ts.update(i, flip(ts[i])),
    decreases i,
{
    if i == 0 {
        assert(seq![flip(ts[0])] + ts.skip(1) =~= ts.update(0, flip(ts[0])));
    } else {
        assert(ts.skip(1)[i - 1] == ts[i]);
        assert(forall|k: int| 0 <= k < i - 1 ==> #[trigger] ts.skip(1)[k].id != id);
        lemma_toggle_at_first(ts.skip(1), id, i - 1);
        assert(seq![ts[0]] + ts.skip(1).update(i - 1, flip(ts[i])) =~= ts.update(i, flip(ts[i])));
    }
}

/// Toggling an id that no task carries changes nothing.
pub proof fn lemma_toggle_absent(ts: Seq<TaskView>, id: u32)
    requires
        !contains_id(ts, id),
    ensures
        toggle_spec(ts, id) == ts,
    decreases ts.len(),
{
    if ts.len() > 0 {
        assert(ts[0].id != id);
        assert(!contains_id(ts.skip(1), id)) by {
            if contains_id(ts.skip(1), id) {
                let k = choose|k: int|
                    0 <= k < ts.skip(1).len() && ts.skip(1)[k].id == id;
                assert(ts[k + 1].id == id);
            }
        }
        lemma_toggle_absent(ts.skip(1), id);
        assert(seq![ts[0]] + ts.skip(1) =~= ts);
    }
}

/// Where the first match sits, removal deletes exactly that spot.
proof fn lemma_remove_at_first(ts: Seq<TaskView>, id: u32, i: int)
    requires
        0 <= i < ts.len(),
        ts[i].id == id,
        forall|k: int| 0 <= k < i ==> ts[k].id != id,
    ensures
        remove_spec(ts, id) == ts.remove(i),
    decreases i,
{
    if i == 0 {
        assert(ts.skip(1) =~= ts.remove(0));
    } else {
        assert(ts.skip(1)[i - 1] == ts[i]);
        assert(forall|k: int| 0 <= k < i - 1 ==> #[trigger] ts.skip(1)[k].id != id);
        lemma_remove_at_first(ts.skip(1), id, i - 1);
        assert(seq![ts[0]] + ts.skip(1).remove(i - 1) =~= ts.remove(i));
    }
}

/// Removing an id that no task carries changes nothing.
pub proof fn lemma_remove_absent(ts: Seq<TaskView>, id: u32)
    requires
        !contains_id(ts, id),
    ensures
        remove_spec(ts, id) == ts,
    decreases ts.len(),
{
    if ts.len() > 0 {
        assert(ts[0].id != id);
        assert(!contains_id(ts.skip(1), id)) by {
            if contains_id(ts.skip(1), id) {
                let k = choose|k: int|
                    0 <= k < ts.skip(1).len() && ts.skip(1)[k].id == id;
                assert(ts[k + 1].id == id);
            }
        }
        lemma_remove_absent(ts.skip(1), id);
        assert(seq![ts[0]] + ts.skip(1) =~= ts);
    }
}

/// Law: toggling twice with the same id restores the list exactly — in
/// particular it returns the task to its original completion flag.
pub proof fn lemma_toggle_involution(ts: Seq<TaskView>, id: u32)
    ensures
        toggle_spec(toggle_spec(ts, id), id) == ts,
    decreases ts.len(),
{
    if ts.len() == 0 {
    } else if ts[0].id == id {
        let ts1 = seq![flip(ts[0])] + ts.skip(1);
        assert(ts1[0] == flip(ts[0]));
        assert(ts1.skip(1) =~= ts.skip(1));
        assert(flip(flip(ts[0])) == ts[0]);
        assert(seq![flip(flip(ts[0]))] + ts1.skip(1) =~= ts);
    } else {
        let ts1 = seq![ts[0]] + toggle_spec(ts.skip(1), id);
        assert(ts1[0] == ts[0]);
        assert(ts1.skip(1) =~= toggle_spec(ts.skip(1), id));
        lemma_toggle_involution(ts.skip(1), id);
        assert(seq![ts[0]] + toggle_spec(toggle_spec(ts.skip(1), id), id) =~= ts);
    }
}

/// Law: toggling never changes which ids are stored, and keeps them unique.
pub proof fn lemma_toggle_preserves_ids(ts: Seq<TaskView>, id: u32)
    ensures
        toggle_spec(ts, id).len() == ts.len(),
        forall|i: int|
            0 <= i < ts.len() ==> #[trigger] toggle_spec(ts, id)[i].id == ts[i].id,
        wf(ts) ==> wf(toggle_spec(ts, id)),
    decreases ts.len(),
{
    if ts.len() == 0 {
    } else if ts[0].id == id {
    } else {
        lemma_toggle_preserves_ids(ts.skip(1), id);
    }
}

/// Law: after removing an id from a list with unique ids, no task carries
/// that id any more — so removing it a second time reports `NotFound` —
/// and the ids that remain are still unique.
pub proof fn lemma_remove_removes(ts: Seq<TaskView>, id: u32)
    requires
        wf(ts),
    ensures
        !contains_id(remove_spec(ts, id), id),
        wf(remove_spec(ts, id)),
    decreases ts.len(),
{
    if ts.len() == 0 {
    } else {
        assert(wf(ts.skip(1))) by {
            assert(forall|k: int|
                0 <= k < ts.skip(1).len() ==> ts.skip(1)[k] == #[trigger] ts[k + 1]);
        }
        if ts[0].id == id {
            assert(!contains_id(ts.skip(1), id)) by {
                if contains_id(ts.skip(1), id) {
                    let k = choose|k: int|
                        0 <= k < ts.skip(1).len() && ts.skip(1)[k].id == id;
                    assert(ts[k + 1].id == ts[0].id);
                    assert(false);
                }
            }
        } else {
            lemma_remove_removes(ts.skip(1), id);
            let rs = seq![ts[0]] + remove_spec(ts.skip(1), id);
            assert(!contains_id(rs, id)) by {
                if contains_id(rs, id) {
                    let k = choose|k: int| 0 <= k < rs.len() && rs[k].id == id;
                    if k == 0 {
                        assert(ts[0].id == id);
                    } else {
                        assert(remove_spec(ts.skip(1), id)[k - 1].id == id);
                        assert(contains_id(remove_spec(ts.skip(1), id), id));
                    }
                }
            }
            lemma_remove_keeps_ids(ts.skip(1), id);
            assert(wf(rs)) by {
                assert forall|a: int, b: int| 0 <= a < b < rs.len() implies rs[a].id
                    != rs[b].id by {
                    if a == 0 {
                        let j = choose|j: int|
                            0 <= j < ts.skip(1).len() && remove_spec(ts.skip(1), id)[b - 1].id
                                == ts.skip(1)[j].id;
                        assert(ts[0].id != ts[j + 1].id);
                    } else {
                        assert(remove_spec(ts.skip(1), id)[a - 1].id != remove_spec(
                            ts.skip(1),
                            id,
                        )[b - 1].id);
                    }
                }
            }
        }
    }
}

/// Every id in a list after a removal was an id of the list before it.
pub proof fn lemma_remove_keeps_ids(ts: Seq<TaskView>, id: u32)
    ensures
        forall|i: int|
            0 <= i < remove_spec(ts, id).len() ==> exists|j: int|
                0 <= j < ts.len() && #[trigger] remove_spec(ts, id)[i].id == ts[j].id,
    decreases ts.len(),
{
    if ts.len() == 0 {
    } else if ts[0].id == id {
        assert forall|i: int| 0 <= i < remove_spec(ts, id).len() implies exists|j: int|
            0 <= j < ts.len() && #[trigger] remove_spec(ts, id)[i].id == ts[j].id by {
            assert(remove_spec(ts, id)[i] == ts[i + 1]);
        }
    } else {
        lemma_remove_keeps_ids(ts.skip(1), id);
        let rs = seq![ts[0]] + remove_spec(ts.skip(1), id);
        assert forall|i: int| 0 <= i < rs.len() implies exists|j: int|
            0 <= j < ts.len() && #[trigger] rs[i].id == ts[j].id by {
            if i == 0 {
                assert(rs[0].id == ts[0].id);
            } else {
                assert(rs[i] == remove_spec(ts.skip(1), id)[i - 1]);
                let j = choose|j: int|
                    0 <= j < ts.skip(1).len() && remove_spec(ts.skip(1), id)[i - 1].id
                        == ts.skip(1)[j].id;
                assert(rs[i].id == ts[j + 1].id);
            }
        }
    }
}

} // verus!
