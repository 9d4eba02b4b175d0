use vstd::prelude::*;
use vstd::string::*;
use crate::digits::{dec_rep, push_u32};

verus! {

/// One to-do item: an identifier, its description text, and a completion flag.
pub struct Task {
    pub id: u32,
    pub description: String,
    pub completed: bool,
}

/// The mathematical model of a task: the identifier, the description as a
/// sequence of characters, and the completion flag.
pub struct TaskView {
    pub id: u32,
    pub description: Seq<char>,
    pub completed: bool,
}

impl View for Task {
    type V = TaskView;

    open spec fn view(&self) -> TaskView {
        TaskView { id: self.id, description: self.description@, completed: self.completed }
    }
}

/// The ordered collection of tasks; order is insertion order.
pub struct TodoList {
    pub tasks: Vec<Task>,
}

/// The model of a task vector: the sequence of its tasks' models.
pub open spec fn tasks_view(v: Vec<Task>) -> Seq<TaskView> {
    Seq::new(v@.len(), |i: int| v@[i]@)
}

impl View for TodoList {
    type V = Seq<TaskView>;

    open spec fn view(&self) -> Seq<TaskView> {
        tasks_view(self.tasks)
    }
}

/// The identifier the next added task receives: the current length plus one.
pub open spec fn next_id(ts: Seq<TaskView>) -> u32 {
    (ts.len() + 1) as u32
}

/// What add does to the store: append a fresh, uncompleted task.
pub open spec fn add_spec(ts: Seq<TaskView>, d: Seq<char>) -> Seq<TaskView> {
    ts.push(TaskView { id: next_id(ts), description: d, completed: false })
}

/// Whether some task in the store carries the given identifier.
pub open spec fn has_id(ts: Seq<TaskView>, id: u32) -> bool {
    exists|i: int| 0 <= i < ts.len() && ts[i].id == id
}

/// Index of the first task with the given identifier, or -1 if there is none.
pub open spec fn first_index(ts: Seq<TaskView>, id: u32) -> int
    decreases ts.len(),
{
    if ts.len() == 0 {
        -1
    } else if ts[0].id == id {
        0
    } else if first_index(ts.drop_first(), id) == -1 {
        -1
    } else {
        first_index(ts.drop_first(), id) + 1
    }
}

/// What setting the completion flag does to the store: update the first task
/// with the identifier, or leave the store alone when the identifier is absent.
pub open spec fn mark_spec(ts: Seq<TaskView>, id: u32, completed: bool) -> Seq<TaskView> {
    let i = first_index(ts, id);
    if i == -1 {
        ts
    } else {
        ts.update(i, TaskView { id: ts[i].id, description: ts[i].description, completed })
    }
}

/// What rename does to the store: replace the description of the first task
/// with the identifier, or leave the store alone when the identifier is absent.
pub open spec fn rename_spec(ts: Seq<TaskView>, id: u32, d: Seq<char>) -> Seq<TaskView> {
    let i = first_index(ts, id);
    if i == -1 {
        ts
    } else {
        ts.update(i, TaskView { id: ts[i].id, description: d, completed: ts[i].completed })
    }
}

/// What delete does to the store: drop every task with the identifier,
/// keeping the relative order of the rest.
pub open spec fn delete_spec(ts: Seq<TaskView>, id: u32) -> Seq<TaskView>
    decreases ts.len(),
{
    if ts.len() == 0 {
        Seq::empty()
    } else {
        let front = delete_spec(ts.drop_last(), id);
        if ts.last().id == id {
            front
        } else {
            front.push(ts.last())
        }
    }
}

/// `first_index` finds the given identifier exactly when some task carries it,
/// and then returns the smallest index of such a task.
pub proof fn lemma_first_index(ts: Seq<TaskView>, id: u32)
    ensures
        has_id(ts, id) <==> first_index(ts, id) != -1,
        first_index(ts, id) != -1 ==> 0 <= first_index(ts, id) < ts.len()
            && ts[first_index(ts, id)].id == id
            && (forall|j: int| 0 <= j < first_index(ts, id) ==> ts[j].id != id),
        first_index(ts, id) == -1 ==> forall|j: int| 0 <= j < ts.len() ==> ts[j].id != id,
    decreases ts.len(),
{
    if ts.len() == 0 {
    } else if ts[0].id == id {
    } else {
        let rest = ts.drop_first();
        lemma_first_index(rest, id);
        assert(forall|j: int| 1 <= j < ts.len() ==> ts[j] == rest[j - 1]);
        if has_id(ts, id) {
            let w = choose|w: int| 0 <= w < ts.len() && ts[w].id == id;
            assert(rest[w - 1].id == id);
            assert(has_id(rest, id));
        }
        if has_id(rest, id) {
            let w = choose|w: int| 0 <= w < rest.len() && rest[w].id == id;
            assert(ts[w + 1].id == id);
            assert(has_id(ts, id));
        }
    }
}

/// Any index that carries the identifier and has none before it is the
/// index `first_index` returns.
pub proof fn lemma_first_index_unique(ts: Seq<TaskView>, id: u32, k: int)
    requires
        0 <= k < ts.len(),
        ts[k].id == id,
        forall|j: int| 0 <= j < k ==> ts[j].id != id,
    ensures
        first_index(ts, id) == k,
    decreases ts.len(),
{
    if k == 0 {
    } else {
        let rest = ts.drop_first();
        assert(forall|j: int| 1 <= j < ts.len() ==> ts[j] == rest[j - 1]);
        lemma_first_index_unique(rest, id, k - 1);
    }
}

impl TodoList {
    /// An empty store, as used before any task file exists.
    pub fn new() -> (r: TodoList)
        ensures
            r@ == Seq::<TaskView>::empty(),
    {
        let r = TodoList { tasks: Vec::new() };
        proof {
            assert(r@ =~= Seq::<TaskView>::empty());
        }
        r
    }
}

/// Appends a new task with identifier `length + 1`, the given description and
/// a clear completion flag, and returns the confirmation message.
pub fn add_task(todo_list: &mut TodoList, description: String) -> (msg: String)
    requires
        old(todo_list)@.len() < u32::MAX,
    ensures
        final(todo_list)@ == add_spec(old(todo_list)@, description@),
        msg@ == "Task added successfully"@,
{
    let ghost d: Seq<char> = description@;
    let id = (todo_list.tasks.len() + 1) as u32;
    let task = Task { id, description, completed: false };
    todo_list.tasks.push(task);
    proof {
        assert(todo_list@ =~= add_spec(old(todo_list)@, d));
    }
    String::from_str("Task added successfully")
}

/// Sets the completion flag of the first task with the given identifier and
/// reports which way it was set, or reports that no task was found.
pub fn mark_task(todo_list: &mut TodoList, id: u32, completed: bool) -> (msg: String)
    ensures
        final(todo_list)@ == mark_spec(old(todo_list)@, id, completed),
        has_id(old(todo_list)@, id) && completed ==> msg@ == "Task marked as complete."@,
        has_id(old(todo_list)@, id) && !completed ==> msg@ == "Task marked as incomplete."@,
        !has_id(old(todo_list)@, id) ==> msg@ == "Task not found."@,
{
    let n = todo_list.tasks.len();
    let mut k: usize = 0;
    while k < n
        invariant
            n == todo_list.tasks.len(),
            0 <= k <= n,
            *todo_list == *old(todo_list),
            forall|j: int| 0 <= j < k ==> todo_list@[j].id != id,
        decreases n - k,
    {
        if todo_list.tasks[k].id == id {
            proof {
                lemma_first_index_unique(todo_list@, id, k as int);
            }
            todo_list.tasks[k].completed = completed;
            proof {
                assert(todo_list@ =~= mark_spec(old(todo_list)@, id, completed));
                assert(has_id(old(todo_list)@, id));
            }
            if completed {
                return String::from_str("Task marked as complete.");
            } else {
                return String::from_str("Task marked as incomplete.");
            }
        }
        k = k + 1;
    }
    proof {
        lemma_first_index(todo_list@, id);
        assert(!has_id(todo_list@, id));
    }
    String::from_str("Task not found.")
}

/// Replaces the description of the first task with the given identifier and
/// reports success, or reports that no task was found.
pub fn rename_task(todo_list: &mut TodoList, id: u32, description: String) -> (msg: String)
    ensures
        final(todo_list)@ == rename_spec(old(todo_list)@, id, description@),
        has_id(old(todo_list)@, id) ==> msg@ == "Task renamed."@,
        !has_id(old(todo_list)@, id) ==> msg@ == "Task not found"@,
{
    let n = todo_list.tasks.len();
    let mut k: usize = 0;
    while k < n
        invariant
            n == todo_list.tasks.len(),
            0 <= k <= n,
            *todo_list == *old(todo_list),
            forall|j: int| 0 <= j < k ==> todo_list@[j].id != id,
        decreases n - k,
    {
        if todo_list.tasks[k].id == id {
            proof {
                lemma_first_index_unique(todo_list@, id, k as int);
            }
            todo_list.tasks[k].description = description;
            proof {
                assert(todo_list@ =~= rename_spec(old(todo_list)@, id, description@));
                assert(has_id(old(todo_list)@, id));
            }
            return String::from_str("Task renamed.");
        }
        k = k + 1;
    }
    proof {
        lemma_first_index(todo_list@, id);
        assert(!has_id(todo_list@, id));
    }
    String::from_str("Task not found")
}

/// Concatenating two stores and deleting an identifier is the same as
/// deleting it from each part.
pub proof fn lemma_delete_concat(a: Seq<TaskView>, b: Seq<TaskView>, id: u32)
    ensures
        delete_spec(a + b, id) == delete_spec(a, id) + delete_spec(b, id),
    decreases b.len(),
{
    if b.len() == 0 {
        assert(a + b =~= a);
        assert(delete_spec(a, id) + delete_spec(b, id) =~= delete_spec(a, id));
    } else {
        lemma_delete_concat(a, b.drop_last(), id);
        assert((a + b).drop_last() =~= a + b.drop_last());
        assert((a + b).last() == b.last());
        if b.last().id == id {
        } else {
            assert(delete_spec(a, id) + delete_spec(b, id) =~= (delete_spec(a, id)
                + delete_spec(b.drop_last(), id)).push(b.last()));
        }
    }
}

/// Deleting from a store of one task drops it exactly when it carries the
/// given identifier.
pub proof fn lemma_delete_singleton(t: TaskView, id: u32)
    ensures
        delete_spec(seq![t], id) == if t.id == id {
            Seq::<TaskView>::empty()
        } else {
            seq![t]
        },
{
    assert(seq![t].drop_last() =~= Seq::<TaskView>::empty());
    assert(delete_spec(Seq::<TaskView>::empty(), id) =~= Seq::<TaskView>::empty());
    if t.id != id {
        assert(Seq::<TaskView>::empty().push(t) =~= seq![t]);
    }
}

/// Removes every task with the given identifier, keeping the order of the
/// rest, and returns the confirmation message (emitted whether or not any
/// task matched).
pub fn delete_task(todo_list: &mut TodoList, id: u32) -> (msg: String)
    ensures
        final(todo_list)@ == delete_spec(old(todo_list)@, id),
        msg@ == "Task delete."@,
{
    proof {
        assert(todo_list@.subrange(0, 0) =~= Seq::<TaskView>::empty());
        assert(todo_list@.skip(0) =~= todo_list@);
        assert(Seq::<TaskView>::empty() + delete_spec(todo_list@, id) =~= delete_spec(
            todo_list@,
            id,
        ));
    }
    let mut k: usize = 0;
    while k < todo_list.tasks.len()
        invariant
            0 <= k <= todo_list.tasks.len(),
            forall|j: int| 0 <= j < k ==> todo_list@[j].id != id,
            delete_spec(old(todo_list)@, id) == todo_list@.subrange(0, k as int) + delete_spec(
                todo_list@.skip(k as int),
                id,
            ),
        decreases todo_list.tasks.len() - k,
    {
        let ghost pre = todo_list@;
        if todo_list.tasks[k].id == id {
            todo_list.tasks.remove(k);
            proof {
                assert(pre.skip(k as int) =~= seq![pre[k as int]] + pre.skip(k as int + 1));
                lemma_delete_concat(seq![pre[k as int]], pre.skip(k as int + 1), id);
                lemma_delete_singleton(pre[k as int], id);
                assert(Seq::<TaskView>::empty() + delete_spec(pre.skip(k as int + 1), id)
                    =~= delete_spec(pre.skip(k as int + 1), id));
                assert(todo_list@ =~= pre.subrange(0, k as int) + pre.skip(k as int + 1));
                assert(todo_list@.subrange(0, k as int) =~= pre.subrange(0, k as int));
                assert(todo_list@.skip(k as int) =~= pre.skip(k as int + 1));
            }
        } else {
            proof {
                assert(pre.skip(k as int) =~= seq![pre[k as int]] + pre.skip(k as int + 1));
                lemma_delete_concat(seq![pre[k as int]], pre.skip(k as int + 1), id);
                lemma_delete_singleton(pre[k as int], id);
                assert(pre.subrange(0, k as int) + (seq![pre[k as int]] + delete_spec(
                    pre.skip(k as int + 1),
                    id,
                )) =~= pre.subrange(0, k as int + 1) + delete_spec(pre.skip(k as int + 1), id));
                assert(pre.subrange(0, k as int) + seq![pre[k as int]] =~= pre.subrange(
                    0,
                    k as int + 1,
                ));
            }
            k = k + 1;
        }
    }
    proof {
        assert(todo_list@.skip(k as int) =~= Seq::<TaskView>::empty());
        assert(todo_list@.subrange(0, k as int) =~= todo_list@);
        assert(delete_spec(old(todo_list)@, id) =~= todo_list@ + delete_spec(
            Seq::<TaskView>::empty(),
            id,
        ));
        assert(todo_list@ + delete_spec(Seq::<TaskView>::empty(), id) =~= todo_list@);
    }
    String::from_str("Task delete.")
}

/// The listing line for one task: its identifier, description and flag.
pub open spec fn render_line(t: TaskView) -> Seq<char> {
    "ID: "@ + dec_rep(t.id as nat) + ", Description: "@ + t.description + ", Completed: "@ + (
    if t.completed {
        "true"@
    } else {
        "false"@
    })
}

/// Produces the listing: one formatted line per task in store order, or the
/// single line "No tasks available" for an empty store. Reading the store
/// twice without a mutation in between gives the same listing.
pub fn list_tasks(todo_list: &TodoList) -> (lines: Vec<String>)
    ensures
        todo_list@.len() == 0 ==> lines@.len() == 1 && lines@[0]@ == "No tasks available"@,
        todo_list@.len() > 0 ==> lines@.len() == todo_list@.len() && forall|i: int|
            0 <= i < todo_list@.len() ==> lines@[i]@ == render_line(todo_list@[i]),
{
    let mut lines: Vec<String> = Vec::new();
    let n = todo_list.tasks.len();
    if n == 0 {
        lines.push(String::from_str("No tasks available"));
        return lines;
    }
    let mut k: usize = 0;
    while k < n
        invariant
            0 <= k <= n,
            n == todo_list.tasks.len(),
            lines@.len() == k,
            forall|i: int| 0 <= i < k ==> lines@[i]@ == render_line(todo_list@[i]),
        decreases n - k,
    {
        let mut line = String::from_str("ID: ");
        push_u32(&mut line, todo_list.tasks[k].id);
        line.append(", Description: ");
        line.append(todo_list.tasks[k].description.as_str());
        line.append(", Completed: ");
        if todo_list.tasks[k].completed {
            line.append("true");
        } else {
            line.append("false");
        }
        proof {
            assert(line@ =~= render_line(todo_list@[k as int]));
        }
        lines.push(line);
        k = k + 1;
    }
    lines
}

} // verus!
