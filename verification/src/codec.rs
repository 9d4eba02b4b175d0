use vstd::prelude::*;
use vstd::string::*;
use crate::chars::{push_char, str_to_chars};
use crate::digits::{dec_rep, parse_u32, parse_u32_exec, push_u32};
use crate::escape::{escaped, parse_text, parse_text_exec, push_escaped};
use crate::store::{Task, TaskView, TodoList, tasks_view};

verus! {

/// The opening of the task file, up to and including the array bracket.
pub open spec fn lit_head() -> Seq<char> {
    "{\n  \"tasks\": ["@
}

/// The closing of a task file that holds no tasks.
pub open spec fn lit_empty_tail() -> Seq<char> {
    "]\n}"@
}

/// The closing of a task file that holds tasks.
pub open spec fn lit_tail() -> Seq<char> {
    "\n  ]\n}"@
}

/// The indentation before each task object.
pub open spec fn lit_item_sep() -> Seq<char> {
    "\n    "@
}

/// The opening of one task object, up to and including its identifier key.
pub open spec fn lit_id() -> Seq<char> {
    "{\n      \"id\": "@
}

/// Between the identifier and the description value's opening quote.
pub open spec fn lit_desc() -> Seq<char> {
    ",\n      \"description\": \""@
}

/// Between the description value's closing quote and the completion value.
pub open spec fn lit_comp() -> Seq<char> {
    ",\n      \"completed\": "@
}

/// The closing of one task object.
pub open spec fn lit_obj_end() -> Seq<char> {
    "\n    }"@
}

/// One task as an object in the task file.
pub open spec fn render_task(t: TaskView) -> Seq<char> {
    lit_id() + dec_rep(t.id as nat) + lit_desc() + escaped(t.description) + seq!['"'] + lit_comp()
        + (if t.completed {
        "true"@
    } else {
        "false"@
    }) + lit_obj_end()
}

/// A non-empty run of task objects: each preceded by its indentation and
/// separated from the next by a comma.
pub open spec fn render_items(ts: Seq<TaskView>) -> Seq<char>
    decreases ts.len(),
{
    if ts.len() == 0 {
        Seq::empty()
    } else {
        lit_item_sep() + render_task(ts[0]) + (if ts.len() > 1 {
            seq![','] + render_items(ts.drop_first())
        } else {
            Seq::empty()
        })
    }
}

/// The whole task file for a store.
pub open spec fn render_store(ts: Seq<TaskView>) -> Seq<char> {
    if ts.len() == 0 {
        lit_head() + lit_empty_tail()
    } else {
        lit_head() + render_items(ts) + lit_tail()
    }
}

/// Matches a fixed literal at position `i`; yields the position just past it.
pub open spec fn parse_lit(s: Seq<char>, i: int, lit: Seq<char>) -> Option<int> {
    if 0 <= i && i + lit.len() <= s.len() && s.subrange(i, i + lit.len() as int) == lit {
        Some(i + lit.len() as int)
    } else {
        None
    }
}

/// Reads the completion value.
pub open spec fn parse_bool(s: Seq<char>, i: int) -> Option<(bool, int)> {
    match parse_lit(s, i, "true"@) {
        Some(j) => Some((true, j)),
        None => match parse_lit(s, i, "false"@) {
            Some(j) => Some((false, j)),
            None => None,
        },
    }
}

/// Reads one task object.
pub open spec fn parse_task(s: Seq<char>, i: int) -> Option<(TaskView, int)> {
    match parse_lit(s, i, lit_id()) {
        Some(i1) => match parse_u32(s, i1) {
            Some((id, i2)) => match parse_lit(s, i2, lit_desc()) {
                Some(i3) => match parse_text(s, i3) {
                    Some((d, i4)) => match parse_lit(s, i4, lit_comp()) {
                        Some(i5) => match parse_bool(s, i5) {
                            Some((b, i6)) => match parse_lit(s, i6, lit_obj_end()) {
                                Some(i7) => Some(
                                    (TaskView { id, description: d, completed: b }, i7),
                                ),
                                None => None,
                            },
                            None => None,
                        },
                        None => None,
                    },
                    None => None,
                },
                None => None,
            },
            None => None,
        },
        None => None,
    }
}

/// Reads a non-empty run of task objects.
pub open spec fn parse_items(s: Seq<char>, i: int) -> Option<(Seq<TaskView>, int)>
    decreases s.len() - i,
{
    match parse_lit(s, i, lit_item_sep()) {
        Some(i1) => match parse_task(s, i1) {
            Some((t, j)) => if j < s.len() && s[j] == ',' {
                if i < j + 1 <= s.len() {
                    match parse_items(s, j + 1) {
                        Some((ts, k)) => Some((seq![t] + ts, k)),
                        None => None,
                    }
                } else {
                    None
                }
            } else {
                Some((seq![t], j))
            },
            None => None,
        },
        None => None,
    }
}

/// Reads a whole task file.
pub open spec fn parse_store(s: Seq<char>) -> Option<Seq<TaskView>> {
    match parse_lit(s, 0, lit_head()) {
        Some(i1) => if i1 < s.len() && s[i1] == ']' {
            match parse_lit(s, i1, lit_empty_tail()) {
                Some(j) => if j == s.len() {
                    Some(Seq::empty())
                } else {
                    None
                },
                None => None,
            }
        } else {
            match parse_items(s, i1) {
                Some((ts, j)) => match parse_lit(s, j, lit_tail()) {
                    Some(k) => if k == s.len() {
                        Some(ts)
                    } else {
                        None
                    },
                    None => None,
                },
                None => None,
            }
        },
        None => None,
    }
}

/// What loading file text yields: the parsed store, or the empty store on
/// any damage to the text.
pub open spec fn load_spec(s: Seq<char>) -> Seq<TaskView> {
    match parse_store(s) {
        Some(ts) => ts,
        None => Seq::empty(),
    }
}

/// Writes one task object onto the output.
fn push_task(out: &mut String, t: &Task)
    ensures
        final(out)@ == old(out)@ + render_task(t@),
{
    out.append("{\n      \"id\": ");
    push_u32(out, t.id);
    out.append(",\n      \"description\": \"");
    push_escaped(out, t.description.as_str());
    push_char(out, '"');
    out.append(",\n      \"completed\": ");
    if t.completed {
        out.append("true");
    } else {
        out.append("false");
    }
    out.append("\n    }");
    proof {
        assert(out@ =~= old(out)@ + render_task(t@));
    }
}

/// Appending one more task to a non-empty run inserts a comma and the new
/// task's object at the end of the run's text.
proof fn lemma_render_items_push(a: Seq<TaskView>, t: TaskView)
    requires
        a.len() >= 1,
    ensures
        render_items(a.push(t)) == render_items(a) + seq![','] + lit_item_sep() + render_task(t),
    decreases a.len(),
{
    let ap = a.push(t);
    assert(ap[0] == a[0]);
    if a.len() == 1 {
        assert(ap.drop_first() =~= seq![t]);
        assert(seq![t].drop_first() =~= Seq::<TaskView>::empty());
        assert(render_items(seq![t]) == lit_item_sep() + render_task(t) + Seq::<char>::empty());
        assert(render_items(a) == lit_item_sep() + render_task(a[0]) + Seq::<char>::empty());
        assert(render_items(ap) =~= render_items(a) + seq![','] + lit_item_sep() + render_task(
            t,
        ));
    } else {
        assert(ap.drop_first() =~= a.drop_first().push(t));
        lemma_render_items_push(a.drop_first(), t);
        assert(render_items(ap) =~= render_items(a) + seq![','] + lit_item_sep() + render_task(
            t,
        ));
    }
}

/// Serializes the store as the pretty-printed task file text.
pub fn save_tasks(todo_list: &TodoList) -> (text: String)
    ensures
        text@ == render_store(todo_list@),
{
    let mut out = String::from_str("{\n  \"tasks\": [");
    let n = todo_list.tasks.len();
    if n == 0 {
        out.append("]\n}");
        proof {
            assert(out@ =~= render_store(todo_list@));
        }
        return out;
    }
    out.append("\n    ");
    push_task(&mut out, &todo_list.tasks[0]);
    proof {
        assert(todo_list@.subrange(0, 1) =~= seq![todo_list@[0]]);
        assert(seq![todo_list@[0]].drop_first() =~= Seq::<TaskView>::empty());
        assert(out@ =~= lit_head() + render_items(todo_list@.subrange(0, 1)));
    }
    let mut k: usize = 1;
    while k < n
        invariant
            1 <= k <= n,
            n == todo_list.tasks.len(),
            out@ == lit_head() + render_items(todo_list@.subrange(0, k as int)),
        decreases n - k,
    {
        out.append(",\n    ");
        push_task(&mut out, &todo_list.tasks[k]);
        proof {
            reveal_strlit(",\n    ");
            reveal_strlit("\n    ");
            assert(",\n    "@ =~= seq![','] + lit_item_sep());
            assert(todo_list@.subrange(0, k as int + 1) =~= todo_list@.subrange(0, k as int).push(
                todo_list@[k as int],
            ));
            lemma_render_items_push(todo_list@.subrange(0, k as int), todo_list@[k as int]);
            assert(out@ =~= lit_head() + render_items(todo_list@.subrange(0, k as int + 1)));
        }
        k = k + 1;
    }
    out.append("\n  ]\n}");
    proof {
        assert(todo_list@.subrange(0, n as int) =~= todo_list@);
        assert(out@ =~= render_store(todo_list@));
    }
    out
}

/// Matches a fixed literal; implements `parse_lit`.
fn parse_lit_exec(s: &Vec<char>, i: usize, lit: &str) -> (r: Option<usize>)
    requires
        i <= s@.len(),
    ensures
        match r {
            Some(j) => parse_lit(s@, i as int, lit@) == Some(j as int) && i <= j <= s@.len() && j
                == i + lit@.len(),
            None => parse_lit(s@, i as int, lit@) is None,
        },
{
    let m = lit.unicode_len();
    let n = s.len();
    if n - i < m {
        return None;
    }
    let mut k: usize = 0;
    while k < m
        invariant
            0 <= k <= m,
            n == s@.len(),
            i + m <= n,
            m == lit@.len(),
            forall|q: int| 0 <= q < k ==> s@[i + q] == #[trigger] lit@[q],
        decreases m - k,
    {
        if s[i + k] != lit.get_char(k) {
            proof {
                assert(s@.subrange(i as int, i as int + m as int)[k as int] == s@[i as int
                    + k as int]);
                assert(s@.subrange(i as int, i as int + m as int) != lit@);
            }
            return None;
        }
        k = k + 1;
    }
    proof {
        assert(s@.subrange(i as int, i as int + m as int) =~= lit@);
    }
    Some(i + m)
}

/// Reads the completion value; implements `parse_bool`.
fn parse_bool_exec(s: &Vec<char>, i: usize) -> (r: Option<(bool, usize)>)
    requires
        i <= s@.len(),
    ensures
        match r {
            Some((b, j)) => parse_bool(s@, i as int) == Some((b, j as int)) && i < j <= s@.len(),
            None => parse_bool(s@, i as int) is None,
        },
{
    match parse_lit_exec(s, i, "true") {
        Some(j) => {
            proof {
                reveal_strlit("true");
            }
            Some((true, j))
        },
        None => match parse_lit_exec(s, i, "false") {
            Some(j) => {
                proof {
                    reveal_strlit("false");
                }
                Some((false, j))
            },
            None => None,
        },
    }
}

/// Reads one task object; implements `parse_task`.
fn parse_task_exec(s: &Vec<char>, i: usize) -> (r: Option<(Task, usize)>)
    requires
        i <= s@.len(),
    ensures
        match r {
            Some((t, j)) => parse_task(s@, i as int) == Some((t@, j as int)) && i < j <= s@.len(),
            None => parse_task(s@, i as int) is None,
        },
{
    let i1 = match parse_lit_exec(s, i, "{\n      \"id\": ") {
        Some(i1) => i1,
        None => { return None; },
    };
    let (id, i2) = match parse_u32_exec(s, i1) {
        Some(p) => p,
        None => { return None; },
    };
    let i3 = match parse_lit_exec(s, i2, ",\n      \"description\": \"") {
        Some(i3) => i3,
        None => { return None; },
    };
    let (d, i4) = match parse_text_exec(s, i3) {
        Some(p) => p,
        None => { return None; },
    };
    let i5 = match parse_lit_exec(s, i4, ",\n      \"completed\": ") {
        Some(i5) => i5,
        None => { return None; },
    };
    let (b, i6) = match parse_bool_exec(s, i5) {
        Some(p) => p,
        None => { return None; },
    };
    let i7 = match parse_lit_exec(s, i6, "\n    }") {
        Some(i7) => i7,
        None => { return None; },
    };
    proof {
        reveal_strlit("{\n      \"id\": ");
    }
    Some((Task { id, description: d, completed: b }, i7))
}

/// Reads a non-empty run of task objects; implements `parse_items`.
fn parse_items_exec(s: &Vec<char>, i: usize) -> (r: Option<(Vec<Task>, usize)>)
    requires
        i <= s@.len(),
    ensures
        match r {
            Some((v, j)) => parse_items(s@, i as int) == Some((tasks_view(v), j as int)) && i < j
                <= s@.len(),
            None => parse_items(s@, i as int) is None,
        },
    decreases s@.len() - i,
{
    let i1 = match parse_lit_exec(s, i, "\n    ") {
        Some(i1) => i1,
        None => { return None; },
    };
    proof {
        reveal_strlit("\n    ");
    }
    let (t, j) = match parse_task_exec(s, i1) {
        Some(p) => p,
        None => { return None; },
    };
    if j < s.len() && s[j] == ',' {
        match parse_items_exec(s, j + 1) {
            Some((mut v, k)) => {
                let ghost pre = tasks_view(v);
                v.insert(0, t);
                proof {
                    assert(tasks_view(v) =~= seq![t@] + pre);
                }
                Some((v, k))
            },
            None => None,
        }
    } else {
        let mut v: Vec<Task> = Vec::new();
        v.push(t);
        proof {
            assert(tasks_view(v) =~= seq![t@]);
        }
        Some((v, j))
    }
}

/// Reads a whole task file; implements `parse_store`.
fn parse_store_exec(s: &Vec<char>) -> (r: Option<TodoList>)
    ensures
        match r {
            Some(list) => parse_store(s@) == Some(list@),
            None => parse_store(s@) is None,
        },
{
    let i1 = match parse_lit_exec(s, 0, "{\n  \"tasks\": [") {
        Some(i1) => i1,
        None => { return None; },
    };
    if i1 < s.len() && s[i1] == ']' {
        match parse_lit_exec(s, i1, "]\n}") {
            Some(j) => {
                if j == s.len() {
                    Some(TodoList::new())
                } else {
                    None
                }
            },
            None => None,
        }
    } else {
        let (v, j) = match parse_items_exec(s, i1) {
            Some(p) => p,
            None => { return None; },
        };
        match parse_lit_exec(s, j, "\n  ]\n}") {
            Some(k) => {
                if k == s.len() {
                    Some(TodoList { tasks: v })
                } else {
                    None
                }
            },
            None => None,
        }
    }
}

/// A window inside a matching window matches the corresponding part.
proof fn lemma_window(s: Seq<char>, i: int, w: Seq<char>, a: int, b: int)
    requires
        0 <= i,
        i + w.len() <= s.len(),
        s.subrange(i, i + w.len() as int) == w,
        0 <= a <= b <= w.len(),
    ensures
        s.subrange(i + a, i + b) == w.subrange(a, b),
{
    assert forall|k: int| 0 <= k < b - a implies s.subrange(i + a, i + b)[k] == w.subrange(
        a,
        b,
    )[k] by {
        assert(s[i + (a + k)] == s.subrange(i, i + w.len() as int)[a + k]);
    }
    assert(s.subrange(i + a, i + b) =~= w.subrange(a, b));
}

/// One position inside a matching window holds the window's character.
proof fn lemma_window_char(s: Seq<char>, i: int, w: Seq<char>, a: int)
    requires
        0 <= i,
        i + w.len() <= s.len(),
        s.subrange(i, i + w.len() as int) == w,
        0 <= a < w.len(),
    ensures
        s[i + a] == w[a],
{
    assert(s[i + a] == s.subrange(i, i + w.len() as int)[a]);
}

/// Reading a rendered task object yields the task and stops just past it.
proof fn lemma_parse_task_render(s: Seq<char>, i: int, t: TaskView)
    requires
        0 <= i,
        i + render_task(t).len() <= s.len(),
        s.subrange(i, i + render_task(t).len() as int) == render_task(t),
    ensures
        parse_task(s, i) == Some((t, i + render_task(t).len() as int)),
{
    reveal_strlit("{\n      \"id\": ");
    reveal_strlit(",\n      \"description\": \"");
    reveal_strlit(",\n      \"completed\": ");
    reveal_strlit("\n    }");
    reveal_strlit("true");
    reveal_strlit("false");
    let w = render_task(t);
    let rep = dec_rep(t.id as nat);
    let esc = escaped(t.description);
    let bv: Seq<char> = if t.completed {
        "true"@
    } else {
        "false"@
    };
    let a1 = lit_id().len() as int;
    let a2 = a1 + rep.len() as int;
    let a3 = a2 + lit_desc().len() as int;
    let a4 = a3 + esc.len() as int + 1;
    let a5 = a4 + lit_comp().len() as int;
    let a6 = a5 + bv.len() as int;
    let a7 = a6 + lit_obj_end().len() as int;
    assert(w.len() == a7);
    assert(w.subrange(0, a1) =~= lit_id());
    assert(w.subrange(a1, a2) =~= rep);
    assert(w.subrange(a2, a3) =~= lit_desc());
    assert(w.subrange(a3, a4 - 1) =~= esc);
    assert(w[a4 - 1] == '"');
    assert(w.subrange(a4, a5) =~= lit_comp());
    assert(w.subrange(a5, a6) =~= bv);
    assert(w.subrange(a6, a7) =~= lit_obj_end());
    lemma_window(s, i, w, 0, a1);
    assert(parse_lit(s, i, lit_id()) == Some(i + a1));
    lemma_window(s, i, w, a1, a2);
    lemma_window_char(s, i, w, a2);
    assert(s[i + a2] == lit_desc()[0]);
    assert(!crate::digits::is_digit(s[i + a2]));
    crate::digits::lemma_parse_u32_rep(s, i + a1, t.id);
    assert(parse_u32(s, i + a1) == Some((t.id, i + a2)));
    lemma_window(s, i, w, a2, a3);
    assert(parse_lit(s, i + a2, lit_desc()) == Some(i + a3));
    lemma_window(s, i, w, a3, a4 - 1);
    lemma_window_char(s, i, w, a4 - 1);
    crate::escape::lemma_parse_text_escaped(s, i + a3, t.description);
    assert(parse_text(s, i + a3) == Some((t.description, i + a4)));
    lemma_window(s, i, w, a4, a5);
    assert(parse_lit(s, i + a4, lit_comp()) == Some(i + a5));
    lemma_window(s, i, w, a5, a6);
    if t.completed {
        assert(parse_lit(s, i + a5, "true"@) == Some(i + a6));
        assert(parse_bool(s, i + a5) == Some((true, i + a6)));
    } else {
        assert(s.subrange(i + a5, i + a5 + 4)[0] == s[i + a5]);
        assert(s[i + a5] == bv[0]) by {
            lemma_window_char(s, i, w, a5);
        }
        assert(s[i + a5] == 'f');
        assert("true"@[0] == 't');
        assert(s.subrange(i + a5, i + a5 + 4) != "true"@);
        assert(parse_lit(s, i + a5, "true"@) is None);
        assert(parse_lit(s, i + a5, "false"@) == Some(i + a6));
        assert(parse_bool(s, i + a5) == Some((false, i + a6)));
    }
    lemma_window(s, i, w, a6, a7);
    assert(parse_lit(s, i + a6, lit_obj_end()) == Some(i + a7));
    assert(TaskView { id: t.id, description: t.description, completed: t.completed } == t);
}

/// Reading a rendered task run followed by anything but a comma yields the
/// run and stops just past it.
proof fn lemma_parse_items_render(s: Seq<char>, i: int, ts: Seq<TaskView>)
    requires
        ts.len() >= 1,
        0 <= i,
        i + render_items(ts).len() < s.len(),
        s.subrange(i, i + render_items(ts).len() as int) == render_items(ts),
        s[i + render_items(ts).len() as int] != ',',
    ensures
        parse_items(s, i) == Some((ts, i + render_items(ts).len() as int)),
    decreases ts.len(),
{
    reveal_strlit("\n    ");
    let w = render_items(ts);
    let sepl = lit_item_sep().len() as int;
    let tl = render_task(ts[0]).len() as int;
    if ts.len() == 1 {
        assert(w.len() == sepl + tl);
        assert(w.subrange(0, sepl) =~= lit_item_sep());
        assert(w.subrange(sepl, sepl + tl) =~= render_task(ts[0]));
        lemma_window(s, i, w, 0, sepl);
        assert(parse_lit(s, i, lit_item_sep()) == Some(i + sepl));
        lemma_window(s, i, w, sepl, sepl + tl);
        lemma_parse_task_render(s, i + sepl, ts[0]);
        assert(parse_task(s, i + sepl) == Some((ts[0], i + w.len() as int)));
        assert(seq![ts[0]] =~= ts);
    } else {
        let rest = render_items(ts.drop_first());
        assert(w.len() == sepl + tl + 1 + rest.len());
        assert(w.subrange(0, sepl) =~= lit_item_sep());
        assert(w.subrange(sepl, sepl + tl) =~= render_task(ts[0]));
        assert(w[sepl + tl] == ',');
        assert(w.subrange(sepl + tl + 1, w.len() as int) =~= rest);
        lemma_window(s, i, w, 0, sepl);
        assert(parse_lit(s, i, lit_item_sep()) == Some(i + sepl));
        lemma_window(s, i, w, sepl, sepl + tl);
        lemma_parse_task_render(s, i + sepl, ts[0]);
        let j = i + sepl + tl;
        assert(parse_task(s, i + sepl) == Some((ts[0], j)));
        lemma_window_char(s, i, w, sepl + tl);
        assert(s[j] == ',');
        lemma_window(s, i, w, sepl + tl + 1, w.len() as int);
        assert(s.subrange(j + 1, j + 1 + rest.len() as int) == rest);
        assert(s[j + 1 + rest.len() as int] == s[i + w.len() as int]);
        lemma_parse_items_render(s, j + 1, ts.drop_first());
        assert(parse_items(s, j + 1) == Some((ts.drop_first(), i + w.len() as int)));
        assert(seq![ts[0]] + ts.drop_first() =~= ts);
    }
}

/// Saving a store and loading the text back restores the store exactly: the
/// task file round-trips every store, task order and values preserved, so a
/// load after a save is a fixed point.
pub proof fn lemma_save_load_round_trip(ts: Seq<TaskView>)
    ensures
        parse_store(render_store(ts)) == Some(ts),
        load_spec(render_store(ts)) == ts,
{
    reveal_strlit("{\n  \"tasks\": [");
    reveal_strlit("]\n}");
    reveal_strlit("\n  ]\n}");
    reveal_strlit("\n    ");
    let s = render_store(ts);
    let hl = lit_head().len() as int;
    if ts.len() == 0 {
        assert(s.subrange(0, hl) =~= lit_head());
        assert(parse_lit(s, 0, lit_head()) == Some(hl));
        assert(s[hl] == ']');
        assert(s.subrange(hl, hl + lit_empty_tail().len() as int) =~= lit_empty_tail());
        assert(parse_lit(s, hl, lit_empty_tail()) == Some(s.len() as int));
        assert(ts =~= Seq::<TaskView>::empty());
    } else {
        let items = render_items(ts);
        assert(items.len() > 0);
        assert(s.subrange(0, hl) =~= lit_head());
        assert(parse_lit(s, 0, lit_head()) == Some(hl));
        assert(items[0] == lit_item_sep()[0]);
        assert(s[hl] == items[0]);
        assert(s[hl] != ']');
        assert(s.subrange(hl, hl + items.len() as int) =~= items);
        assert(s[hl + items.len() as int] == lit_tail()[0]);
        lemma_parse_items_render(s, hl, ts);
        assert(parse_items(s, hl) == Some((ts, hl + items.len() as int)));
        assert(s.subrange(hl + items.len() as int, s.len() as int) =~= lit_tail());
        assert(parse_lit(s, hl + items.len() as int, lit_tail()) == Some(s.len() as int));
    }
}

/// Builds the store from the task file's text: the parsed store, or the
/// empty store when the file was missing (`None`) or its content damaged.
pub fn load_tasks(data: Option<String>) -> (todo_list: TodoList)
    ensures
        match data {
            Some(s) => todo_list@ == load_spec(s@),
            None => todo_list@ == Seq::<TaskView>::empty(),
        },
{
    match data {
        None => TodoList::new(),
        Some(s) => {
            let cs = str_to_chars(s.as_str());
            match parse_store_exec(&cs) {
                Some(list) => list,
                None => TodoList::new(),
            }
        },
    }
}

} // verus!
