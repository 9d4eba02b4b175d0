use todo_tasks::store::{Task, TodoList, add_task, delete_task, list_tasks, mark_task, rename_task};

fn task(id: u32, description: &str, completed: bool) -> Task {
    Task { id, description: description.to_string(), completed }
}

fn descriptions(list: &TodoList) -> Vec<String> {
    list.tasks.iter().map(|t| t.description.clone()).collect()
}

#[test]
fn add_assigns_sequential_ids() {
    let mut list = TodoList::new();
    let msg = add_task(&mut list, "first".to_string());
    assert_eq!(msg, "Task added successfully");
    add_task(&mut list, "second".to_string());
    add_task(&mut list, "third".to_string());
    assert_eq!(list.tasks.len(), 3);
    for (k, t) in list.tasks.iter().enumerate() {
        assert_eq!(t.id, k as u32 + 1);
        assert!(!t.completed);
    }
    let ids: Vec<u32> = list.tasks.iter().map(|t| t.id).collect();
    let mut unique = ids.clone();
    unique.sort();
    unique.dedup();
    assert_eq!(ids.len(), unique.len());
}

#[test]
fn add_reuses_id_after_delete() {
    // The identifier rule is length-based, as in the persisted-file format
    // this store is exchangeable with: after a delete, a new task can get an
    // identifier an existing task already carries.
    let mut list = TodoList::new();
    add_task(&mut list, "a".to_string());
    add_task(&mut list, "b".to_string());
    delete_task(&mut list, 1);
    add_task(&mut list, "c".to_string());
    assert_eq!(list.tasks.len(), 2);
    assert_eq!(list.tasks[0].id, 2);
    assert_eq!(list.tasks[1].id, 2);
}

#[test]
fn mark_sets_and_reports() {
    let mut list = TodoList { tasks: vec![task(1, "a", false), task(2, "b", false)] };
    let msg = mark_task(&mut list, 2, true);
    assert_eq!(msg, "Task marked as complete.");
    assert!(list.tasks[1].completed);
    assert!(!list.tasks[0].completed);
    let msg = mark_task(&mut list, 2, false);
    assert_eq!(msg, "Task marked as incomplete.");
    assert!(!list.tasks[1].completed);
}

#[test]
fn mark_missing_id_reports_not_found() {
    let mut list = TodoList { tasks: vec![task(1, "a", false)] };
    let msg = mark_task(&mut list, 7, true);
    assert_eq!(msg, "Task not found.");
    assert_eq!(list.tasks.len(), 1);
    assert!(!list.tasks[0].completed);
}

#[test]
fn mark_twice_restores_incomplete() {
    let mut list = TodoList { tasks: vec![task(1, "a", false), task(2, "b", true)] };
    mark_task(&mut list, 1, true);
    mark_task(&mut list, 1, false);
    assert_eq!(list.tasks[0].id, 1);
    assert_eq!(list.tasks[0].description, "a");
    assert!(!list.tasks[0].completed);
    assert_eq!(list.tasks[1].id, 2);
    assert_eq!(list.tasks[1].description, "b");
    assert!(list.tasks[1].completed);
}

#[test]
fn delete_removes_exactly_the_id() {
    let mut list = TodoList {
        tasks: vec![task(1, "a", false), task(2, "b", true), task(3, "c", false)],
    };
    let msg = delete_task(&mut list, 2);
    assert_eq!(msg, "Task delete.");
    assert_eq!(list.tasks.len(), 2);
    assert!(list.tasks.iter().all(|t| t.id != 2));
    assert_eq!(descriptions(&list), vec!["a".to_string(), "c".to_string()]);
}

#[test]
fn delete_missing_id_changes_nothing() {
    let mut list = TodoList { tasks: vec![task(1, "a", false), task(2, "b", true)] };
    let msg = delete_task(&mut list, 9);
    assert_eq!(msg, "Task delete.");
    assert_eq!(list.tasks.len(), 2);
    assert_eq!(list.tasks[0].id, 1);
    assert_eq!(list.tasks[1].id, 2);
}

#[test]
fn rename_replaces_description() {
    let mut list = TodoList { tasks: vec![task(1, "old", true)] };
    let msg = rename_task(&mut list, 1, "new".to_string());
    assert_eq!(msg, "Task renamed.");
    assert_eq!(list.tasks[0].description, "new");
    assert!(list.tasks[0].completed);
    assert_eq!(list.tasks[0].id, 1);
}

#[test]
fn rename_missing_id_reports_not_found() {
    let mut list = TodoList { tasks: vec![task(1, "a", false)] };
    let msg = rename_task(&mut list, 99, "x".to_string());
    assert_eq!(msg, "Task not found");
    assert_eq!(list.tasks.len(), 1);
    assert_eq!(list.tasks[0].description, "a");
}

#[test]
fn list_empty_store() {
    let list = TodoList::new();
    let lines = list_tasks(&list);
    assert_eq!(lines, vec!["No tasks available".to_string()]);
}

#[test]
fn list_formats_each_task() {
    let list = TodoList { tasks: vec![task(1, "a", false), task(12, "b c", true)] };
    let lines = list_tasks(&list);
    assert_eq!(
        lines,
        vec![
            "ID: 1, Description: a, Completed: false".to_string(),
            "ID: 12, Description: b c, Completed: true".to_string(),
        ]
    );
    let again = list_tasks(&list);
    assert_eq!(lines, again);
}

#[test]
fn scenario_add_add_delete_list() {
    let mut list = TodoList::new();
    add_task(&mut list, "buy milk".to_string());
    assert_eq!(list.tasks.len(), 1);
    assert_eq!(list.tasks[0].id, 1);
    assert_eq!(list.tasks[0].description, "buy milk");
    assert!(!list.tasks[0].completed);
    add_task(&mut list, "walk dog".to_string());
    assert_eq!(list.tasks.len(), 2);
    assert_eq!(list.tasks[1].id, 2);
    delete_task(&mut list, 1);
    assert_eq!(list.tasks.len(), 1);
    assert_eq!(list.tasks[0].id, 2);
    assert_eq!(list.tasks[0].description, "walk dog");
    assert!(!list.tasks[0].completed);
    let lines = list_tasks(&list);
    assert_eq!(lines, vec!["ID: 2, Description: walk dog, Completed: false".to_string()]);
}
