use todo_tasks::codec::{load_tasks, save_tasks};
use todo_tasks::store::{Task, TodoList};

fn task(id: u32, description: &str, completed: bool) -> Task {
    Task { id, description: description.to_string(), completed }
}

fn same_tasks(a: &TodoList, b: &TodoList) -> bool {
    a.tasks.len() == b.tasks.len()
        && a.tasks.iter().zip(b.tasks.iter()).all(|(x, y)| {
            x.id == y.id && x.description == y.description && x.completed == y.completed
        })
}

#[test]
fn save_empty_store_text() {
    let list = TodoList::new();
    assert_eq!(save_tasks(&list), "{\n  \"tasks\": []\n}");
}

#[test]
fn save_one_task_text() {
    let list = TodoList { tasks: vec![task(1, "buy milk", false)] };
    let expected = "{\n  \"tasks\": [\n    {\n      \"id\": 1,\n      \"description\": \"buy milk\",\n      \"completed\": false\n    }\n  ]\n}";
    assert_eq!(save_tasks(&list), expected);
}

#[test]
fn save_escapes_description() {
    let list = TodoList { tasks: vec![task(1, "a\"b\\c\nd\te\u{1}", true)] };
    let text = save_tasks(&list);
    assert!(text.contains("a\\\"b\\\\c\\nd\\te\\u0001"));
}

#[test]
fn save_load_round_trip() {
    let list = TodoList {
        tasks: vec![
            task(1, "buy milk", false),
            task(2, "walk dog", true),
            task(4294967295, "", false),
            task(0, "tab\t quote\" slash\\ newline\n control\u{3} high\u{1f} ok", true),
            task(7, "unicode \u{e9}\u{4e2d}\u{1f600}", false),
        ],
    };
    let text = save_tasks(&list);
    let loaded = load_tasks(Some(text));
    assert!(same_tasks(&list, &loaded));
}

#[test]
fn load_missing_file_is_empty() {
    let loaded = load_tasks(None);
    assert!(loaded.tasks.is_empty());
}

#[test]
fn load_corrupted_text_is_empty() {
    for bad in [
        "",
        "garbage",
        "{\"tasks\": []}",
        "{\n  \"tasks\": [",
        "{\n  \"tasks\": [\n    {\n      \"id\": x,\n      \"description\": \"a\",\n      \"completed\": false\n    }\n  ]\n}",
        "{\n  \"tasks\": [\n    {\n      \"id\": 99999999999,\n      \"description\": \"a\",\n      \"completed\": false\n    }\n  ]\n}",
        "{\n  \"tasks\": [\n    {\n      \"id\": 1,\n      \"description\": \"a,\n      \"completed\": false\n    }\n  ]\n}",
        "{\n  \"tasks\": []\n}trailing",
    ] {
        let loaded = load_tasks(Some(bad.to_string()));
        assert!(loaded.tasks.is_empty(), "expected empty store for {:?}", bad);
    }
}

#[test]
fn load_accepts_saved_unusual_ids() {
    // identifiers in a file need not be sequential or distinct
    let list = TodoList { tasks: vec![task(5, "a", true), task(5, "b", false)] };
    let loaded = load_tasks(Some(save_tasks(&list)));
    assert!(same_tasks(&list, &loaded));
}

#[test]
fn saved_text_is_wellformed_json() {
    let list = TodoList {
        tasks: vec![task(1, "milk \"whole\"\n2%", false), task(2, "walk \\ dog", true)],
    };
    let text = save_tasks(&list);
    let v: serde_json::Value = serde_json::from_str(&text).expect("valid JSON");
    let tasks = v["tasks"].as_array().expect("array");
    assert_eq!(tasks.len(), 2);
    assert_eq!(tasks[0]["id"].as_u64(), Some(1));
    assert_eq!(tasks[0]["description"].as_str(), Some("milk \"whole\"\n2%"));
    assert_eq!(tasks[0]["completed"].as_bool(), Some(false));
    assert_eq!(tasks[1]["id"].as_u64(), Some(2));
    assert_eq!(tasks[1]["description"].as_str(), Some("walk \\ dog"));
    assert_eq!(tasks[1]["completed"].as_bool(), Some(true));
}

#[test]
fn saved_text_matches_serde_pretty_byte_for_byte() {
    // build the same stores as order-preserving serde_json values and compare
    // the pretty-printed text exactly
    let cases: Vec<Vec<(u32, &str, bool)>> = vec![
        vec![],
        vec![(1, "buy milk", false)],
        vec![(1, "say \"hi\"\n", true), (2, "back\\slash", false), (10, "", true)],
        vec![(3, "controls \u{1}\u{8}\u{b}\u{c}\u{1f} tab\t cr\r", false)],
    ];
    for case in cases {
        let list = TodoList {
            tasks: case.iter().map(|&(id, d, c)| task(id, d, c)).collect(),
        };
        let mut arr: Vec<serde_json::Value> = Vec::new();
        for &(id, d, c) in &case {
            let mut obj = serde_json::Map::new();
            obj.insert("id".to_string(), serde_json::Value::from(id));
            obj.insert("description".to_string(), serde_json::Value::from(d));
            obj.insert("completed".to_string(), serde_json::Value::from(c));
            arr.push(serde_json::Value::Object(obj));
        }
        let mut root = serde_json::Map::new();
        root.insert("tasks".to_string(), serde_json::Value::from(arr));
        let expected = serde_json::to_string_pretty(&serde_json::Value::Object(root)).unwrap();
        assert_eq!(save_tasks(&list), expected);
    }
}

#[test]
fn saved_text_matches_serde_pretty_shape() {
    // serde_json's pretty printer, given the same fields in the same order,
    // produces exactly the text that save_tasks writes
    let list = TodoList { tasks: vec![task(3, "tea", true)] };
    let text = save_tasks(&list);
    let v: serde_json::Value = serde_json::from_str(&text).expect("valid JSON");
    let id = v["tasks"][0]["id"].as_u64().expect("id");
    assert_eq!(id, 3);
    let reprinted = serde_json::to_string_pretty(&v).expect("print");
    // serde_json orders object keys alphabetically when reprinting a Value,
    // so compare structure after a second parse instead of text
    let v2: serde_json::Value = serde_json::from_str(&reprinted).expect("valid JSON");
    assert_eq!(v, v2);
}
