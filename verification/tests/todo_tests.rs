use remoteio::message::{Field, Message};
use remoteio::todo::{handle_message, list_name, restore_todos, TodoAction, TodoLists};

fn msg(fields: &[(&str, Field)]) -> Message {
    let mut m = Message::empty();
    for (k, v) in fields {
        let v = match v {
            Field::Text(s) => Field::Text(s.clone()),
            Field::Unsigned(n) => Field::Unsigned(*n),
            Field::Other => Field::Other,
        };
        m.fields.push((k.to_string(), v));
    }
    m
}

fn text(s: &str) -> Field {
    Field::Text(s.to_string())
}

fn make_state() -> TodoLists {
    TodoLists::from_pairs(vec![(
        "default".to_string(),
        vec!["alpha".to_string(), "beta".to_string()],
    )])
}

fn items(lists: &TodoLists, name: &str) -> Vec<String> {
    lists.get(name).expect("list exists").clone()
}

fn is_persist(a: &TodoAction) -> bool {
    matches!(a, TodoAction::Persist)
}

fn is_nothing(a: &TodoAction) -> bool {
    matches!(a, TodoAction::Nothing)
}

#[test]
fn test_get_list_msg() {
    let state = make_state();
    let items = state.get("default").unwrap();
    assert_eq!(items.len(), 2);
    assert_eq!(items[0], "alpha");
    assert_eq!(items[1], "beta");
}

#[test]
fn test_handle_add() {
    let mut state = make_state();
    let action = handle_message(&mut state, &msg(&[("type", text("todo_add")), ("text", text("hello"))]));
    assert!(is_persist(&action));
    assert_eq!(items(&state, "default").len(), 3);
    assert_eq!(items(&state, "default")[2], "hello");
}

#[test]
fn test_handle_add_to_named_list() {
    let mut state = make_state();
    state.insert_list("work".to_string(), vec![]);
    let action = handle_message(
        &mut state,
        &msg(&[("type", text("todo_add")), ("text", text("task")), ("list", text("work"))]),
    );
    assert!(is_persist(&action));
    assert_eq!(items(&state, "work").len(), 1);
    assert_eq!(items(&state, "work")[0], "task");
}

#[test]
fn test_handle_remove() {
    let mut state = make_state();
    assert_eq!(items(&state, "default").len(), 2);
    assert!(state.remove("default", 1));
    assert_eq!(items(&state, "default").len(), 1);
    assert_eq!(items(&state, "default")[0], "alpha");
}

#[test]
fn test_handle_remove_out_of_bounds() {
    let mut state = make_state();
    let action = handle_message(&mut state, &msg(&[("type", text("todo_remove")), ("id", Field::Unsigned(5))]));
    assert!(is_nothing(&action));
    assert_eq!(items(&state, "default").len(), 2);
}

#[test]
fn test_handle_reorder() {
    let mut state = make_state();
    assert_eq!(items(&state, "default").len(), 2);
    assert!(state.reorder("default", 0, 1));
    assert_eq!(items(&state, "default")[0], "beta");
    assert_eq!(items(&state, "default")[1], "alpha");
}

#[test]
fn test_handle_edit() {
    let mut state = make_state();
    assert!(state.edit("default", 0, "edited".to_string()));
    assert_eq!(items(&state, "default")[0], "edited");
}

#[test]
fn test_load_save() {
    let mut lists = std::collections::HashMap::new();
    lists.insert("default".to_string(), vec!["one".to_string(), "two".to_string()]);
    let json = serde_json::to_string_pretty(&lists).unwrap();
    let (loaded, store) = restore_todos(Some(json.as_str()));
    assert!(!store);
    assert_eq!(loaded.len(), 1);
    assert_eq!(items(&loaded, "default")[0], "one");
}

#[test]
fn test_load_missing_file() {
    let (lists, store) = restore_todos(None);
    assert!(lists.contains("default"));
    assert!(items(&lists, "default").is_empty());
    assert!(store);
}

#[test]
fn test_create_list() {
    let mut state = make_state();
    assert!(state.create("projects".to_string()));
    assert!(state.contains("projects"));
}

#[test]
fn test_delete_list() {
    let mut state = make_state();
    state.insert_list("temp".to_string(), vec![]);
    assert!(state.delete("temp"));
    assert!(!state.contains("temp"));
}

#[test]
fn test_rename_list() {
    let mut state = make_state();
    let moved = state.remove_list("default").unwrap();
    state.insert_list("renamed".to_string(), moved);
    assert!(!state.contains("default"));
    assert!(state.contains("renamed"));
    assert_eq!(items(&state, "renamed").len(), 2);
}

// ---- further cases ----

#[test]
fn restore_migrates_plain_array() {
    let (lists, store) = restore_todos(Some("[\"a\", \"b\"]"));
    assert!(!store);
    assert_eq!(lists.len(), 1);
    assert_eq!(items(&lists, "default"), vec!["a".to_string(), "b".to_string()]);
}

#[test]
fn restore_unreadable_text_gives_default_list() {
    let (lists, store) = restore_todos(Some("not json"));
    assert!(!store);
    assert_eq!(lists.len(), 1);
    assert!(items(&lists, "default").is_empty());
}

#[test]
fn restore_keeps_every_list_and_adds_default() {
    let (lists, store) = restore_todos(Some("{\"a\": [\"x\"], \"b\": []}"));
    assert!(!store);
    assert_eq!(lists.len(), 3);
    assert_eq!(items(&lists, "a"), vec!["x".to_string()]);
    assert!(items(&lists, "b").is_empty());
    assert!(items(&lists, "default").is_empty());
}

#[test]
fn default_list_cannot_be_deleted_or_renamed() {
    let mut state = make_state();
    state.insert_list("work".to_string(), vec![]);
    let action = handle_message(&mut state, &msg(&[("type", text("todo_list_delete")), ("name", text("default"))]));
    assert!(is_nothing(&action));
    assert!(state.contains("default"));
    let action = handle_message(
        &mut state,
        &msg(&[("type", text("todo_list_rename")), ("old", text("default")), ("name", text("other"))]),
    );
    assert!(is_nothing(&action));
    assert!(state.contains("default"));
    assert!(!state.contains("other"));
    assert!(state.delete("work"));
    assert_eq!(state.len(), 1);
}

#[test]
fn list_name_defaults() {
    assert_eq!(list_name(&msg(&[("type", text("todo_add"))])), "default");
    assert_eq!(list_name(&msg(&[("list", text("work"))])), "work");
    assert_eq!(list_name(&msg(&[("list", Field::Unsigned(3))])), "default");
}

#[test]
fn add_creates_missing_list() {
    let mut state = make_state();
    state.add("new".to_string(), "first".to_string());
    assert_eq!(items(&state, "new"), vec!["first".to_string()]);
    assert_eq!(state.item_count(), Some(3));
}

#[test]
fn todo_list_request_replies_without_change() {
    let mut state = make_state();
    let action = handle_message(&mut state, &msg(&[("type", text("todo_list"))]));
    assert!(matches!(action, TodoAction::Reply));
    assert_eq!(items(&state, "default").len(), 2);
}

#[test]
fn unknown_or_untyped_messages_change_nothing() {
    let mut state = make_state();
    assert!(is_nothing(&handle_message(&mut state, &msg(&[("type", text("unknown")), ("foo", text("bar"))]))));
    assert!(is_nothing(&handle_message(&mut state, &msg(&[("text", text("x"))]))));
    assert!(is_nothing(&handle_message(&mut state, &msg(&[("type", text("todo_add"))]))));
    assert_eq!(state.item_count(), Some(2));
}

#[test]
fn reorder_out_of_range_is_ignored() {
    let mut state = make_state();
    assert!(!state.reorder("default", 0, 2));
    assert!(!state.reorder("missing", 0, 0));
    assert_eq!(items(&state, "default")[0], "alpha");
}

#[test]
fn edit_out_of_range_is_ignored() {
    let mut state = make_state();
    let action = handle_message(
        &mut state,
        &msg(&[("type", text("todo_edit")), ("id", Field::Unsigned(2)), ("text", text("x"))]),
    );
    assert!(is_nothing(&action));
    assert_eq!(items(&state, "default"), vec!["alpha".to_string(), "beta".to_string()]);
}

#[test]
fn create_existing_list_is_refused() {
    let mut state = make_state();
    assert!(!state.create("default".to_string()));
    assert_eq!(items(&state, "default").len(), 2);
}

#[test]
fn last_list_cannot_be_deleted() {
    let mut state = make_state();
    let action = handle_message(&mut state, &msg(&[("type", text("todo_list_delete")), ("name", text("default"))]));
    assert!(is_nothing(&action));
    assert!(state.contains("default"));
    assert_eq!(state.len(), 1);
}

#[test]
fn delete_of_missing_list_still_persists() {
    let mut state = make_state();
    state.insert_list("work".to_string(), vec![]);
    let action = handle_message(&mut state, &msg(&[("type", text("todo_list_delete")), ("name", text("nope"))]));
    assert!(is_persist(&action));
    assert_eq!(state.len(), 2);
}

#[test]
fn rename_onto_existing_list_replaces_it() {
    let mut state = make_state();
    state.insert_list("work".to_string(), vec!["w".to_string()]);
    let action = handle_message(
        &mut state,
        &msg(&[("type", text("todo_list_rename")), ("old", text("work")), ("name", text("default"))]),
    );
    assert!(is_persist(&action));
    assert_eq!(state.len(), 1);
    assert_eq!(items(&state, "default"), vec!["w".to_string()]);
}

#[test]
fn rename_of_missing_list_is_ignored() {
    let mut state = make_state();
    assert!(!state.rename("nope", "other".to_string()));
    assert_eq!(state.len(), 1);
}

#[test]
fn move_between_lists_keeps_count() {
    let mut state = make_state();
    state.insert_list("done".to_string(), vec!["old".to_string()]);
    let action = handle_message(
        &mut state,
        &msg(&[("type", text("todo_move")), ("id", Field::Unsigned(0)), ("to", text("done"))]),
    );
    assert!(is_persist(&action));
    assert_eq!(items(&state, "default"), vec!["beta".to_string()]);
    assert_eq!(items(&state, "done"), vec!["old".to_string(), "alpha".to_string()]);
    assert_eq!(state.item_count(), Some(3));
}

#[test]
fn move_to_same_or_missing_list_is_ignored() {
    let mut state = make_state();
    assert!(!state.move_to("default", 0, "default"));
    assert!(!state.move_to("default", 0, "missing"));
    state.insert_list("done".to_string(), vec![]);
    assert!(!state.move_to("default", 9, "done"));
    assert_eq!(state.item_count(), Some(2));
}

#[test]
fn scenario_add_remove_reorder_edit() {
    let mut state = TodoLists::from_pairs(vec![("default".to_string(), vec!["test todo".to_string()])]);
    handle_message(&mut state, &msg(&[("type", text("todo_add")), ("text", text("first"))]));
    handle_message(&mut state, &msg(&[("type", text("todo_add")), ("text", text("second"))]));
    handle_message(
        &mut state,
        &msg(&[("type", text("todo_reorder")), ("from", Field::Unsigned(2)), ("to", Field::Unsigned(1))]),
    );
    assert_eq!(items(&state, "default")[1], "second");
    assert_eq!(items(&state, "default")[2], "first");
    handle_message(
        &mut state,
        &msg(&[("type", text("todo_edit")), ("id", Field::Unsigned(1)), ("text", text("edited"))]),
    );
    assert_eq!(items(&state, "default")[1], "edited");
    handle_message(&mut state, &msg(&[("type", text("todo_remove")), ("id", Field::Unsigned(0))]));
    assert_eq!(items(&state, "default"), vec!["edited".to_string(), "first".to_string()]);
}

#[test]
fn from_pairs_later_pair_wins() {
    let lists = TodoLists::from_pairs(vec![
        ("a".to_string(), vec!["1".to_string()]),
        ("b".to_string(), vec![]),
        ("a".to_string(), vec!["2".to_string()]),
    ]);
    assert_eq!(lists.len(), 2);
    assert_eq!(items(&lists, "a"), vec!["2".to_string()]);
    assert_eq!(lists.lists()[0].name, "a");
}

#[test]
fn stored_text_loads_back() {
    let mut state = make_state();
    state.insert_list("work \"x\"".to_string(), vec!["a\nb".to_string()]);
    let text = state.to_json().unwrap();
    let (loaded, store) = restore_todos(Some(text.as_str()));
    assert!(!store);
    assert_eq!(loaded.len(), 2);
    assert_eq!(items(&loaded, "default"), vec!["alpha".to_string(), "beta".to_string()]);
    assert_eq!(items(&loaded, "work \"x\""), vec!["a\nb".to_string()]);
}
