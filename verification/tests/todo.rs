use agentool::json::{Json, JsonNumber};
use agentool::todo::{
    add_item, find_index, list_todos, parse_add_request, parse_list_request, priority_rank_of,
    remove_todo, store_text_is_blank, update_todo, TodoContext, TodoPriority, TodoStatus,
    TodoStore,
};


trait ErrOf<E> {
    fn err_of(self) -> E;
}

impl<T, E> ErrOf<E> for Result<T, E> {
    fn err_of(self) -> E {
        match self {
            Err(e) => e,
            Ok(_) => panic!("expected an error"),
        }
    }
}

fn s(v: &str) -> Json {
    Json::Str(v.to_string())
}

fn obj(members: Vec<(&str, Json)>) -> Json {
    Json::Object(members.into_iter().map(|(k, v)| (k.to_string(), v)).collect())
}

fn strs(v: &[&str]) -> Json {
    Json::Array(v.iter().map(|x| s(x)).collect())
}

fn add(store: &mut TodoStore, params: &Json, id: &str, now: &str) -> Result<(), String> {
    let req = parse_add_request(params).map_err(|e| e.code)?;
    add_item(store, req, id, now);
    Ok(())
}

fn list(store: &TodoStore, params: &Json) -> Vec<usize> {
    let req = parse_list_request(params).unwrap();
    list_todos(store, &req)
}

#[test]
fn add_list_update_remove() {
    let mut store = TodoStore::empty();
    add(
        &mut store,
        &obj(vec![
            ("title", s("  Ship feature ")),
            ("description", s("details")),
            ("priority", s("high")),
            ("tags", strs(&["a", "b"])),
        ]),
        "id-1",
        "2024-01-01T00:00:00Z",
    )
    .unwrap();

    let full = list(&store, &obj(vec![]));
    assert_eq!(full.len(), 1);
    assert_eq!(store.items[full[0]].title, "Ship feature");

    let filtered = list(&store, &obj(vec![("tag", s("a")), ("status", s("pending"))]));
    assert_eq!(filtered.len(), 1);

    update_todo(
        &mut store,
        "id-1",
        &obj(vec![("id", s("id-1")), ("status", s("done")), ("priority", Json::Null)]),
        "2024-01-02T00:00:00Z",
    )
    .unwrap();
    assert_eq!(store.items[0].status, TodoStatus::Done);
    assert_eq!(store.items[0].priority, None);
    assert_eq!(store.items[0].updated_at, "2024-01-02T00:00:00Z");
    assert_eq!(store.items[0].created_at, "2024-01-01T00:00:00Z");

    let pending = list(&store, &obj(vec![("status", s("pending"))]));
    assert_eq!(pending.len(), 0);

    remove_todo(&mut store, "id-1").unwrap();
    assert_eq!(list(&store, &obj(vec![])).len(), 0);

    let miss = remove_todo(&mut store, "nope").err_of();
    assert_eq!(miss.code, "TODO_NOT_FOUND");
}

#[test]
fn todo_rejects_invalid_optional_param_types() {
    let e = parse_add_request(&obj(vec![("title", s("Ship feature")), ("tags", s("ops"))])).err_of();
    assert_eq!(e.code, "INVALID_PATH");
    let e = parse_list_request(&obj(vec![("limit", s("10"))])).err_of();
    assert_eq!(e.code, "INVALID_PATH");
    let mut store = TodoStore::empty();
    add(&mut store, &obj(vec![("title", s("T1"))]), "id-1", "now").unwrap();
    let e = update_todo(&mut store, "id-1", &obj(vec![("id", s("id-1")), ("status", Json::Bool(true))]), "later").err_of();
    assert_eq!(e.code, "INVALID_PATH");
    // the store is unchanged on error
    assert_eq!(store.items[0].updated_at, "now");
    assert_eq!(store.items[0].status, TodoStatus::Pending);
}

#[test]
fn empty_title_is_refused() {
    let e = parse_add_request(&obj(vec![("title", s("   "))])).err_of();
    assert_eq!(e.code, "TODO_INVALID_INPUT");
}

#[test]
fn status_and_priority_parsing() {
    assert_eq!(TodoStatus::parse("done").unwrap(), TodoStatus::Done);
    assert_eq!(TodoStatus::parse("cancelled").unwrap().as_str(), "cancelled");
    let e = TodoStatus::parse("bogus").err_of();
    assert_eq!(e.code, "TODO_INVALID_STATUS");
    assert_eq!(e.message, "status must be \"pending\", \"done\", or \"cancelled\", got \"bogus\"");
    assert_eq!(TodoPriority::parse("low").unwrap(), TodoPriority::Low);
    assert_eq!(TodoPriority::parse("urgent").err_of().code, "TODO_INVALID_PRIORITY");
    assert_eq!(priority_rank_of(Some(TodoPriority::High)), 0);
    assert_eq!(priority_rank_of(None), 3);
    assert!(TodoStatus::Pending.sort_rank() < TodoStatus::Done.sort_rank());
}

#[test]
fn listing_orders_by_status_then_priority_then_recency() {
    let mut store = TodoStore::empty();
    add(&mut store, &obj(vec![("title", s("low")), ("priority", s("low"))]), "1", "t1").unwrap();
    add(&mut store, &obj(vec![("title", s("high")), ("priority", s("high"))]), "2", "t1").unwrap();
    add(&mut store, &obj(vec![("title", s("finished")), ("priority", s("high"))]), "3", "t1").unwrap();
    add(&mut store, &obj(vec![("title", s("low newer")), ("priority", s("low"))]), "4", "t2").unwrap();
    update_todo(&mut store, "3", &obj(vec![("status", s("done"))]), "t3").unwrap();
    let order = list(&store, &obj(vec![]));
    let titles: Vec<&str> = order.iter().map(|&i| store.items[i].title.as_str()).collect();
    assert_eq!(titles, vec!["high", "low newer", "low", "finished"]);
    let limited = list(&store, &obj(vec![("limit", Json::Number(JsonNumber::PosInt(2)))]));
    assert_eq!(limited, vec![1, 3]);
}

#[test]
fn filter_by_tag_matches_whole_tags() {
    let mut store = TodoStore::empty();
    add(&mut store, &obj(vec![("title", s("a")), ("tags", strs(&["ops", "db"]))]), "1", "t").unwrap();
    add(&mut store, &obj(vec![("title", s("b")), ("tags", strs(&["op"]))]), "2", "t").unwrap();
    let hits = list(&store, &obj(vec![("tag", s("ops"))]));
    assert_eq!(hits, vec![0]);
}

#[test]
fn find_and_update_missing() {
    let mut store = TodoStore::empty();
    add(&mut store, &obj(vec![("title", s("x"))]), "abc", "t").unwrap();
    assert_eq!(find_index(&store, "abc"), Some(0));
    assert_eq!(find_index(&store, "zzz"), None);
    let e = update_todo(&mut store, "zzz", &obj(vec![("title", s("y"))]), "t2").err_of();
    assert_eq!(e.code, "TODO_NOT_FOUND");
}

#[test]
fn update_keeps_fields_not_given() {
    let mut store = TodoStore::empty();
    add(&mut store, &obj(vec![("title", s("x")), ("description", s("d")), ("tags", strs(&["a"]))]), "1", "t").unwrap();
    let b = &store.items[0];
    let (title, description, priority, tags, id, created) =
        (b.title.clone(), b.description.clone(), b.priority, b.tags.clone(), b.id.clone(), b.created_at.clone());
    update_todo(&mut store, "1", &obj(vec![("status", s("done"))]), "t2").unwrap();
    let after = &store.items[0];
    assert_eq!(after.status, TodoStatus::Done);
    assert_eq!(after.title, title);
    assert_eq!(after.description, description);
    assert_eq!(after.priority, priority);
    assert_eq!(after.tags, tags);
    assert_eq!(after.id, id);
    assert_eq!(after.created_at, created);
    assert_eq!(after.updated_at, "t2");
}

#[test]
fn update_title_and_tags() {
    let mut store = TodoStore::empty();
    add(&mut store, &obj(vec![("title", s("x")), ("tags", strs(&["a"]))]), "1", "t").unwrap();
    update_todo(&mut store, "1", &obj(vec![("title", s(" New ")), ("tags", strs(&["b", "c"]))]), "t2").unwrap();
    assert_eq!(store.items[0].title, "New");
    assert_eq!(store.items[0].tags, vec!["b".to_string(), "c".to_string()]);
    let e = update_todo(&mut store, "1", &obj(vec![("title", s("  "))]), "t3").err_of();
    assert_eq!(e.code, "TODO_INVALID_INPUT");
}

#[test]
fn blank_store_text_and_paths() {
    assert!(store_text_is_blank("  \n\t"));
    assert!(!store_text_is_blank("[]"));
    let ctx = TodoContext::with_store_relative("/ws".to_string(), false, "t/todos.json");
    assert_eq!(ctx.store_logical_path().unwrap(), "/ws/t/todos.json");
    let d = TodoContext::new("/ws".to_string(), false);
    assert_eq!(d.store_logical_path().unwrap(), "/ws/.agent/todos.json");
}
