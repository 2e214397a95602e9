use agentool::json::{Json, JsonNumber};
use agentool::task::{
    artifact_refs_after, check_affected, check_found, list_from_text, list_tasks, list_to_text,
    not_found, parse_append_step_request, parse_close_checkpoint_request, parse_create_request,
    parse_end_run_request, parse_list_request, parse_update_step_request, plan_task_update,
    task_db_path, task_status_after_run, CheckpointStatus, RunStatus, StepStatus, TaskEntity,
    TaskFieldUpdate, TaskKind, TaskOwner, TaskPriority, TaskRow, TaskStatus,
};


fn strs_json(v: &[&str]) -> Json {
    Json::Array(v.iter().map(|x| Json::Str(x.to_string())).collect())
}

trait ErrOf<E> {
    fn err_of(self) -> E;
}

impl<T, E> ErrOf<E> for Result<T, E> {
    fn err_of(self) -> E {
        match self {
            Err(e) => e,
            Ok(_) => panic!("expected an error"),
        }
    }
}

fn s(v: &str) -> Json {
    Json::Str(v.to_string())
}

fn obj(members: Vec<(&str, Json)>) -> Json {
    Json::Object(members.into_iter().map(|(k, v)| (k.to_string(), v)).collect())
}

fn row(id: &str, status: &str, kind: &str, tags: &str) -> TaskRow {
    TaskRow {
        id: id.to_string(),
        title: format!("t-{id}"),
        description: String::new(),
        kind: kind.to_string(),
        status: status.to_string(),
        owner: "agent".to_string(),
        priority: None,
        tags_text: tags.to_string(),
        blocked_reason: None,
        goal: None,
        acceptance: None,
        risk_level: None,
        last_error: None,
        retry_count: 0,
        artifact_refs_text: "[]".to_string(),
        created_at: "c".to_string(),
        updated_at: "u".to_string(),
    }
}

#[test]
fn create_request_defaults_and_trim() {
    let r = parse_create_request(&obj(vec![("title", s("  Build it  ")), ("tags", Json::Array(vec![s("x"), Json::Bool(true)]))])).unwrap();
    assert_eq!(r.title, "Build it");
    assert_eq!(r.description, "");
    assert_eq!(r.kind, TaskKind::Task);
    assert_eq!(r.owner, TaskOwner::Agent);
    assert_eq!(r.priority, None);
    assert_eq!(r.tags, vec!["x".to_string()]);
    let r = parse_create_request(&obj(vec![("title", s("m")), ("kind", s("milestone")), ("priority", s("high"))])).unwrap();
    assert_eq!(r.kind, TaskKind::Milestone);
    assert_eq!(r.priority, Some(TaskPriority::High));
}

#[test]
fn create_request_errors() {
    let e = parse_create_request(&obj(vec![("title", s(" "))])).err_of();
    assert_eq!(e.code, "TASK_INVALID_INPUT");
    assert_eq!(e.message, "`title` must be non-empty");
    let e = parse_create_request(&obj(vec![("title", s("t")), ("kind", s("epic"))])).err_of();
    assert_eq!(e.code, "TASK_INVALID_KIND");
    assert_eq!(e.message, "kind must be \"task\", \"milestone\", or \"checkpoint\", got \"epic\"");
    let e = parse_create_request(&obj(vec![("title", s("t")), ("owner", s("robot"))])).err_of();
    assert_eq!(e.code, "TASK_INVALID_OWNER");
    let e = parse_create_request(&obj(vec![("title", s("t")), ("priority", s("max"))])).err_of();
    assert_eq!(e.code, "TASK_INVALID_PRIORITY");
    let e = parse_create_request(&obj(vec![])).err_of();
    assert_eq!(e.code, "INVALID_PATH");
}

#[test]
fn status_names_roundtrip() {
    for name in ["backlog", "ready", "running", "waiting_checkpoint", "blocked", "done", "failed", "cancelled"] {
        assert_eq!(TaskStatus::parse(name).unwrap().as_str(), name);
    }
    let e = TaskStatus::parse("zzz").err_of();
    assert_eq!(e.code, "TASK_INVALID_STATUS");
    assert_eq!(e.message, "invalid task status \"zzz\"");
}

#[test]
fn json_lists_roundtrip_through_text() {
    let v = vec!["a".to_string(), "b \"q\"".to_string()];
    let t = list_to_text(&v);
    assert_eq!(t, "[\"a\",\"b \\\"q\\\"\"]");
    assert_eq!(list_from_text(&t), v);
    assert_eq!(list_from_text("not json"), Vec::<String>::new());
    assert_eq!(list_to_text(&vec![]), "[]");
}

#[test]
fn json_list_escapes_control_characters() {
    let v = vec!["a\\b\n\t\r".to_string(), "\u{8}\u{c}\u{1}\u{1f}\u{7f}é/".to_string(), String::new()];
    let t = list_to_text(&v);
    assert_eq!(t, "[\"a\\\\b\\n\\t\\r\",\"\\b\\f\\u0001\\u001f\u{7f}é/\",\"\"]");
    assert_eq!(list_from_text(&t), v);
}

#[test]
fn artifact_reference_is_appended() {
    assert_eq!(artifact_refs_after("[\"a1\"]", "a2"), "[\"a1\",\"a2\"]");
    assert_eq!(artifact_refs_after("garbage", "a2"), "[\"a2\"]");
}

#[test]
fn list_filters_and_limit() {
    let rows = vec![
        row("1", "ready", "task", "[\"x\"]"),
        row("2", "done", "task", "[\"x\",\"y\"]"),
        row("3", "ready", "milestone", "[]"),
        row("4", "ready", "task", "[\"y\"]"),
    ];
    let req = parse_list_request(&obj(vec![("status", s("ready"))])).unwrap();
    assert_eq!(list_tasks(&rows, &req), vec![0, 2, 3]);
    let req = parse_list_request(&obj(vec![("tag", s("y"))])).unwrap();
    assert_eq!(list_tasks(&rows, &req), vec![1, 3]);
    let req = parse_list_request(&obj(vec![("kind", s("task")), ("limit", Json::Number(JsonNumber::PosInt(2)))])).unwrap();
    assert_eq!(list_tasks(&rows, &req), vec![0, 1]);
    let req = parse_list_request(&obj(vec![])).unwrap();
    assert_eq!(req.limit, 50);
    let e = parse_list_request(&obj(vec![("status", s("nope"))])).err_of();
    assert_eq!(e.code, "TASK_INVALID_STATUS");
}

#[test]
fn update_plan_applies_changes_in_order_and_stops_at_error() {
    let e = plan_task_update(false, "t9", &obj(vec![("title", s("x"))])).err_of();
    assert_eq!(e.code, "TASK_NOT_FOUND");
    assert_eq!(e.message, "no task with id `t9`");

    let plan = plan_task_update(
        true,
        "t1",
        &obj(vec![("title", s(" New ")), ("status", s("done")), ("priority", Json::Null)]),
    )
    .unwrap();
    assert!(plan.error.is_none());
    assert_eq!(plan.changes.len(), 3);
    assert!(matches!(&plan.changes[0], TaskFieldUpdate::Title(t) if t == "New"));
    assert!(matches!(&plan.changes[1], TaskFieldUpdate::Status(TaskStatus::Done)));
    assert!(matches!(&plan.changes[2], TaskFieldUpdate::Priority(None)));

    let plan = plan_task_update(true, "t1", &obj(vec![("description", s("d")), ("status", s("weird")), ("priority", s("low"))])).unwrap();
    assert_eq!(plan.changes.len(), 1);
    assert!(matches!(&plan.changes[0], TaskFieldUpdate::Description(d) if d == "d"));
    assert_eq!(plan.error.unwrap().code, "TASK_INVALID_STATUS");

    let plan = plan_task_update(true, "t1", &obj(vec![("title", s("  "))])).unwrap();
    assert_eq!(plan.changes.len(), 0);
    assert_eq!(plan.error.unwrap().code, "TASK_INVALID_INPUT");
}

#[test]
fn update_without_fields_changes_nothing() {
    let plan = plan_task_update(true, "t1", &obj(vec![("id", s("t1"))])).unwrap();
    assert_eq!(plan.changes.len(), 0);
    assert!(plan.error.is_none());
    let plan = plan_task_update(true, "t1", &obj(vec![("tags", strs_json(&["a"]))])).unwrap();
    assert_eq!(plan.changes.len(), 1);
    assert!(matches!(&plan.changes[0], TaskFieldUpdate::Tags(t) if t == &vec!["a".to_string()]));
}

#[test]
fn run_and_checkpoint_requests() {
    let r = parse_end_run_request(&obj(vec![("run_id", s("r1"))])).unwrap();
    assert_eq!(r.status, RunStatus::Done);
    assert_eq!(task_status_after_run(r.status), TaskStatus::Done);
    assert_eq!(task_status_after_run(RunStatus::Failed), TaskStatus::Failed);
    let c = parse_close_checkpoint_request(&obj(vec![("checkpoint_id", s("c1"))])).unwrap();
    assert_eq!(c.status, CheckpointStatus::Closed);
    assert_eq!(c.task_status, TaskStatus::Ready);
    let e = parse_append_step_request(&obj(vec![("task_id", s("t")), ("title", s(" "))])).err_of();
    assert_eq!(e.code, "TASK_INVALID_INPUT");
    let (id, st) = parse_update_step_request(&obj(vec![("step_id", s("s1")), ("status", s("done"))])).unwrap();
    assert_eq!(id, "s1");
    assert_eq!(st, StepStatus::Done);
}

#[test]
fn not_found_messages() {
    assert_eq!(not_found(TaskEntity::Step, "s1").message, "no step with id `s1`");
    assert!(check_affected(1, TaskEntity::Run, "r").is_ok());
    assert_eq!(check_affected(0, TaskEntity::Run, "r").err_of().message, "no run with id `r`");
    assert_eq!(check_found(false, TaskEntity::Lock, "l").err_of().code, "TASK_NOT_FOUND");
}

#[test]
fn database_path_under_root() {
    assert_eq!(task_db_path("/ws", ".agent/tasks.db"), "/ws/.agent/tasks.db");
}
