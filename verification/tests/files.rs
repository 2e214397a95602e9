use agentool::fs::{
    edit_text, ensure_dest_absent, list_entries, move_step, not_deletable_directory,
    parse_edit_request, parse_read_request, read_file_text, MoveAction, MoveEvent, MoveStage,
    RawEntry,
};
use agentool::json::{Json, JsonNumber};
use agentool::path::{IoErrorKind, IoFailure};


trait ErrOf<E> {
    fn err_of(self) -> E;
}

impl<T, E> ErrOf<E> for Result<T, E> {
    fn err_of(self) -> E {
        match self {
            Err(e) => e,
            Ok(_) => panic!("expected an error"),
        }
    }
}

fn s(v: &str) -> Json {
    Json::Str(v.to_string())
}

fn obj(members: Vec<(&str, Json)>) -> Json {
    Json::Object(members.into_iter().map(|(k, v)| (k.to_string(), v)).collect())
}

fn n(v: u64) -> Json {
    Json::Number(JsonNumber::PosInt(v))
}

#[test]
fn edit_file_unique_and_errors() {
    let err = edit_text("ababa", "a", "z").err_of();
    assert_eq!(err.code, "PATTERN_NOT_UNIQUE");
    assert_eq!(err.message, "`old_text` matches multiple locations");
    let err = edit_text("ababa", "zzz", "q").err_of();
    assert_eq!(err.code, "PATTERN_NOT_FOUND");
    assert_eq!(edit_text("ababa", "bab", "BAB").unwrap(), "aBABa");
}

#[test]
fn overlapping_occurrences_count_once() {
    assert_eq!(edit_text("aaa", "aa", "b").unwrap(), "ba");
    assert_eq!(edit_text("aaaa", "aa", "b").err_of().code, "PATTERN_NOT_UNIQUE");
}

#[test]
fn edit_request_refuses_empty_old_text() {
    let e = parse_edit_request(&obj(vec![("path", s("x")), ("old_text", s("")), ("new_text", s("y"))])).err_of();
    assert_eq!(e.code, "INVALID_PATH");
    assert_eq!(e.message, "`old_text` must not be empty");
    let (p, o, n) = parse_edit_request(&obj(vec![("path", s("x")), ("old_text", s("a")), ("new_text", s("b"))])).unwrap();
    assert_eq!((p.as_str(), o.as_str(), n.as_str()), ("x", "a", "b"));
}

#[test]
fn read_file_rejects_non_integer_offset_or_limit() {
    let e = parse_read_request(&obj(vec![("path", s("t.txt")), ("offset", Json::Number(JsonNumber::Float))])).err_of();
    assert_eq!(e.code, "INVALID_PATH");
    let e = parse_read_request(&obj(vec![("path", s("t.txt")), ("limit", Json::Number(JsonNumber::Float))])).err_of();
    assert_eq!(e.code, "INVALID_PATH");
    let e = parse_read_request(&obj(vec![("path", s("t.txt")), ("offset", n(0))])).err_of();
    assert_eq!(e.message, "`offset` must be >= 1 when provided");
    let r = parse_read_request(&obj(vec![("path", s("t.txt")), ("offset", n(2)), ("limit", n(1))])).unwrap();
    assert_eq!(r.offset, Some(2));
    assert_eq!(r.limit, Some(1));
}

#[test]
fn read_file_preserves_crlf_and_trailing_newline() {
    let (c, total) = read_file_text("line1\r\nline2\r\n", None, None);
    assert_eq!(c, "line1\r\nline2\r\n");
    assert_eq!(total, 2);
    let (c2, _) = read_file_text("line1\r\nline2\r\n", Some(1), Some(1));
    assert_eq!(c2, "line1\r");
}

#[test]
fn read_file_preserves_trailing_newline_lf() {
    let (c, total) = read_file_text("hello\nworld\n", None, None);
    assert_eq!(c, "hello\nworld\n");
    assert_eq!(total, 2);
}

#[test]
fn read_slices_by_offset_and_limit() {
    assert_eq!(read_file_text("a\nb\nc", Some(2), None).0, "b\nc");
    assert_eq!(read_file_text("a\nb\nc", Some(2), Some(1)).0, "b");
    assert_eq!(read_file_text("a\nb\nc", Some(9), None).0, "");
    assert_eq!(read_file_text("a\nb\nc", None, Some(0)).0, "");
    assert_eq!(read_file_text("", None, None), (String::new(), 0));
}

#[test]
fn list_directory_sorted_entries() {
    let raw = vec![
        RawEntry { name: "sub".to_string(), is_dir: true, len: 4096 },
        RawEntry { name: "b.txt".to_string(), is_dir: false, len: 1 },
        RawEntry { name: "a.txt".to_string(), is_dir: false, len: 1 },
    ];
    let out = list_entries(&raw);
    let names: Vec<&str> = out.iter().map(|e| e.name.as_str()).collect();
    assert_eq!(names, vec!["a.txt", "b.txt", "sub"]);
    assert_eq!(out[2].kind, "directory");
    assert_eq!(out[2].size, 0);
    assert_eq!(out[0].kind, "file");
    assert_eq!(out[0].size, 1);
}

#[test]
fn destination_must_be_absent() {
    assert!(ensure_dest_absent(false).is_ok());
    let e = ensure_dest_absent(true).err_of();
    assert_eq!(e.code, "FILE_ALREADY_EXISTS");
    assert_eq!(not_deletable_directory().code, "INVALID_PATH");
}

#[test]
fn move_fallback_used_when_rename_fails() {
    let (st, a) = move_step(MoveStage::Start, &MoveEvent::Done);
    assert!(matches!(a, MoveAction::Rename));
    let fail = MoveEvent::Failed(IoFailure { kind: IoErrorKind::Other, message: "cross-device".to_string() });
    let (st, a) = move_step(st, &fail);
    assert!(matches!(a, MoveAction::Copy));
    let (st, a) = move_step(st, &MoveEvent::Done);
    assert!(matches!(a, MoveAction::RemoveSource));
    let (_, a) = move_step(st, &MoveEvent::Done);
    assert!(matches!(a, MoveAction::Finish(Ok(()))));
}

#[test]
fn move_fallback_copy_error_propagates() {
    let fail = MoveEvent::Failed(IoFailure { kind: IoErrorKind::PermissionDenied, message: "denied".to_string() });
    let (_, a) = move_step(MoveStage::Copying, &fail);
    match a {
        MoveAction::Finish(Err(e)) => {
            assert_eq!(e.code, "PERMISSION_DENIED");
            assert_eq!(e.message, "copy: denied");
        }
        _ => panic!("expected a failed finish"),
    }
    let fail = MoveEvent::Failed(IoFailure { kind: IoErrorKind::NotFound, message: "gone".to_string() });
    let (_, a) = move_step(MoveStage::Removing, &fail);
    match a {
        MoveAction::RemoveDestinationAndFail(e) => {
            assert_eq!(e.code, "FILE_NOT_FOUND");
            assert_eq!(e.message, "remove_file: gone");
        }
        _ => panic!("expected the destination to be removed"),
    }
}

#[test]
fn rename_success_finishes() {
    let (_, a) = move_step(MoveStage::Renaming, &MoveEvent::Done);
    assert!(matches!(a, MoveAction::Finish(Ok(()))));
}
