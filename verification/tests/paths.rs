use agentool::path::{
    combine_and_normalize, ensure_under_root, finish_resolve, is_descendant, map_io_error,
    normalize_path, workspace_logical_path, IoErrorKind, IoFailure, PathProbe,
};

trait ErrOf<E> {
    fn err_of(self) -> E;
}

impl<T, E> ErrOf<E> for Result<T, E> {
    fn err_of(self) -> E {
        match self {
            Err(e) => e,
            Ok(_) => panic!("expected an error"),
        }
    }
}

#[test]
fn normalization_folds_dots() {
    assert_eq!(normalize_path("/a/./b/../c"), "/a/c");
    assert_eq!(normalize_path("a//b/"), "a/b");
    assert_eq!(normalize_path("/.."), "/");
    assert_eq!(normalize_path("../x"), "x");
}

#[test]
fn relaxed_mode_relative_path_joins_workspace_root() {
    assert_eq!(combine_and_normalize("/ws", "sub/file.txt"), "/ws/sub/file.txt");
    assert_eq!(combine_and_normalize("/ws", "/abs/x"), "/abs/x");
    assert_eq!(workspace_logical_path("/ws", "  a/../b ").unwrap(), "/ws/b");
    let e = workspace_logical_path("/ws", "   ").err_of();
    assert_eq!(e.code, "INVALID_PATH");
    assert_eq!(e.message, "path is empty");
}

#[test]
fn descendant_check_is_by_component() {
    assert!(is_descendant("/ws", "/ws"));
    assert!(is_descendant("/ws", "/ws/a/b"));
    assert!(!is_descendant("/ws", "/wsx/a"));
    assert!(!is_descendant("/ws/a", "/ws"));
}

#[test]
fn sandbox_blocks_escape() {
    assert!(ensure_under_root("/ws", "/ws/in").is_ok());
    let e = ensure_under_root("/ws", "/tmp/secret").err_of();
    assert_eq!(e.code, "INVALID_PATH");
    assert_eq!(e.message, "path escapes working root (sandbox)");
}

#[test]
fn sandbox_blocks_absolute_path_outside_workspace_root() {
    let p = PathProbe::Exists("/etc/passwd".to_string());
    assert_eq!(finish_resolve("/ws", false, &p).err_of().code, "INVALID_PATH");
    assert_eq!(finish_resolve("/ws", true, &p).unwrap(), "/etc/passwd");
}

#[test]
fn resolution_below_an_existing_ancestor() {
    let p = PathProbe::Below("/ws/a".to_string(), vec!["b".to_string(), "c.txt".to_string()]);
    assert_eq!(finish_resolve("/ws", false, &p).unwrap(), "/ws/a/b/c.txt");
    let out = PathProbe::Below("/other".to_string(), vec!["x".to_string()]);
    assert_eq!(finish_resolve("/ws", false, &out).err_of().code, "INVALID_PATH");
    assert_eq!(finish_resolve("/ws", true, &out).unwrap(), "/other/x");
    let e = finish_resolve("/ws", false, &PathProbe::NoAncestor).err_of();
    assert_eq!(e.code, "FILE_NOT_FOUND");
    let e = finish_resolve("/ws", false, &PathProbe::NoFileName).err_of();
    assert_eq!(e.message, "invalid path (no file name component)");
}

#[test]
fn io_errors_map_to_codes() {
    let f = IoFailure { kind: IoErrorKind::DirectoryNotEmpty, message: "busy".to_string() };
    let e = map_io_error(&f, "remove_dir");
    assert_eq!(e.code, "DIRECTORY_NOT_EMPTY");
    assert_eq!(e.message, "remove_dir: busy");
    let g = IoFailure { kind: IoErrorKind::InvalidData, message: "bad".to_string() };
    let e = map_io_error(&g, "");
    assert_eq!(e.code, "INVALID_PATH");
    assert_eq!(e.message, "bad");
    let p = PathProbe::Failed(IoFailure { kind: IoErrorKind::PermissionDenied, message: "no".to_string() }, "canonicalize".to_string());
    let e = finish_resolve("/ws", false, &p).err_of();
    assert_eq!(e.code, "PERMISSION_DENIED");
    assert_eq!(e.message, "canonicalize: no");
}
