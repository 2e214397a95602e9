use agentool::git::{
    commit_date, commit_files, flag_lenient, git_error, log_limit, repo_logical_path,
    signature_identity, status_changes, status_label, worktree_path, CommitFiles, GitContext,
    StatusEntry,
};
use agentool::json::{Json, JsonNumber};


trait ErrOf<E> {
    fn err_of(self) -> E;
}

impl<T, E> ErrOf<E> for Result<T, E> {
    fn err_of(self) -> E {
        match self {
            Err(e) => e,
            Ok(_) => panic!("expected an error"),
        }
    }
}

fn s(v: &str) -> Json {
    Json::Str(v.to_string())
}

fn obj(members: Vec<(&str, Json)>) -> Json {
    Json::Object(members.into_iter().map(|(k, v)| (k.to_string(), v)).collect())
}

#[test]
fn status_labels_by_bits() {
    assert_eq!(status_label(0x80), "untracked");
    assert_eq!(status_label(0x1), "added");
    assert_eq!(status_label(0x200), "deleted");
    assert_eq!(status_label(0x4), "deleted");
    assert_eq!(status_label(0x100), "modified");
    assert_eq!(status_label(0x80 | 0x1), "untracked");
}

#[test]
fn status_changes_skip_entries_without_path() {
    let entries = vec![
        StatusEntry { path: Some("a.txt".to_string()), bits: 0x80 },
        StatusEntry { path: None, bits: 0x1 },
        StatusEntry { path: Some("b.txt".to_string()), bits: 0x2 },
    ];
    let ch = status_changes(&entries);
    assert_eq!(ch.len(), 2);
    assert_eq!(ch[0].file, "a.txt");
    assert_eq!(ch[0].status, "untracked");
    assert_eq!(ch[1].file, "b.txt");
    assert_eq!(ch[1].status, "modified");
}

#[test]
fn commit_files_parameter() {
    assert!(matches!(commit_files(&obj(vec![])).unwrap(), CommitFiles::All));
    match commit_files(&obj(vec![("files", Json::Array(vec![s("a"), s("b")]))])).unwrap() {
        CommitFiles::Paths(p, None) => assert_eq!(p, vec!["a".to_string(), "b".to_string()]),
        _ => panic!("expected paths"),
    }
    match commit_files(&obj(vec![("files", Json::Array(vec![s("a"), Json::Bool(true), s("c")]))])).unwrap() {
        CommitFiles::Paths(p, Some(e)) => {
            assert_eq!(p, vec!["a".to_string()]);
            assert_eq!(e.code, "GIT_ERROR");
            assert_eq!(e.message, "`files` entries must be strings");
        }
        _ => panic!("expected a late error"),
    }
    let e = commit_files(&obj(vec![("files", Json::Array(vec![]))])).err_of();
    assert_eq!(e.message, "`files` must list at least one path when provided");
    let e = commit_files(&obj(vec![("files", s("a"))])).err_of();
    assert_eq!(e.message, "`files` must be a JSON array of strings");
}

#[test]
fn identity_defaults() {
    assert_eq!(signature_identity(None, None), ("agentool".to_string(), "agentool@localhost".to_string()));
    assert_eq!(
        signature_identity(Some("n".to_string()), Some("e@x".to_string())),
        ("n".to_string(), "e@x".to_string())
    );
}

#[test]
fn log_limit_is_lenient_and_capped() {
    assert_eq!(log_limit(&obj(vec![])), 10);
    assert_eq!(log_limit(&obj(vec![("limit", Json::Number(JsonNumber::PosInt(3)))])), 3);
    assert_eq!(log_limit(&obj(vec![("limit", Json::Number(JsonNumber::PosInt(1000)))])), 100);
    assert_eq!(log_limit(&obj(vec![("limit", s("3"))])), 10);
    assert!(flag_lenient(&obj(vec![("all", Json::Bool(true))]), "all"));
    assert!(!flag_lenient(&obj(vec![("all", s("true"))]), "all"));
}

#[test]
fn repository_and_worktree_paths() {
    let ctx = GitContext::new("/repo".to_string());
    assert_eq!(repo_logical_path(&ctx, None), "/repo");
    assert_eq!(repo_logical_path(&ctx, Some("  ")), "/repo");
    assert_eq!(repo_logical_path(&ctx, Some("sub/../x")), "/repo/x");
    assert_eq!(repo_logical_path(&ctx, Some(" /abs ")), "/abs");
    assert_eq!(worktree_path(&ctx, "../wt"), "/wt");
    assert_eq!(worktree_path(&ctx, "/elsewhere"), "/elsewhere");
}

#[test]
fn commit_dates_in_rfc3339() {
    assert_eq!(commit_date(0), "1970-01-01T00:00:00+00:00");
    assert_eq!(commit_date(86400 + 61), "1970-01-02T00:01:01+00:00");
    assert_eq!(commit_date(i64::MAX), "");
    assert_eq!(git_error("boom").code, "GIT_ERROR");
}
