use agentool::find::{
    build_glob, build_regex, display_path_relative, finish_glob, find_root_error,
    glob_candidate_of, glob_offer, grep_file, grep_options, missing_find_root,
    path_matches_glob, required_pattern, result_limit, trimmed_str_opt, GlobState, GrepState,
};
use agentool::json::{Json, JsonNumber};
use agentool::path::{IoErrorKind, IoFailure};


trait ErrOf<E> {
    fn err_of(self) -> E;
}

impl<T, E> ErrOf<E> for Result<T, E> {
    fn err_of(self) -> E {
        match self {
            Err(e) => e,
            Ok(_) => panic!("expected an error"),
        }
    }
}

fn s(v: &str) -> Json {
    Json::Str(v.to_string())
}

fn obj(members: Vec<(&str, Json)>) -> Json {
    Json::Object(members.into_iter().map(|(k, v)| (k.to_string(), v)).collect())
}

fn n(v: u64) -> Json {
    Json::Number(JsonNumber::PosInt(v))
}

#[test]
fn grep_finds_lines_and_respects_glob() {
    let root = "/ws";
    let glob = build_glob("*.md").unwrap();
    let re = build_regex("hello", false).unwrap();
    let mut st = GrepState { matches: Vec::new(), truncated: false };
    for (file, text) in [("/ws/a.md", "hello world\nskip me\n"), ("/ws/b.txt", "hello rust\n")] {
        if path_matches_glob(root, file, &glob) {
            let shown = display_path_relative(root, file);
            grep_file(&mut st, &shown, text, &re, 100);
        }
    }
    assert_eq!(st.matches.len(), 1);
    assert_eq!(st.matches[0].line, 1);
    assert_eq!(st.matches[0].content, "hello world");
    assert_eq!(st.matches[0].file, "a.md");
    assert!(!st.truncated);
}

#[test]
fn grep_ignore_case() {
    let (ic, limit) = grep_options(&obj(vec![("pattern", s("foo")), ("ignore_case", Json::Bool(true))])).unwrap();
    assert!(ic);
    assert_eq!(limit, 100);
    let re = build_regex("foo", ic).unwrap();
    let mut st = GrepState { matches: Vec::new(), truncated: false };
    grep_file(&mut st, "x.txt", "Foo\n", &re, limit);
    assert_eq!(st.matches.len(), 1);
}

#[test]
fn grep_invalid_regex() {
    let e = build_regex("(", false).err_of();
    assert_eq!(e.code, "INVALID_PATTERN");
    assert!(e.message.starts_with("invalid regular expression: "));
}

#[test]
fn invalid_glob_is_refused() {
    let e = build_glob("a[").err_of();
    assert_eq!(e.code, "INVALID_PATTERN");
    assert!(e.message.starts_with("invalid glob pattern: "));
}

#[test]
fn glob_lists_sorted() {
    let mut st = GlobState { files: Vec::new(), truncated: false };
    glob_offer(&mut st, "z.md", 100);
    glob_offer(&mut st, "a.md", 100);
    assert_eq!(finish_glob(&st), vec!["a.md".to_string(), "z.md".to_string()]);
}

#[test]
fn grep_and_glob_limit_results_and_mark_truncated() {
    let re = build_regex("hit", false).unwrap();
    let mut st = GrepState { matches: Vec::new(), truncated: false };
    grep_file(&mut st, "a.txt", "hit one\n", &re, 2);
    grep_file(&mut st, "b.txt", "hit two\n", &re, 2);
    grep_file(&mut st, "c.txt", "hit three\n", &re, 2);
    assert_eq!(st.matches.len(), 2);
    assert!(st.truncated);

    let mut g = GlobState { files: Vec::new(), truncated: false };
    for f in ["c.txt", "a.txt", "b.txt"] {
        glob_offer(&mut g, f, 2);
    }
    assert!(g.truncated);
    // the kept files are the smallest ones
    assert_eq!(finish_glob(&g), vec!["a.txt".to_string(), "b.txt".to_string()]);
}

#[test]
fn grep_strips_carriage_returns_and_numbers_lines() {
    let re = build_regex("b", false).unwrap();
    let mut st = GrepState { matches: Vec::new(), truncated: false };
    grep_file(&mut st, "f", "a\r\nb\r\nab\n", &re, 10);
    assert_eq!(st.matches.len(), 2);
    assert_eq!(st.matches[0].line, 2);
    assert_eq!(st.matches[0].content, "b");
    assert_eq!(st.matches[1].line, 3);
}

#[test]
fn limits_and_patterns() {
    assert_eq!(result_limit(&obj(vec![])).unwrap(), 100);
    assert_eq!(result_limit(&obj(vec![("limit", n(5))])).unwrap(), 5);
    assert_eq!(result_limit(&obj(vec![("limit", n(5000))])).unwrap(), 1000);
    let e = result_limit(&obj(vec![("limit", n(0))])).err_of();
    assert_eq!(e.message, "`limit` must be at least 1");
    assert_eq!(result_limit(&obj(vec![("limit", s("5"))])).err_of().code, "INVALID_PATH");
    let e = required_pattern(&obj(vec![("pattern", s("  "))])).err_of();
    assert_eq!(e.message, "`pattern` must not be empty");
    assert_eq!(trimmed_str_opt(&obj(vec![("path", s("  "))]), "path").unwrap(), None);
    assert_eq!(trimmed_str_opt(&obj(vec![("path", s(" d "))]), "path").unwrap(), Some("d".to_string()));
}

#[test]
fn find_path_missing_returns_file_not_found() {
    assert_eq!(missing_find_root().code, "FILE_NOT_FOUND");
    let e = find_root_error(&IoFailure { kind: IoErrorKind::NotFound, message: "no such file".to_string() });
    assert_eq!(e.code, "FILE_NOT_FOUND");
    assert_eq!(e.message, "resolve find root: no such file");
}

#[test]
fn display_paths_relative_to_root() {
    assert_eq!(display_path_relative("/ws", "/ws/a/b.txt"), "a/b.txt");
    assert_eq!(display_path_relative("/ws/f.txt", "/ws/f.txt"), "f.txt");
    assert_eq!(display_path_relative("/ws", "/other/x"), "/other/x");
    assert_eq!(glob_candidate_of("/ws", "/other/x"), None);
    assert_eq!(glob_candidate_of("/ws", "/ws/d/e.md"), Some("d/e.md".to_string()));
}

#[test]
fn glob_matches_nested_paths() {
    let g = build_glob("**/*.md").unwrap();
    assert!(path_matches_glob("/ws", "/ws/d/e.md", &g));
    assert!(!path_matches_glob("/ws", "/ws/d/e.txt", &g));
    let flat = build_glob("*.md").unwrap();
    assert!(path_matches_glob("/ws", "/ws/a.md", &flat));
}
