use agentool::error::{ToolError, ToolErrorCode};
use agentool::json::{
    json_bool_opt, json_str, json_str_lenient, json_string_array_opt, json_string_list,
    json_strings_lenient, json_u64_integer_opt, json_u64_lenient, json_u64_opt, Json, JsonNumber,
};
use agentool::find::{build_regex, grep_file, GrepState};
use agentool::todo::TodoPriority;
use agentool::sort::{stable_sort, take_sorted, KeyPart};
use agentool::text::{find, split_char, split_lines, string_of, trim_vec};


trait ErrOf<E> {
    fn err_of(self) -> E;
}

impl<T, E> ErrOf<E> for Result<T, E> {
    fn err_of(self) -> E {
        match self {
            Err(e) => e,
            Ok(_) => panic!("expected an error"),
        }
    }
}

fn s(v: &str) -> Json {
    Json::Str(v.to_string())
}

fn obj(members: Vec<(&str, Json)>) -> Json {
    Json::Object(members.into_iter().map(|(k, v)| (k.to_string(), v)).collect())
}

fn chars(v: &str) -> Vec<char> {
    v.chars().collect()
}

#[test]
fn error_text_and_untyped_form() {
    let e = ToolError { code: ToolErrorCode::PatternNotUnique, message: "twice".to_string() };
    assert_eq!(e.to_text(), "PATTERN_NOT_UNIQUE: twice");
    let u = e.untyped();
    assert_eq!(u.code, "PATTERN_NOT_UNIQUE");
    assert_eq!(u.message, "twice");
    assert_eq!(ToolErrorCode::MemoryKeyNotFound.as_str(), "MEMORY_KEY_NOT_FOUND");
}

#[test]
fn required_string_parameter() {
    let p = obj(vec![("a", s("x")), ("n", Json::Number(JsonNumber::PosInt(3)))]);
    assert_eq!(json_str(&p, "a").unwrap(), "x");
    let e = json_str(&p, "missing").err_of();
    assert_eq!(e.code, "INVALID_PATH");
    assert_eq!(e.message, "missing or invalid `missing`");
    assert!(json_str(&p, "n").is_err());
}

#[test]
fn optional_parameters_null_and_types() {
    let p = obj(vec![
        ("b", Json::Bool(true)),
        ("z", Json::Null),
        ("n", Json::Number(JsonNumber::PosInt(7))),
        ("neg", Json::Number(JsonNumber::NegInt(-1))),
        ("f", Json::Number(JsonNumber::Float)),
        ("arr", Json::Array(vec![s("a"), s("b")])),
        ("mixed", Json::Array(vec![s("a"), Json::Bool(false)])),
    ]);
    assert_eq!(json_bool_opt(&p, "b").unwrap(), Some(true));
    assert_eq!(json_bool_opt(&p, "z").err_of().message, "invalid `z`: expected boolean");
    assert_eq!(json_bool_opt(&p, "absent").unwrap(), None);
    assert!(json_bool_opt(&p, "n").is_err());
    assert_eq!(json_u64_opt(&p, "n").unwrap(), Some(7));
    assert!(json_u64_opt(&p, "neg").is_err());
    assert_eq!(json_u64_integer_opt(&p, "n").unwrap(), Some(7));
    assert!(json_u64_integer_opt(&p, "f").is_err());
    assert_eq!(json_string_array_opt(&p, "arr").unwrap(), Some(vec!["a".to_string(), "b".to_string()]));
    assert!(json_string_array_opt(&p, "mixed").is_err());
    assert_eq!(json_string_list(&p, "absent").unwrap(), Vec::<String>::new());
    assert!(json_string_list(&p, "z").is_err());
}

#[test]
fn lenient_readers_ignore_bad_values() {
    let p = obj(vec![
        ("a", s("x")),
        ("n", Json::Number(JsonNumber::PosInt(4))),
        ("arr", Json::Array(vec![s("a"), Json::Bool(false), s("c")])),
    ]);
    assert_eq!(json_str_lenient(&p, "a"), Some("x".to_string()));
    assert_eq!(json_str_lenient(&p, "n"), None);
    assert_eq!(json_u64_lenient(&p, "n"), Some(4));
    assert_eq!(json_u64_lenient(&p, "a"), None);
    assert_eq!(json_strings_lenient(&p, "arr"), vec!["a".to_string(), "c".to_string()]);
    assert_eq!(json_strings_lenient(&p, "absent"), Vec::<String>::new());
}

#[test]
fn text_splitting_and_search() {
    let lines = split_lines(&chars("a\r\nb\n\nc"));
    let got: Vec<String> = lines.iter().map(|l| l.iter().collect()).collect();
    assert_eq!(got, vec!["a", "b", "", "c"]);
    let parts = split_char(&chars("x|y||z"), '|');
    assert_eq!(parts.len(), 4);
    assert_eq!(find(&chars("hello"), &chars("ll")), Some(2));
    assert_eq!(find(&chars("hello"), &chars("z")), None);
    assert_eq!(trim_vec(&chars("  a b \t")), chars("a b"));
}

#[test]
fn refused_names_are_quoted_with_escapes() {
    let e = TodoPriority::parse("a\"b").err_of();
    assert_eq!(e.message, "priority must be \"low\", \"medium\", or \"high\", got \"a\\\"b\"");
    assert_eq!(string_of(&chars("x y")), "x y");
}

#[test]
fn stable_sort_keeps_ties_in_order() {
    let keys = vec![
        vec![KeyPart::AscNum(2)],
        vec![KeyPart::AscNum(1)],
        vec![KeyPart::AscNum(2)],
        vec![KeyPart::AscNum(0)],
    ];
    assert_eq!(stable_sort(&keys), vec![3, 1, 0, 2]);
    let desc = vec![
        vec![KeyPart::Desc(chars("a"))],
        vec![KeyPart::Desc(chars("c"))],
        vec![KeyPart::Desc(chars("b"))],
    ];
    assert_eq!(stable_sort(&desc), vec![1, 2, 0]);
}

#[test]
fn take_sorted_cuts_to_limit() {
    let hits = vec![10, 11, 12];
    let keys = vec![
        vec![KeyPart::Asc(chars("b"))],
        vec![KeyPart::Asc(chars("a"))],
        vec![KeyPart::Asc(chars("c"))],
    ];
    assert_eq!(take_sorted(&hits, &keys, 2), vec![11, 10]);
    assert_eq!(take_sorted(&hits, &keys, 10), vec![11, 10, 12]);
}

#[test]
fn regex_matching_through_grep() {
    let re = build_regex("fo+", false).unwrap();
    let mut st = GrepState { matches: Vec::new(), truncated: false };
    grep_file(&mut st, "f", "xfoo\nFOO\nbar", &re, 10);
    assert_eq!(st.matches.len(), 1);
    assert_eq!(st.matches[0].content, "xfoo");
    let ci = build_regex("fo+", true).unwrap();
    let mut st2 = GrepState { matches: Vec::new(), truncated: false };
    grep_file(&mut st2, "f", "xfoo\nFOO\nbar", &ci, 10);
    assert_eq!(st2.matches.len(), 2);
    assert!(build_regex("(", false).is_err());
}
