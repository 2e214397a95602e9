use agentool::interact::{
    interact_ask, interact_confirm, interact_notify, parse_ask_request, parse_confirm_request,
    parse_notify_request, InteractContext, NotifyLevel, StubInteractBackend,
};
use agentool::json::{Json, JsonNumber};


trait ErrOf<E> {
    fn err_of(self) -> E;
}

impl<T, E> ErrOf<E> for Result<T, E> {
    fn err_of(self) -> E {
        match self {
            Err(e) => e,
            Ok(_) => panic!("expected an error"),
        }
    }
}

fn s(v: &str) -> Json {
    Json::Str(v.to_string())
}

fn obj(members: Vec<(&str, Json)>) -> Json {
    Json::Object(members.into_iter().map(|(k, v)| (k.to_string(), v)).collect())
}

#[test]
fn unsupported_ask_and_confirm_err_notify_false() {
    let ctx = InteractContext::unsupported();
    let e = interact_ask(&ctx, &obj(vec![("question", s("hi?"))])).err_of();
    assert_eq!(e.code, "INTERACT_NOT_SUPPORTED");
    assert_eq!(e.message, "no InteractBackend configured; provide one via InteractContext::new");
    let e2 = interact_confirm(&ctx, &obj(vec![("message", s("sure?"))])).err_of();
    assert_eq!(e2.code, "INTERACT_NOT_SUPPORTED");
    let n = interact_notify(&ctx, &obj(vec![("message", s("ping")), ("level", s("warning"))])).unwrap();
    assert!(!n);
}

#[test]
fn stub_backend_roundtrip() {
    let ctx = InteractContext::new(StubInteractBackend {
        answer: "blue".to_string(),
        confirmed: false,
        notify_sent: true,
    });
    assert_eq!(interact_ask(&ctx, &obj(vec![("question", s("color?"))])).unwrap(), "blue");
    assert!(!interact_confirm(&ctx, &obj(vec![("message", s("go?"))])).unwrap());
    assert!(interact_notify(&ctx, &obj(vec![("message", s("done"))])).unwrap());
}

#[test]
fn default_stub_answers_ok() {
    let ctx = InteractContext::new(StubInteractBackend::default());
    assert_eq!(interact_ask(&ctx, &obj(vec![("question", s("q"))])).unwrap(), "ok");
    assert!(interact_confirm(&ctx, &obj(vec![("message", s("m"))])).unwrap());
}

#[test]
fn invalid_notify_level() {
    let ctx = InteractContext::unsupported();
    let e = interact_notify(&ctx, &obj(vec![("message", s("x")), ("level", s("loud"))])).err_of();
    assert_eq!(e.code, "INTERACT_INVALID_PARAM");
    assert_eq!(e.message, "`level` must be \"info\", \"warning\", or \"error\", got \"loud\"");
    assert_eq!(NotifyLevel::parse("error").unwrap(), NotifyLevel::Error);
}

#[test]
fn notify_level_defaults_to_info() {
    let (m, l) = parse_notify_request(&obj(vec![("message", s("x"))])).unwrap();
    assert_eq!(m, "x");
    assert_eq!(l, NotifyLevel::Info);
    // a level that is not a string is ignored
    let (_, l) = parse_notify_request(&obj(vec![("message", s("x")), ("level", Json::Bool(true))])).unwrap();
    assert_eq!(l, NotifyLevel::Info);
}

#[test]
fn invalid_optional_param_types() {
    let e = parse_ask_request(&obj(vec![("question", s("hi?")), ("options", s("yes"))])).err_of();
    assert_eq!(e.code, "INVALID_PATH");
    let e2 = parse_confirm_request(&obj(vec![("message", s("sure?")), ("default", s("yes"))])).err_of();
    assert_eq!(e2.code, "INVALID_PATH");
    let e3 = parse_confirm_request(&obj(vec![("message", s("sure?")), ("timeout", Json::Number(JsonNumber::Float))])).err_of();
    assert_eq!(e3.code, "INVALID_PATH");
}

#[test]
fn ask_request_fields() {
    let r = parse_ask_request(&obj(vec![
        ("question", s("q")),
        ("options", Json::Array(vec![s("a"), s("b")])),
        ("timeout", Json::Number(JsonNumber::PosInt(30))),
    ]))
    .unwrap();
    assert_eq!(r.question, "q");
    assert_eq!(r.options, Some(vec!["a".to_string(), "b".to_string()]));
    assert_eq!(r.timeout_secs, Some(30));
    let (m, d, t) = parse_confirm_request(&obj(vec![("message", s("m"))])).unwrap();
    assert_eq!((m.as_str(), d, t), ("m", false, None));
}
