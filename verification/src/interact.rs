//! Human-in-the-loop tools: ask a question, ask for a confirmation, send a notification.
//!
//! The host provides the actual interaction through an [`InteractBackend`]; the functions
//! here read and check the requests and hand them to the backend.
use vstd::prelude::*;

use crate::json::{
    err_view, json_bool_opt, json_str, json_str_lenient, json_string_array_opt, json_u64_opt,
    lenient_str, owned, str_param, string_array_opt_param, string_views, bool_opt_param,
    u64_opt_param, Json,
};
use crate::text::{debug_quoted, debug_text};
use crate::tool::ToolError;

verus! {

/// Error codes of the interaction tools.
#[derive(Clone, Copy, PartialEq, Eq, Debug)]
pub enum InteractErrorCode {
    NotSupported,
    InvalidParam,
}

/// The stable code string of each interaction error code.
pub open spec fn interact_code_text(c: InteractErrorCode) -> Seq<char> {
    match c {
        InteractErrorCode::NotSupported => "INTERACT_NOT_SUPPORTED"@,
        InteractErrorCode::InvalidParam => "INTERACT_INVALID_PARAM"@,
    }
}

impl InteractErrorCode {
    /// The stable code string.
    pub fn as_str(self) -> (r: &'static str)
        ensures
            r@ == interact_code_text(self),
    {
        match self {
            InteractErrorCode::NotSupported => "INTERACT_NOT_SUPPORTED",
            InteractErrorCode::InvalidParam => "INTERACT_INVALID_PARAM",
        }
    }
}

/// A tool error with an interaction error code.
pub fn tool_error(code: InteractErrorCode, message: String) -> (e: ToolError)
    ensures
        e.code@ == interact_code_text(code),
        e.message@ == message@,
{
    ToolError { code: owned(code.as_str()), message }
}

/// An error as (code, message).
pub type ErrView = (Seq<char>, Seq<char>);

/// The level of a notification.
#[derive(Clone, Copy, PartialEq, Eq, Structural, Debug)]
pub enum NotifyLevel {
    Info,
    Warning,
    Error,
}

/// The outcome of parsing a level name.
pub open spec fn level_outcome(s: Seq<char>) -> Result<NotifyLevel, ErrView> {
    if s == "info"@ {
        Ok(NotifyLevel::Info)
    } else if s == "warning"@ {
        Ok(NotifyLevel::Warning)
    } else if s == "error"@ {
        Ok(NotifyLevel::Error)
    } else {
        Err(
            (
                interact_code_text(InteractErrorCode::InvalidParam),
                "`level` must be \"info\", \"warning\", or \"error\", got "@ + debug_text(s),
            ),
        )
    }
}

impl NotifyLevel {
    /// Parse a level name.
    pub fn parse(s: &str) -> (r: Result<NotifyLevel, ToolError>)
        ensures
            match r {
                Ok(l) => level_outcome(s@) == Ok::<NotifyLevel, ErrView>(l),
                Err(e) => level_outcome(s@) == Err::<NotifyLevel, ErrView>(err_view(e)),
            },
    {
        if crate::json::str_eq(s, "info") {
            Ok(NotifyLevel::Info)
        } else if crate::json::str_eq(s, "warning") {
            Ok(NotifyLevel::Warning)
        } else if crate::json::str_eq(s, "error") {
            Ok(NotifyLevel::Error)
        } else {
            let q = debug_quoted(s);
            let mut m = owned("`level` must be \"info\", \"warning\", or \"error\", got ");
            m.append(q.as_str());
            Err(tool_error(InteractErrorCode::InvalidParam, m))
        }
    }
}

/// The choices of a request as character sequences.
pub open spec fn opt_string_views(o: Option<Vec<String>>) -> Option<Seq<Seq<char>>> {
    match o {
        Some(v) => Some(string_views(v@)),
        None => None,
    }
}

/// The interaction the host provides (terminal, GUI, editor, ...). Each backend says, by
/// its `*_post` predicates, what its replies satisfy for the arguments it was given.
pub trait InteractBackend {
    /// What a reply `r` of `ask` satisfies for the question, choices and timeout asked.
    spec fn ask_post(
        &self,
        question: Seq<char>,
        options: Option<Seq<Seq<char>>>,
        timeout_secs: Option<u64>,
        r: Result<String, ToolError>,
    ) -> bool;

    /// What a reply `r` of `confirm` satisfies for the message, default and timeout.
    spec fn confirm_post(
        &self,
        message: Seq<char>,
        default: bool,
        timeout_secs: Option<u64>,
        r: Result<bool, ToolError>,
    ) -> bool;

    /// What a reply `r` of `notify` satisfies for the message and level.
    spec fn notify_post(&self, message: Seq<char>, level: NotifyLevel, r: Result<bool, ToolError>) -> bool;

    /// Ask a question; `options`, when given, lists the choices.
    fn ask(&self, question: &str, options: Option<Vec<String>>, timeout_secs: Option<u64>) -> (r: Result<
        String,
        ToolError,
    >)
        ensures
            self.ask_post(question@, opt_string_views(options), timeout_secs, r),
    ;

    /// Ask for a yes/no confirmation.
    fn confirm(&self, message: &str, default: bool, timeout_secs: Option<u64>) -> (r: Result<
        bool,
        ToolError,
    >)
        ensures
            self.confirm_post(message@, default, timeout_secs, r),
    ;

    /// Send a notification; tells whether it was delivered.
    fn notify(&self, message: &str, level: NotifyLevel) -> (r: Result<bool, ToolError>)
        ensures
            self.notify_post(message@, level, r),
    ;
}

/// The message of a backend that cannot interact.
pub open spec fn unsupported_message() -> Seq<char> {
    "no InteractBackend configured; provide one via InteractContext::new"@
}

/// A backend that cannot ask or confirm, and does not deliver notifications.
pub struct UnsupportedInteractBackend;

/// The refusal of a backend that cannot interact.
pub open spec fn not_supported(r: ErrView) -> bool {
    r == (interact_code_text(InteractErrorCode::NotSupported), unsupported_message())
}

impl InteractBackend for UnsupportedInteractBackend {
    open spec fn ask_post(
        &self,
        question: Seq<char>,
        options: Option<Seq<Seq<char>>>,
        timeout_secs: Option<u64>,
        r: Result<String, ToolError>,
    ) -> bool {
        r matches Err(e) && not_supported(err_view(e))
    }

    open spec fn confirm_post(
        &self,
        message: Seq<char>,
        default: bool,
        timeout_secs: Option<u64>,
        r: Result<bool, ToolError>,
    ) -> bool {
        r matches Err(e) && not_supported(err_view(e))
    }

    open spec fn notify_post(&self, message: Seq<char>, level: NotifyLevel, r: Result<bool, ToolError>) -> bool {
        r matches Ok(false)
    }

    fn ask(&self, question: &str, options: Option<Vec<String>>, timeout_secs: Option<u64>) -> (r:
        Result<String, ToolError>)
        ensures
            r matches Err(e) && err_view(e) == (
                interact_code_text(InteractErrorCode::NotSupported),
                unsupported_message(),
            ),
    {
        Err(
            tool_error(
                InteractErrorCode::NotSupported,
                owned("no InteractBackend configured; provide one via InteractContext::new"),
            ),
        )
    }

    fn confirm(&self, message: &str, default: bool, timeout_secs: Option<u64>) -> (r: Result<
        bool,
        ToolError,
    >)
        ensures
            r matches Err(e) && err_view(e) == (
                interact_code_text(InteractErrorCode::NotSupported),
                unsupported_message(),
            ),
    {
        Err(
            tool_error(
                InteractErrorCode::NotSupported,
                owned("no InteractBackend configured; provide one via InteractContext::new"),
            ),
        )
    }

    fn notify(&self, message: &str, level: NotifyLevel) -> (r: Result<bool, ToolError>)
        ensures
            r matches Ok(false),
    {
        Ok(false)
    }
}

/// A backend with fixed replies, for tests and local development.
pub struct StubInteractBackend {
    pub answer: String,
    pub confirmed: bool,
    pub notify_sent: bool,
}

impl Default for StubInteractBackend {
    /// The default replies: answer `ok`, confirmed, notifications delivered.
    fn default() -> (r: StubInteractBackend)
        ensures
            r.answer@ == "ok"@,
            r.confirmed,
            r.notify_sent,
    {
        StubInteractBackend { answer: owned("ok"), confirmed: true, notify_sent: true }
    }
}

impl InteractBackend for StubInteractBackend {
    open spec fn ask_post(
        &self,
        question: Seq<char>,
        options: Option<Seq<Seq<char>>>,
        timeout_secs: Option<u64>,
        r: Result<String, ToolError>,
    ) -> bool {
        r matches Ok(a) && a@ == self.answer@
    }

    open spec fn confirm_post(
        &self,
        message: Seq<char>,
        default: bool,
        timeout_secs: Option<u64>,
        r: Result<bool, ToolError>,
    ) -> bool {
        r == Ok::<bool, ToolError>(self.confirmed)
    }

    open spec fn notify_post(&self, message: Seq<char>, level: NotifyLevel, r: Result<bool, ToolError>) -> bool {
        r == Ok::<bool, ToolError>(self.notify_sent)
    }

    fn ask(&self, question: &str, options: Option<Vec<String>>, timeout_secs: Option<u64>) -> (r:
        Result<String, ToolError>)
        ensures
            r matches Ok(a) && a@ == self.answer@,
    {
        Ok(owned(self.answer.as_str()))
    }

    fn confirm(&self, message: &str, default: bool, timeout_secs: Option<u64>) -> (r: Result<
        bool,
        ToolError,
    >)
        ensures
            r == Ok::<bool, ToolError>(self.confirmed),
    {
        Ok(self.confirmed)
    }

    fn notify(&self, message: &str, level: NotifyLevel) -> (r: Result<bool, ToolError>)
        ensures
            r == Ok::<bool, ToolError>(self.notify_sent),
    {
        Ok(self.notify_sent)
    }
}

/// Holds the backend used by all interaction tools.
pub struct InteractContext<B: InteractBackend> {
    pub backend: B,
}

impl<B: InteractBackend> InteractContext<B> {
    /// A context with the given backend.
    pub fn new(backend: B) -> (r: InteractContext<B>)
        ensures
            r.backend == backend,
    {
        InteractContext { backend }
    }
}

impl InteractContext<UnsupportedInteractBackend> {
    /// A context whose backend cannot interact: asking and confirming fail, notifications
    /// report `sent: false`.
    pub fn unsupported() -> (r: InteractContext<UnsupportedInteractBackend>)
        ensures
            r.backend == UnsupportedInteractBackend,
    {
        InteractContext { backend: UnsupportedInteractBackend }
    }
}

/// A parsed `interact_ask` request.
pub struct AskRequest {
    pub question: String,
    /// The choices; an empty list counts as none.
    pub options: Option<Vec<String>>,
    pub timeout_secs: Option<u64>,
}

/// The outcome of reading an `interact_ask` request: `question`, `options` (an empty list
/// counts as none), `timeout`.
pub open spec fn ask_request(params: Json) -> Result<(Seq<char>, Option<Seq<Seq<char>>>, Option<u64>), ErrView> {
    match str_param(params, "question"@) {
        Err(e) => Err(e),
        Ok(q) => match string_array_opt_param(params, "options"@) {
            Err(e) => Err(e),
            Ok(o) => match u64_opt_param(params, "timeout"@) {
                Err(e) => Err(e),
                Ok(t) => Ok(
                    (
                        q,
                        match o {
                            Some(v) => if v.len() == 0 {
                                None
                            } else {
                                Some(v)
                            },
                            None => None,
                        },
                        t,
                    ),
                ),
            },
        },
    }
}

/// Read an `interact_ask` request.
pub fn parse_ask_request(params: &Json) -> (r: Result<AskRequest, ToolError>)
    ensures
        match r {
            Ok(req) => ask_request(*params) == Ok::<(Seq<char>, Option<Seq<Seq<char>>>, Option<u64>), ErrView>(
                (
                    req.question@,
                    match req.options {
                        Some(v) => Some(string_views(v@)),
                        None => None,
                    },
                    req.timeout_secs,
                ),
            ),
            Err(e) => ask_request(*params) == Err::<(Seq<char>, Option<Seq<Seq<char>>>, Option<u64>), ErrView>(
                err_view(e),
            ),
        },
{
    let question = json_str(params, "question")?;
    let options = match json_string_array_opt(params, "options")? {
        Some(v) => if v.len() == 0 {
            None
        } else {
            Some(v)
        },
        None => None,
    };
    let timeout_secs = json_u64_opt(params, "timeout")?;
    Ok(AskRequest { question, options, timeout_secs })
}

/// The outcome of reading an `interact_confirm` request: `message`, `default` (false when
/// absent), `timeout`.
pub open spec fn confirm_request(params: Json) -> Result<(Seq<char>, bool, Option<u64>), ErrView> {
    match str_param(params, "message"@) {
        Err(e) => Err(e),
        Ok(m) => match bool_opt_param(params, "default"@) {
            Err(e) => Err(e),
            Ok(d) => match u64_opt_param(params, "timeout"@) {
                Err(e) => Err(e),
                Ok(t) => Ok(
                    (
                        m,
                        match d {
                            Some(b) => b,
                            None => false,
                        },
                        t,
                    ),
                ),
            },
        },
    }
}

/// Read an `interact_confirm` request.
pub fn parse_confirm_request(params: &Json) -> (r: Result<(String, bool, Option<u64>), ToolError>)
    ensures
        match r {
            Ok((m, d, t)) => confirm_request(*params) == Ok::<(Seq<char>, bool, Option<u64>), ErrView>((m@, d, t)),
            Err(e) => confirm_request(*params) == Err::<(Seq<char>, bool, Option<u64>), ErrView>(err_view(e)),
        },
{
    let message = json_str(params, "message")?;
    let default = match json_bool_opt(params, "default")? {
        Some(b) => b,
        None => false,
    };
    let timeout_secs = json_u64_opt(params, "timeout")?;
    Ok((message, default, timeout_secs))
}

/// The outcome of reading an `interact_notify` request: `message`, then `level` (info
/// when absent or not a string).
pub open spec fn notify_request(params: Json) -> Result<(Seq<char>, NotifyLevel), ErrView> {
    match str_param(params, "message"@) {
        Err(e) => Err(e),
        Ok(m) => match lenient_str(params, "level"@) {
            None => Ok((m, NotifyLevel::Info)),
            Some(s) => match level_outcome(s) {
                Err(e) => Err(e),
                Ok(l) => Ok((m, l)),
            },
        },
    }
}

/// Read an `interact_notify` request.
pub fn parse_notify_request(params: &Json) -> (r: Result<(String, NotifyLevel), ToolError>)
    ensures
        match r {
            Ok((m, l)) => notify_request(*params) == Ok::<(Seq<char>, NotifyLevel), ErrView>((m@, l)),
            Err(e) => notify_request(*params) == Err::<(Seq<char>, NotifyLevel), ErrView>(err_view(e)),
        },
{
    let message = json_str(params, "message")?;
    let level = match json_str_lenient(params, "level") {
        None => NotifyLevel::Info,
        Some(s) => NotifyLevel::parse(s.as_str())?,
    };
    Ok((message, level))
}

/// `interact_ask`: read the request and hand it to the backend; a bad request never
/// reaches it.
pub fn interact_ask<B: InteractBackend>(ctx: &InteractContext<B>, params: &Json) -> (r: Result<String, ToolError>)
    ensures
        ask_request(*params) matches Err(e) ==> r matches Err(x) && err_view(x) == e,
        ask_request(*params) matches Ok((q, o, t)) ==> ctx.backend.ask_post(q, o, t, r),
{
    let req = parse_ask_request(params)?;
    ctx.backend.ask(req.question.as_str(), req.options, req.timeout_secs)
}

/// `interact_confirm`: read the request and hand it to the backend.
pub fn interact_confirm<B: InteractBackend>(ctx: &InteractContext<B>, params: &Json) -> (r: Result<bool, ToolError>)
    ensures
        confirm_request(*params) matches Err(e) ==> r matches Err(x) && err_view(x) == e,
        confirm_request(*params) matches Ok((m, d, t)) ==> ctx.backend.confirm_post(m, d, t, r),
{
    let (message, default, timeout_secs) = parse_confirm_request(params)?;
    ctx.backend.confirm(message.as_str(), default, timeout_secs)
}

/// `interact_notify`: read the request and hand it to the backend.
pub fn interact_notify<B: InteractBackend>(ctx: &InteractContext<B>, params: &Json) -> (r: Result<bool, ToolError>)
    ensures
        notify_request(*params) matches Err(e) ==> r matches Err(x) && err_view(x) == e,
        notify_request(*params) matches Ok((m, l)) ==> ctx.backend.notify_post(m, l, r),
{
    let (message, level) = parse_notify_request(params)?;
    ctx.backend.notify(message.as_str(), level)
}

} // verus!
