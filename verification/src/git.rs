//! Git tools: status, diff, commit, log and worktrees of a repository found from a path.
//!
//! The repository work is the caller's (through `git2`); the functions here choose the
//! directory to open, label status entries, read the commit's file list, the log limit and
//! the signature defaults, and render commit dates.
use chrono::TimeZone;
use vstd::prelude::*;

use crate::json::{
    err_view, json_get, lenient_str, lenient_u64, owned, string_views, Json,
};
use crate::path::{combine, combine_and_normalize, has_root};
use crate::text::{chars_of, string_of, trim, trim_vec};
use crate::tool::ToolError;

verus! {

/// The code of every git tool error.
pub open spec fn git_code() -> Seq<char> {
    "GIT_ERROR"@
}

/// A `GIT_ERROR` with the given message (what `git2` reported, or the tool's own).
pub fn git_error(message: &str) -> (e: ToolError)
    ensures
        err_view(e) == (git_code(), message@),
{
    ToolError { code: owned("GIT_ERROR"), message: owned(message) }
}

/// Default directory of the git tools (canonical).
pub struct GitContext {
    pub default_repo_root: String,
}

impl GitContext {
    /// A context for an already canonical default directory.
    pub fn new(default_repo_root: String) -> (r: GitContext)
        ensures
            r.default_repo_root@ == default_repo_root@,
    {
        GitContext { default_repo_root }
    }
}

/// The directory from which the repository is discovered: the default when the path is
/// absent or blank; else the trimmed path, as is when absolute, joined onto the default
/// and normalized when relative.
pub open spec fn repo_dir(root: Seq<char>, path: Option<Seq<char>>) -> Seq<char> {
    match path {
        None => root,
        Some(p) => if trim(p).len() == 0 {
            root
        } else if has_root(trim(p)) {
            trim(p)
        } else {
            combine(root, trim(p))
        },
    }
}

/// The directory from which the repository is discovered.
pub fn repo_logical_path(ctx: &GitContext, path: Option<&str>) -> (r: String)
    ensures
        r@ == repo_dir(ctx.default_repo_root@, match path {
            Some(p) => Some(p@),
            None => None,
        }),
{
    match path {
        None => owned(ctx.default_repo_root.as_str()),
        Some(p) => {
            let c = chars_of(p);
            let t = trim_vec(c.as_slice());
            if t.len() == 0 {
                owned(ctx.default_repo_root.as_str())
            } else if t[0] == '/' {
                string_of(t.as_slice())
            } else {
                let ts = string_of(t.as_slice());
                combine_and_normalize(ctx.default_repo_root.as_str(), ts.as_str())
            }
        },
    }
}

/// The path of a new worktree: as is when absolute, joined onto the default directory and
/// normalized when relative.
pub open spec fn worktree_dir(root: Seq<char>, path: Seq<char>) -> Seq<char> {
    if has_root(path) {
        path
    } else {
        combine(root, path)
    }
}

/// The path of a new worktree.
pub fn worktree_path(ctx: &GitContext, path: &str) -> (r: String)
    ensures
        r@ == worktree_dir(ctx.default_repo_root@, path@),
{
    let c = chars_of(path);
    if c.len() > 0 && c[0] == '/' {
        owned(path)
    } else {
        combine_and_normalize(ctx.default_repo_root.as_str(), path)
    }
}

/// Whether a status has a bit set.
pub open spec fn has_bit(bits: u32, mask: u32) -> bool {
    bits & mask != 0
}

/// The label of a status, by its `git2::Status` bits: new in the work tree is
/// `untracked`, new in the index `added`, deleted in either `deleted`, anything else
/// `modified`.
pub open spec fn status_text(bits: u32) -> Seq<char> {
    if has_bit(bits, 0x80) {
        "untracked"@
    } else if has_bit(bits, 0x1) {
        "added"@
    } else if has_bit(bits, 0x200) || has_bit(bits, 0x4) {
        "deleted"@
    } else {
        "modified"@
    }
}

/// The label of a status.
pub fn status_label(bits: u32) -> (r: &'static str)
    ensures
        r@ == status_text(bits),
{
    if bits & 0x80 != 0 {
        "untracked"
    } else if bits & 0x1 != 0 {
        "added"
    } else if bits & 0x200 != 0 || bits & 0x4 != 0 {
        "deleted"
    } else {
        "modified"
    }
}

/// A status entry as `git2` reports it: its path (when it is valid UTF-8) and its bits.
pub struct StatusEntry {
    pub path: Option<String>,
    pub bits: u32,
}

/// A changed file as `git_status` shows it.
pub struct StatusChange {
    pub file: String,
    pub status: String,
}

/// The changes shown for status entries, in order: entries without a path and unchanged
/// entries (no bit set) are left out.
pub open spec fn changes_of(es: Seq<StatusEntry>) -> Seq<(Seq<char>, Seq<char>)>
    decreases es.len(),
{
    if es.len() == 0 {
        seq![]
    } else {
        let prev = changes_of(es.drop_last());
        let e = es.last();
        match e.path {
            Some(p) => if e.bits == 0 {
                prev
            } else {
                prev.push((p@, status_text(e.bits)))
            },
            None => prev,
        }
    }
}

/// The changes `git_status` shows.
pub fn status_changes(entries: &Vec<StatusEntry>) -> (r: Vec<StatusChange>)
    ensures
        r@.map_values(|c: StatusChange| (c.file@, c.status@)) == changes_of(entries@),
{
    let mut out: Vec<StatusChange> = Vec::new();
    let mut i: usize = 0;
    while i < entries.len()
        invariant
            i <= entries@.len(),
            out@.map_values(|c: StatusChange| (c.file@, c.status@)) == changes_of(entries@.take(i as int)),
        decreases entries@.len() - i,
    {
        assert(entries@.take(i + 1).drop_last() == entries@.take(i as int));
        assert(entries@.take(i + 1).last() == entries@[i as int]);
        let e = &entries[i];
        match &e.path {
            Some(p) => {
                if e.bits != 0 {
                    let ghost before = out@.map_values(|c: StatusChange| (c.file@, c.status@));
                    let c = StatusChange { file: owned(p.as_str()), status: owned(status_label(e.bits)) };
                    out.push(c);
                    assert(out@.map_values(|c: StatusChange| (c.file@, c.status@)) =~= before.push(
                        (c.file@, c.status@),
                    ));
                }
            },
            None => {},
        }
        i = i + 1;
    }
    assert(entries@.take(entries@.len() as int) == entries@);
    out
}

/// What a commit stages.
pub enum CommitFiles {
    /// Everything (`files` absent).
    All,
    /// These paths, in order; then, if an entry was not a string, the error to report
    /// after them.
    Paths(Vec<String>, Option<ToolError>),
}

/// The paths of a `files` array before its first non-string entry, and whether one was
/// found.
pub open spec fn string_prefix(items: Seq<Json>) -> (Seq<Seq<char>>, bool)
    decreases items.len(),
{
    if items.len() == 0 {
        (seq![], false)
    } else {
        let prev = string_prefix(items.drop_last());
        if prev.1 {
            prev
        } else {
            match items.last() {
                Json::Str(s) => (prev.0.push(s@), false),
                _ => (prev.0, true),
            }
        }
    }
}

/// The outcome of the `files` parameter of a commit: absent stages everything; it must be
/// a non-empty array; its string entries are staged in order until one is not a string,
/// which is an error reported after the paths before it were staged.
pub open spec fn commit_files_param(params: Json) -> Result<Option<(Seq<Seq<char>>, Option<Seq<char>>)>, Seq<char>> {
    match json_get(params, "files"@) {
        None => Ok(None),
        Some(Json::Array(items)) => if items@.len() == 0 {
            Err("`files` must list at least one path when provided"@)
        } else {
            let (paths, bad) = string_prefix(items@);
            Ok(Some((paths, if bad { Some("`files` entries must be strings"@) } else { None })))
        },
        Some(_) => Err("`files` must be a JSON array of strings"@),
    }
}

/// The abstract value of a file selection.
pub open spec fn commit_files_view(c: CommitFiles) -> Option<(Seq<Seq<char>>, Option<Seq<char>>)> {
    match c {
        CommitFiles::All => None,
        CommitFiles::Paths(p, e) => Some(
            (
                string_views(p@),
                match e {
                    Some(x) => Some(x.message@),
                    None => None,
                },
            ),
        ),
    }
}

/// Read the `files` parameter of a commit. Every error it gives is a `GIT_ERROR`.
pub fn commit_files(params: &Json) -> (r: Result<CommitFiles, ToolError>)
    ensures
        match r {
            Ok(c) => commit_files_param(*params) == Ok::<
                Option<(Seq<Seq<char>>, Option<Seq<char>>)>,
                Seq<char>,
            >(commit_files_view(c)) && (c matches CommitFiles::Paths(_, Some(e)) ==> e.code@
                == git_code()),
            Err(e) => commit_files_param(*params) == Err::<
                Option<(Seq<Seq<char>>, Option<Seq<char>>)>,
                Seq<char>,
            >(e.message@) && e.code@ == git_code(),
        },
{
    match params.get("files") {
        None => Ok(CommitFiles::All),
        Some(Json::Array(items)) => {
            if items.len() == 0 {
                return Err(git_error("`files` must list at least one path when provided"));
            }
            let mut paths: Vec<String> = Vec::new();
            let mut i: usize = 0;
            while i < items.len()
                invariant
                    json_get(*params, "files"@) == Some(Json::Array(*items)),
                    items@.len() > 0,
                    i <= items@.len(),
                    string_prefix(items@.take(i as int)) == (string_views(paths@), false),
                decreases items@.len() - i,
            {
                assert(items@.take(i + 1).drop_last() == items@.take(i as int));
                assert(items@.take(i + 1).last() == items@[i as int]);
                match &items[i] {
                    Json::Str(s) => {
                        let ghost before = string_views(paths@);
                        paths.push(owned(s.as_str()));
                        assert(string_views(paths@) =~= before.push(s@));
                    },
                    _ => {
                        assert(string_prefix(items@.take(i + 1)) == (string_views(paths@), true));
                        proof {
                            lemma_string_prefix_stops(items@, i as int + 1);
                        }
                        assert(items@.len() > 0);
                        return Ok(
                            CommitFiles::Paths(paths, Some(git_error("`files` entries must be strings"))),
                        );
                    },
                }
                i = i + 1;
            }
            assert(items@.take(items@.len() as int) == items@);
            Ok(CommitFiles::Paths(paths, None))
        },
        Some(_) => Err(git_error("`files` must be a JSON array of strings")),
    }
}

/// Once a non-string entry is found, later entries do not change the prefix.
pub proof fn lemma_string_prefix_stops(items: Seq<Json>, n: int)
    requires
        0 <= n <= items.len(),
        string_prefix(items.take(n)).1,
    ensures
        string_prefix(items) == string_prefix(items.take(n)),
    decreases items.len() - n,
{
    if n < items.len() {
        assert(items.take(n + 1).drop_last() == items.take(n));
        lemma_string_prefix_stops(items, n + 1);
    } else {
        assert(items.take(n) == items);
    }
}

/// The identity a commit is signed with: the configured name and email, or `agentool`
/// and `agentool@localhost`.
pub fn signature_identity(name: Option<String>, email: Option<String>) -> (r: (String, String))
    ensures
        r.0@ == match name {
            Some(n) => n@,
            None => "agentool"@,
        },
        r.1@ == match email {
            Some(e) => e@,
            None => "agentool@localhost"@,
        },
{
    let n = match name {
        Some(n) => n,
        None => owned("agentool"),
    };
    let e = match email {
        Some(e) => e,
        None => owned("agentool@localhost"),
    };
    (n, e)
}

/// How many commits `git_log` shows: `limit` when it is a non-negative integer (at most
/// 100), else 10.
pub open spec fn log_limit_of(params: Json) -> int {
    match lenient_u64(params, "limit"@) {
        Some(n) => if n > 100 {
            100
        } else {
            n as int
        },
        None => 10,
    }
}

/// How many commits `git_log` shows.
pub fn log_limit(params: &Json) -> (r: usize)
    ensures
        r as int == log_limit_of(*params),
{
    match crate::json::json_u64_lenient(params, "limit") {
        Some(n) => if n > 100 {
            100
        } else {
            n as usize
        },
        None => 10,
    }
}

/// A member that counts only when it is a boolean, `false` otherwise.
pub fn flag_lenient(params: &Json, key: &str) -> (r: bool)
    ensures
        r == (json_get(*params, key@) == Some(Json::Bool(true))),
{
    match params.get(key) {
        Some(Json::Bool(b)) => *b,
        _ => false,
    }
}

/// What `Utc.timestamp_opt(seconds, 0).single().map(|d| d.to_rfc3339())` gives.
pub uninterp spec fn rfc3339_of(seconds: i64) -> Option<Seq<char>>;

/// `chrono`: the RFC 3339 text of a Unix time in UTC, when the time is representable.
#[verifier::external_body]
fn utc_rfc3339(seconds: i64) -> (r: Option<String>)
    ensures
        match r {
            Some(t) => rfc3339_of(seconds) == Some(t@),
            None => rfc3339_of(seconds) is None,
        },
{
    chrono::Utc.timestamp_opt(seconds, 0).single().map(|d| d.to_rfc3339())
}

/// The date shown for a commit: its time in RFC 3339 (UTC), or empty when the time cannot
/// be represented.
pub fn commit_date(seconds: i64) -> (r: String)
    ensures
        r@ == match rfc3339_of(seconds) {
            Some(t) => t,
            None => Seq::<char>::empty(),
        },
{
    match utc_rfc3339(seconds) {
        Some(t) => t,
        None => String::new(),
    }
}

} // verus!
