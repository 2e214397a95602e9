//! Local workspace lookup: `grep_search` (file contents by regular expression) and
//! `glob_search` (file paths by glob pattern).
//!
//! Walking the directory tree and reading files is the caller's; the functions here read
//! the requests, relate each file to the search root, match lines and paths, and keep the
//! results within the limit.
use vstd::prelude::*;

use crate::json::{
    string_views, err_view, json_str, json_str_opt, json_u64_opt, owned, str_opt_param, str_param,
    u64_opt_param, Json,
};
use crate::path::{components, components_exec, comps_view, is_under, Comp, PathComp};
use crate::pattern::{regex_is_match, Pattern};
use crate::sort::{key_lt, key_lt_exec, key_view, keys_view, stable_sort, is_stable_sort, KeyPart, PartView};
use crate::text::{chars_of, lines, split_lines, string_of, trim, trim_vec, views};
use crate::tool::ToolError;

verus! {

/// Error codes of the find tools.
#[derive(Clone, Copy, PartialEq, Eq, Debug)]
pub enum FindErrorCode {
    InvalidPath,
    InvalidPattern,
    FileNotFound,
    PermissionDenied,
}

/// The stable code string of each find error code.
pub open spec fn find_code_text(c: FindErrorCode) -> Seq<char> {
    match c {
        FindErrorCode::InvalidPath => "INVALID_PATH"@,
        FindErrorCode::InvalidPattern => "INVALID_PATTERN"@,
        FindErrorCode::FileNotFound => "FILE_NOT_FOUND"@,
        FindErrorCode::PermissionDenied => "PERMISSION_DENIED"@,
    }
}

impl FindErrorCode {
    /// The stable code string.
    pub fn as_str(self) -> (r: &'static str)
        ensures
            r@ == find_code_text(self),
    {
        match self {
            FindErrorCode::InvalidPath => "INVALID_PATH",
            FindErrorCode::InvalidPattern => "INVALID_PATTERN",
            FindErrorCode::FileNotFound => "FILE_NOT_FOUND",
            FindErrorCode::PermissionDenied => "PERMISSION_DENIED",
        }
    }
}

/// A tool error with a find error code.
pub fn tool_error(code: FindErrorCode, message: String) -> (e: ToolError)
    ensures
        e.code@ == find_code_text(code),
        e.message@ == message@,
{
    ToolError { code: owned(code.as_str()), message }
}

/// An error as (code, message).
pub type ErrView = (Seq<char>, Seq<char>);

/// A find error as (code, message).
pub open spec fn find_err(code: FindErrorCode, message: Seq<char>) -> ErrView {
    (find_code_text(code), message)
}

/// Default scan root (canonical) for the find tools.
pub struct FindContext {
    pub root_canonical: String,
    /// When `false`, resolved paths must stay under the root.
    pub allow_outside_root: bool,
}

impl FindContext {
    /// A context that keeps scans under the root.
    pub fn new(root_canonical: String) -> (r: FindContext)
        ensures
            r.root_canonical@ == root_canonical@,
            !r.allow_outside_root,
    {
        FindContext { root_canonical, allow_outside_root: false }
    }

    /// A context that may allow scans outside the root.
    pub fn with_allow_outside_root(root_canonical: String, allow_outside_root: bool) -> (r: FindContext)
        ensures
            r.root_canonical@ == root_canonical@,
            r.allow_outside_root == allow_outside_root,
    {
        FindContext { root_canonical, allow_outside_root }
    }
}

/// The outcome of an optional string parameter that counts only when it is not blank; it
/// is trimmed.
pub open spec fn trimmed_param(params: Json, key: Seq<char>) -> Result<Option<Seq<char>>, ErrView> {
    match str_opt_param(params, key) {
        Err(e) => Err(e),
        Ok(None) => Ok(None),
        Ok(Some(s)) => if trim(s).len() == 0 {
            Ok(None)
        } else {
            Ok(Some(trim(s)))
        },
    }
}

/// Read an optional string parameter, trimmed; blank counts as absent.
pub fn trimmed_str_opt(params: &Json, key: &str) -> (r: Result<Option<String>, ToolError>)
    ensures
        match r {
            Ok(o) => trimmed_param(*params, key@) == Ok::<Option<Seq<char>>, ErrView>(
                crate::json::opt_view(o),
            ),
            Err(e) => trimmed_param(*params, key@) == Err::<Option<Seq<char>>, ErrView>(err_view(e)),
        },
{
    match json_str_opt(params, key)? {
        None => Ok(None),
        Some(s) => {
            let c = chars_of(s.as_str());
            let t = trim_vec(c.as_slice());
            if t.len() == 0 {
                Ok(None)
            } else {
                Ok(Some(string_of(t.as_slice())))
            }
        },
    }
}

/// The outcome of the `limit` parameter: 100 when absent, at least 1, at most 1000.
pub open spec fn limit_param(params: Json) -> Result<int, ErrView> {
    match u64_opt_param(params, "limit"@) {
        Err(e) => Err(e),
        Ok(n) => {
            let l: int = match n {
                Some(v) => v as int,
                None => 100,
            };
            if l == 0 {
                Err(find_err(FindErrorCode::InvalidPath, "`limit` must be at least 1"@))
            } else if l > 1000 {
                Ok(1000)
            } else {
                Ok(l)
            }
        },
    }
}

/// Read the `limit` parameter.
pub fn result_limit(params: &Json) -> (r: Result<usize, ToolError>)
    ensures
        match r {
            Ok(n) => limit_param(*params) == Ok::<int, ErrView>(n as int),
            Err(e) => limit_param(*params) == Err::<int, ErrView>(err_view(e)),
        },
{
    let l: u64 = match json_u64_opt(params, "limit")? {
        Some(v) => v,
        None => 100,
    };
    if l == 0 {
        return Err(tool_error(FindErrorCode::InvalidPath, owned("`limit` must be at least 1")));
    }
    if l > 1000 {
        Ok(1000)
    } else {
        Ok(l as usize)
    }
}

/// The outcome of the required `pattern` parameter: it must not be blank; it is kept as
/// given.
pub open spec fn pattern_param(params: Json) -> Result<Seq<char>, ErrView> {
    match str_param(params, "pattern"@) {
        Err(e) => Err(e),
        Ok(p) => if trim(p).len() == 0 {
            Err(find_err(FindErrorCode::InvalidPath, "`pattern` must not be empty"@))
        } else {
            Ok(p)
        },
    }
}

/// Read the `pattern` parameter.
pub fn required_pattern(params: &Json) -> (r: Result<String, ToolError>)
    ensures
        match r {
            Ok(p) => pattern_param(*params) == Ok::<Seq<char>, ErrView>(p@),
            Err(e) => pattern_param(*params) == Err::<Seq<char>, ErrView>(err_view(e)),
        },
{
    let p = json_str(params, "pattern")?;
    let c = chars_of(p.as_str());
    let t = trim_vec(c.as_slice());
    if t.len() == 0 {
        return Err(tool_error(FindErrorCode::InvalidPath, owned("`pattern` must not be empty")));
    }
    Ok(p)
}

/// The error when the scan root does not exist.
pub fn missing_find_root() -> (r: ToolError)
    ensures
        err_view(r) == find_err(FindErrorCode::FileNotFound, "find root path does not exist"@),
{
    tool_error(FindErrorCode::FileNotFound, owned("find root path does not exist"))
}

/// The error code for a failure to canonicalize the scan root.
pub open spec fn root_failure_code(k: crate::path::IoErrorKind) -> FindErrorCode {
    match k {
        crate::path::IoErrorKind::NotFound => FindErrorCode::FileNotFound,
        crate::path::IoErrorKind::PermissionDenied => FindErrorCode::PermissionDenied,
        _ => FindErrorCode::InvalidPath,
    }
}

/// The error for a failure to canonicalize the scan root.
pub fn find_root_error(f: &crate::path::IoFailure) -> (r: ToolError)
    ensures
        err_view(r) == find_err(root_failure_code(f.kind), "resolve find root: "@ + f.message@),
{
    let code = match f.kind {
        crate::path::IoErrorKind::NotFound => FindErrorCode::FileNotFound,
        crate::path::IoErrorKind::PermissionDenied => FindErrorCode::PermissionDenied,
        _ => FindErrorCode::InvalidPath,
    };
    let mut m = owned("resolve find root: ");
    m.append(f.message.as_str());
    tool_error(code, m)
}

/// The error for a failure while walking the tree.
pub fn walk_error(message: &str) -> (r: ToolError)
    ensures
        err_view(r) == find_err(FindErrorCode::InvalidPath, "walk directory: "@ + message@),
{
    let mut m = owned("walk directory: ");
    m.append(message);
    tool_error(FindErrorCode::InvalidPath, m)
}

#[verifier::external_type_specification]
#[verifier::external_body]
pub struct ExGlobSet(globset::GlobSet);

/// Whether `globset` accepts a glob pattern (`Glob::new`, then a set built from it).
pub uninterp spec fn glob_accepts(pattern: Seq<char>) -> bool;

/// The text of the error `globset` reports for a pattern it refuses.
pub uninterp spec fn glob_error_text(pattern: Seq<char>) -> Seq<char>;

/// Whether the compiled glob pattern matches a path.
pub uninterp spec fn glob_is_match(pattern: Seq<char>, path: Seq<char>) -> bool;

/// A compiled glob pattern together with the text it was compiled from.
pub struct GlobMatcher {
    source: String,
    inner: globset::GlobSet,
}

impl GlobMatcher {
    /// The pattern text this matcher was compiled from.
    pub closed spec fn source(&self) -> Seq<char> {
        self.source@
    }

    /// `Glob::new(pattern)`, then `GlobSetBuilder::new().add(glob).build()`.
    ///
    /// Claims: success exactly when `glob_accepts` holds, and the error text is
    /// `glob_error_text`.
    #[verifier::external_body]
    fn compile(pattern: &str) -> (r: Result<GlobMatcher, String>)
        ensures
            r is Ok <==> glob_accepts(pattern@),
            r matches Ok(m) ==> m.source() == pattern@,
            r matches Err(e) ==> e@ == glob_error_text(pattern@),
    {
        let glob = globset::Glob::new(pattern).map_err(|e| e.to_string())?;
        match globset::GlobSetBuilder::new().add(glob).build() {
            Ok(inner) => Ok(GlobMatcher { source: pattern.to_string(), inner }),
            Err(e) => Err(e.to_string()),
        }
    }

    /// `GlobSet::is_match` on a path.
    #[verifier::external_body]
    pub(crate) fn is_match(&self, path: &str) -> (r: bool)
        ensures
            r == glob_is_match(self.source(), path@),
    {
        self.inner.is_match(path)
    }
}

/// The outcome of compiling a glob pattern.
pub open spec fn glob_outcome(pattern: Seq<char>) -> Result<Seq<char>, ErrView> {
    if glob_accepts(pattern) {
        Ok(pattern)
    } else {
        Err(find_err(FindErrorCode::InvalidPattern, "invalid glob pattern: "@ + glob_error_text(pattern)))
    }
}

/// Compile a glob pattern; a refused one is an `INVALID_PATTERN` error.
pub fn build_glob(pattern: &str) -> (r: Result<GlobMatcher, ToolError>)
    ensures
        match r {
            Ok(m) => glob_outcome(pattern@) == Ok::<Seq<char>, ErrView>(m.source()),
            Err(e) => glob_outcome(pattern@) == Err::<Seq<char>, ErrView>(err_view(e)),
        },
{
    match GlobMatcher::compile(pattern) {
        Ok(m) => Ok(m),
        Err(t) => {
            let mut msg = owned("invalid glob pattern: ");
            msg.append(t.as_str());
            Err(tool_error(FindErrorCode::InvalidPattern, msg))
        },
    }
}

/// The outcome of compiling a regular expression for a search.
pub open spec fn regex_outcome(pattern: Seq<char>, ignore_case: bool) -> Result<(Seq<char>, bool), ErrView> {
    if crate::pattern::regex_accepts(pattern, ignore_case) {
        Ok((pattern, ignore_case))
    } else {
        Err(
            find_err(
                FindErrorCode::InvalidPattern,
                "invalid regular expression: "@ + crate::pattern::regex_error_text(pattern, ignore_case),
            ),
        )
    }
}

/// Compile the search's regular expression; a refused one is an `INVALID_PATTERN` error.
pub fn build_regex(pattern: &str, ignore_case: bool) -> (r: Result<Pattern, ToolError>)
    ensures
        match r {
            Ok(p) => regex_outcome(pattern@, ignore_case) == Ok::<(Seq<char>, bool), ErrView>(
                (p.source(), p.ignores_case()),
            ),
            Err(e) => regex_outcome(pattern@, ignore_case) == Err::<(Seq<char>, bool), ErrView>(err_view(e)),
        },
{
    match Pattern::compile(pattern, ignore_case) {
        Ok(p) => Ok(p),
        Err(t) => {
            let mut msg = owned("invalid regular expression: ");
            msg.append(t.as_str());
            Err(tool_error(FindErrorCode::InvalidPattern, msg))
        },
    }
}

/// The text of a component as it appears in a path.
pub open spec fn comp_text(c: PathComp) -> Seq<char> {
    match c {
        PathComp::RootDir => "/"@,
        PathComp::CurDir => "."@,
        PathComp::ParentDir => ".."@,
        PathComp::Normal(n) => n,
    }
}

/// Components written out joined with `'/'` (after a root component no extra `'/'`).
pub open spec fn comps_text(cs: Seq<PathComp>) -> Seq<char>
    decreases cs.len(),
{
    if cs.len() == 0 {
        seq![]
    } else if cs.len() == 1 {
        comp_text(cs[0])
    } else {
        let prev = comps_text(cs.drop_last());
        if cs.len() == 2 && cs[0] == PathComp::RootDir {
            prev + comp_text(cs.last())
        } else {
            prev + "/"@ + comp_text(cs.last())
        }
    }
}

/// `Path::file_name`: the last component when it is a name.
pub open spec fn file_name(p: Seq<char>) -> Option<Seq<char>> {
    let cs = components(p);
    if cs.len() > 0 && cs.last() is Normal {
        Some(comp_text(cs.last()))
    } else {
        None
    }
}

/// Every `'\\'` replaced by `'/'`.
pub open spec fn slashes(s: Seq<char>) -> Seq<char> {
    s.map_values(|c: char| if c == '\\' { '/' } else { c })
}

/// The path of `file` relative to `root` for display: the file name when the two are the
/// same path, the components after `root` when `file` lies below it, else `file` itself;
/// backslashes become `'/'`.
pub open spec fn display_rel(root: Seq<char>, file: Seq<char>) -> Seq<char> {
    if components(root) == components(file) {
        match file_name(file) {
            Some(n) => slashes(n),
            None => slashes(file),
        }
    } else if is_under(root, file) {
        slashes(comps_text(components(file).skip(components(root).len() as int)))
    } else {
        slashes(file)
    }
}

/// The text a glob is matched against: the file name when `file` is the root itself
/// (empty without one), the path below the root otherwise; `None` when `file` is not
/// below the root.
pub open spec fn glob_candidate(root: Seq<char>, file: Seq<char>) -> Option<Seq<char>> {
    if components(root) == components(file) {
        match file_name(file) {
            Some(n) => Some(slashes(n)),
            None => Some(seq![]),
        }
    } else if is_under(root, file) {
        Some(slashes(comps_text(components(file).skip(components(root).len() as int))))
    } else {
        None
    }
}

fn slashes_exec(s: &[char]) -> (r: String)
    ensures
        r@ == slashes(s@),
{
    let mut out: Vec<char> = Vec::new();
    let mut i: usize = 0;
    while i < s.len()
        invariant
            i <= s@.len(),
            out@ == slashes(s@.take(i as int)),
        decreases s@.len() - i,
    {
        let c = if s[i] == '\\' {
            '/'
        } else {
            s[i]
        };
        out.push(c);
        assert(slashes(s@.take(i + 1)) =~= slashes(s@.take(i as int)).push(c));
        i = i + 1;
    }
    assert(s@.take(s@.len() as int) == s@);
    string_of(out.as_slice())
}

fn comp_text_exec(c: &Comp) -> (r: Vec<char>)
    ensures
        r@ == comp_text(crate::path::comp_view(*c)),
{
    match c {
        Comp::RootDir => chars_of("/"),
        Comp::CurDir => chars_of("."),
        Comp::ParentDir => chars_of(".."),
        Comp::Normal(n) => crate::text::to_vec(n.as_slice()),
    }
}

fn comps_text_exec(cs: &Vec<Comp>, from: usize) -> (r: Vec<char>)
    requires
        from <= cs@.len(),
    ensures
        r@ == comps_text(comps_view(cs@).skip(from as int)),
{
    let ghost all = comps_view(cs@).skip(from as int);
    let mut out: Vec<char> = Vec::new();
    let mut i: usize = from;
    assert(all.take(0) =~= Seq::<PathComp>::empty());
    while i < cs.len()
        invariant
            from <= i <= cs@.len(),
            all == comps_view(cs@).skip(from as int),
            out@ == comps_text(all.take(i - from)),
        decreases cs@.len() - i,
    {
        let t = comp_text_exec(&cs[i]);
        let ghost pre = all.take(i - from);
        assert(all.take(i + 1 - from).drop_last() == pre);
        assert(all.take(i + 1 - from).last() == crate::path::comp_view(cs@[i as int]));
        if i == from {
            crate::text::push_all(&mut out, t.as_slice());
            assert(out@ =~= t@);
        } else if i == from + 1 && matches!(cs[from], Comp::RootDir) {
            assert(all.take(i + 1 - from)[0] == PathComp::RootDir);
            crate::text::push_all(&mut out, t.as_slice());
        } else {
            proof {
                if i - from == 1 {
                    assert(all.take(i + 1 - from)[0] != PathComp::RootDir);
                }
            }
            out.push('/');
            crate::text::push_all(&mut out, t.as_slice());
            assert(out@ =~= comps_text(pre) + "/"@ + comp_text(all.take(i + 1 - from).last())) by {
                reveal_strlit("/");
            }
        }
        i = i + 1;
    }
    assert(all.take(cs@.len() - from) == all);
    out
}

fn comps_equal(a: &Vec<Comp>, b: &Vec<Comp>) -> (r: bool)
    ensures
        r == (comps_view(a@) == comps_view(b@)),
{
    if a.len() != b.len() {
        assert(comps_view(a@).len() != comps_view(b@).len());
        return false;
    }
    let mut i: usize = 0;
    while i < a.len()
        invariant
            a@.len() == b@.len(),
            i <= a@.len(),
            forall|j: int| 0 <= j < i ==> comps_view(a@)[j] == comps_view(b@)[j],
        decreases a@.len() - i,
    {
        if !crate::path::comp_eq(&a[i], &b[i]) {
            assert(comps_view(a@)[i as int] != comps_view(b@)[i as int]);
            return false;
        }
        i = i + 1;
    }
    assert(comps_view(a@) =~= comps_view(b@));
    true
}

fn file_name_exec(cs: &Vec<Comp>) -> (r: Option<Vec<char>>)
    ensures
        match r {
            Some(n) => comps_view(cs@).len() > 0 && comps_view(cs@).last() is Normal && n@ == comp_text(
                comps_view(cs@).last(),
            ),
            None => !(comps_view(cs@).len() > 0 && comps_view(cs@).last() is Normal),
        },
{
    if cs.len() == 0 {
        return None;
    }
    match &cs[cs.len() - 1] {
        Comp::Normal(n) => Some(crate::text::to_vec(n.as_slice())),
        _ => None,
    }
}

/// The path of a file relative to the search root, for display.
pub fn display_path_relative(root: &str, file: &str) -> (r: String)
    ensures
        r@ == display_rel(root@, file@),
{
    let rc = chars_of(root);
    let fc = chars_of(file);
    let rcs = components_exec(rc.as_slice());
    let fcs = components_exec(fc.as_slice());
    if comps_equal(&rcs, &fcs) {
        match file_name_exec(&fcs) {
            Some(n) => slashes_exec(n.as_slice()),
            None => slashes_exec(fc.as_slice()),
        }
    } else if crate::path::is_descendant(root, file) {
        assert(comps_view(rcs@).len() <= comps_view(fcs@).len());
        let t = comps_text_exec(&fcs, rcs.len());
        slashes_exec(t.as_slice())
    } else {
        slashes_exec(fc.as_slice())
    }
}

/// The text a glob is matched against for a file, if it lies under the root.
pub fn glob_candidate_of(root: &str, file: &str) -> (r: Option<String>)
    ensures
        crate::json::opt_view(r) == glob_candidate(root@, file@),
{
    let rc = chars_of(root);
    let fc = chars_of(file);
    let rcs = components_exec(rc.as_slice());
    let fcs = components_exec(fc.as_slice());
    if comps_equal(&rcs, &fcs) {
        match file_name_exec(&fcs) {
            Some(n) => Some(slashes_exec(n.as_slice())),
            None => {
                let e: Vec<char> = Vec::new();
                assert(e@ =~= seq![]);
                Some(string_of(e.as_slice()))
            },
        }
    } else if crate::path::is_descendant(root, file) {
        let t = comps_text_exec(&fcs, rcs.len());
        Some(slashes_exec(t.as_slice()))
    } else {
        None
    }
}

/// Whether a file's path below the root matches the glob.
pub open spec fn path_matches(root: Seq<char>, file: Seq<char>, pattern: Seq<char>) -> bool {
    match glob_candidate(root, file) {
        Some(c) => glob_is_match(pattern, c),
        None => false,
    }
}

/// Whether a file's path below the root matches the glob.
pub fn path_matches_glob(root: &str, file: &str, matcher: &GlobMatcher) -> (r: bool)
    ensures
        r == path_matches(root@, file@, matcher.source()),
{
    match glob_candidate_of(root, file) {
        Some(c) => matcher.is_match(c.as_str()),
        None => false,
    }
}

/// `s` with all trailing `'\\r'` removed.
pub open spec fn strip_crs(s: Seq<char>) -> Seq<char>
    decreases s.len(),
{
    if s.len() > 0 && s.last() == '\r' {
        strip_crs(s.drop_last())
    } else {
        s
    }
}

fn strip_crs_exec(s: &[char]) -> (r: Vec<char>)
    ensures
        r@ == strip_crs(s@),
{
    let mut n = s.len();
    assert(s@.take(n as int) == s@);
    while n > 0 && s[n - 1] == '\r'
        invariant
            n <= s@.len(),
            strip_crs(s@.take(n as int)) == strip_crs(s@),
        decreases n,
    {
        assert(s@.take(n as int).drop_last() == s@.take(n - 1));
        n = n - 1;
    }
    crate::text::to_vec(&s[0..n])
}

/// One line found by `grep_search`.
pub struct GrepMatch {
    /// The file, relative to the search root.
    pub file: String,
    /// The line number, from 1.
    pub line: u64,
    /// The line without its line break.
    pub content: String,
}

/// The matches found so far, and whether the limit cut the search short.
pub struct GrepState {
    pub matches: Vec<GrepMatch>,
    pub truncated: bool,
}

/// The abstract value of a match: file, line number, content.
pub open spec fn match_view(m: GrepMatch) -> (Seq<char>, int, Seq<char>) {
    (m.file@, m.line as int, m.content@)
}

/// The abstract value of a search state.
pub open spec fn grep_view(st: GrepState) -> (Seq<(Seq<char>, int, Seq<char>)>, bool) {
    (st.matches@.map_values(|m: GrepMatch| match_view(m)), st.truncated)
}

/// Reading the lines of one file: each line (trailing `'\\r'` removed) that the regular
/// expression matches is recorded with its number, until one more match than `limit`
/// allows is seen; then the search stops, marked as cut short.
pub open spec fn grep_scan(
    st: (Seq<(Seq<char>, int, Seq<char>)>, bool),
    file: Seq<char>,
    ls: Seq<Seq<char>>,
    pattern: Seq<char>,
    ignore_case: bool,
    limit: int,
) -> (Seq<(Seq<char>, int, Seq<char>)>, bool)
    decreases ls.len(),
{
    if ls.len() == 0 {
        st
    } else {
        let prev = grep_scan(st, file, ls.drop_last(), pattern, ignore_case, limit);
        let line = strip_crs(ls.last());
        if prev.1 || !regex_is_match(pattern, ignore_case, line) {
            prev
        } else if prev.0.len() >= limit {
            (prev.0, true)
        } else {
            (prev.0.push((file, ls.len() as int, line)), false)
        }
    }
}

/// Search one file's text line by line, adding to the matches found so far.
pub fn grep_file(st: &mut GrepState, file: &str, text: &str, re: &Pattern, limit: usize)
    ensures
        grep_view(*final(st)) == grep_scan(grep_view(*old(st)), file@, lines(text@), re.source(), re.ignores_case(), limit as int),
{
    let c = chars_of(text);
    let ls = split_lines(c.as_slice());
    let ghost lv = views(ls@);
    let ghost start = grep_view(*st);
    let mut i: usize = 0;
    assert(lv.take(0) =~= Seq::<Seq<char>>::empty());
    while i < ls.len()
        invariant
            i <= ls@.len(),
            lv == views(ls@),
            lv == lines(c@),
            c@ == text@,
            grep_view(*st) == grep_scan(start, file@, lv.take(i as int), re.source(), re.ignores_case(), limit as int),
        decreases ls@.len() - i,
    {
        assert(lv.take(i + 1).drop_last() == lv.take(i as int));
        assert(lv.take(i + 1).last() == ls@[i as int]@);
        if st.truncated {
            i = i + 1;
            continue;
        }
        let line = strip_crs_exec(ls[i].as_slice());
        let ls_str = string_of(line.as_slice());
        if re.is_match(ls_str.as_str()) {
            if st.matches.len() >= limit {
                st.truncated = true;
            } else {
                let ghost before = st.matches@.map_values(|m: GrepMatch| match_view(m));
                let m = GrepMatch { file: owned(file), line: (i + 1) as u64, content: ls_str };
                st.matches.push(m);
                assert(st.matches@.map_values(|m: GrepMatch| match_view(m)) =~= before.push(match_view(m)));
            }
        }
        i = i + 1;
    }
    assert(lv.take(ls@.len() as int) == lv);
}

/// The sort key of a component: `Component`'s order puts the root before `.`, `.` before
/// `..`, and those before names; names compare by code point.
pub open spec fn comp_key(c: PathComp) -> Seq<PartView> {
    match c {
        PathComp::RootDir => seq![PartView::AscNum(1), PartView::Asc(seq![])],
        PathComp::CurDir => seq![PartView::AscNum(2), PartView::Asc(seq![])],
        PathComp::ParentDir => seq![PartView::AscNum(3), PartView::Asc(seq![])],
        PathComp::Normal(n) => seq![PartView::AscNum(4), PartView::Asc(n)],
    }
}

/// The sort key of components: their keys one after another.
pub open spec fn comps_key(cs: Seq<PathComp>) -> Seq<PartView>
    decreases cs.len(),
{
    if cs.len() == 0 {
        seq![]
    } else {
        comps_key(cs.drop_last()) + comp_key(cs.last())
    }
}

/// The order of paths (`Path`'s `Ord`): component by component.
pub open spec fn path_key(p: Seq<char>) -> Seq<PartView> {
    comps_key(components(p))
}

fn path_key_exec(p: &str) -> (r: Vec<KeyPart>)
    ensures
        key_view(r) == path_key(p@),
{
    let c = chars_of(p);
    let cs = components_exec(c.as_slice());
    let ghost cv = comps_view(cs@);
    let mut k: Vec<KeyPart> = Vec::new();
    let mut i: usize = 0;
    assert(cv.take(0) =~= Seq::<PathComp>::empty());
    assert(key_view(k) =~= Seq::<PartView>::empty());
    while i < cs.len()
        invariant
            i <= cs@.len(),
            cv == comps_view(cs@),
            key_view(k) == comps_key(cv.take(i as int)),
        decreases cs@.len() - i,
    {
        assert(cv.take(i + 1).drop_last() == cv.take(i as int));
        assert(cv.take(i + 1).last() == crate::path::comp_view(cs@[i as int]));
        let ghost before = key_view(k);
        let (rank, name): (u64, Vec<char>) = match &cs[i] {
            Comp::RootDir => (1, Vec::new()),
            Comp::CurDir => (2, Vec::new()),
            Comp::ParentDir => (3, Vec::new()),
            Comp::Normal(n) => (4, crate::text::to_vec(n.as_slice())),
        };
        k.push(KeyPart::AscNum(rank));
        k.push(KeyPart::Asc(name));
        assert(key_view(k) =~= before + comp_key(cv[i as int]));
        i = i + 1;
    }
    assert(cv.take(cs@.len() as int) == cv);
    k
}

/// The position of the largest path (the last one among equals), scanning from the left.
pub open spec fn largest(files: Seq<Seq<char>>) -> int
    decreases files.len(),
{
    if files.len() <= 1 {
        0
    } else {
        let best = largest(files.drop_last());
        if key_lt(path_key(files.last()), path_key(files[best])) {
            best
        } else {
            files.len() - 1
        }
    }
}

/// `largest` lies inside a non-empty list.
pub proof fn lemma_largest_in_range(files: Seq<Seq<char>>)
    requires
        files.len() > 0,
    ensures
        0 <= largest(files) < files.len(),
    decreases files.len(),
{
    if files.len() > 1 {
        lemma_largest_in_range(files.drop_last());
    }
}

/// One matching file offered to the selection: kept while there is room; once full, the
/// search is marked as cut short and the file replaces the largest kept one when it is
/// smaller.
pub open spec fn glob_step(files: Seq<Seq<char>>, truncated: bool, cand: Seq<char>, limit: int) -> (Seq<Seq<char>>, bool) {
    if files.len() < limit {
        (files.push(cand), truncated)
    } else if files.len() == 0 {
        (files, true)
    } else {
        let i = largest(files);
        if key_lt(path_key(cand), path_key(files[i])) {
            (files.update(i, cand), true)
        } else {
            (files, true)
        }
    }
}

/// The files kept by `glob_search` so far, and whether some were left out.
pub struct GlobState {
    pub files: Vec<String>,
    pub truncated: bool,
}

/// Offer one matching file (as displayed) to the selection.
pub fn glob_offer(st: &mut GlobState, display: &str, limit: usize)
    ensures
        (string_views(final(st).files@), final(st).truncated) == glob_step(
            string_views(old(st).files@),
            old(st).truncated,
            display@,
            limit as int,
        ),
{
    let ghost fv = string_views(st.files@);
    if st.files.len() < limit {
        st.files.push(owned(display));
        assert(string_views(st.files@) =~= fv.push(display@));
        return;
    }
    st.truncated = true;
    if st.files.len() == 0 {
        return;
    }
    let mut best: usize = 0;
    let mut bk = path_key_exec(st.files[0].as_str());
    let mut i: usize = 1;
    assert(fv.take(1).len() == 1);
    while i < st.files.len()
        invariant
            1 <= i <= st.files@.len(),
            fv == string_views(st.files@),
            best < i,
            best as int == largest(fv.take(i as int)),
            key_view(bk) == path_key(fv[best as int]),
        decreases st.files@.len() - i,
    {
        assert(fv.take(i + 1).drop_last() == fv.take(i as int));
        assert(fv.take(i + 1).last() == fv[i as int]);
        assert(fv.take(i as int)[best as int] == fv[best as int]);
        let ki = path_key_exec(st.files[i].as_str());
        if !key_lt_exec(&ki, &bk) {
            best = i;
            bk = ki;
        }
        i = i + 1;
    }
    assert(fv.take(st.files@.len() as int) == fv);
    let kc = path_key_exec(display);
    if key_lt_exec(&kc, &bk) {
        st.files.set(best, owned(display));
        assert(string_views(st.files@) =~= fv.update(best as int, display@));
    }
}

/// The path keys of files.
pub open spec fn path_keys(files: Seq<Seq<char>>) -> Seq<Seq<PartView>> {
    files.map_values(|f: Seq<char>| path_key(f))
}

/// The selected files sorted by path order (`Vec::sort`, stable).
pub open spec fn sorted_files(files: Seq<Seq<char>>, r: Seq<Seq<char>>) -> bool {
    exists|idx: Seq<int>|
        #[trigger] is_stable_sort(path_keys(files), idx) && r.len()
            == files.len() && forall|j: int| 0 <= j < r.len() ==> r[j] == files[#[trigger] idx[j]]
}

/// The selected files in path order.
pub fn finish_glob(st: &GlobState) -> (r: Vec<String>)
    ensures
        sorted_files(string_views(st.files@), string_views(r@)),
{
    let ghost fv = string_views(st.files@);
    let mut keys: Vec<Vec<KeyPart>> = Vec::new();
    let mut i: usize = 0;
    while i < st.files.len()
        invariant
            i <= st.files@.len(),
            fv == string_views(st.files@),
            keys_view(keys@) == path_keys(fv.take(i as int)),
        decreases st.files@.len() - i,
    {
        let ghost before = keys_view(keys@);
        let k = path_key_exec(st.files[i].as_str());
        keys.push(k);
        assert(keys_view(keys@) =~= before.push(key_view(k)));
        assert(path_keys(fv.take(i + 1)) =~= path_keys(fv.take(i as int)).push(path_key(fv[i as int])));
        i = i + 1;
    }
    assert(fv.take(fv.len() as int) == fv);
    let idx = stable_sort(&keys);
    let ghost iv = idx@.map_values(|x: usize| x as int);
    let mut out: Vec<String> = Vec::new();
    let mut j: usize = 0;
    while j < idx.len()
        invariant
            j <= idx@.len(),
            fv == string_views(st.files@),
            iv == idx@.map_values(|x: usize| x as int),
            is_stable_sort(path_keys(fv), iv),
            out@.len() == j,
            forall|q: int| 0 <= q < j ==> (#[trigger] out@[q])@ == fv[iv[q]],
        decreases idx@.len() - j,
    {
        assert(0 <= iv[j as int] < fv.len());
        out.push(owned(st.files[idx[j]].as_str()));
        j = j + 1;
    }
    assert(sorted_files(fv, string_views(out@)));
    out
}

/// The outcome of the `ignore_case` (default false) and `limit` parameters of a grep.
pub open spec fn grep_options_param(params: Json) -> Result<(bool, int), ErrView> {
    match crate::json::bool_opt_param(params, "ignore_case"@) {
        Err(e) => Err(e),
        Ok(ic) => match limit_param(params) {
            Err(e) => Err(e),
            Ok(l) => Ok(
                (
                    match ic {
                        Some(b) => b,
                        None => false,
                    },
                    l,
                ),
            ),
        },
    }
}

/// Read the `ignore_case` and `limit` parameters of a grep.
pub fn grep_options(params: &Json) -> (r: Result<(bool, usize), ToolError>)
    ensures
        match r {
            Ok((ic, l)) => grep_options_param(*params) == Ok::<(bool, int), ErrView>((ic, l as int)),
            Err(e) => grep_options_param(*params) == Err::<(bool, int), ErrView>(err_view(e)),
        },
{
    let ic = match crate::json::json_bool_opt(params, "ignore_case")? {
        Some(b) => b,
        None => false,
    };
    let l = result_limit(params)?;
    Ok((ic, l))
}

/// Law: a grep never records more matches than the limit, and the matches recorded before
/// a file stay at the front.
pub proof fn law_grep_respects_limit(
    st: (Seq<(Seq<char>, int, Seq<char>)>, bool),
    file: Seq<char>,
    ls: Seq<Seq<char>>,
    pattern: Seq<char>,
    ignore_case: bool,
    limit: int,
)
    requires
        st.0.len() <= limit,
    ensures
        grep_scan(st, file, ls, pattern, ignore_case, limit).0.len() <= limit,
        grep_scan(st, file, ls, pattern, ignore_case, limit).0.len() >= st.0.len(),
        grep_scan(st, file, ls, pattern, ignore_case, limit).0.take(st.0.len() as int) == st.0,
        st.1 ==> grep_scan(st, file, ls, pattern, ignore_case, limit) == st,
    decreases ls.len(),
{
    if ls.len() > 0 {
        law_grep_respects_limit(st, file, ls.drop_last(), pattern, ignore_case, limit);
        let prev = grep_scan(st, file, ls.drop_last(), pattern, ignore_case, limit);
        let line = strip_crs(ls.last());
        if !(prev.1 || !regex_is_match(pattern, ignore_case, line)) && prev.0.len() < limit {
            assert(prev.0.push((file, ls.len() as int, line)).take(st.0.len() as int) =~= prev.0.take(
                st.0.len() as int,
            ));
        }
    }
}

/// The largest kept file is no smaller than any other kept file.
proof fn lemma_largest_is_max(files: Seq<Seq<char>>)
    requires
        files.len() > 0,
    ensures
        0 <= largest(files) < files.len(),
        forall|k: int|
            0 <= k < files.len() ==> !key_lt(path_key(files[largest(files)]), #[trigger] path_key(files[k])),
    decreases files.len(),
{
    lemma_largest_in_range(files);
    if files.len() == 1 {
        crate::sort::lemma_key_lt_irrefl(path_key(files[0]));
        assert(largest(files) == 0);
    } else {
        let d = files.drop_last();
        lemma_largest_is_max(d);
        let b = largest(d);
        let last = files.last();
        assert(files[b] == d[b]);
        if key_lt(path_key(last), path_key(files[b])) {
            assert(largest(files) == b);
            crate::sort::lemma_key_lt_asym(path_key(last), path_key(files[b]));
            assert forall|k: int| 0 <= k < files.len() implies !key_lt(
                path_key(files[b]),
                #[trigger] path_key(files[k]),
            ) by {
                if k < d.len() {
                    assert(files[k] == d[k]);
                }
            }
        } else {
            assert(largest(files) == files.len() - 1);
            crate::sort::lemma_key_lt_total(path_key(last), path_key(files[b]));
            assert forall|k: int| 0 <= k < files.len() implies !key_lt(
                path_key(files[files.len() - 1]),
                #[trigger] path_key(files[k]),
            ) by {
                if k < d.len() {
                    assert(files[k] == d[k]);
                    assert(!key_lt(path_key(d[b]), path_key(d[k])));
                    if key_lt(path_key(last), path_key(files[k])) {
                        if key_lt(path_key(files[b]), path_key(last)) {
                            crate::sort::lemma_key_lt_trans(path_key(files[b]), path_key(last), path_key(files[k]));
                        }
                    }
                } else {
                    crate::sort::lemma_key_lt_irrefl(path_key(last));
                }
            }
        }
    }
}

/// The selection after offering each of `cands` in turn, starting from nothing.
pub open spec fn glob_fold(cands: Seq<Seq<char>>, limit: int) -> (Seq<Seq<char>>, bool)
    decreases cands.len(),
{
    if cands.len() == 0 {
        (seq![], false)
    } else {
        let p = glob_fold(cands.drop_last(), limit);
        glob_step(p.0, p.1, cands.last(), limit)
    }
}

/// A candidate is kept, or no smaller than any kept file.
pub open spec fn kept_or_above(files: Seq<Seq<char>>, x: Seq<char>) -> bool {
    files.contains(x) || forall|i: int| 0 <= i < files.len() ==> !key_lt(path_key(x), #[trigger] path_key(files[i]))
}

/// Law: `glob_search` keeps the smallest matches. After offering any sequence of matching
/// files with a limit, it keeps as many as were offered up to the limit, marks the search
/// cut short exactly when more were offered, keeps all of them (in order) when they fit,
/// keeps only offered files, and every offered file is kept or no smaller (in path order)
/// than every kept one.
pub proof fn law_glob_keeps_smallest(cands: Seq<Seq<char>>, limit: int)
    requires
        limit >= 0,
    ensures
        glob_fold(cands, limit).0.len() == (if cands.len() < limit {
            cands.len() as int
        } else {
            limit
        }),
        glob_fold(cands, limit).1 == (cands.len() > limit),
        cands.len() <= limit ==> glob_fold(cands, limit).0 == cands,
        forall|i: int|
            0 <= i < glob_fold(cands, limit).0.len() ==> cands.contains(#[trigger] glob_fold(cands, limit).0[i]),
        forall|j: int| 0 <= j < cands.len() ==> kept_or_above(glob_fold(cands, limit).0, #[trigger] cands[j]),
    decreases cands.len(),
{
    if cands.len() > 0 {
        let d = cands.drop_last();
        let c = cands.last();
        let n = cands.len() as int;
        law_glob_keeps_smallest(d, limit);
        let p = glob_fold(d, limit);
        let files = p.0;
        let r = glob_fold(cands, limit);
        assert(r == glob_step(files, p.1, c, limit));
        assert forall|j: int| 0 <= j < d.len() implies d[j] == #[trigger] cands[j] by {}
        if files.len() < limit {
            assert(files == d);
            assert(r.0 == cands);
            assert forall|j: int| 0 <= j < n implies kept_or_above(r.0, #[trigger] cands[j]) by {
                assert(r.0[j] == cands[j]);
            }
            assert forall|i: int| 0 <= i < r.0.len() implies cands.contains(#[trigger] r.0[i]) by {
                assert(cands[i] == r.0[i]);
            }
        } else if files.len() == 0 {
            assert(r.0 == files);
            assert forall|j: int| 0 <= j < n implies kept_or_above(r.0, #[trigger] cands[j]) by {}
        } else {
            let i = largest(files);
            lemma_largest_is_max(files);
            let big = files[i];
            if key_lt(path_key(c), path_key(big)) {
                let nf = files.update(i, c);
                assert(r.0 == nf);
                crate::sort::lemma_key_lt_asym(path_key(c), path_key(big));
                assert forall|m: int| 0 <= m < nf.len() implies cands.contains(#[trigger] nf[m]) by {
                    if m == i {
                        assert(cands[n - 1] == nf[m]);
                    } else {
                        assert(nf[m] == files[m]);
                        assert(d.contains(files[m]));
                        let w = choose|w: int| 0 <= w < d.len() && d[w] == files[m];
                        assert(cands[w] == d[w]);
                    }
                }
                assert forall|j: int| 0 <= j < n implies kept_or_above(nf, #[trigger] cands[j]) by {
                    if j == n - 1 {
                        assert(nf[i] == c);
                    } else {
                        assert(cands[j] == d[j]);
                        assert(kept_or_above(files, d[j]));
                        let x = d[j];
                        if files.contains(x) {
                            let k = choose|k: int| 0 <= k < files.len() && files[k] == x;
                            if k != i {
                                assert(nf[k] == x);
                            } else {
                                assert forall|m: int| 0 <= m < nf.len() implies !key_lt(
                                    path_key(x),
                                    #[trigger] path_key(nf[m]),
                                ) by {
                                    if m != i {
                                        assert(nf[m] == files[m]);
                                    }
                                }
                            }
                        } else {
                            assert forall|m: int| 0 <= m < nf.len() implies !key_lt(
                                path_key(x),
                                #[trigger] path_key(nf[m]),
                            ) by {
                                if m != i {
                                    assert(nf[m] == files[m]);
                                } else {
                                    assert(!key_lt(path_key(x), path_key(files[i])));
                                    if key_lt(path_key(x), path_key(c)) {
                                        crate::sort::lemma_key_lt_trans(path_key(x), path_key(c), path_key(big));
                                    }
                                }
                            }
                        }
                    }
                }
            } else {
                assert(r.0 == files);
                assert forall|j: int| 0 <= j < n implies kept_or_above(files, #[trigger] cands[j]) by {
                    if j == n - 1 {
                        assert forall|k: int| 0 <= k < files.len() implies !key_lt(
                            path_key(c),
                            #[trigger] path_key(files[k]),
                        ) by {
                            assert(!key_lt(path_key(big), path_key(files[k])));
                            crate::sort::lemma_key_lt_total(path_key(big), path_key(files[k]));
                            if key_lt(path_key(c), path_key(files[k])) && key_lt(path_key(files[k]), path_key(big)) {
                                crate::sort::lemma_key_lt_trans(path_key(c), path_key(files[k]), path_key(big));
                            }
                        }
                    } else {
                        assert(cands[j] == d[j]);
                    }
                }
                assert forall|m: int| 0 <= m < files.len() implies cands.contains(#[trigger] files[m]) by {
                    assert(d.contains(files[m]));
                    let w = choose|w: int| 0 <= w < d.len() && d[w] == files[m];
                    assert(cands[w] == d[w]);
                }
            }
        }
    }
}

} // verus!
