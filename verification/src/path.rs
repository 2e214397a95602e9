//! Workspace paths (Unix, `/`-separated): lexical normalization, component-wise
//! ancestry, joining a user path onto the workspace root, the sandbox check, and the
//! mapping of I/O failures to stable error codes.
//!
//! What touches the file system (whether a path exists, `canonicalize`) is done by the
//! caller, which reports it as a [`PathProbe`]; [`finish_resolve`] decides the outcome.
use vstd::prelude::*;

use crate::json::{concat3, owned};
use crate::text::{chars_of, string_of, to_vec, trim, trim_vec};
use crate::tool::ToolError;

verus! {

/// One component of a path, as `std::path::Component` on Unix.
pub enum PathComp {
    RootDir,
    CurDir,
    ParentDir,
    Normal(Seq<char>),
}

/// Reading `p` from left to right, cutting at each `'/'`: the finished pieces and the
/// current one.
pub open spec fn slash_scan(p: Seq<char>) -> (Seq<Seq<char>>, Seq<char>)
    decreases p.len(),
{
    if p.len() == 0 {
        (seq![], seq![])
    } else {
        let (done, cur) = slash_scan(p.drop_last());
        if p.last() == '/' {
            (done.push(cur), seq![])
        } else {
            (done, cur.push(p.last()))
        }
    }
}

/// The pieces of `p` between `'/'` separators (`p.split('/')`), empty ones included.
pub open spec fn pieces(p: Seq<char>) -> Seq<Seq<char>> {
    let (done, cur) = slash_scan(p);
    done.push(cur)
}

/// `"."`.
pub open spec fn dot() -> Seq<char> {
    seq!['.']
}

/// `".."`.
pub open spec fn dot_dot() -> Seq<char> {
    seq!['.', '.']
}

/// The path starts at the root.
pub open spec fn has_root(p: Seq<char>) -> bool {
    p.len() > 0 && p[0] == '/'
}

/// The components contributed by pieces after the first: empty pieces and `"."` vanish,
/// `".."` is a parent component, anything else is a normal component.
pub open spec fn inner_comps(ps: Seq<Seq<char>>) -> Seq<PathComp>
    decreases ps.len(),
{
    if ps.len() == 0 {
        seq![]
    } else {
        let last = ps.last();
        inner_comps(ps.drop_last()) + if last.len() == 0 || last == dot() {
            Seq::<PathComp>::empty()
        } else if last == dot_dot() {
            seq![PathComp::ParentDir]
        } else {
            seq![PathComp::Normal(last)]
        }
    }
}

/// `Path::components` on Unix: a root component for a leading `'/'`, a current-directory
/// component only for a relative path whose first piece is `"."`, then the other pieces.
pub open spec fn components(p: Seq<char>) -> Seq<PathComp> {
    let ps = pieces(p);
    if has_root(p) {
        seq![PathComp::RootDir] + inner_comps(ps.drop_first())
    } else if ps[0] == dot() {
        seq![PathComp::CurDir] + inner_comps(ps.drop_first())
    } else {
        inner_comps(ps)
    }
}

/// Lexical normalization of the pieces: empty pieces and `"."` are dropped, `".."` removes
/// the last kept name if there is one.
pub open spec fn norm_fold(ps: Seq<Seq<char>>) -> Seq<Seq<char>>
    decreases ps.len(),
{
    if ps.len() == 0 {
        seq![]
    } else {
        let stack = norm_fold(ps.drop_last());
        let last = ps.last();
        if last.len() == 0 || last == dot() {
            stack
        } else if last == dot_dot() {
            if stack.len() > 0 {
                stack.drop_last()
            } else {
                stack
            }
        } else {
            stack.push(last)
        }
    }
}

/// `names` joined with `'/'`.
pub open spec fn join_names(names: Seq<Seq<char>>) -> Seq<char>
    decreases names.len(),
{
    if names.len() == 0 {
        seq![]
    } else if names.len() == 1 {
        names[0]
    } else {
        join_names(names.drop_last()) + seq!['/'] + names.last()
    }
}

/// A path made of an optional root and names.
pub open spec fn render(root: bool, names: Seq<Seq<char>>) -> Seq<char> {
    if root {
        seq!['/'] + join_names(names)
    } else {
        join_names(names)
    }
}

/// Lexically normalized `p`: `.` removed and `..` collapsed, without touching the file
/// system; `..` above the start is dropped.
pub open spec fn normalize(p: Seq<char>) -> Seq<char> {
    render(has_root(p), norm_fold(pieces(p)))
}

/// `PathBuf::push` of a relative path: a `'/'` is put between unless `base` is empty or
/// already ends with one.
pub open spec fn push_rel(base: Seq<char>, rel: Seq<char>) -> Seq<char> {
    if base.len() == 0 || base.last() == '/' {
        base + rel
    } else {
        base + seq!['/'] + rel
    }
}

/// `base.join(user)`: an absolute `user` replaces `base`.
pub open spec fn join_path(base: Seq<char>, user: Seq<char>) -> Seq<char> {
    if has_root(user) {
        user
    } else {
        push_rel(base, user)
    }
}

/// `user` resolved against `base`, then normalized.
pub open spec fn combine(base: Seq<char>, user: Seq<char>) -> Seq<char> {
    normalize(join_path(base, user))
}

/// The components of `root` are the first components of `path`.
pub open spec fn is_under(root: Seq<char>, path: Seq<char>) -> bool {
    let r = components(root);
    let p = components(path);
    r.len() <= p.len() && p.take(r.len() as int) == r
}

/// Split at `'/'`.
pub fn split_slash(p: &[char]) -> (r: Vec<Vec<char>>)
    ensures
        crate::text::views(r@) == pieces(p@),
{
    let mut done: Vec<Vec<char>> = Vec::new();
    let mut cur: Vec<char> = Vec::new();
    let mut i: usize = 0;
    while i < p.len()
        invariant
            i <= p@.len(),
            crate::text::views(done@) == slash_scan(p@.take(i as int)).0,
            cur@ == slash_scan(p@.take(i as int)).1,
        decreases p@.len() - i,
    {
        assert(p@.take(i + 1).drop_last() == p@.take(i as int));
        if p[i] == '/' {
            let ghost before = crate::text::views(done@);
            done.push(cur);
            assert(crate::text::views(done@) =~= before.push(slash_scan(p@.take(i as int)).1));
            cur = Vec::new();
        } else {
            cur.push(p[i]);
        }
        i = i + 1;
    }
    assert(p@.take(p@.len() as int) == p@);
    let ghost before = crate::text::views(done@);
    done.push(cur);
    assert(crate::text::views(done@) =~= before.push(slash_scan(p@).1));
    done
}

fn is_dot(s: &[char]) -> (r: bool)
    ensures
        r == (s@ == dot()),
{
    if s.len() == 1 && s[0] == '.' {
        assert(s@ =~= dot());
        true
    } else {
        false
    }
}

fn is_dot_dot(s: &[char]) -> (r: bool)
    ensures
        r == (s@ == dot_dot()),
{
    if s.len() == 2 && s[0] == '.' && s[1] == '.' {
        assert(s@ =~= dot_dot());
        true
    } else {
        false
    }
}

/// `names` joined with `'/'`, after an optional leading `'/'`.
pub fn render_exec(root: bool, names: &Vec<Vec<char>>) -> (r: Vec<char>)
    ensures
        r@ == render(root, crate::text::views(names@)),
{
    let ghost nv = crate::text::views(names@);
    let mut out: Vec<char> = Vec::new();
    if root {
        out.push('/');
    }
    let ghost start = out@;
    let mut i: usize = 0;
    while i < names.len()
        invariant
            i <= names@.len(),
            nv == crate::text::views(names@),
            start == (if root { seq!['/'] } else { Seq::<char>::empty() }),
            out@ == start + join_names(nv.take(i as int)),
        decreases names@.len() - i,
    {
        let ghost prev = out@;
        assert(nv.take(i + 1).drop_last() == nv.take(i as int));
        assert(nv.take(i + 1).last() == names@[i as int]@);
        if i > 0 {
            out.push('/');
        }
        let name = names[i].as_slice();
        let ghost mid = out@;
        let mut k: usize = 0;
        while k < name.len()
            invariant
                k <= name@.len(),
                out@ == mid + name@.take(k as int),
            decreases name@.len() - k,
        {
            out.push(name[k]);
            assert(name@.take(k + 1) == name@.take(k as int).push(name@[k as int]));
            k = k + 1;
        }
        assert(name@.take(name@.len() as int) == name@);
        if i == 0 {
            assert(nv.take(1) =~= seq![name@]);
            assert(out@ =~= start + join_names(nv.take(1)));
        } else {
            assert(out@ =~= start + (join_names(nv.take(i as int)) + seq!['/'] + name@));
        }
        i = i + 1;
    }
    assert(nv.take(names@.len() as int) == nv);
    if root {
        assert(render(root, nv) == start + join_names(nv));
    } else {
        assert(start + join_names(nv) =~= join_names(nv));
    }
    out
}

/// Lexical normalization of a path given as characters.
pub fn normalize_chars(p: &[char]) -> (r: Vec<char>)
    ensures
        r@ == normalize(p@),
{
    let ps = split_slash(p);
    let ghost pv = crate::text::views(ps@);
    let mut stack: Vec<Vec<char>> = Vec::new();
    let mut i: usize = 0;
    while i < ps.len()
        invariant
            i <= ps@.len(),
            pv == crate::text::views(ps@),
            crate::text::views(stack@) == norm_fold(pv.take(i as int)),
        decreases ps@.len() - i,
    {
        let piece = ps[i].as_slice();
        assert(pv.take(i + 1).drop_last() == pv.take(i as int));
        assert(pv.take(i + 1).last() == piece@);
        let ghost before = crate::text::views(stack@);
        if piece.len() == 0 || is_dot(piece) {
        } else if is_dot_dot(piece) {
            if stack.len() > 0 {
                stack.pop();
                assert(crate::text::views(stack@) =~= before.drop_last());
            }
        } else {
            stack.push(to_vec(piece));
            assert(crate::text::views(stack@) =~= before.push(piece@));
        }
        i = i + 1;
    }
    assert(pv.take(ps@.len() as int) == pv);
    let root = p.len() > 0 && p[0] == '/';
    render_exec(root, &stack)
}

/// Lexical normalization: collapse `.` and `..` without touching the file system.
pub fn normalize_path(path: &str) -> (r: String)
    ensures
        r@ == normalize(path@),
{
    let c = chars_of(path);
    let n = normalize_chars(c.as_slice());
    string_of(n.as_slice())
}

/// `base.join(user)` as characters.
fn join_chars(base: &[char], user: &[char]) -> (r: Vec<char>)
    ensures
        r@ == join_path(base@, user@),
{
    if user.len() > 0 && user[0] == '/' {
        return to_vec(user);
    }
    let mut out = to_vec(base);
    if base.len() > 0 && base[base.len() - 1] != '/' {
        out.push('/');
    }
    let ghost mid = out@;
    let mut k: usize = 0;
    while k < user.len()
        invariant
            k <= user@.len(),
            out@ == mid + user@.take(k as int),
        decreases user@.len() - k,
    {
        out.push(user[k]);
        assert(user@.take(k + 1) == user@.take(k as int).push(user@[k as int]));
        k = k + 1;
    }
    assert(user@.take(user@.len() as int) == user@);
    out
}

/// `base.join(user)`.
pub fn join_exec(base: &str, user: &str) -> (r: String)
    ensures
        r@ == join_path(base@, user@),
{
    let b = chars_of(base);
    let u = chars_of(user);
    let j = join_chars(b.as_slice(), u.as_slice());
    string_of(j.as_slice())
}

/// Resolve a user path against `base`, then normalize lexically.
pub fn combine_and_normalize(base: &str, user: &str) -> (r: String)
    ensures
        r@ == combine(base@, user@),
{
    let b = chars_of(base);
    let u = chars_of(user);
    let j = join_chars(b.as_slice(), u.as_slice());
    let n = normalize_chars(j.as_slice());
    string_of(n.as_slice())
}

/// An executable path component.
pub enum Comp {
    RootDir,
    CurDir,
    ParentDir,
    Normal(Vec<char>),
}

/// The abstract component.
pub open spec fn comp_view(c: Comp) -> PathComp {
    match c {
        Comp::RootDir => PathComp::RootDir,
        Comp::CurDir => PathComp::CurDir,
        Comp::ParentDir => PathComp::ParentDir,
        Comp::Normal(v) => PathComp::Normal(v@),
    }
}

/// The abstract components.
pub open spec fn comps_view(v: Seq<Comp>) -> Seq<PathComp> {
    v.map_values(|c: Comp| comp_view(c))
}

/// The components of a path.
pub fn components_exec(p: &[char]) -> (r: Vec<Comp>)
    ensures
        comps_view(r@) == components(p@),
{
    let ps = split_slash(p);
    let ghost pv = crate::text::views(ps@);
    let mut out: Vec<Comp> = Vec::new();
    let root = p.len() > 0 && p[0] == '/';
    let mut first: usize = 0;
    assert(pv.len() == ps@.len());
    assert(pv.len() >= 1);
    if root {
        out.push(Comp::RootDir);
        first = 1;
    } else if is_dot(ps[0].as_slice()) {
        out.push(Comp::CurDir);
        first = 1;
    }
    let ghost start = comps_view(out@);
    let ghost rest = if first == 1 { pv.drop_first() } else { pv };
    assert(rest == pv.skip(first as int));
    let mut i: usize = first;
    while i < ps.len()
        invariant
            first <= i <= ps@.len(),
            first <= 1,
            pv == crate::text::views(ps@),
            rest == pv.skip(first as int),
            comps_view(out@) == start + inner_comps(rest.take(i - first)),
        decreases ps@.len() - i,
    {
        let piece = ps[i].as_slice();
        assert(rest.take(i + 1 - first).drop_last() == rest.take(i - first));
        assert(rest.take(i + 1 - first).last() == piece@);
        let ghost before = comps_view(out@);
        if piece.len() == 0 || is_dot(piece) {
            assert(comps_view(out@) =~= start + inner_comps(rest.take(i + 1 - first)));
        } else if is_dot_dot(piece) {
            out.push(Comp::ParentDir);
            assert(comps_view(out@) =~= before.push(PathComp::ParentDir));
            assert(comps_view(out@) =~= start + inner_comps(rest.take(i + 1 - first)));
        } else {
            out.push(Comp::Normal(to_vec(piece)));
            assert(comps_view(out@) =~= before.push(PathComp::Normal(piece@)));
            assert(comps_view(out@) =~= start + inner_comps(rest.take(i + 1 - first)));
        }
        i = i + 1;
    }
    assert(rest.take(ps@.len() - first) == rest);
    if !root && first == 0 {
        assert(start =~= Seq::<PathComp>::empty());
        assert(comps_view(out@) =~= inner_comps(pv));
    }
    out
}

fn chars_eq(a: &[char], b: &[char]) -> (r: bool)
    ensures
        r == (a@ == b@),
{
    if a.len() != b.len() {
        return false;
    }
    let mut i: usize = 0;
    while i < a.len()
        invariant
            a@.len() == b@.len(),
            i <= a@.len(),
            forall|j: int| 0 <= j < i ==> a@[j] == b@[j],
        decreases a@.len() - i,
    {
        if a[i] != b[i] {
            assert(a@[i as int] != b@[i as int]);
            return false;
        }
        i = i + 1;
    }
    assert(a@ =~= b@);
    true
}

pub fn comp_eq(a: &Comp, b: &Comp) -> (r: bool)
    ensures
        r == (comp_view(*a) == comp_view(*b)),
{
    match (a, b) {
        (Comp::RootDir, Comp::RootDir) => true,
        (Comp::CurDir, Comp::CurDir) => true,
        (Comp::ParentDir, Comp::ParentDir) => true,
        (Comp::Normal(x), Comp::Normal(y)) => chars_eq(x.as_slice(), y.as_slice()),
        _ => false,
    }
}

/// Whether the components of `root` begin the components of `path`.
pub fn is_descendant_chars(root: &[char], path: &[char]) -> (r: bool)
    ensures
        r == is_under(root@, path@),
{
    let rc = components_exec(root);
    let pc = components_exec(path);
    if pc.len() < rc.len() {
        return false;
    }
    let ghost rv = comps_view(rc@);
    let ghost pv = comps_view(pc@);
    let mut i: usize = 0;
    while i < rc.len()
        invariant
            rc@.len() <= pc@.len(),
            i <= rc@.len(),
            rv == comps_view(rc@),
            pv == comps_view(pc@),
            rv == components(root@),
            pv == components(path@),
            forall|j: int| 0 <= j < i ==> rv[j] == pv[j],
        decreases rc@.len() - i,
    {
        if !comp_eq(&rc[i], &pc[i]) {
            assert(pv.take(rv.len() as int)[i as int] != rv[i as int]);
            return false;
        }
        i = i + 1;
    }
    assert(pv.take(rv.len() as int) =~= rv);
    true
}

/// `path` equals `root` or lies below it, compared component by component.
pub fn is_descendant(root: &str, path: &str) -> (r: bool)
    ensures
        r == is_under(root@, path@),
{
    let r = chars_of(root);
    let p = chars_of(path);
    is_descendant_chars(r.as_slice(), p.as_slice())
}

/// Error codes of path resolution.
#[derive(Clone, Copy, PartialEq, Eq, Debug)]
pub enum PathResolutionCode {
    InvalidPath,
    FileNotFound,
}

impl PathResolutionCode {
    /// The stable code string.
    pub fn as_str(self) -> (r: &'static str)
        ensures
            r@ == path_code_text(self),
    {
        match self {
            PathResolutionCode::InvalidPath => "INVALID_PATH",
            PathResolutionCode::FileNotFound => "FILE_NOT_FOUND",
        }
    }
}

/// The code string of each path resolution code.
pub open spec fn path_code_text(c: PathResolutionCode) -> Seq<char> {
    match c {
        PathResolutionCode::InvalidPath => "INVALID_PATH"@,
        PathResolutionCode::FileNotFound => "FILE_NOT_FOUND"@,
    }
}

/// A tool error with a path resolution code.
pub fn path_tool_error(code: PathResolutionCode, message: &str) -> (e: ToolError)
    ensures
        e.code@ == path_code_text(code),
        e.message@ == message@,
{
    ToolError { code: owned(code.as_str()), message: owned(message) }
}

/// The refusal of a path that leaves the workspace root.
pub open spec fn escape_message() -> Seq<char> {
    "path escapes working root (sandbox)"@
}

/// `Ok` when `resolved` lies under `root`; otherwise an `INVALID_PATH` error.
pub fn ensure_under_root(root: &str, resolved: &str) -> (r: Result<(), ToolError>)
    ensures
        r is Ok <==> is_under(root@, resolved@),
        r matches Err(e) ==> e.code@ == "INVALID_PATH"@ && e.message@ == escape_message(),
{
    if is_descendant(root, resolved) {
        Ok(())
    } else {
        Err(path_tool_error(PathResolutionCode::InvalidPath, "path escapes working root (sandbox)"))
    }
}

/// The kind of an I/O failure (`std::io::ErrorKind`), as far as the tools distinguish it.
#[derive(Clone, Copy, PartialEq, Eq, Debug)]
pub enum IoErrorKind {
    NotFound,
    PermissionDenied,
    AlreadyExists,
    DirectoryNotEmpty,
    InvalidInput,
    InvalidData,
    Other,
}

/// An I/O failure: its kind and its display text.
pub struct IoFailure {
    pub kind: IoErrorKind,
    pub message: String,
}

/// The code for an I/O failure of each kind.
pub open spec fn io_code_text(k: IoErrorKind) -> Seq<char> {
    match k {
        IoErrorKind::NotFound => "FILE_NOT_FOUND"@,
        IoErrorKind::PermissionDenied => "PERMISSION_DENIED"@,
        IoErrorKind::AlreadyExists => "FILE_ALREADY_EXISTS"@,
        IoErrorKind::DirectoryNotEmpty => "DIRECTORY_NOT_EMPTY"@,
        _ => "INVALID_PATH"@,
    }
}

/// Map an I/O failure to a stable code; the message is `"<context>: <error>"`, or just the
/// error text when `context` is empty.
pub fn map_io_error(err: &IoFailure, context: &str) -> (e: ToolError)
    ensures
        e.code@ == io_code_text(err.kind),
        e.message@ == (if context@.len() == 0 {
            err.message@
        } else {
            context@ + ": "@ + err.message@
        }),
{
    let code = match err.kind {
        IoErrorKind::NotFound => "FILE_NOT_FOUND",
        IoErrorKind::PermissionDenied => "PERMISSION_DENIED",
        IoErrorKind::AlreadyExists => "FILE_ALREADY_EXISTS",
        IoErrorKind::DirectoryNotEmpty => "DIRECTORY_NOT_EMPTY",
        IoErrorKind::InvalidInput => "INVALID_PATH",
        IoErrorKind::InvalidData => "INVALID_PATH",
        IoErrorKind::Other => "INVALID_PATH",
    };
    let ctx = chars_of(context);
    let message = if ctx.len() == 0 {
        owned(err.message.as_str())
    } else {
        concat3(context, ": ", err.message.as_str())
    };
    ToolError { code: owned(code), message }
}

/// The normalized path that a user path names inside the workspace: the user text is
/// trimmed, must not be empty, and is joined onto the root.
pub fn workspace_logical_path(root_canonical: &str, user: &str) -> (r: Result<String, ToolError>)
    ensures
        match r {
            Ok(p) => trim(user@).len() > 0 && p@ == combine(root_canonical@, trim(user@)),
            Err(e) => trim(user@).len() == 0 && e.code@ == "INVALID_PATH"@ && e.message@
                == "path is empty"@,
        },
{
    let u = chars_of(user);
    let t = trim_vec(u.as_slice());
    if t.len() == 0 {
        return Err(path_tool_error(PathResolutionCode::InvalidPath, "path is empty"));
    }
    let ts = string_of(t.as_slice());
    Ok(combine_and_normalize(root_canonical, ts.as_str()))
}

/// What the file system reported about a logical path.
pub enum PathProbe {
    /// The path exists; its canonical form.
    Exists(String),
    /// The path does not exist; the canonical form of its nearest existing ancestor and the
    /// names below that ancestor, outermost first.
    Below(String, Vec<String>),
    /// A missing path had no file name to strip.
    NoFileName,
    /// No ancestor of the path exists.
    NoAncestor,
    /// An I/O step failed, with the name of the step.
    Failed(IoFailure, String),
}

/// `base` with `names` pushed one after another.
pub open spec fn push_all(base: Seq<char>, names: Seq<Seq<char>>) -> Seq<char>
    decreases names.len(),
{
    if names.len() == 0 {
        base
    } else {
        push_rel(push_all(base, names.drop_last()), names.last())
    }
}

/// The outcome of resolving a probed path. In sandbox mode every path handed back lies
/// under the root.
pub open spec fn resolve_outcome(
    root: Seq<char>,
    allow_outside_root: bool,
    probe: PathProbe,
) -> Result<Seq<char>, (Seq<char>, Seq<char>)> {
    match probe {
        PathProbe::Exists(c) => if allow_outside_root || is_under(root, c@) {
            Ok(c@)
        } else {
            Err(("INVALID_PATH"@, escape_message()))
        },
        PathProbe::Below(base, names) => {
            let out = push_all(base@, crate::json::string_views(names@));
            if allow_outside_root {
                Ok(out)
            } else if !is_under(root, base@) || !is_under(root, out) {
                Err(("INVALID_PATH"@, escape_message()))
            } else {
                Ok(out)
            }
        },
        PathProbe::NoFileName => Err(
            ("INVALID_PATH"@, "invalid path (no file name component)"@),
        ),
        PathProbe::NoAncestor => Err(
            ("FILE_NOT_FOUND"@, "path has no existing parent under sandbox"@),
        ),
        PathProbe::Failed(f, step) => Err(
            (
                io_code_text(f.kind),
                if step@.len() == 0 {
                    f.message@
                } else {
                    step@ + ": "@ + f.message@
                },
            ),
        ),
    }
}

/// Push one name onto a path.
pub fn push_name(base: &mut Vec<char>, name: &[char])
    ensures
        final(base)@ == push_rel(old(base)@, name@),
{
    if base.len() > 0 && base[base.len() - 1] != '/' {
        base.push('/');
    }
    let ghost mid = base@;
    let mut k: usize = 0;
    while k < name.len()
        invariant
            k <= name@.len(),
            base@ == mid + name@.take(k as int),
        decreases name@.len() - k,
    {
        base.push(name[k]);
        assert(name@.take(k + 1) == name@.take(k as int).push(name@[k as int]));
        k = k + 1;
    }
    assert(name@.take(name@.len() as int) == name@);
}

/// Decide the resolution of a probed path: in sandbox mode the result must stay under the
/// root; in relaxed mode that check is skipped.
pub fn finish_resolve(root_canonical: &str, allow_outside_root: bool, probe: &PathProbe) -> (r:
    Result<String, ToolError>)
    ensures
        match (r, resolve_outcome(root_canonical@, allow_outside_root, *probe)) {
            (Ok(p), Ok(q)) => p@ == q,
            (Err(e), Err((code, msg))) => e.code@ == code && e.message@ == msg,
            _ => false,
        },
{
    match probe {
        PathProbe::Exists(c) => {
            if !allow_outside_root {
                ensure_under_root(root_canonical, c.as_str())?;
            }
            Ok(owned(c.as_str()))
        },
        PathProbe::Below(base, names) => {
            if !allow_outside_root {
                ensure_under_root(root_canonical, base.as_str())?;
            }
            let ghost nv = crate::json::string_views(names@);
            let mut out = chars_of(base.as_str());
            let mut i: usize = 0;
            while i < names.len()
                invariant
                    i <= names@.len(),
                    nv == crate::json::string_views(names@),
                    out@ == push_all(base@, nv.take(i as int)),
                decreases names@.len() - i,
            {
                let n = chars_of(names[i].as_str());
                assert(nv.take(i + 1).drop_last() == nv.take(i as int));
                assert(nv.take(i + 1).last() == names@[i as int]@);
                push_name(&mut out, n.as_slice());
                i = i + 1;
            }
            assert(nv.take(names@.len() as int) == nv);
            let s = string_of(out.as_slice());
            if !allow_outside_root {
                ensure_under_root(root_canonical, s.as_str())?;
            }
            Ok(s)
        },
        PathProbe::NoFileName => Err(
            path_tool_error(PathResolutionCode::InvalidPath, "invalid path (no file name component)"),
        ),
        PathProbe::NoAncestor => Err(
            path_tool_error(
                PathResolutionCode::FileNotFound,
                "path has no existing parent under sandbox",
            ),
        ),
        PathProbe::Failed(f, step) => Err(map_io_error(f, step.as_str())),
    }
}

/// Law: in sandbox mode, whatever path resolution hands back lies under the workspace root.
pub proof fn law_sandbox_keeps_paths_under_root(root: Seq<char>, probe: PathProbe)
    ensures
        resolve_outcome(root, false, probe) matches Ok(p) ==> is_under(root, p),
{
}

} // verus!
