//! File tools: read, write and edit files, list directories, create directories, delete,
//! move and copy files, inside the workspace root unless the context allows leaving it.
//!
//! The file system work is the caller's; the functions here read and check the requests,
//! slice and edit texts, order directory listings and decide the steps of a move.
use vstd::prelude::*;

use crate::json::{
    err_view, json_str, json_u64_integer_opt, owned, str_param, string_views, Json,
};
use crate::path::{io_code_text, map_io_error, IoFailure};
use crate::sort::{is_stable_sort, key_view, keys_view, stable_sort, KeyPart, PartView};
use crate::text::{
    chars_of, first_occurrence, join_sep, lines, push_all, split_char, split_lines, split_on,
    string_of, views,
};
use crate::tool::ToolError;

verus! {

/// Error codes of the file tools (I/O failures use the codes of `map_io_error`).
#[derive(Clone, Copy, PartialEq, Eq, Debug)]
pub enum FsErrorCode {
    InvalidPath,
    PatternNotFound,
    PatternNotUnique,
    FileAlreadyExists,
}

/// The stable code string of each file error code.
pub open spec fn fs_code_text(c: FsErrorCode) -> Seq<char> {
    match c {
        FsErrorCode::InvalidPath => "INVALID_PATH"@,
        FsErrorCode::PatternNotFound => "PATTERN_NOT_FOUND"@,
        FsErrorCode::PatternNotUnique => "PATTERN_NOT_UNIQUE"@,
        FsErrorCode::FileAlreadyExists => "FILE_ALREADY_EXISTS"@,
    }
}

impl FsErrorCode {
    /// The stable code string.
    pub fn as_str(self) -> (r: &'static str)
        ensures
            r@ == fs_code_text(self),
    {
        match self {
            FsErrorCode::InvalidPath => "INVALID_PATH",
            FsErrorCode::PatternNotFound => "PATTERN_NOT_FOUND",
            FsErrorCode::PatternNotUnique => "PATTERN_NOT_UNIQUE",
            FsErrorCode::FileAlreadyExists => "FILE_ALREADY_EXISTS",
        }
    }
}

/// A tool error with a file error code.
pub fn tool_error(code: FsErrorCode, message: String) -> (e: ToolError)
    ensures
        e.code@ == fs_code_text(code),
        e.message@ == message@,
{
    ToolError { code: owned(code.as_str()), message }
}

/// An error as (code, message).
pub type ErrView = (Seq<char>, Seq<char>);

/// A file error as (code, message).
pub open spec fn fs_err(code: FsErrorCode, message: Seq<char>) -> ErrView {
    (fs_code_text(code), message)
}

/// Canonical workspace root and sandbox mode of the file tools.
pub struct FsContext {
    /// Relative paths join against this directory.
    pub root_canonical: String,
    /// When `false`, resolved paths must stay under the root.
    pub allow_outside_root: bool,
}

impl FsContext {
    /// A context for an already canonical root.
    pub fn new(root_canonical: String, allow_outside_root: bool) -> (r: FsContext)
        ensures
            r.root_canonical@ == root_canonical@,
            r.allow_outside_root == allow_outside_root,
    {
        FsContext { root_canonical, allow_outside_root }
    }
}

/// The refusal of a path that is not a regular file.
pub fn not_regular_file() -> (r: ToolError)
    ensures
        err_view(r) == fs_err(FsErrorCode::InvalidPath, "path is not a regular file"@),
{
    tool_error(FsErrorCode::InvalidPath, owned("path is not a regular file"))
}

/// The refusal of a path that is not a directory.
pub fn not_directory() -> (r: ToolError)
    ensures
        err_view(r) == fs_err(FsErrorCode::InvalidPath, "path is not a directory"@),
{
    tool_error(FsErrorCode::InvalidPath, owned("path is not a directory"))
}

/// The refusal to delete a directory.
pub fn not_deletable_directory() -> (r: ToolError)
    ensures
        err_view(r) == fs_err(
            FsErrorCode::InvalidPath,
            "`delete_file` only removes regular files, not directories"@,
        ),
{
    tool_error(FsErrorCode::InvalidPath, owned("`delete_file` only removes regular files, not directories"))
}

/// The refusal of a move or copy source that is not a regular file.
pub fn source_not_regular_file() -> (r: ToolError)
    ensures
        err_view(r) == fs_err(FsErrorCode::InvalidPath, "`source` is not a regular file"@),
{
    tool_error(FsErrorCode::InvalidPath, owned("`source` is not a regular file"))
}

/// A move or copy must not overwrite: an existing destination is refused.
pub fn ensure_dest_absent(dest_exists: bool) -> (r: Result<(), ToolError>)
    ensures
        match r {
            Ok(()) => !dest_exists,
            Err(e) => dest_exists && err_view(e) == fs_err(
                FsErrorCode::FileAlreadyExists,
                "destination path already exists"@,
            ),
        },
{
    if dest_exists {
        Err(tool_error(FsErrorCode::FileAlreadyExists, owned("destination path already exists")))
    } else {
        Ok(())
    }
}

/// A parsed `read_file` request.
pub struct ReadRequest {
    pub path: String,
    /// First line to return, from 1.
    pub offset: Option<u64>,
    /// How many lines to return.
    pub limit: Option<u64>,
}

/// The outcome of an optional non-negative integer parameter (`null` counts as absent).
pub open spec fn u64_integer_param(params: Json, key: Seq<char>) -> Result<Option<u64>, ErrView> {
    match json_get_integer(params, key) {
        Some(r) => r,
        None => Ok(None),
    }
}

/// The outcome of an integer parameter that is present and not `null`.
pub open spec fn json_get_integer(params: Json, key: Seq<char>) -> Option<Result<Option<u64>, ErrView>> {
    match crate::json::json_get(params, key) {
        None => None,
        Some(Json::Null) => None,
        Some(v) => Some(
            match crate::json::as_u64_spec(v) {
                Some(n) => Ok(Some(n)),
                None => match crate::json::as_i64_spec(v) {
                    Some(n) => if n >= 0 {
                        Ok(Some(n as u64))
                    } else {
                        Err(("INVALID_PATH"@, "`"@ + key + "` must be a non-negative JSON integer"@))
                    },
                    None => Err(("INVALID_PATH"@, "`"@ + key + "` must be a non-negative JSON integer"@)),
                },
            },
        ),
    }
}

/// The outcome of reading a `read_file` request: `path`, `offset`, `limit`; an `offset` of
/// 0 is refused.
pub open spec fn read_request(params: Json) -> Result<(Seq<char>, Option<u64>, Option<u64>), ErrView> {
    match str_param(params, "path"@) {
        Err(e) => Err(e),
        Ok(path) => match u64_integer_param(params, "offset"@) {
            Err(e) => Err(e),
            Ok(offset) => match u64_integer_param(params, "limit"@) {
                Err(e) => Err(e),
                Ok(limit) => if offset == Some(0u64) {
                    Err(fs_err(FsErrorCode::InvalidPath, "`offset` must be >= 1 when provided"@))
                } else {
                    Ok((path, offset, limit))
                },
            },
        },
    }
}

/// Read a `read_file` request.
pub fn parse_read_request(params: &Json) -> (r: Result<ReadRequest, ToolError>)
    ensures
        match r {
            Ok(req) => read_request(*params) == Ok::<(Seq<char>, Option<u64>, Option<u64>), ErrView>(
                (req.path@, req.offset, req.limit),
            ),
            Err(e) => read_request(*params) == Err::<(Seq<char>, Option<u64>, Option<u64>), ErrView>(
                err_view(e),
            ),
        },
{
    let path = json_str(params, "path")?;
    let offset = json_u64_integer_opt(params, "offset")?;
    let limit = json_u64_integer_opt(params, "limit")?;
    match offset {
        Some(o) => if o == 0 {
            return Err(tool_error(FsErrorCode::InvalidPath, owned("`offset` must be >= 1 when provided")));
        },
        None => {},
    }
    Ok(ReadRequest { path, offset, limit })
}

/// The slice of a file a `read_file` returns: the text is cut at every `'\n'` (a `'\r'`
/// stays with its segment, and a final `'\n'` leaves an empty last segment); the segments
/// from `offset` (from 1) on, at most `limit` of them, are joined again with `'\n'`.
pub open spec fn read_slice(text: Seq<char>, offset: Option<u64>, limit: Option<u64>) -> Seq<char> {
    let segs = split_on(text, '\n');
    let first: int = match offset {
        Some(o) => o - 1,
        None => 0,
    };
    let start: int = if first < segs.len() {
        first
    } else {
        segs.len() as int
    };
    let rest = segs.skip(start);
    let taken = match limit {
        Some(l) => if l < rest.len() {
            rest.take(l as int)
        } else {
            rest
        },
        None => rest,
    };
    join_sep(taken, "\n"@)
}

/// What `read_file` returns: the slice, and the number of lines of the whole text as
/// `str::lines` counts them.
pub fn read_file_text(text: &str, offset: Option<u64>, limit: Option<u64>) -> (r: (String, u64))
    requires
        offset != Some(0u64),
    ensures
        r.0@ == read_slice(text@, offset, limit),
        r.1 as int == lines(text@).len(),
{
    let c = chars_of(text);
    let segs = split_char(c.as_slice(), '\n');
    let ghost sv = views(segs@);
    let first: u64 = match offset {
        Some(o) => o - 1,
        None => 0,
    };
    let start: usize = if first < segs.len() as u64 {
        first as usize
    } else {
        segs.len()
    };
    let rem = segs.len() - start;
    let count: usize = match limit {
        Some(l) => if l < rem as u64 {
            l as usize
        } else {
            rem
        },
        None => rem,
    };
    let ghost taken = sv.skip(start as int).take(count as int);
    assert(match limit {
        Some(l) => if l < sv.skip(start as int).len() {
            taken == sv.skip(start as int).take(l as int)
        } else {
            taken == sv.skip(start as int)
        },
        None => taken == sv.skip(start as int),
    });
    let mut out: Vec<char> = Vec::new();
    let mut k: usize = 0;
    assert(start + count <= segs@.len());
    assert(taken.take(0) =~= Seq::<Seq<char>>::empty());
    let nsegs = segs.len();
    while k < count
        invariant
            nsegs == segs@.len(),
            k <= count,
            start + count <= segs@.len(),
            sv == views(segs@),
            taken == sv.skip(start as int).take(count as int),
            out@ == join_sep(taken.take(k as int), "\n"@),
        decreases count - k,
    {
        assert(taken.take(k + 1).drop_last() == taken.take(k as int));
        assert(taken.take(k + 1).last() == segs@[start + k]@);
        if k > 0 {
            out.push('\n');
            assert(out@ =~= join_sep(taken.take(k as int), "\n"@) + "\n"@) by {
                reveal_strlit("\n");
            }
        } else {
            assert(taken.take(1) =~= seq![segs@[start as int]@]);
        }
        push_all(&mut out, segs[start + k].as_slice());
        k = k + 1;
    }
    assert(taken.take(count as int) == taken);
    let ls = split_lines(c.as_slice());
    (string_of(out.as_slice()), ls.len() as u64)
}

/// The outcome of an edit: `old_text` must occur exactly once; its occurrence is replaced
/// by `new_text`.
pub open spec fn edit_outcome(text: Seq<char>, old_text: Seq<char>, new_text: Seq<char>) -> Result<Seq<char>, ErrView> {
    match first_occurrence(text, old_text) {
        None => Err(fs_err(FsErrorCode::PatternNotFound, "`old_text` not found in file"@)),
        Some(i) => if first_occurrence(text.skip(i + old_text.len()), old_text) is Some {
            Err(fs_err(FsErrorCode::PatternNotUnique, "`old_text` matches multiple locations"@))
        } else {
            Ok(text.take(i) + new_text + text.skip(i + old_text.len()))
        },
    }
}

/// The outcome of reading an `edit_file` request: `path`, `old_text` (not empty),
/// `new_text`.
pub open spec fn edit_request(params: Json) -> Result<(Seq<char>, Seq<char>, Seq<char>), ErrView> {
    match str_param(params, "path"@) {
        Err(e) => Err(e),
        Ok(path) => match str_param(params, "old_text"@) {
            Err(e) => Err(e),
            Ok(old_text) => match str_param(params, "new_text"@) {
                Err(e) => Err(e),
                Ok(new_text) => if old_text.len() == 0 {
                    Err(fs_err(FsErrorCode::InvalidPath, "`old_text` must not be empty"@))
                } else {
                    Ok((path, old_text, new_text))
                },
            },
        },
    }
}

/// Read an `edit_file` request.
pub fn parse_edit_request(params: &Json) -> (r: Result<(String, String, String), ToolError>)
    ensures
        match r {
            Ok((p, o, n)) => edit_request(*params) == Ok::<(Seq<char>, Seq<char>, Seq<char>), ErrView>(
                (p@, o@, n@),
            ),
            Err(e) => edit_request(*params) == Err::<(Seq<char>, Seq<char>, Seq<char>), ErrView>(
                err_view(e),
            ),
        },
{
    let path = json_str(params, "path")?;
    let old_text = json_str(params, "old_text")?;
    let new_text = json_str(params, "new_text")?;
    let oc = chars_of(old_text.as_str());
    if oc.len() == 0 {
        return Err(tool_error(FsErrorCode::InvalidPath, owned("`old_text` must not be empty")));
    }
    Ok((path, old_text, new_text))
}

/// Replace the single occurrence of `old_text` in a file's text.
pub fn edit_text(text: &str, old_text: &str, new_text: &str) -> (r: Result<String, ToolError>)
    ensures
        match r {
            Ok(t) => edit_outcome(text@, old_text@, new_text@) == Ok::<Seq<char>, ErrView>(t@),
            Err(e) => edit_outcome(text@, old_text@, new_text@) == Err::<Seq<char>, ErrView>(err_view(e)),
        },
{
    let t = chars_of(text);
    let o = chars_of(old_text);
    match crate::text::find(t.as_slice(), o.as_slice()) {
        None => Err(tool_error(FsErrorCode::PatternNotFound, owned("`old_text` not found in file"))),
        Some(i) => {
            let tl = t.len();
            assert(crate::text::occurs_at(t@, o@, i as int));
            assert(i + o@.len() <= tl);
            let after = i + o.len();
            let rest = crate::text::to_vec(&t.as_slice()[after..t.len()]);
            assert(t@.subrange(after as int, t@.len() as int) == t@.skip(after as int));
            if crate::text::find(rest.as_slice(), o.as_slice()).is_some() {
                return Err(
                    tool_error(FsErrorCode::PatternNotUnique, owned("`old_text` matches multiple locations")),
                );
            }
            let mut out = crate::text::to_vec(&t.as_slice()[0..i]);
            assert(t@.subrange(0, i as int) == t@.take(i as int));
            crate::text::push_str(&mut out, new_text);
            push_all(&mut out, rest.as_slice());
            Ok(string_of(out.as_slice()))
        },
    }
}

/// A directory entry as the file system reports it.
pub struct RawEntry {
    pub name: String,
    pub is_dir: bool,
    /// The length in bytes of a file.
    pub len: u64,
}

/// A directory entry as `list_directory` shows it.
pub struct DirEntry {
    pub name: String,
    /// `"directory"` or `"file"`.
    pub kind: String,
    /// 0 for a directory.
    pub size: u64,
}

/// The shown form of an entry.
pub open spec fn entry_view(e: RawEntry) -> (Seq<char>, Seq<char>, u64) {
    (e.name@, if e.is_dir { "directory"@ } else { "file"@ }, if e.is_dir { 0u64 } else { e.len })
}

/// The sort keys of entries: by name.
pub open spec fn name_keys(es: Seq<RawEntry>) -> Seq<Seq<PartView>> {
    es.map_values(|e: RawEntry| seq![PartView::Asc(e.name@)])
}

/// A directory's entries, ordered by name (stable), each shown with its kind and size.
pub fn list_entries(raw: &Vec<RawEntry>) -> (r: Vec<DirEntry>)
    ensures
        exists|idx: Seq<int>|
            #[trigger] is_stable_sort(name_keys(raw@), idx) && r@.len() == raw@.len() && forall|j: int|
                0 <= j < r@.len() ==> ((#[trigger] r@[j]).name@, r@[j].kind@, r@[j].size) == entry_view(
                    raw@[idx[j]],
                ),
{
    let mut keys: Vec<Vec<KeyPart>> = Vec::new();
    let mut i: usize = 0;
    while i < raw.len()
        invariant
            i <= raw@.len(),
            keys_view(keys@) == name_keys(raw@.take(i as int)),
        decreases raw@.len() - i,
    {
        let ghost before = keys_view(keys@);
        let mut k: Vec<KeyPart> = Vec::new();
        k.push(KeyPart::Asc(chars_of(raw[i].name.as_str())));
        assert(key_view(k) =~= seq![PartView::Asc(raw@[i as int].name@)]);
        keys.push(k);
        assert(keys_view(keys@) =~= before.push(key_view(k)));
        assert(name_keys(raw@.take(i + 1)) =~= name_keys(raw@.take(i as int)).push(seq![PartView::Asc(raw@[i as int].name@)]));
        i = i + 1;
    }
    assert(raw@.take(raw@.len() as int) == raw@);
    let idx = stable_sort(&keys);
    let ghost iv = idx@.map_values(|x: usize| x as int);
    let mut out: Vec<DirEntry> = Vec::new();
    let mut j: usize = 0;
    while j < idx.len()
        invariant
            j <= idx@.len(),
            iv == idx@.map_values(|x: usize| x as int),
            is_stable_sort(name_keys(raw@), iv),
            out@.len() == j,
            forall|q: int| 0 <= q < j ==> ((#[trigger] out@[q]).name@, out@[q].kind@, out@[q].size) == entry_view(
                raw@[iv[q]],
            ),
        decreases idx@.len() - j,
    {
        assert(0 <= iv[j as int] < raw@.len());
        let e = &raw[idx[j]];
        let d = if e.is_dir {
            DirEntry { name: owned(e.name.as_str()), kind: owned("directory"), size: 0 }
        } else {
            DirEntry { name: owned(e.name.as_str()), kind: owned("file"), size: e.len }
        };
        out.push(d);
        j = j + 1;
    }
    out
}

/// The stage of a move that falls back to copy and remove when renaming fails.
#[derive(Clone, Copy, PartialEq, Eq, Structural, Debug)]
pub enum MoveStage {
    /// Nothing done yet.
    Start,
    /// The rename was tried.
    Renaming,
    /// The copy was tried.
    Copying,
    /// The removal of the source was tried.
    Removing,
}

/// What the file system reported for the last step.
pub enum MoveEvent {
    /// The step succeeded (or, at the start, nothing happened yet).
    Done,
    /// The step failed.
    Failed(IoFailure),
}

/// The next step of a move.
pub enum MoveAction {
    /// Rename the source to the destination.
    Rename,
    /// Copy the source to the destination.
    Copy,
    /// Remove the source.
    RemoveSource,
    /// Remove the destination copy, ignoring how that goes, then fail with the error.
    RemoveDestinationAndFail(ToolError),
    /// The move is over.
    Finish(Result<(), ToolError>),
}

/// One step of a move: rename first; when that fails, copy and then remove the source;
/// when removing the source fails, the copy is removed again and the removal failure is
/// reported; a failed copy is reported as it is.
pub fn move_step(stage: MoveStage, event: &MoveEvent) -> (r: (MoveStage, MoveAction))
    ensures
        match stage {
            MoveStage::Start => r.0 == MoveStage::Renaming && r.1 is Rename,
            MoveStage::Renaming => match event {
                MoveEvent::Done => r.1 matches MoveAction::Finish(Ok(())),
                MoveEvent::Failed(_) => r.0 == MoveStage::Copying && r.1 is Copy,
            },
            MoveStage::Copying => match event {
                MoveEvent::Done => r.0 == MoveStage::Removing && r.1 is RemoveSource,
                MoveEvent::Failed(f) => r.1 matches MoveAction::Finish(Err(e)) && err_view(e) == (
                    io_code_text(f.kind),
                    "copy"@ + ": "@ + f.message@,
                ),
            },
            MoveStage::Removing => match event {
                MoveEvent::Done => r.1 matches MoveAction::Finish(Ok(())),
                MoveEvent::Failed(f) => r.1 matches MoveAction::RemoveDestinationAndFail(e) && err_view(e) == (
                    io_code_text(f.kind),
                    "remove_file"@ + ": "@ + f.message@,
                ),
            },
        },
{
    match stage {
        MoveStage::Start => (MoveStage::Renaming, MoveAction::Rename),
        MoveStage::Renaming => match event {
            MoveEvent::Done => (MoveStage::Renaming, MoveAction::Finish(Ok(()))),
            MoveEvent::Failed(_) => (MoveStage::Copying, MoveAction::Copy),
        },
        MoveStage::Copying => match event {
            MoveEvent::Done => (MoveStage::Removing, MoveAction::RemoveSource),
            MoveEvent::Failed(f) => {
                proof {
                    reveal_strlit("copy");
                }
                (MoveStage::Copying, MoveAction::Finish(Err(map_io_error(f, "copy"))))
            },
        },
        MoveStage::Removing => match event {
            MoveEvent::Done => (MoveStage::Removing, MoveAction::Finish(Ok(()))),
            MoveEvent::Failed(f) => {
                proof {
                    reveal_strlit("remove_file");
                }
                (MoveStage::Removing, MoveAction::RemoveDestinationAndFail(map_io_error(f, "remove_file")))
            },
        },
    }
}

/// Cutting a text at `'\\n'` and joining the pieces with `'\\n'` gives the text back.
pub proof fn lemma_split_join(s: Seq<char>)
    ensures
        join_sep(split_on(s, '\n'), "\n"@) == s,
    decreases s.len(),
{
    reveal_strlit("\n");
    if s.len() > 0 {
        let t = s.drop_last();
        lemma_split_join(t);
        let (done, cur) = crate::text::split_scan(t, '\n');
        let c = s.last();
        assert(t.push(c) == s);
        if c == '\n' {
            assert(split_on(s, '\n') == done.push(cur).push(seq![]));
            assert(split_on(s, '\n').drop_last() == done.push(cur));
        } else {
            assert(split_on(s, '\n') == done.push(cur.push(c)));
            if done.len() > 0 {
                assert(split_on(s, '\n').drop_last() == done);
                assert(done.push(cur).drop_last() == done);
                assert(join_sep(done.push(cur), "\n"@) == join_sep(done, "\n"@) + "\n"@ + cur);
                assert(join_sep(done, "\n"@) + "\n"@ + cur.push(c) =~= (join_sep(done, "\n"@) + "\n"@ + cur).push(c));
            }
        }
    }
}

/// Law: reading a whole file, without `offset` or `limit`, gives its text back exactly
/// (line breaks and `'\\r'` included).
pub proof fn law_whole_read_is_identity(text: Seq<char>)
    ensures
        read_slice(text, None, None) == text,
{
    lemma_split_join(text);
    let segs = split_on(text, '\n');
    assert(segs.skip(0) == segs);
}

/// Law: a successful edit puts `new_text` where the only occurrence of `old_text` was,
/// and leaves the text before and after it unchanged.
pub proof fn law_edit_replaces_the_occurrence(text: Seq<char>, old_text: Seq<char>, new_text: Seq<char>)
    ensures
        edit_outcome(text, old_text, new_text) matches Ok(t) ==> {
            let i = first_occurrence(text, old_text)->0;
            &&& t.take(i) == text.take(i)
            &&& t.skip(i).take(new_text.len() as int) == new_text
            &&& t.skip(i + new_text.len()) == text.skip(i + old_text.len())
        },
{
    if edit_outcome(text, old_text, new_text) is Ok {
        let i = first_occurrence(text, old_text)->0;
        let t = text.take(i) + new_text + text.skip(i + old_text.len());
        crate::text::lemma_first_occurrence_bounds(text, old_text);
        assert(t.take(i) =~= text.take(i));
        assert(t.skip(i).take(new_text.len() as int) =~= new_text);
        assert(t.skip(i + new_text.len()) =~= text.skip(i + old_text.len()));
    }
}

} // verus!
