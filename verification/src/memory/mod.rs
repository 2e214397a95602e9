//! Long-lived memory: Markdown blocks appended to daily files `YYYY/MM/dd.md` and to the
//! long-term summary `MEMORY.md`, both under a memory directory of the workspace
//! (`.agent/memory` by default).
//!
//! The functions here decide; reading the directory tree, the clock and the files is left
//! to the caller, who hands the texts and the date in.
pub mod readback;
pub mod roundtrip;
pub mod shape;
pub mod store;

use vstd::prelude::*;

use crate::json::{
    concat3, copy_strings, json_string_list, string_list_param, err_view, json_str, json_str_opt, json_string_array_opt, json_u64_opt, owned,
    str_opt_param, str_param, string_array_opt_param, string_views, u64_opt_param, Json,
};
use crate::memory::store::{
    blocks_in_bytes, blocks_of, daily_path, format_block, is_summary, is_summary_rel, padded_int, padded_int_exec,
    parse_file_spanned, replace_span_text, spanned_view, summary_file_path, summary_name,
    BlockView, LocatedBlock, ParsedBlock, appended, block_text, daily_file_path,
};
use crate::offsets::{
    byte_len, byte_offsets, char_index, index_at_offset, is_char_offset, lemma_char_index_order,
};
use crate::path::{combine, push_rel, workspace_logical_path};
use crate::text::{
    chars_of, contains, debug_quoted, debug_text, push_all, push_str, string_of, trim, trim_vec,
};
use crate::sort::{
    is_stable_sort, key_lt, key_lt_exec, key_view, lemma_positions_bounds, lemma_positions_ext,
    positions, take_sorted, top_sorted, KeyPart, PartView,
};
use crate::tool::ToolError;

verus! {

/// Error codes of the memory tools.
#[derive(Clone, Copy, PartialEq, Eq, Debug)]
pub enum MemoryErrorCode {
    KeyNotFound,
    KeyExists,
    InvalidKey,
    InvalidTarget,
    StorageError,
}

/// The stable code string of each memory error code.
pub open spec fn memory_code_text(c: MemoryErrorCode) -> Seq<char> {
    match c {
        MemoryErrorCode::KeyNotFound => "MEMORY_KEY_NOT_FOUND"@,
        MemoryErrorCode::KeyExists => "MEMORY_KEY_EXISTS"@,
        MemoryErrorCode::InvalidKey => "MEMORY_INVALID_KEY"@,
        MemoryErrorCode::InvalidTarget => "MEMORY_INVALID_TARGET"@,
        MemoryErrorCode::StorageError => "MEMORY_STORAGE_ERROR"@,
    }
}

impl MemoryErrorCode {
    /// The stable code string.
    pub fn as_str(self) -> (r: &'static str)
        ensures
            r@ == memory_code_text(self),
    {
        match self {
            MemoryErrorCode::KeyNotFound => "MEMORY_KEY_NOT_FOUND",
            MemoryErrorCode::KeyExists => "MEMORY_KEY_EXISTS",
            MemoryErrorCode::InvalidKey => "MEMORY_INVALID_KEY",
            MemoryErrorCode::InvalidTarget => "MEMORY_INVALID_TARGET",
            MemoryErrorCode::StorageError => "MEMORY_STORAGE_ERROR",
        }
    }
}

/// A tool error with a memory error code.
pub fn tool_error(code: MemoryErrorCode, message: String) -> (e: ToolError)
    ensures
        e.code@ == memory_code_text(code),
        e.message@ == message@,
{
    ToolError { code: owned(code.as_str()), message }
}

/// An error as (code, message).
pub type ErrView = (Seq<char>, Seq<char>);

/// A memory error as (code, message).
pub open spec fn memory_err(code: MemoryErrorCode, message: Seq<char>) -> ErrView {
    (memory_code_text(code), message)
}

/// Workspace root (already canonical), whether paths may leave it, and the memory
/// directory relative to the root.
pub struct MemoryContext {
    pub root_canonical: String,
    pub allow_outside_root: bool,
    /// Directory under the root, e.g. `.agent/memory`.
    pub memory_dir_relative: String,
}

/// The default memory directory.
pub open spec fn default_memory_dir() -> Seq<char> {
    ".agent/memory"@
}

impl MemoryContext {
    /// A context with the default memory directory `.agent/memory`.
    pub fn new(root_canonical: String, allow_outside_root: bool) -> (r: Self)
        ensures
            r.root_canonical@ == root_canonical@,
            r.allow_outside_root == allow_outside_root,
            r.memory_dir_relative@ == default_memory_dir(),
    {
        MemoryContext {
            root_canonical,
            allow_outside_root,
            memory_dir_relative: owned(".agent/memory"),
        }
    }

    /// A context with a custom memory directory relative to the root.
    pub fn with_memory_dir_relative(
        root_canonical: String,
        allow_outside_root: bool,
        memory_dir_relative: &str,
    ) -> (r: Self)
        ensures
            r.root_canonical@ == root_canonical@,
            r.allow_outside_root == allow_outside_root,
            r.memory_dir_relative@ == memory_dir_relative@,
    {
        MemoryContext {
            root_canonical,
            allow_outside_root,
            memory_dir_relative: owned(memory_dir_relative),
        }
    }

    /// The memory directory joined onto the root and normalized, before it is checked
    /// against the file system.
    pub fn memory_dir_logical(&self) -> (r: Result<String, ToolError>)
        ensures
            match r {
                Ok(p) => trim(self.memory_dir_relative@).len() > 0 && p@ == combine(
                    self.root_canonical@,
                    trim(self.memory_dir_relative@),
                ),
                Err(e) => trim(self.memory_dir_relative@).len() == 0 && err_view(e) == (
                    "INVALID_PATH"@,
                    "path is empty"@,
                ),
            },
    {
        workspace_logical_path(self.root_canonical.as_str(), self.memory_dir_relative.as_str())
    }
}

/// The outcome of normalizing a key: trimmed, and not empty.
pub open spec fn key_outcome(key: Seq<char>) -> Result<Seq<char>, ErrView> {
    if trim(key).len() == 0 {
        Err(memory_err(MemoryErrorCode::InvalidKey, "memory key must be non-empty"@))
    } else {
        Ok(trim(key))
    }
}

/// Trim a key; an empty key is refused.
pub fn normalize_key(key: &str) -> (r: Result<String, ToolError>)
    ensures
        match r {
            Ok(k) => key_outcome(key@) == Ok::<Seq<char>, ErrView>(k@),
            Err(e) => key_outcome(key@) == Err::<Seq<char>, ErrView>(err_view(e)),
        },
{
    let c = chars_of(key);
    let t = trim_vec(c.as_slice());
    if t.len() == 0 {
        return Err(tool_error(MemoryErrorCode::InvalidKey, owned("memory key must be non-empty")));
    }
    Ok(string_of(t.as_slice()))
}

/// The required `key` parameter, normalized.
pub open spec fn key_param(params: Json) -> Result<Seq<char>, ErrView> {
    match str_param(params, "key"@) {
        Err(e) => Err(e),
        Ok(k) => key_outcome(k),
    }
}

/// Read and normalize the `key` parameter.
pub fn parse_key(params: &Json) -> (r: Result<String, ToolError>)
    ensures
        match r {
            Ok(k) => key_param(*params) == Ok::<Seq<char>, ErrView>(k@),
            Err(e) => key_param(*params) == Err::<Seq<char>, ErrView>(err_view(e)),
        },
{
    let k = json_str(params, "key")?;
    normalize_key(k.as_str())
}

/// Where a new block goes.
#[derive(Clone, Copy, PartialEq, Eq, Debug)]
pub enum MemoryTarget {
    /// The file of the day, `YYYY/MM/dd.md`.
    Daily,
    /// The long-term summary, `MEMORY.md`.
    Summary,
}

/// The name of a target.
pub open spec fn target_text(t: MemoryTarget) -> Seq<char> {
    match t {
        MemoryTarget::Daily => "daily"@,
        MemoryTarget::Summary => "summary"@,
    }
}

impl MemoryTarget {
    /// The name of the target.
    pub fn as_str(self) -> (r: &'static str)
        ensures
            r@ == target_text(self),
    {
        match self {
            MemoryTarget::Daily => "daily",
            MemoryTarget::Summary => "summary",
        }
    }
}

/// The outcome of reading the optional `target` parameter: absent or `"daily"` is the
/// daily file, `"summary"` the summary; anything else is refused.
pub open spec fn target_param(params: Json) -> Result<MemoryTarget, ErrView> {
    match str_opt_param(params, "target"@) {
        Err(e) => Err(e),
        Ok(None) => Ok(MemoryTarget::Daily),
        Ok(Some(t)) => if t == "daily"@ {
            Ok(MemoryTarget::Daily)
        } else if t == "summary"@ {
            Ok(MemoryTarget::Summary)
        } else {
            Err(
                memory_err(
                    MemoryErrorCode::InvalidTarget,
                    "`target` must be \"daily\" or \"summary\", got "@ + debug_text(t),
                ),
            )
        },
    }
}

/// Read the `target` parameter.
pub fn parse_target(params: &Json) -> (r: Result<MemoryTarget, ToolError>)
    ensures
        match r {
            Ok(t) => target_param(*params) == Ok::<MemoryTarget, ErrView>(t),
            Err(e) => target_param(*params) == Err::<MemoryTarget, ErrView>(err_view(e)),
        },
{
    match json_str_opt(params, "target")? {
        None => Ok(MemoryTarget::Daily),
        Some(t) => {
            if crate::json::str_eq(t.as_str(), "daily") {
                Ok(MemoryTarget::Daily)
            } else if crate::json::str_eq(t.as_str(), "summary") {
                Ok(MemoryTarget::Summary)
            } else {
                let q = debug_quoted(t.as_str());
                let mut m = owned("`target` must be \"daily\" or \"summary\", got ");
                m.append(q.as_str());
                Err(tool_error(MemoryErrorCode::InvalidTarget, m))
            }
        },
    }
}

/// A parsed `memory_write` request.
pub struct WriteRequest {
    pub key: String,
    pub content: String,
    pub tags: Vec<String>,
    pub target: MemoryTarget,
}

/// The abstract value of a write request: key, content, tags, target.
pub open spec fn write_request_view(r: WriteRequest) -> (Seq<char>, Seq<char>, Seq<Seq<char>>, MemoryTarget) {
    (r.key@, r.content@, string_views(r.tags@), r.target)
}

/// The outcome of reading a `memory_write` request: `key` (normalized), `content`, `tags`,
/// `target`, each checked in that order.
pub open spec fn write_request(params: Json) -> Result<
    (Seq<char>, Seq<char>, Seq<Seq<char>>, MemoryTarget),
    ErrView,
> {
    match key_param(params) {
        Err(e) => Err(e),
        Ok(key) => match str_param(params, "content"@) {
            Err(e) => Err(e),
            Ok(content) => match string_list_param(params, "tags"@) {
                Err(e) => Err(e),
                Ok(tags) => match target_param(params) {
                    Err(e) => Err(e),
                    Ok(t) => Ok((key, content, tags, t)),
                },
            },
        },
    }
}

/// Read a `memory_write` request.
pub fn parse_write_request(params: &Json) -> (r: Result<WriteRequest, ToolError>)
    ensures
        match r {
            Ok(req) => write_request(*params) == Ok::<
                (Seq<char>, Seq<char>, Seq<Seq<char>>, MemoryTarget),
                ErrView,
            >(write_request_view(req)),
            Err(e) => write_request(*params) == Err::<
                (Seq<char>, Seq<char>, Seq<Seq<char>>, MemoryTarget),
                ErrView,
            >(err_view(e)),
        },
{
    let key = parse_key(params)?;
    let content = json_str(params, "content")?;
    let tags = json_string_list(params, "tags")?;
    let target = parse_target(params)?;
    Ok(WriteRequest { key, content, tags, target })
}

/// The abstract value of a block found in a memory file.
pub struct BlockRecord {
    pub key: Seq<char>,
    pub content: Seq<char>,
    pub tags: Seq<Seq<char>>,
    pub at: Seq<char>,
    pub file_rel: Seq<char>,
    pub abs_path: Seq<char>,
    pub start: int,
    pub end: int,
}

/// The abstract value of a located block.
pub open spec fn record(l: LocatedBlock) -> BlockRecord {
    BlockRecord {
        key: l.block.key@,
        content: l.block.content@,
        tags: string_views(l.block.tags@),
        at: l.block.at@,
        file_rel: l.block.file_rel@,
        abs_path: l.abs_path@,
        start: l.start as int,
        end: l.end as int,
    }
}

/// The abstract values of located blocks.
pub open spec fn records(v: Seq<LocatedBlock>) -> Seq<BlockRecord> {
    v.map_values(|l: LocatedBlock| record(l))
}

/// Some block has the key.
pub open spec fn key_taken(bs: Seq<BlockRecord>, key: Seq<char>) -> bool {
    exists|i: int| 0 <= i < bs.len() && (#[trigger] bs[i]).key == key
}

/// The key holds a line break.
pub open spec fn multi_line(key: Seq<char>) -> bool {
    key.contains('\n') || key.contains('\r')
}

/// The daily file relative to the memory directory: `YYYY/MM/DD.md`.
pub open spec fn daily_rel(year: int, month: int, day: int) -> Seq<char> {
    padded_int(year, 4) + "/"@ + padded_int(month, 2) + "/"@ + padded_int(day, 2) + ".md"@
}

/// Where a write goes: the file and its path relative to the memory directory.
pub struct WritePlan {
    pub path: String,
    pub rel: String,
}

/// The outcome of planning a write: a taken key is refused, then a key with a line break;
/// otherwise the block goes to the summary file or to the file of the given day.
pub open spec fn write_plan(
    key: Seq<char>,
    target: MemoryTarget,
    existing: Seq<BlockRecord>,
    memory_dir: Seq<char>,
    year: int,
    month: int,
    day: int,
) -> Result<(Seq<char>, Seq<char>), ErrView> {
    if key_taken(existing, key) {
        Err(
            memory_err(
                MemoryErrorCode::KeyExists,
                "memory key `"@ + key
                    + "` already exists; call memory_read to inspect, then memory_update to replace the canonical block"@,
            ),
        )
    } else if multi_line(key) {
        Err(memory_err(MemoryErrorCode::InvalidKey, "memory key must be a single line"@))
    } else {
        match target {
            MemoryTarget::Summary => Ok((push_rel(memory_dir, summary_name()), summary_name())),
            MemoryTarget::Daily => Ok(
                (daily_path(memory_dir, year, month, day), daily_rel(year, month, day)),
            ),
        }
    }
}

/// Law: a write goes through only for a key that no block has and that holds no line
/// break; a key with a line break is always refused.
pub proof fn law_write_refuses_taken_and_multi_line_keys(
    key: Seq<char>,
    target: MemoryTarget,
    existing: Seq<BlockRecord>,
    memory_dir: Seq<char>,
    year: int,
    month: int,
    day: int,
)
    ensures
        multi_line(key) ==> write_plan(key, target, existing, memory_dir, year, month, day) is Err,
        key_taken(existing, key) ==> write_plan(key, target, existing, memory_dir, year, month, day) is Err,
        write_plan(key, target, existing, memory_dir, year, month, day) is Ok ==> !key_taken(existing, key)
            && !multi_line(key),
{
}

fn key_in_blocks(existing: &Vec<LocatedBlock>, key: &str) -> (r: bool)
    ensures
        r == key_taken(records(existing@), key@),
{
    let ghost rs = records(existing@);
    let mut i: usize = 0;
    while i < existing.len()
        invariant
            rs == records(existing@),
            i <= existing@.len(),
            forall|j: int| 0 <= j < i ==> (#[trigger] rs[j]).key != key@,
        decreases existing@.len() - i,
    {
        if crate::json::str_eq(existing[i].block.key.as_str(), key) {
            assert(rs[i as int].key == key@);
            return true;
        }
        i = i + 1;
    }
    false
}

fn has_line_break(key: &str) -> (r: bool)
    ensures
        r == multi_line(key@),
{
    let c = chars_of(key);
    let mut i: usize = 0;
    while i < c.len()
        invariant
            c@ == key@,
            i <= c@.len(),
            forall|j: int| 0 <= j < i ==> c@[j] != '\n' && c@[j] != '\r',
        decreases c@.len() - i,
    {
        if c[i] == '\n' || c[i] == '\r' {
            assert(c@[i as int] == c@[i as int]);
            return true;
        }
        i = i + 1;
    }
    false
}

fn daily_rel_exec(year: i32, month: u32, day: u32) -> (r: String)
    ensures
        r@ == daily_rel(year as int, month as int, day as int),
{
    let mut out = padded_int_exec(year as i64, 4);
    push_str(&mut out, "/");
    let m = padded_int_exec(month as i64, 2);
    push_all(&mut out, m.as_slice());
    push_str(&mut out, "/");
    let d = padded_int_exec(day as i64, 2);
    push_all(&mut out, d.as_slice());
    push_str(&mut out, ".md");
    string_of(out.as_slice())
}

/// Decide where a new block goes, given the blocks already in the memory directory and the
/// date of the day.
pub fn plan_write(
    key: &str,
    target: MemoryTarget,
    existing: &Vec<LocatedBlock>,
    memory_dir: &str,
    year: i32,
    month: u32,
    day: u32,
) -> (r: Result<WritePlan, ToolError>)
    ensures
        match r {
            Ok(p) => write_plan(
                key@,
                target,
                records(existing@),
                memory_dir@,
                year as int,
                month as int,
                day as int,
            ) == Ok::<(Seq<char>, Seq<char>), ErrView>((p.path@, p.rel@)),
            Err(e) => write_plan(
                key@,
                target,
                records(existing@),
                memory_dir@,
                year as int,
                month as int,
                day as int,
            ) == Err::<(Seq<char>, Seq<char>), ErrView>(err_view(e)),
        },
{
    if key_in_blocks(existing, key) {
        return Err(
            tool_error(
                MemoryErrorCode::KeyExists,
                concat3(
                    "memory key `",
                    key,
                    "` already exists; call memory_read to inspect, then memory_update to replace the canonical block",
                ),
            ),
        );
    }
    if has_line_break(key) {
        return Err(tool_error(MemoryErrorCode::InvalidKey, owned("memory key must be a single line")));
    }
    match target {
        MemoryTarget::Summary => Ok(
            WritePlan { path: summary_file_path(memory_dir), rel: owned("MEMORY.md") },
        ),
        MemoryTarget::Daily => Ok(
            WritePlan {
                path: daily_file_path(memory_dir, year, month, day),
                rel: daily_rel_exec(year, month, day),
            },
        ),
    }
}

/// The new text of a file after a block is appended to it.
pub fn written_text(existing: &str, key: &str, content: &str, tags: &Vec<String>, at: &str) -> (r:
    String)
    ensures
        r@ == appended(existing@, block_text(key@, content@, string_views(tags@), at@)),
{
    let block = format_block(key, content, tags, at);
    crate::memory::store::append_block_text(existing, block.as_str())
}

/// A memory file as read from disk: its path relative to the memory directory
/// (`/`-separated), its absolute path, and its text.
pub struct MemoryFile {
    pub rel: String,
    pub abs_path: String,
    pub text: String,
}

/// The block records of one file.
pub open spec fn file_records(rel: Seq<char>, abs_path: Seq<char>, text: Seq<char>) -> Seq<
    BlockRecord,
> {
    blocks_in_bytes(text).map_values(
        |b: BlockView|
            BlockRecord {
                key: b.0,
                content: b.1,
                tags: b.2,
                at: b.3,
                file_rel: rel,
                abs_path: abs_path,
                start: b.4,
                end: b.5,
            },
    )
}

/// The block records of files, file after file.
pub open spec fn all_records(files: Seq<MemoryFile>) -> Seq<BlockRecord>
    decreases files.len(),
{
    if files.len() == 0 {
        seq![]
    } else {
        all_records(files.drop_last()) + file_records(
            files.last().rel@,
            files.last().abs_path@,
            files.last().text@,
        )
    }
}

/// Parse every file and collect its blocks with their locations.
pub fn located_blocks(files: &Vec<MemoryFile>) -> (r: Vec<LocatedBlock>)
    ensures
        records(r@) == all_records(files@),
{
    let mut out: Vec<LocatedBlock> = Vec::new();
    let mut i: usize = 0;
    while i < files.len()
        invariant
            i <= files@.len(),
            records(out@) == all_records(files@.take(i as int)),
        decreases files@.len() - i,
    {
        let f = &files[i];
        let parsed = parse_file_spanned(f.rel.as_str(), f.text.as_str());
        let ghost fr = file_records(f.rel@, f.abs_path@, f.text@);
        let ghost base = records(out@);
        assert(fr.len() == parsed@.len()) by {
            assert(crate::memory::store::spanned_views(parsed@).len() == parsed@.len());
        }
        let mut j: usize = 0;
        while j < parsed.len()
            invariant
                j <= parsed@.len(),
                fr == file_records(f.rel@, f.abs_path@, f.text@),
                fr.len() == parsed@.len(),
                crate::memory::store::spanned_views(parsed@) == blocks_in_bytes(f.text@),
                forall|k: int| 0 <= k < parsed@.len() ==> (#[trigger] parsed@[k]).0.file_rel@ == f.rel@,
                records(out@) == base + fr.take(j as int),
            decreases parsed@.len() - j,
        {
            let (b, start, end) = (&parsed[j].0, parsed[j].1, parsed[j].2);
            let l = LocatedBlock {
                block: ParsedBlock {
                    key: owned(b.key.as_str()),
                    content: owned(b.content.as_str()),
                    tags: copy_strings(&b.tags),
                    at: owned(b.at.as_str()),
                    file_rel: owned(b.file_rel.as_str()),
                },
                abs_path: owned(f.abs_path.as_str()),
                start,
                end,
            };
            let ghost before = records(out@);
            assert(crate::memory::store::spanned_views(parsed@)[j as int] == spanned_view(parsed@[j as int]));
            assert(record(l) == fr[j as int]);
            out.push(l);
            assert(records(out@) =~= before.push(record(l)));
            assert(fr.take(j + 1) == fr.take(j as int).push(fr[j as int]));
            j = j + 1;
        }
        assert(fr.take(fr.len() as int) == fr);
        assert(files@.take(i + 1).drop_last() == files@.take(i as int));
        assert(files@.take(i + 1).last() == files@[i as int]);
        i = i + 1;
    }
    assert(files@.take(files@.len() as int) == files@);
    out
}

/// The timestamp used for ordering: a block without one counts as the oldest.
pub open spec fn at_key(at: Seq<char>) -> Seq<char> {
    if at.len() == 0 {
        "1970-01-01T00:00:00+00:00"@
    } else {
        at
    }
}

/// The timestamp used for ordering.
pub fn at_sort_key(at: &str) -> (r: Vec<char>)
    ensures
        r@ == at_key(at@),
{
    let c = chars_of(at);
    if c.len() == 0 {
        chars_of("1970-01-01T00:00:00+00:00")
    } else {
        c
    }
}

/// The order in which a block wins as the canonical one: by timestamp, then by file.
pub open spec fn canon_key(b: BlockRecord) -> Seq<PartView> {
    seq![PartView::Asc(at_key(b.at)), PartView::Asc(b.file_rel)]
}

/// The block may be the canonical one for `key`: it has the key, and lies in the summary
/// file when `summary_only`.
pub open spec fn in_pool(b: BlockRecord, key: Seq<char>, summary_only: bool) -> bool {
    b.key == key && (!summary_only || is_summary(b.file_rel))
}

/// Scanning left to right, the latest block of the pool so far; of equally late ones the
/// last (`Iterator::max_by`).
pub open spec fn canon_scan(bs: Seq<BlockRecord>, key: Seq<char>, summary_only: bool) -> Option<
    int,
>
    decreases bs.len(),
{
    if bs.len() == 0 {
        None
    } else {
        let prev = canon_scan(bs.drop_last(), key, summary_only);
        let i = bs.len() - 1;
        if in_pool(bs[i], key, summary_only) {
            match prev {
                Some(p) => if key_lt(canon_key(bs[i]), canon_key(bs[p])) {
                    Some(p)
                } else {
                    Some(i)
                },
                None => Some(i),
            }
        } else {
            prev
        }
    }
}

/// Some block of the summary file has the key.
pub open spec fn summary_has_key(bs: Seq<BlockRecord>, key: Seq<char>) -> bool {
    exists|i: int| 0 <= i < bs.len() && (#[trigger] bs[i]).key == key && is_summary(bs[i].file_rel)
}

/// The canonical block for a key: the latest one in the summary file if the summary has
/// the key, else the latest one anywhere.
pub open spec fn canonical(bs: Seq<BlockRecord>, key: Seq<char>) -> Option<int> {
    canon_scan(bs, key, summary_has_key(bs, key))
}

fn canon_key_exec(b: &LocatedBlock) -> (r: Vec<KeyPart>)
    ensures
        key_view(r) == canon_key(record(*b)),
{
    let mut k: Vec<KeyPart> = Vec::new();
    k.push(KeyPart::Asc(at_sort_key(b.block.at.as_str())));
    k.push(KeyPart::Asc(chars_of(b.block.file_rel.as_str())));
    assert(key_view(k) =~= canon_key(record(*b)));
    k
}

/// The position of the canonical block for a key, if any block has it.
pub fn canonical_index(blocks: &Vec<LocatedBlock>, key: &str) -> (r: Option<usize>)
    ensures
        match r {
            Some(i) => canonical(records(blocks@), key@) == Some(i as int) && i < blocks@.len(),
            None => canonical(records(blocks@), key@) is None,
        },
{
    let ghost rs = records(blocks@);
    let mut summary_only = false;
    let mut i: usize = 0;
    while i < blocks.len()
        invariant
            rs == records(blocks@),
            i <= blocks@.len(),
            summary_only == exists|j: int|
                0 <= j < i && (#[trigger] rs[j]).key == key@ && is_summary(rs[j].file_rel),
        decreases blocks@.len() - i,
    {
        if crate::json::str_eq(blocks[i].block.key.as_str(), key) && is_summary_rel(
            blocks[i].block.file_rel.as_str(),
        ) {
            assert(rs[i as int].key == key@ && is_summary(rs[i as int].file_rel));
            summary_only = true;
        }
        i = i + 1;
    }
    assert(summary_only == summary_has_key(rs, key@));
    let mut best: Option<usize> = None;
    let mut i: usize = 0;
    while i < blocks.len()
        invariant
            rs == records(blocks@),
            i <= blocks@.len(),
            summary_only == summary_has_key(rs, key@),
            match best {
                Some(p) => p < i && canon_scan(rs.take(i as int), key@, summary_only) == Some(
                    p as int,
                ),
                None => canon_scan(rs.take(i as int), key@, summary_only) is None,
            },
        decreases blocks@.len() - i,
    {
        assert(rs.take(i + 1).drop_last() == rs.take(i as int));
        assert(rs.take(i + 1)[i as int] == rs[i as int]);
        let b = &blocks[i];
        let member = crate::json::str_eq(b.block.key.as_str(), key) && (!summary_only
            || is_summary_rel(b.block.file_rel.as_str()));
        if member {
            match best {
                Some(p) => {
                    assert(rs.take(i + 1)[p as int] == rs[p as int]);
                    let ki = canon_key_exec(b);
                    let kp = canon_key_exec(&blocks[p]);
                    if !key_lt_exec(&ki, &kp) {
                        best = Some(i);
                    }
                },
                None => {
                    best = Some(i);
                },
            }
        }
        i = i + 1;
    }
    assert(rs.take(blocks@.len() as int) == rs);
    best
}

/// What `memory_read` returns.
pub struct ReadOutcome {
    pub key: String,
    pub content: String,
    pub tags: Vec<String>,
    /// The file, relative to the memory directory.
    pub file: String,
    /// `"summary"` or `"daily"`.
    pub kind: String,
    /// The timestamp of the block (empty when it has none).
    pub at: String,
}

/// The outcome of reading a key: the canonical block's key, content, tags, file, kind and
/// timestamp, or `MEMORY_KEY_NOT_FOUND`.
pub open spec fn read_result(bs: Seq<BlockRecord>, key: Seq<char>) -> Result<
    (Seq<char>, Seq<char>, Seq<Seq<char>>, Seq<char>, Seq<char>, Seq<char>),
    ErrView,
> {
    match canonical(bs, key) {
        None => Err(memory_err(MemoryErrorCode::KeyNotFound, "no memory block for key `"@ + key + "`"@)),
        Some(i) => Ok(
            (key, bs[i].content, bs[i].tags, bs[i].file_rel, crate::memory::store::kind_text(bs[i].file_rel), bs[i].at),
        ),
    }
}

/// The abstract value of a read outcome.
pub open spec fn read_view(o: ReadOutcome) -> (Seq<char>, Seq<char>, Seq<Seq<char>>, Seq<char>, Seq<char>, Seq<char>) {
    (o.key@, o.content@, string_views(o.tags@), o.file@, o.kind@, o.at@)
}

/// Read the canonical block for a key.
pub fn plan_read(blocks: &Vec<LocatedBlock>, key: &str) -> (r: Result<ReadOutcome, ToolError>)
    ensures
        match r {
            Ok(o) => read_result(records(blocks@), key@) == Ok::<
                (Seq<char>, Seq<char>, Seq<Seq<char>>, Seq<char>, Seq<char>, Seq<char>),
                ErrView,
            >(read_view(o)),
            Err(e) => read_result(records(blocks@), key@) == Err::<
                (Seq<char>, Seq<char>, Seq<Seq<char>>, Seq<char>, Seq<char>, Seq<char>),
                ErrView,
            >(err_view(e)),
        },
{
    match canonical_index(blocks, key) {
        None => Err(
            tool_error(MemoryErrorCode::KeyNotFound, concat3("no memory block for key `", key, "`")),
        ),
        Some(i) => {
            let b = &blocks[i].block;
            assert(records(blocks@)[i as int] == record(blocks@[i as int]));
            Ok(
                ReadOutcome {
                    key: owned(key),
                    content: owned(b.content.as_str()),
                    tags: copy_strings(&b.tags),
                    file: owned(b.file_rel.as_str()),
                    kind: owned(crate::memory::store::block_kind(b.file_rel.as_str())),
                    at: owned(b.at.as_str()),
                },
            )
        },
    }
}

/// A parsed `memory_update` request.
pub struct UpdateRequest {
    pub key: String,
    pub content: String,
    pub tags: Vec<String>,
}

/// The outcome of reading a `memory_update` request: `key` (normalized), `content`, `tags`.
pub open spec fn update_request(params: Json) -> Result<(Seq<char>, Seq<char>, Seq<Seq<char>>), ErrView> {
    match key_param(params) {
        Err(e) => Err(e),
        Ok(key) => match str_param(params, "content"@) {
            Err(e) => Err(e),
            Ok(content) => match string_list_param(params, "tags"@) {
                Err(e) => Err(e),
                Ok(tags) => Ok((key, content, tags)),
            },
        },
    }
}

/// Read a `memory_update` request.
pub fn parse_update_request(params: &Json) -> (r: Result<UpdateRequest, ToolError>)
    ensures
        match r {
            Ok(req) => update_request(*params) == Ok::<(Seq<char>, Seq<char>, Seq<Seq<char>>), ErrView>(
                (req.key@, req.content@, string_views(req.tags@)),
            ),
            Err(e) => update_request(*params) == Err::<(Seq<char>, Seq<char>, Seq<Seq<char>>), ErrView>(
                err_view(e),
            ),
        },
{
    let key = parse_key(params)?;
    let content = json_str(params, "content")?;
    let tags = json_string_list(params, "tags")?;
    Ok(UpdateRequest { key, content, tags })
}

/// The outcome of choosing the block an update replaces: the canonical block, or
/// `MEMORY_KEY_NOT_FOUND`.
pub open spec fn update_target(bs: Seq<BlockRecord>, key: Seq<char>) -> Result<int, ErrView> {
    match canonical(bs, key) {
        None => Err(
            memory_err(
                MemoryErrorCode::KeyNotFound,
                "no memory block for key `"@ + key + "`; use memory_write to create"@,
            ),
        ),
        Some(i) => Ok(i),
    }
}

/// Choose the block an update replaces.
pub fn plan_update(blocks: &Vec<LocatedBlock>, key: &str) -> (r: Result<usize, ToolError>)
    ensures
        match r {
            Ok(i) => update_target(records(blocks@), key@) == Ok::<int, ErrView>(i as int),
            Err(e) => update_target(records(blocks@), key@) == Err::<int, ErrView>(err_view(e)),
        },
{
    match canonical_index(blocks, key) {
        None => Err(
            tool_error(
                MemoryErrorCode::KeyNotFound,
                concat3("no memory block for key `", key, "`; use memory_write to create"),
            ),
        ),
        Some(i) => Ok(i),
    }
}

/// The outcome of replacing a block: the bytes `[start, end)` of the file are removed and
/// the new block is appended; a span outside the text is an internal storage error.
pub open spec fn rewritten(
    text: Seq<char>,
    start: int,
    end: int,
    key: Seq<char>,
    content: Seq<char>,
    tags: Seq<Seq<char>>,
    at: Seq<char>,
) -> Result<Seq<char>, ErrView> {
    if start <= end <= byte_len(text) && is_char_offset(text, start) && is_char_offset(text, end) {
        Ok(
            appended(
                text.take(char_index(text, start)) + text.skip(char_index(text, end)),
                block_text(key, content, tags, at),
            ),
        )
    } else {
        Err(
            memory_err(
                MemoryErrorCode::StorageError,
                "internal error: invalid byte span for memory block"@,
            ),
        )
    }
}

/// The new text of a file after its block at bytes `[start, end)` is replaced. A span that
/// lies inside the text must start and end on character boundaries.
pub fn rewrite_block(
    text: &str,
    start: usize,
    end: usize,
    key: &str,
    content: &str,
    tags: &Vec<String>,
    at: &str,
) -> (r: Result<String, ToolError>)
    requires
        start <= end <= byte_len(text@) ==> is_char_offset(text@, start as int) && is_char_offset(
            text@,
            end as int,
        ),
    ensures
        match r {
            Ok(t) => rewritten(text@, start as int, end as int, key@, content@, string_views(tags@), at@)
                == Ok::<Seq<char>, ErrView>(t@),
            Err(e) => rewritten(text@, start as int, end as int, key@, content@, string_views(tags@), at@)
                == Err::<Seq<char>, ErrView>(err_view(e)),
        },
        r is Err <==> !(start <= end <= byte_len(text@)),
{
    let total = text.as_bytes().len();
    if start > total || end > total || start > end {
        return Err(
            tool_error(
                MemoryErrorCode::StorageError,
                owned("internal error: invalid byte span for memory block"),
            ),
        );
    }
    let t = chars_of(text);
    let offs = byte_offsets(t.as_slice(), total);
    let i = index_at_offset(t.as_slice(), &offs, start);
    let j = index_at_offset(t.as_slice(), &offs, end);
    proof {
        lemma_char_index_order(t@, start as int, end as int);
    }
    let block = format_block(key, content, tags, at);
    match replace_span_text(text, i, j, block.as_str()) {
        Some(t) => Ok(t),
        None => Err(
            tool_error(
                MemoryErrorCode::StorageError,
                owned("internal error: invalid byte span for memory block"),
            ),
        ),
    }
}

/// A parsed `memory_search` request.
pub struct SearchRequest {
    /// The query, trimmed.
    pub query: String,
    /// Tags every hit must carry.
    pub tags: Vec<String>,
    /// How many hits to return, between 1 and 100.
    pub limit: usize,
}

/// The result limit: 10 when absent, else clamped to `1..=100`.
pub open spec fn search_limit(n: Option<u64>) -> int {
    match n {
        None => 10,
        Some(v) => if v < 1 {
            1
        } else if v > 100 {
            100
        } else {
            v as int
        },
    }
}

/// The outcome of reading a `memory_search` request: `query` (trimmed), `tags`, `limit`,
/// checked in that order.
pub open spec fn search_request(params: Json) -> Result<(Seq<char>, Seq<Seq<char>>, int), ErrView> {
    match str_param(params, "query"@) {
        Err(e) => Err(e),
        Ok(q) => match string_list_param(params, "tags"@) {
            Err(e) => Err(e),
            Ok(tags) => match u64_opt_param(params, "limit"@) {
                Err(e) => Err(e),
                Ok(n) => Ok((trim(q), tags, search_limit(n))),
            },
        },
    }
}

/// Read a `memory_search` request.
pub fn parse_search_request(params: &Json) -> (r: Result<SearchRequest, ToolError>)
    ensures
        match r {
            Ok(req) => search_request(*params) == Ok::<(Seq<char>, Seq<Seq<char>>, int), ErrView>(
                (req.query@, string_views(req.tags@), req.limit as int),
            ),
            Err(e) => search_request(*params) == Err::<(Seq<char>, Seq<Seq<char>>, int), ErrView>(
                err_view(e),
            ),
        },
{
    let q = json_str(params, "query")?;
    let tags = json_string_list(params, "tags")?;
    let n = json_u64_opt(params, "limit")?;
    let limit: usize = match n {
        None => 10,
        Some(v) => if v < 1 {
            1
        } else if v > 100 {
            100
        } else {
            v as usize
        },
    };
    let qc = chars_of(q.as_str());
    let qt = trim_vec(qc.as_slice());
    Ok(SearchRequest { query: string_of(qt.as_slice()), tags, limit })
}

/// Every required tag is among the block's tags.
pub open spec fn tags_match(tags: Seq<Seq<char>>, required: Seq<Seq<char>>) -> bool {
    forall|j: int| 0 <= j < required.len() ==> tags.contains(#[trigger] required[j])
}

/// Whether a block carries every required tag.
pub fn block_matches_tags(tags: &Vec<String>, required: &Vec<String>) -> (r: bool)
    ensures
        r == tags_match(string_views(tags@), string_views(required@)),
{
    let ghost tv = string_views(tags@);
    let ghost rv = string_views(required@);
    let mut j: usize = 0;
    while j < required.len()
        invariant
            tv == string_views(tags@),
            rv == string_views(required@),
            j <= required@.len(),
            forall|q: int| 0 <= q < j ==> tv.contains(#[trigger] rv[q]),
        decreases required@.len() - j,
    {
        let mut found = false;
        let mut k: usize = 0;
        while k < tags.len()
            invariant
                tv == string_views(tags@),
                rv == string_views(required@),
                j < required@.len(),
                k <= tags@.len(),
                found ==> tv.contains(rv[j as int]),
                !found ==> forall|q: int| 0 <= q < k ==> tv[q] != rv[j as int],
            decreases tags@.len() - k,
        {
            if crate::json::str_eq(tags[k].as_str(), required[j].as_str()) {
                assert(tv[k as int] == rv[j as int]);
                found = true;
            }
            k = k + 1;
        }
        if !found {
            assert(!tv.contains(rv[j as int]));
            return false;
        }
        j = j + 1;
    }
    true
}

/// Unicode lower case of a text (`str::to_lowercase`).
pub uninterp spec fn lowercase(s: Seq<char>) -> Seq<char>;

/// `str::to_lowercase`.
#[verifier::external_body]
fn to_lowercase(s: &str) -> (r: String)
    ensures
        r@ == lowercase(s@),
{
    s.to_lowercase()
}

/// The order of search results: summary blocks first, then newer first, then by file.
pub open spec fn search_key(b: BlockRecord) -> Seq<PartView> {
    seq![
        PartView::DescNum(if is_summary(b.file_rel) { 1 } else { 0 }),
        PartView::Desc(at_key(b.at)),
        PartView::Asc(b.file_rel),
    ]
}

/// The search keys of the given positions.
pub open spec fn search_keys(bs: Seq<BlockRecord>, hits: Seq<int>) -> Seq<Seq<PartView>> {
    hits.map_values(|i: int| search_key(bs[i]))
}

/// `r` is the first `limit` of `hits` in stably sorted search order.
pub open spec fn ranked(bs: Seq<BlockRecord>, hits: Seq<int>, limit: int, r: Seq<int>) -> bool {
    top_sorted(search_keys(bs, hits), hits, limit, r)
}

/// A block matches a search, given the lower-cased key, content and query.
pub open spec fn lowered_hit(
    b: BlockRecord,
    key_lc: Seq<char>,
    content_lc: Seq<char>,
    query_lc: Seq<char>,
    query_empty: bool,
    required: Seq<Seq<char>>,
) -> bool {
    tags_match(b.tags, required) && (query_empty || contains(key_lc, query_lc) || contains(
        content_lc,
        query_lc,
    ))
}

fn search_key_exec(b: &LocatedBlock) -> (r: Vec<KeyPart>)
    ensures
        key_view(r) == search_key(record(*b)),
{
    let mut k: Vec<KeyPart> = Vec::new();
    let s: u64 = if is_summary_rel(b.block.file_rel.as_str()) {
        1
    } else {
        0
    };
    k.push(KeyPart::DescNum(s));
    k.push(KeyPart::Desc(at_sort_key(b.block.at.as_str())));
    k.push(KeyPart::Asc(chars_of(b.block.file_rel.as_str())));
    assert(key_view(k) =~= search_key(record(*b)));
    k
}

/// Filter blocks by tags and by the lower-cased query (an empty query matches every
/// block), order the hits for search, and keep the first `limit` positions.
pub fn rank_hits(
    blocks: &Vec<LocatedBlock>,
    keys_lc: &Vec<String>,
    contents_lc: &Vec<String>,
    query_lc: &str,
    query_empty: bool,
    required: &Vec<String>,
    limit: usize,
) -> (r: Vec<usize>)
    requires
        keys_lc@.len() == blocks@.len(),
        contents_lc@.len() == blocks@.len(),
    ensures
        ranked(
            records(blocks@),
            positions(
                blocks@.len() as int,
                |i: int|
                    lowered_hit(
                        records(blocks@)[i],
                        keys_lc@[i]@,
                        contents_lc@[i]@,
                        query_lc@,
                        query_empty,
                        string_views(required@),
                    ),
            ),
            limit as int,
            r@.map_values(|i: usize| i as int),
        ),
{
    let ghost rs = records(blocks@);
    let ghost pred = |i: int|
        lowered_hit(
            records(blocks@)[i],
            keys_lc@[i]@,
            contents_lc@[i]@,
            query_lc@,
            query_empty,
            string_views(required@),
        );
    let q = chars_of(query_lc);
    let mut hits: Vec<usize> = Vec::new();
    let mut i: usize = 0;
    while i < blocks.len()
        invariant
            rs == records(blocks@),
            keys_lc@.len() == blocks@.len(),
            contents_lc@.len() == blocks@.len(),
            q@ == query_lc@,
            i <= blocks@.len(),
            pred == (|i: int|
                lowered_hit(
                    records(blocks@)[i],
                    keys_lc@[i]@,
                    contents_lc@[i]@,
                    query_lc@,
                    query_empty,
                    string_views(required@),
                )),
            hits@.map_values(|x: usize| x as int) == positions(i as int, pred),
        decreases blocks@.len() - i,
    {
        let ghost before = hits@;
        let t = block_matches_tags(&blocks[i].block.tags, required);
        let mut hit = false;
        if t {
            if query_empty {
                hit = true;
            } else {
                let kc = chars_of(keys_lc[i].as_str());
                let cc = chars_of(contents_lc[i].as_str());
                hit = crate::text::contains_exec(kc.as_slice(), q.as_slice())
                    || crate::text::contains_exec(cc.as_slice(), q.as_slice());
            }
        }
        assert(hit == pred(i as int));
        if hit {
            hits.push(i);
            assert(hits@.map_values(|x: usize| x as int) =~= before.map_values(|x: usize| x as int).push(i as int));
        }
        i = i + 1;
    }
    let ghost h = positions(blocks@.len() as int, pred);
    proof {
        lemma_positions_bounds(blocks@.len() as int, pred);
    }
    let mut keys: Vec<Vec<KeyPart>> = Vec::new();
    let mut j: usize = 0;
    while j < hits.len()
        invariant
            rs == records(blocks@),
            hits@.map_values(|x: usize| x as int) == h,
            forall|k: int| 0 <= k < h.len() ==> 0 <= #[trigger] h[k] < blocks@.len(),
            j <= hits@.len(),
            crate::sort::keys_view(keys@) == h.take(j as int).map_values(|x: int| search_key(rs[x])),
        decreases hits@.len() - j,
    {
        let ghost before = crate::sort::keys_view(keys@);
        assert(h[j as int] == hits@[j as int] as int);
        let k = search_key_exec(&blocks[hits[j]]);
        keys.push(k);
        assert(crate::sort::keys_view(keys@) =~= before.push(key_view(k)));
        assert(h.take(j + 1).map_values(|x: int| search_key(rs[x])) =~= h.take(j as int).map_values(
            |x: int| search_key(rs[x]),
        ).push(search_key(rs[h[j as int]])));
        j = j + 1;
    }
    assert(h.take(h.len() as int) == h);
    take_sorted(&hits, &keys, limit)
}

/// The blocks that match a search: they carry every required tag and, unless the query is
/// empty, the lower-cased query occurs in the lower-cased key or content.
pub open spec fn search_hits(bs: Seq<BlockRecord>, query: Seq<char>, required: Seq<Seq<char>>) -> Seq<int> {
    positions(
        bs.len() as int,
        |i: int|
            tags_match(bs[i].tags, required) && (query.len() == 0 || contains(
                lowercase(bs[i].key),
                lowercase(query),
            ) || contains(lowercase(bs[i].content), lowercase(query))),
    )
}

/// Law: a search returns only blocks that carry every tag the request requires (and, for a
/// non-empty query, mention it).
pub proof fn law_search_hits_carry_every_tag(
    bs: Seq<BlockRecord>,
    query: Seq<char>,
    required: Seq<Seq<char>>,
    limit: int,
    r: Seq<int>,
)
    requires
        ranked(bs, search_hits(bs, query, required), limit, r),
    ensures
        forall|j: int| 0 <= j < r.len() ==> 0 <= #[trigger] r[j] < bs.len(),
        forall|j: int, t: int|
            0 <= j < r.len() && 0 <= t < required.len() ==> (#[trigger] bs[r[j]]).tags.contains(
                #[trigger] required[t],
            ),
        query.len() > 0 ==> forall|j: int|
            0 <= j < r.len() ==> contains(lowercase(#[trigger] bs[r[j]].key), lowercase(query)) || contains(
                lowercase(bs[r[j]].content),
                lowercase(query),
            ),
{
    let hits = search_hits(bs, query, required);
    let pred = |i: int|
        tags_match(bs[i].tags, required) && (query.len() == 0 || contains(
            lowercase(bs[i].key),
            lowercase(query),
        ) || contains(lowercase(bs[i].content), lowercase(query)));
    assert(hits == positions(bs.len() as int, pred));
    crate::sort::lemma_positions_satisfy(bs.len() as int, pred);
    crate::sort::lemma_top_sorted_from_hits(search_keys(bs, hits), hits, limit, r);
    assert forall|j: int| 0 <= j < r.len() implies 0 <= #[trigger] r[j] < bs.len() && pred(r[j]) by {
        assert(hits.contains(r[j]));
        let k = choose|k: int| 0 <= k < hits.len() && hits[k] == r[j];
        assert(pred(hits[k]));
    }
    assert forall|j: int, t: int|
        0 <= j < r.len() && 0 <= t < required.len() implies (#[trigger] bs[r[j]]).tags.contains(
            #[trigger] required[t],
        ) by {
        assert(pred(r[j]));
        assert(tags_match(bs[r[j]].tags, required));
    }
    if query.len() > 0 {
        assert forall|j: int| 0 <= j < r.len() implies contains(
            lowercase(#[trigger] bs[r[j]].key),
            lowercase(query),
        ) || contains(lowercase(bs[r[j]].content), lowercase(query)) by {
            assert(pred(r[j]));
        }
    }
}

/// Law: when the limit leaves room for every match, a search returns every block that
/// carries all the required tags and, for a non-empty query, mentions it in its key or
/// content (ignoring case).
pub proof fn law_search_finds_every_match(
    bs: Seq<BlockRecord>,
    query: Seq<char>,
    required: Seq<Seq<char>>,
    limit: int,
    r: Seq<int>,
    i: int,
)
    requires
        ranked(bs, search_hits(bs, query, required), limit, r),
        search_hits(bs, query, required).len() <= limit,
        0 <= i < bs.len(),
        forall|t: int| 0 <= t < required.len() ==> bs[i].tags.contains(#[trigger] required[t]),
        query.len() == 0 || contains(lowercase(bs[i].key), lowercase(query)) || contains(
            lowercase(bs[i].content),
            lowercase(query),
        ),
    ensures
        r.contains(i),
{
    let hits = search_hits(bs, query, required);
    let pred = |k: int|
        tags_match(bs[k].tags, required) && (query.len() == 0 || contains(
            lowercase(bs[k].key),
            lowercase(query),
        ) || contains(lowercase(bs[k].content), lowercase(query)));
    assert(hits == positions(bs.len() as int, pred));
    assert(pred(i));
    crate::sort::lemma_positions_complete(bs.len() as int, pred);
    assert(hits.contains(i));
    let k = choose|k: int| 0 <= k < hits.len() && hits[k] == i;
    crate::sort::lemma_top_sorted_keeps_all(search_keys(bs, hits), hits, limit, r);
    assert(r.contains(hits[k]));
}

/// Search blocks: filter, order (summary first, newer first, then by file; ties keep their
/// order) and cut to the limit. Gives positions into `blocks`.
pub fn search_blocks(blocks: &Vec<LocatedBlock>, req: &SearchRequest) -> (r: Vec<usize>)
    ensures
        ranked(
            records(blocks@),
            search_hits(records(blocks@), req.query@, string_views(req.tags@)),
            req.limit as int,
            r@.map_values(|i: usize| i as int),
        ),
{
    let ghost rs = records(blocks@);
    let query_lc = to_lowercase(req.query.as_str());
    let qc = chars_of(req.query.as_str());
    let query_empty = qc.len() == 0;
    let mut kl: Vec<String> = Vec::new();
    let mut cl: Vec<String> = Vec::new();
    let mut i: usize = 0;
    while i < blocks.len()
        invariant
            rs == records(blocks@),
            i <= blocks@.len(),
            kl@.len() == i,
            cl@.len() == i,
            forall|j: int| 0 <= j < i ==> (#[trigger] kl@[j])@ == lowercase(rs[j].key),
            forall|j: int| 0 <= j < i ==> (#[trigger] cl@[j])@ == lowercase(rs[j].content),
        decreases blocks@.len() - i,
    {
        kl.push(to_lowercase(blocks[i].block.key.as_str()));
        cl.push(to_lowercase(blocks[i].block.content.as_str()));
        i = i + 1;
    }
    let r = rank_hits(blocks, &kl, &cl, query_lc.as_str(), query_empty, &req.tags, req.limit);
    proof {
        let p = |i: int|
            lowered_hit(
                rs[i],
                kl@[i]@,
                cl@[i]@,
                query_lc@,
                query_empty,
                string_views(req.tags@),
            );
        let q = |i: int|
            tags_match(rs[i].tags, string_views(req.tags@)) && (req.query@.len() == 0 || contains(
                lowercase(rs[i].key),
                lowercase(req.query@),
            ) || contains(lowercase(rs[i].content), lowercase(req.query@)));
        lemma_positions_ext(blocks@.len() as int, p, q);
    }
    r
}

} // verus!
