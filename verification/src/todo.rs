//! Workspace todo list kept in a JSON store file (`.agent/todos.json` by default).
//!
//! The store is a list of items; the functions here add, list, update and remove items.
//! Reading and writing the store file, the clock and fresh ids are the caller's.
use vstd::prelude::*;

use crate::json::{
    json_string_list, string_list_param, bool_opt_param, concat3, copy_strings, err_view, json_get, json_str, json_str_opt,
    json_string_array_opt, json_u64_opt, owned, str_opt_param, str_param, string_array_opt_param,
    string_views, u64_opt_param, Json,
};
use crate::path::{combine, workspace_logical_path};
use crate::sort::{
    is_stable_sort, key_view, keys_view, lemma_positions_bounds, positions, take_sorted, top_sorted,
    KeyPart, PartView,
};
use crate::text::{chars_of, debug_quoted, debug_text, is_blank, is_blank_slice, string_of, trim, trim_vec};
use crate::tool::ToolError;

verus! {

/// Error codes of the todo tools.
#[derive(Clone, Copy, PartialEq, Eq, Debug)]
pub enum TodoErrorCode {
    NotFound,
    InvalidInput,
    InvalidStatus,
    InvalidPriority,
    StorageError,
}

/// The stable code string of each todo error code.
pub open spec fn todo_code_text(c: TodoErrorCode) -> Seq<char> {
    match c {
        TodoErrorCode::NotFound => "TODO_NOT_FOUND"@,
        TodoErrorCode::InvalidInput => "TODO_INVALID_INPUT"@,
        TodoErrorCode::InvalidStatus => "TODO_INVALID_STATUS"@,
        TodoErrorCode::InvalidPriority => "TODO_INVALID_PRIORITY"@,
        TodoErrorCode::StorageError => "TODO_STORAGE_ERROR"@,
    }
}

impl TodoErrorCode {
    /// The stable code string.
    pub fn as_str(self) -> (r: &'static str)
        ensures
            r@ == todo_code_text(self),
    {
        match self {
            TodoErrorCode::NotFound => "TODO_NOT_FOUND",
            TodoErrorCode::InvalidInput => "TODO_INVALID_INPUT",
            TodoErrorCode::InvalidStatus => "TODO_INVALID_STATUS",
            TodoErrorCode::InvalidPriority => "TODO_INVALID_PRIORITY",
            TodoErrorCode::StorageError => "TODO_STORAGE_ERROR",
        }
    }
}

/// A tool error with a todo error code.
pub fn tool_error(code: TodoErrorCode, message: String) -> (e: ToolError)
    ensures
        e.code@ == todo_code_text(code),
        e.message@ == message@,
{
    ToolError { code: owned(code.as_str()), message }
}

/// An error as (code, message).
pub type ErrView = (Seq<char>, Seq<char>);

/// A todo error as (code, message).
pub open spec fn todo_err(code: TodoErrorCode, message: Seq<char>) -> ErrView {
    (todo_code_text(code), message)
}

/// The state of an item.
#[derive(Clone, Copy, PartialEq, Eq, Structural, Debug)]
pub enum TodoStatus {
    Pending,
    Done,
    Cancelled,
}

/// The name of a status.
pub open spec fn status_text(s: TodoStatus) -> Seq<char> {
    match s {
        TodoStatus::Pending => "pending"@,
        TodoStatus::Done => "done"@,
        TodoStatus::Cancelled => "cancelled"@,
    }
}

/// The outcome of parsing a status name.
pub open spec fn status_outcome(s: Seq<char>) -> Result<TodoStatus, ErrView> {
    if s == "pending"@ {
        Ok(TodoStatus::Pending)
    } else if s == "done"@ {
        Ok(TodoStatus::Done)
    } else if s == "cancelled"@ {
        Ok(TodoStatus::Cancelled)
    } else {
        Err(
            todo_err(
                TodoErrorCode::InvalidStatus,
                "status must be \"pending\", \"done\", or \"cancelled\", got "@ + debug_text(s),
            ),
        )
    }
}

/// Where a status sorts in a listing: pending, then done, then cancelled.
pub open spec fn status_rank(s: TodoStatus) -> int {
    match s {
        TodoStatus::Pending => 0,
        TodoStatus::Done => 1,
        TodoStatus::Cancelled => 2,
    }
}

impl TodoStatus {
    /// Parse a status name.
    pub fn parse(s: &str) -> (r: Result<TodoStatus, ToolError>)
        ensures
            match r {
                Ok(v) => status_outcome(s@) == Ok::<TodoStatus, ErrView>(v),
                Err(e) => status_outcome(s@) == Err::<TodoStatus, ErrView>(err_view(e)),
            },
    {
        if crate::json::str_eq(s, "pending") {
            Ok(TodoStatus::Pending)
        } else if crate::json::str_eq(s, "done") {
            Ok(TodoStatus::Done)
        } else if crate::json::str_eq(s, "cancelled") {
            Ok(TodoStatus::Cancelled)
        } else {
            let q = debug_quoted(s);
            let mut m = owned("status must be \"pending\", \"done\", or \"cancelled\", got ");
            m.append(q.as_str());
            Err(tool_error(TodoErrorCode::InvalidStatus, m))
        }
    }

    /// The name of the status.
    pub fn as_str(self) -> (r: &'static str)
        ensures
            r@ == status_text(self),
    {
        match self {
            TodoStatus::Pending => "pending",
            TodoStatus::Done => "done",
            TodoStatus::Cancelled => "cancelled",
        }
    }

    /// Where the status sorts in a listing.
    pub fn sort_rank(self) -> (r: u8)
        ensures
            r as int == status_rank(self),
    {
        match self {
            TodoStatus::Pending => 0,
            TodoStatus::Done => 1,
            TodoStatus::Cancelled => 2,
        }
    }
}

/// The priority of an item.
#[derive(Clone, Copy, PartialEq, Eq, Debug)]
pub enum TodoPriority {
    Low,
    Medium,
    High,
}

/// The name of a priority.
pub open spec fn priority_text(p: TodoPriority) -> Seq<char> {
    match p {
        TodoPriority::Low => "low"@,
        TodoPriority::Medium => "medium"@,
        TodoPriority::High => "high"@,
    }
}

/// The outcome of parsing a priority name.
pub open spec fn priority_outcome(s: Seq<char>) -> Result<TodoPriority, ErrView> {
    if s == "low"@ {
        Ok(TodoPriority::Low)
    } else if s == "medium"@ {
        Ok(TodoPriority::Medium)
    } else if s == "high"@ {
        Ok(TodoPriority::High)
    } else {
        Err(
            todo_err(
                TodoErrorCode::InvalidPriority,
                "priority must be \"low\", \"medium\", or \"high\", got "@ + debug_text(s),
            ),
        )
    }
}

/// Where a priority sorts in a listing: high first; no priority last.
pub open spec fn priority_rank(p: Option<TodoPriority>) -> int {
    match p {
        Some(TodoPriority::High) => 0,
        Some(TodoPriority::Medium) => 1,
        Some(TodoPriority::Low) => 2,
        None => 3,
    }
}

impl TodoPriority {
    /// Parse a priority name.
    pub fn parse(s: &str) -> (r: Result<TodoPriority, ToolError>)
        ensures
            match r {
                Ok(v) => priority_outcome(s@) == Ok::<TodoPriority, ErrView>(v),
                Err(e) => priority_outcome(s@) == Err::<TodoPriority, ErrView>(err_view(e)),
            },
    {
        if crate::json::str_eq(s, "low") {
            Ok(TodoPriority::Low)
        } else if crate::json::str_eq(s, "medium") {
            Ok(TodoPriority::Medium)
        } else if crate::json::str_eq(s, "high") {
            Ok(TodoPriority::High)
        } else {
            let q = debug_quoted(s);
            let mut m = owned("priority must be \"low\", \"medium\", or \"high\", got ");
            m.append(q.as_str());
            Err(tool_error(TodoErrorCode::InvalidPriority, m))
        }
    }

    /// The name of the priority.
    pub fn as_str(self) -> (r: &'static str)
        ensures
            r@ == priority_text(self),
    {
        match self {
            TodoPriority::Low => "low",
            TodoPriority::Medium => "medium",
            TodoPriority::High => "high",
        }
    }

    /// Where the priority sorts in a listing.
    pub fn sort_rank(self) -> (r: u8)
        ensures
            r as int == priority_rank(Some(self)),
    {
        match self {
            TodoPriority::High => 0,
            TodoPriority::Medium => 1,
            TodoPriority::Low => 2,
        }
    }
}

/// Where an item's priority sorts (3 for none).
pub fn priority_rank_of(p: Option<TodoPriority>) -> (r: u8)
    ensures
        r as int == priority_rank(p),
{
    match p {
        Some(x) => x.sort_rank(),
        None => 3,
    }
}

/// One todo item.
pub struct TodoItem {
    pub id: String,
    pub title: String,
    pub description: String,
    pub status: TodoStatus,
    pub priority: Option<TodoPriority>,
    pub tags: Vec<String>,
    pub created_at: String,
    pub updated_at: String,
}

/// The store: all items, in the order they were added.
pub struct TodoStore {
    pub items: Vec<TodoItem>,
}

/// The abstract value of an item.
pub struct TodoView {
    pub id: Seq<char>,
    pub title: Seq<char>,
    pub description: Seq<char>,
    pub status: TodoStatus,
    pub priority: Option<TodoPriority>,
    pub tags: Seq<Seq<char>>,
    pub created_at: Seq<char>,
    pub updated_at: Seq<char>,
}

/// The abstract value of an item.
pub open spec fn todo_view(t: TodoItem) -> TodoView {
    TodoView {
        id: t.id@,
        title: t.title@,
        description: t.description@,
        status: t.status,
        priority: t.priority,
        tags: string_views(t.tags@),
        created_at: t.created_at@,
        updated_at: t.updated_at@,
    }
}

/// The abstract values of items.
pub open spec fn todos_view(v: Seq<TodoItem>) -> Seq<TodoView> {
    v.map_values(|t: TodoItem| todo_view(t))
}

impl TodoStore {
    /// The empty store (what a missing or blank store file holds).
    pub fn empty() -> (r: TodoStore)
        ensures
            r.items@.len() == 0,
    {
        TodoStore { items: Vec::new() }
    }
}

/// A store file whose text is blank counts as an empty store.
pub fn store_text_is_blank(raw: &str) -> (r: bool)
    ensures
        r == is_blank(raw@),
{
    let c = chars_of(raw);
    is_blank_slice(c.as_slice())
}

/// Workspace root (already canonical), whether paths may leave it, and the store file
/// relative to the root.
pub struct TodoContext {
    pub root_canonical: String,
    pub allow_outside_root: bool,
    /// Relative to the root, e.g. `.agent/todos.json`.
    pub store_relative: String,
}

/// The default store file.
pub open spec fn default_store() -> Seq<char> {
    ".agent/todos.json"@
}

impl TodoContext {
    /// A context with the default store `.agent/todos.json`.
    pub fn new(root_canonical: String, allow_outside_root: bool) -> (r: Self)
        ensures
            r.root_canonical@ == root_canonical@,
            r.allow_outside_root == allow_outside_root,
            r.store_relative@ == default_store(),
    {
        TodoContext { root_canonical, allow_outside_root, store_relative: owned(".agent/todos.json") }
    }

    /// A context with a custom store file relative to the root.
    pub fn with_store_relative(root_canonical: String, allow_outside_root: bool, store_relative: &str) -> (r:
        Self)
        ensures
            r.root_canonical@ == root_canonical@,
            r.allow_outside_root == allow_outside_root,
            r.store_relative@ == store_relative@,
    {
        TodoContext { root_canonical, allow_outside_root, store_relative: owned(store_relative) }
    }

    /// The store file joined onto the root and normalized, before it is checked against the
    /// file system.
    pub fn store_logical_path(&self) -> (r: Result<String, ToolError>)
        ensures
            match r {
                Ok(p) => trim(self.store_relative@).len() > 0 && p@ == combine(
                    self.root_canonical@,
                    trim(self.store_relative@),
                ),
                Err(e) => trim(self.store_relative@).len() == 0 && err_view(e) == (
                    "INVALID_PATH"@,
                    "path is empty"@,
                ),
            },
    {
        workspace_logical_path(self.root_canonical.as_str(), self.store_relative.as_str())
    }
}

/// The position of the first item with the id.
pub open spec fn index_of(items: Seq<TodoView>, id: Seq<char>) -> Option<int>
    decreases items.len(),
{
    if items.len() == 0 {
        None
    } else {
        match index_of(items.drop_last(), id) {
            Some(i) => Some(i),
            None => if items.last().id == id {
                Some(items.len() - 1)
            } else {
                None
            },
        }
    }
}

/// Facts about `index_of`.
pub proof fn lemma_index_of(items: Seq<TodoView>, id: Seq<char>)
    ensures
        match index_of(items, id) {
            Some(i) => 0 <= i < items.len() && items[i].id == id && forall|j: int|
                0 <= j < i ==> (#[trigger] items[j]).id != id,
            None => forall|j: int| 0 <= j < items.len() ==> (#[trigger] items[j]).id != id,
        },
    decreases items.len(),
{
    if items.len() > 0 {
        let d = items.drop_last();
        lemma_index_of(d, id);
        assert forall|j: int| 0 <= j < d.len() implies #[trigger] items[j] == d[j] by {}
    }
}

/// The position of the first item with the id.
pub fn find_index(store: &TodoStore, id: &str) -> (r: Option<usize>)
    ensures
        match r {
            Some(i) => index_of(todos_view(store.items@), id@) == Some(i as int) && i
                < store.items@.len() && store.items@[i as int].id@ == id@ && forall|j: int|
                0 <= j < i ==> (#[trigger] store.items@[j]).id@ != id@,
            None => index_of(todos_view(store.items@), id@) is None && forall|j: int|
                0 <= j < store.items@.len() ==> (#[trigger] store.items@[j]).id@ != id@,
        },
{
    let ghost tv = todos_view(store.items@);
    let mut i: usize = 0;
    while i < store.items.len()
        invariant
            tv == todos_view(store.items@),
            i <= store.items@.len(),
            index_of(tv.take(i as int), id@) is None,
        decreases store.items@.len() - i,
    {
        assert(tv.take(i + 1).drop_last() == tv.take(i as int));
        if crate::json::str_eq(store.items[i].id.as_str(), id) {
            assert(tv.take(i + 1).last() == tv[i as int]);
            assert(index_of(tv.take(i + 1), id@) == Some(i as int));
            proof {
                lemma_index_of_prefix(tv, id@, i + 1);
                lemma_index_of(tv, id@);
                assert forall|j: int| 0 <= j < i implies (#[trigger] store.items@[j]).id@ != id@ by {
                    assert(tv[j] == todo_view(store.items@[j]));
                }
            }
            return Some(i);
        }
        i = i + 1;
    }
    assert(tv.take(store.items@.len() as int) == tv);
    proof {
        lemma_index_of(tv, id@);
        assert forall|j: int| 0 <= j < store.items@.len() implies (#[trigger] store.items@[j]).id@ != id@ by {
            assert(tv[j] == todo_view(store.items@[j]));
        }
    }
    None
}

/// A hit in a prefix is the first hit in the whole sequence.
pub proof fn lemma_index_of_prefix(items: Seq<TodoView>, id: Seq<char>, n: int)
    requires
        0 <= n <= items.len(),
        index_of(items.take(n), id) is Some,
    ensures
        index_of(items, id) == index_of(items.take(n), id),
    decreases items.len() - n,
{
    if n < items.len() {
        assert(items.take(n + 1).drop_last() == items.take(n));
        lemma_index_of_prefix(items, id, n + 1);
    } else {
        assert(items.take(n) == items);
    }
}

/// The outcome of reading an optional priority parameter.
pub open spec fn priority_param(params: Json) -> Result<Option<TodoPriority>, ErrView> {
    match str_opt_param(params, "priority"@) {
        Err(e) => Err(e),
        Ok(None) => Ok(None),
        Ok(Some(s)) => match priority_outcome(s) {
            Err(e) => Err(e),
            Ok(p) => Ok(Some(p)),
        },
    }
}

fn parse_priority_opt(params: &Json) -> (r: Result<Option<TodoPriority>, ToolError>)
    ensures
        match r {
            Ok(p) => priority_param(*params) == Ok::<Option<TodoPriority>, ErrView>(p),
            Err(e) => priority_param(*params) == Err::<Option<TodoPriority>, ErrView>(err_view(e)),
        },
{
    match json_str_opt(params, "priority")? {
        None => Ok(None),
        Some(s) => Ok(Some(TodoPriority::parse(s.as_str())?)),
    }
}

/// A parsed `todo_add` request.
pub struct AddRequest {
    /// The title, trimmed and not empty.
    pub title: String,
    pub description: String,
    pub priority: Option<TodoPriority>,
    pub tags: Vec<String>,
}

/// The outcome of reading a `todo_add` request: `title` (trimmed, not empty),
/// `description` (empty when absent), `priority`, `tags`, checked in that order.
pub open spec fn add_request(params: Json) -> Result<
    (Seq<char>, Seq<char>, Option<TodoPriority>, Seq<Seq<char>>),
    ErrView,
> {
    match str_param(params, "title"@) {
        Err(e) => Err(e),
        Ok(t) => if trim(t).len() == 0 {
            Err(todo_err(TodoErrorCode::InvalidInput, "`title` must be non-empty"@))
        } else {
            match str_opt_param(params, "description"@) {
                Err(e) => Err(e),
                Ok(d) => match priority_param(params) {
                    Err(e) => Err(e),
                    Ok(p) => match string_list_param(params, "tags"@) {
                        Err(e) => Err(e),
                        Ok(tags) => Ok(
                            (
                                trim(t),
                                match d {
                                    Some(x) => x,
                                    None => Seq::empty(),
                                },
                                p,
                                tags,
                            ),
                        ),
                    },
                },
            }
        },
    }
}

/// Read a `todo_add` request.
pub fn parse_add_request(params: &Json) -> (r: Result<AddRequest, ToolError>)
    ensures
        match r {
            Ok(req) => add_request(*params) == Ok::<
                (Seq<char>, Seq<char>, Option<TodoPriority>, Seq<Seq<char>>),
                ErrView,
            >((req.title@, req.description@, req.priority, string_views(req.tags@))),
            Err(e) => add_request(*params) == Err::<
                (Seq<char>, Seq<char>, Option<TodoPriority>, Seq<Seq<char>>),
                ErrView,
            >(err_view(e)),
        },
{
    let t = json_str(params, "title")?;
    let tc = chars_of(t.as_str());
    let title = trim_vec(tc.as_slice());
    if title.len() == 0 {
        return Err(tool_error(TodoErrorCode::InvalidInput, owned("`title` must be non-empty")));
    }
    let description = match json_str_opt(params, "description")? {
        Some(d) => d,
        None => String::new(),
    };
    let priority = parse_priority_opt(params)?;
    let tags = json_string_list(params, "tags")?;
    Ok(AddRequest { title: string_of(title.as_slice()), description, priority, tags })
}

/// The item a `todo_add` creates: pending, with both timestamps set to `now`.
pub open spec fn new_item(
    id: Seq<char>,
    title: Seq<char>,
    description: Seq<char>,
    priority: Option<TodoPriority>,
    tags: Seq<Seq<char>>,
    now: Seq<char>,
) -> TodoView {
    TodoView {
        id,
        title,
        description,
        status: TodoStatus::Pending,
        priority,
        tags,
        created_at: now,
        updated_at: now,
    }
}

/// Append a new pending item with the given id and time.
pub fn add_item(store: &mut TodoStore, req: AddRequest, id: &str, now: &str)
    ensures
        todos_view(final(store).items@) == todos_view(old(store).items@).push(
            new_item(id@, req.title@, req.description@, req.priority, string_views(req.tags@), now@),
        ),
{
    let item = TodoItem {
        id: owned(id),
        title: req.title,
        description: req.description,
        status: TodoStatus::Pending,
        priority: req.priority,
        tags: req.tags,
        created_at: owned(now),
        updated_at: owned(now),
    };
    let ghost before = todos_view(store.items@);
    store.items.push(item);
    assert(todos_view(store.items@) =~= before.push(todo_view(item)));
}

/// A parsed `todo_list` request.
pub struct ListRequest {
    pub status: Option<TodoStatus>,
    pub tag: Option<String>,
    /// Between 1 and 200.
    pub limit: usize,
}

/// The listing limit: 50 when absent, else clamped to `1..=200`.
pub open spec fn list_limit(n: Option<u64>) -> int {
    match n {
        None => 50,
        Some(v) => if v < 1 {
            1
        } else if v > 200 {
            200
        } else {
            v as int
        },
    }
}

/// The outcome of reading a `todo_list` request: `status`, `tag`, `limit`, in that order.
pub open spec fn list_request(params: Json) -> Result<(Option<TodoStatus>, Option<Seq<char>>, int), ErrView> {
    match str_opt_param(params, "status"@) {
        Err(e) => Err(e),
        Ok(st) => {
            let status = match st {
                None => Ok(None),
                Some(s) => match status_outcome(s) {
                    Ok(v) => Ok(Some(v)),
                    Err(e) => Err(e),
                },
            };
            match status {
                Err(e) => Err(e),
                Ok(status) => match str_opt_param(params, "tag"@) {
                    Err(e) => Err(e),
                    Ok(tag) => match u64_opt_param(params, "limit"@) {
                        Err(e) => Err(e),
                        Ok(n) => Ok((status, tag, list_limit(n))),
                    },
                },
            }
        },
    }
}

/// The abstract value of an optional string.
pub open spec fn opt_str_view(o: Option<String>) -> Option<Seq<char>> {
    match o {
        Some(s) => Some(s@),
        None => None,
    }
}

/// Read a `todo_list` request.
pub fn parse_list_request(params: &Json) -> (r: Result<ListRequest, ToolError>)
    ensures
        match r {
            Ok(req) => list_request(*params) == Ok::<(Option<TodoStatus>, Option<Seq<char>>, int), ErrView>(
                (req.status, opt_str_view(req.tag), req.limit as int),
            ),
            Err(e) => list_request(*params) == Err::<(Option<TodoStatus>, Option<Seq<char>>, int), ErrView>(
                err_view(e),
            ),
        },
{
    let status = match json_str_opt(params, "status")? {
        None => None,
        Some(s) => Some(TodoStatus::parse(s.as_str())?),
    };
    let tag = json_str_opt(params, "tag")?;
    let n = json_u64_opt(params, "limit")?;
    let limit: usize = match n {
        None => 50,
        Some(v) => if v < 1 {
            1
        } else if v > 200 {
            200
        } else {
            v as usize
        },
    };
    Ok(ListRequest { status, tag, limit })
}

/// An item passes the listing filters.
pub open spec fn list_match(t: TodoView, status: Option<TodoStatus>, tag: Option<Seq<char>>) -> bool {
    (match status {
        Some(s) => t.status == s,
        None => true,
    }) && (match tag {
        Some(g) => t.tags.contains(g),
        None => true,
    })
}

/// The order of a listing: pending first, then higher priority, then most recently updated.
pub open spec fn list_key(t: TodoView) -> Seq<PartView> {
    seq![
        PartView::AscNum(status_rank(t.status)),
        PartView::AscNum(priority_rank(t.priority)),
        PartView::Desc(t.updated_at),
    ]
}

/// The keys of the given positions.
pub open spec fn list_keys(items: Seq<TodoView>, hits: Seq<int>) -> Seq<Seq<PartView>> {
    hits.map_values(|i: int| list_key(items[i]))
}

/// The positions of the items that pass the filters.
pub open spec fn list_hits(items: Seq<TodoView>, status: Option<TodoStatus>, tag: Option<Seq<char>>) -> Seq<int> {
    positions(items.len() as int, |i: int| list_match(items[i], status, tag))
}

fn has_tag(tags: &Vec<String>, tag: &str) -> (r: bool)
    ensures
        r == string_views(tags@).contains(tag@),
{
    let ghost tv = string_views(tags@);
    let mut k: usize = 0;
    while k < tags.len()
        invariant
            tv == string_views(tags@),
            k <= tags@.len(),
            forall|q: int| 0 <= q < k ==> tv[q] != tag@,
        decreases tags@.len() - k,
    {
        if crate::json::str_eq(tags[k].as_str(), tag) {
            assert(tv[k as int] == tag@);
            return true;
        }
        k = k + 1;
    }
    false
}

fn list_key_exec(t: &TodoItem) -> (r: Vec<KeyPart>)
    ensures
        key_view(r) == list_key(todo_view(*t)),
{
    let mut k: Vec<KeyPart> = Vec::new();
    k.push(KeyPart::AscNum(t.status.sort_rank() as u64));
    k.push(KeyPart::AscNum(priority_rank_of(t.priority) as u64));
    k.push(KeyPart::Desc(chars_of(t.updated_at.as_str())));
    assert(key_view(k) =~= list_key(todo_view(*t)));
    k
}

/// The positions of the items a listing shows, in the order it shows them.
pub fn list_todos(store: &TodoStore, req: &ListRequest) -> (r: Vec<usize>)
    ensures
        ({
            let items = todos_view(store.items@);
            let hits = list_hits(items, req.status, opt_str_view(req.tag));
            top_sorted(list_keys(items, hits), hits, req.limit as int, r@.map_values(|i: usize| i as int))
        }),
{
    let ghost items = todos_view(store.items@);
    let ghost pred = |i: int| list_match(items[i], req.status, opt_str_view(req.tag));
    let mut hits: Vec<usize> = Vec::new();
    let mut i: usize = 0;
    while i < store.items.len()
        invariant
            items == todos_view(store.items@),
            pred == (|i: int| list_match(items[i], req.status, opt_str_view(req.tag))),
            i <= store.items@.len(),
            hits@.map_values(|x: usize| x as int) == positions(i as int, pred),
        decreases store.items@.len() - i,
    {
        let it = &store.items[i];
        let ok_status = match req.status {
            Some(s) => it.status == s,
            None => true,
        };
        let ok_tag = match &req.tag {
            Some(g) => has_tag(&it.tags, g.as_str()),
            None => true,
        };
        let ghost before = hits@;
        assert((ok_status && ok_tag) == pred(i as int));
        if ok_status && ok_tag {
            hits.push(i);
            assert(hits@.map_values(|x: usize| x as int) =~= before.map_values(|x: usize| x as int).push(i as int));
        }
        i = i + 1;
    }
    let ghost h = positions(store.items@.len() as int, pred);
    proof {
        lemma_positions_bounds(store.items@.len() as int, pred);
    }
    let mut keys: Vec<Vec<KeyPart>> = Vec::new();
    let mut j: usize = 0;
    while j < hits.len()
        invariant
            items == todos_view(store.items@),
            hits@.map_values(|x: usize| x as int) == h,
            forall|k: int| 0 <= k < h.len() ==> 0 <= #[trigger] h[k] < store.items@.len(),
            j <= hits@.len(),
            keys_view(keys@) == list_keys(items, h.take(j as int)),
        decreases hits@.len() - j,
    {
        let ghost before = keys_view(keys@);
        assert(h[j as int] == hits@[j as int] as int);
        let k = list_key_exec(&store.items[hits[j]]);
        keys.push(k);
        assert(keys_view(keys@) =~= before.push(key_view(k)));
        assert(list_keys(items, h.take(j + 1)) =~= list_keys(items, h.take(j as int)).push(
            list_key(items[h[j as int]]),
        ));
        j = j + 1;
    }
    assert(h.take(h.len() as int) == h);
    take_sorted(&hits, &keys, req.limit)
}

/// The outcome of the optional `title` of an update: trimmed, and not empty.
pub open spec fn title_update(params: Json) -> Result<Option<Seq<char>>, ErrView> {
    match str_opt_param(params, "title"@) {
        Err(e) => Err(e),
        Ok(None) => Ok(None),
        Ok(Some(t)) => if trim(t).len() == 0 {
            Err(todo_err(TodoErrorCode::InvalidInput, "`title` cannot be empty when provided"@))
        } else {
            Ok(Some(trim(t)))
        },
    }
}

/// The outcome of the optional `status` of an update.
pub open spec fn status_update(params: Json) -> Result<Option<TodoStatus>, ErrView> {
    match str_opt_param(params, "status"@) {
        Err(e) => Err(e),
        Ok(None) => Ok(None),
        Ok(Some(s)) => match status_outcome(s) {
            Err(e) => Err(e),
            Ok(v) => Ok(Some(v)),
        },
    }
}

/// The outcome of the optional `priority` of an update: absent leaves it, `null` clears it,
/// a name sets it.
pub open spec fn priority_update(params: Json) -> Result<Option<Option<TodoPriority>>, ErrView> {
    match json_get(params, "priority"@) {
        None => Ok(None),
        Some(Json::Null) => Ok(Some(None)),
        Some(_) => match priority_param(params) {
            Err(e) => Err(e),
            Ok(p) => Ok(Some(p)),
        },
    }
}

/// The item after an update, or the first error: `title`, `description`, `status`,
/// `priority`, `tags` are checked in that order; only those given change, and the update
/// time becomes `now`.
pub open spec fn update_outcome(t: TodoView, params: Json, now: Seq<char>) -> Result<TodoView, ErrView> {
    match title_update(params) {
        Err(e) => Err(e),
        Ok(title) => match str_opt_param(params, "description"@) {
            Err(e) => Err(e),
            Ok(description) => match status_update(params) {
                Err(e) => Err(e),
                Ok(status) => match priority_update(params) {
                    Err(e) => Err(e),
                    Ok(priority) => match string_array_opt_param(params, "tags"@) {
                        Err(e) => Err(e),
                        Ok(tags) => Ok(
                            TodoView {
                                id: t.id,
                                title: match title {
                                    Some(x) => x,
                                    None => t.title,
                                },
                                description: match description {
                                    Some(x) => x,
                                    None => t.description,
                                },
                                status: match status {
                                    Some(x) => x,
                                    None => t.status,
                                },
                                priority: match priority {
                                    Some(x) => x,
                                    None => t.priority,
                                },
                                tags: match tags {
                                    Some(x) => x,
                                    None => t.tags,
                                },
                                created_at: t.created_at,
                                updated_at: now,
                            },
                        ),
                    },
                },
            },
        },
    }
}

/// The item after an update.
pub fn updated_item(t: &TodoItem, params: &Json, now: &str) -> (r: Result<TodoItem, ToolError>)
    ensures
        match r {
            Ok(n) => update_outcome(todo_view(*t), *params, now@) == Ok::<TodoView, ErrView>(todo_view(n)),
            Err(e) => update_outcome(todo_view(*t), *params, now@) == Err::<TodoView, ErrView>(err_view(e)),
        },
{
    let title = match json_str_opt(params, "title")? {
        None => owned(t.title.as_str()),
        Some(s) => {
            let c = chars_of(s.as_str());
            let tt = trim_vec(c.as_slice());
            if tt.len() == 0 {
                return Err(
                    tool_error(TodoErrorCode::InvalidInput, owned("`title` cannot be empty when provided")),
                );
            }
            string_of(tt.as_slice())
        },
    };
    let description = match json_str_opt(params, "description")? {
        None => owned(t.description.as_str()),
        Some(d) => d,
    };
    let status = match json_str_opt(params, "status")? {
        None => t.status,
        Some(s) => TodoStatus::parse(s.as_str())?,
    };
    let priority = match params.get("priority") {
        None => t.priority,
        Some(v) => if v.is_null() {
            None
        } else {
            parse_priority_opt(params)?
        },
    };
    let tags = match json_string_array_opt(params, "tags")? {
        None => copy_strings(&t.tags),
        Some(v) => v,
    };
    Ok(
        TodoItem {
            id: owned(t.id.as_str()),
            title,
            description,
            status,
            priority,
            tags,
            created_at: owned(t.created_at.as_str()),
            updated_at: owned(now),
        },
    )
}

/// The error for an unknown id.
pub open spec fn not_found(id: Seq<char>) -> ErrView {
    todo_err(TodoErrorCode::NotFound, "no todo with id `"@ + id + "`"@)
}

/// Update the item with the id. On any error the store is left as it was.
pub fn update_todo(store: &mut TodoStore, id: &str, params: &Json, now: &str) -> (r: Result<(), ToolError>)
    ensures
        match index_of(todos_view(old(store).items@), id@) {
            None => r matches Err(e) && err_view(e) == not_found(id@) && final(store).items@
                == old(store).items@,
            Some(i) => match update_outcome(todos_view(old(store).items@)[i], *params, now@) {
                Ok(v) => r is Ok && todos_view(final(store).items@) == todos_view(old(store).items@).update(i, v),
                Err(ev) => r matches Err(e) && err_view(e) == ev && final(store).items@ == old(store).items@,
            },
        },
{
    let i = match find_index(store, id) {
        None => {
            return Err(tool_error(TodoErrorCode::NotFound, concat3("no todo with id `", id, "`")));
        },
        Some(i) => i,
    };
    let n = updated_item(&store.items[i], params, now)?;
    let ghost before = todos_view(store.items@);
    store.items.set(i, n);
    assert(todos_view(store.items@) =~= before.update(i as int, todo_view(n)));
    Ok(())
}

/// Remove the item with the id. An unknown id is refused and the store is left as it was.
pub fn remove_todo(store: &mut TodoStore, id: &str) -> (r: Result<(), ToolError>)
    ensures
        match index_of(todos_view(old(store).items@), id@) {
            None => r matches Err(e) && err_view(e) == not_found(id@) && final(store).items@
                == old(store).items@,
            Some(i) => r is Ok && final(store).items@ == old(store).items@.remove(i),
        },
{
    match find_index(store, id) {
        None => Err(tool_error(TodoErrorCode::NotFound, concat3("no todo with id `", id, "`"))),
        Some(i) => {
            store.items.remove(i);
            Ok(())
        },
    }
}

/// Law: an item added under an id that no item has yet is found under that id, at the end.
pub proof fn law_added_item_is_found(items: Seq<TodoView>, item: TodoView)
    requires
        index_of(items, item.id) is None,
    ensures
        index_of(items.push(item), item.id) == Some(items.len() as int),
        items.push(item)[items.len() as int] == item,
{
    assert(items.push(item).drop_last() == items);
}

/// Law: removing an item just added under a fresh id gives back the items as they were.
pub proof fn law_remove_undoes_add(items: Seq<TodoView>, item: TodoView)
    requires
        index_of(items, item.id) is None,
    ensures
        match index_of(items.push(item), item.id) {
            Some(i) => items.push(item).remove(i) == items,
            None => false,
        },
{
    law_added_item_is_found(items, item);
    assert(items.push(item).remove(items.len() as int) =~= items);
}

/// Law: an update keeps the item's id and creation time and stamps the update time.
pub proof fn law_update_keeps_identity(t: TodoView, params: Json, now: Seq<char>)
    ensures
        update_outcome(t, params, now) matches Ok(n) ==> n.id == t.id && n.created_at
            == t.created_at && n.updated_at == now,
{
}

/// Law: an update that gives no field but the id changes nothing but the update time.
pub proof fn law_empty_update_touches_only_time(t: TodoView, params: Json, now: Seq<char>)
    requires
        json_get(params, "title"@) is None,
        json_get(params, "description"@) is None,
        json_get(params, "status"@) is None,
        json_get(params, "priority"@) is None,
        json_get(params, "tags"@) is None,
    ensures
        update_outcome(t, params, now) == Ok::<TodoView, ErrView>(TodoView { updated_at: now, ..t }),
{
}

/// Law: an update changes only the fields it gives; the id and creation time stay, and the
/// update time becomes `now`.
pub proof fn law_update_changes_only_given_fields(t: TodoView, params: Json, now: Seq<char>)
    ensures
        update_outcome(t, params, now) matches Ok(n) ==> {
            &&& json_get(params, "title"@) is None ==> n.title == t.title
            &&& json_get(params, "description"@) is None ==> n.description == t.description
            &&& json_get(params, "status"@) is None ==> n.status == t.status
            &&& json_get(params, "priority"@) is None ==> n.priority == t.priority
            &&& json_get(params, "tags"@) is None ==> n.tags == t.tags
            &&& n.id == t.id && n.created_at == t.created_at && n.updated_at == now
        },
{
}

/// Priority `p` lists ahead of `q`: high, then medium, then low, then no priority.
pub open spec fn priority_ahead(p: Option<TodoPriority>, q: Option<TodoPriority>) -> bool {
    ||| p == Some(TodoPriority::High) && q != Some(TodoPriority::High)
    ||| p == Some(TodoPriority::Medium) && (q == Some(TodoPriority::Low) || q is None)
    ||| p == Some(TodoPriority::Low) && q is None
}

/// Status `s` lists ahead of `u`: pending, then done, then cancelled.
pub open spec fn status_ahead(s: TodoStatus, u: TodoStatus) -> bool {
    ||| s == TodoStatus::Pending && u != TodoStatus::Pending
    ||| s == TodoStatus::Done && u == TodoStatus::Cancelled
}

/// Law: a listing never shows an item after one it lists ahead of: pending before done
/// before cancelled, and among items of one status, high priority before medium before low
/// before none.
pub proof fn law_listing_orders_status_then_priority(
    items: Seq<TodoView>,
    status: Option<TodoStatus>,
    tag: Option<Seq<char>>,
    limit: int,
    r: Seq<int>,
)
    requires
        top_sorted(list_keys(items, list_hits(items, status, tag)), list_hits(items, status, tag), limit, r),
    ensures
        forall|a: int, b: int|
            0 <= a < b < r.len() ==> !status_ahead(
                (#[trigger] items[r[b]]).status,
                (#[trigger] items[r[a]]).status,
            ),
        forall|a: int, b: int|
            0 <= a < b < r.len() && (#[trigger] items[r[a]]).status == (#[trigger] items[r[b]]).status
                ==> !priority_ahead(items[r[b]].priority, items[r[a]].priority),
{
    let hits = list_hits(items, status, tag);
    let keys = list_keys(items, hits);
    let idx = choose|idx: Seq<int>|
        #[trigger] is_stable_sort(keys, idx) && r.len() == (if limit < hits.len() {
            limit
        } else {
            hits.len() as int
        }) && forall|j: int| 0 <= j < r.len() ==> r[j] == hits[#[trigger] idx[j]];
    assert forall|a: int, b: int| 0 <= a < b < r.len() implies !status_ahead(
        (#[trigger] items[r[b]]).status,
        (#[trigger] items[r[a]]).status,
    ) && (items[r[a]].status == items[r[b]].status ==> !priority_ahead(
        items[r[b]].priority,
        items[r[a]].priority,
    )) by {
        assert(0 <= idx[a] < keys.len() && 0 <= idx[b] < keys.len());
        assert(r[a] == hits[idx[a]] && r[b] == hits[idx[b]]);
        let ka = keys[idx[a]];
        let kb = keys[idx[b]];
        assert(ka == list_key(items[r[a]]));
        assert(kb == list_key(items[r[b]]));
        assert(!crate::sort::key_lt(kb, ka));
        let x = items[r[a]];
        let y = items[r[b]];
        if status_ahead(y.status, x.status) {
            assert(status_rank(y.status) < status_rank(x.status));
            assert(kb[0] != ka[0]);
            assert(crate::sort::key_lt(kb, ka));
        }
        if x.status == y.status && priority_ahead(y.priority, x.priority) {
            assert(priority_rank(y.priority) < priority_rank(x.priority));
            assert(kb[0] == ka[0]);
            assert(kb.drop_first()[0] != ka.drop_first()[0]);
            assert(crate::sort::key_lt(kb.drop_first(), ka.drop_first()));
            assert(crate::sort::key_lt(kb, ka));
        }
    }
}

/// Law: a listing shows only items that pass its filters, and, when the limit leaves room,
/// every item that does: one with the status asked for and carrying the tag asked for.
pub proof fn law_listing_shows_exactly_the_matching_items(
    items: Seq<TodoView>,
    status: Option<TodoStatus>,
    tag: Option<Seq<char>>,
    limit: int,
    r: Seq<int>,
)
    requires
        top_sorted(list_keys(items, list_hits(items, status, tag)), list_hits(items, status, tag), limit, r),
    ensures
        forall|j: int|
            0 <= j < r.len() ==> 0 <= #[trigger] r[j] < items.len() && (status matches Some(s)
                ==> items[r[j]].status == s) && (tag matches Some(g) ==> items[r[j]].tags.contains(g)),
        list_hits(items, status, tag).len() <= limit ==> forall|i: int|
            0 <= i < items.len() && (status matches Some(s) ==> items[i].status == s) && (tag matches Some(
                g,
            ) ==> items[i].tags.contains(g)) ==> #[trigger] r.contains(i),
{
    let hits = list_hits(items, status, tag);
    let pred = |i: int| list_match(items[i], status, tag);
    assert(hits == positions(items.len() as int, pred));
    crate::sort::lemma_positions_satisfy(items.len() as int, pred);
    crate::sort::lemma_positions_complete(items.len() as int, pred);
    crate::sort::lemma_top_sorted_from_hits(list_keys(items, hits), hits, limit, r);
    assert forall|j: int| 0 <= j < r.len() implies 0 <= #[trigger] r[j] < items.len() && (status matches Some(s)
        ==> items[r[j]].status == s) && (tag matches Some(g) ==> items[r[j]].tags.contains(g)) by {
        assert(hits.contains(r[j]));
        let k = choose|k: int| 0 <= k < hits.len() && hits[k] == r[j];
        assert(pred(hits[k]));
    }
    if hits.len() <= limit {
        crate::sort::lemma_top_sorted_keeps_all(list_keys(items, hits), hits, limit, r);
        assert forall|i: int|
            0 <= i < items.len() && (status matches Some(s) ==> items[i].status == s) && (tag matches Some(
                g,
            ) ==> items[i].tags.contains(g)) implies #[trigger] r.contains(i) by {
            assert(pred(i));
            assert(hits.contains(i));
            let k = choose|k: int| 0 <= k < hits.len() && hits[k] == i;
            assert(r.contains(hits[k]));
        }
    }
}

} // verus!
