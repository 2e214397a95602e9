//! Task store for autonomous agents: tasks with steps, runs, path locks, checkpoints and
//! artifacts, kept in a SQLite database (`.agent/tasks.db` by default).
//!
//! The database work is the caller's; the functions here read and check requests, decide
//! the updates and the status changes, and map storage failures to task errors.
use vstd::prelude::*;

use crate::json::{
    concat3, err_view, json_get, json_str, json_str_lenient, json_strings_lenient,
    json_u64_lenient, lenient_str, lenient_strings, lenient_u64, opt_view, owned, str_eq,
    str_param, string_views, Json,
};
use crate::text::{chars_of, contains, contains_exec, debug_quoted, debug_text, string_of, trim, trim_vec};
use crate::tool::ToolError;

verus! {

/// Error codes of the task tools.
#[derive(Clone, Copy, PartialEq, Eq, Debug)]
pub enum TaskErrorCode {
    InvalidInput,
    InvalidStatus,
    InvalidKind,
    InvalidOwner,
    InvalidPriority,
    NotFound,
    LockConflict,
    StorageError,
}

/// The stable code string of each task error code.
pub open spec fn task_code_text(c: TaskErrorCode) -> Seq<char> {
    match c {
        TaskErrorCode::InvalidInput => "TASK_INVALID_INPUT"@,
        TaskErrorCode::InvalidStatus => "TASK_INVALID_STATUS"@,
        TaskErrorCode::InvalidKind => "TASK_INVALID_KIND"@,
        TaskErrorCode::InvalidOwner => "TASK_INVALID_OWNER"@,
        TaskErrorCode::InvalidPriority => "TASK_INVALID_PRIORITY"@,
        TaskErrorCode::NotFound => "TASK_NOT_FOUND"@,
        TaskErrorCode::LockConflict => "TASK_LOCK_CONFLICT"@,
        TaskErrorCode::StorageError => "TASK_STORAGE_ERROR"@,
    }
}

impl TaskErrorCode {
    /// The stable code string.
    pub fn as_str(self) -> (r: &'static str)
        ensures
            r@ == task_code_text(self),
    {
        match self {
            TaskErrorCode::InvalidInput => "TASK_INVALID_INPUT",
            TaskErrorCode::InvalidStatus => "TASK_INVALID_STATUS",
            TaskErrorCode::InvalidKind => "TASK_INVALID_KIND",
            TaskErrorCode::InvalidOwner => "TASK_INVALID_OWNER",
            TaskErrorCode::InvalidPriority => "TASK_INVALID_PRIORITY",
            TaskErrorCode::NotFound => "TASK_NOT_FOUND",
            TaskErrorCode::LockConflict => "TASK_LOCK_CONFLICT",
            TaskErrorCode::StorageError => "TASK_STORAGE_ERROR",
        }
    }
}

/// A tool error with a task error code.
pub fn task_error(code: TaskErrorCode, message: String) -> (e: ToolError)
    ensures
        e.code@ == task_code_text(code),
        e.message@ == message@,
{
    ToolError { code: owned(code.as_str()), message }
}

/// An error as (code, message).
pub type ErrView = (Seq<char>, Seq<char>);

/// A task error as (code, message).
pub open spec fn task_err(code: TaskErrorCode, message: Seq<char>) -> ErrView {
    (task_code_text(code), message)
}

/// The kind of a task.
#[derive(Clone, Copy, PartialEq, Eq, Structural, Debug)]
pub enum TaskKind {
    Task,
    Milestone,
    Checkpoint,
}

/// The name of each value.
pub open spec fn kind_text(v: TaskKind) -> Seq<char> {
    match v {
        TaskKind::Task => "task"@,
        TaskKind::Milestone => "milestone"@,
        TaskKind::Checkpoint => "checkpoint"@,
    }
}

/// The outcome of parsing a name.
pub open spec fn kind_outcome(s: Seq<char>) -> Result<TaskKind, ErrView> {
    if s == "task"@ {
        Ok(TaskKind::Task)
    } else if s == "milestone"@ {
        Ok(TaskKind::Milestone)
    } else if s == "checkpoint"@ {
        Ok(TaskKind::Checkpoint)
    } else {
        Err(task_err(TaskErrorCode::InvalidKind, "kind must be \"task\", \"milestone\", or \"checkpoint\", got "@ + debug_text(s)))
    }
}

impl TaskKind {
    /// Parse a name.
    pub fn parse(s: &str) -> (r: Result<TaskKind, ToolError>)
        ensures
            match r {
                Ok(v) => kind_outcome(s@) == Ok::<TaskKind, ErrView>(v),
                Err(e) => kind_outcome(s@) == Err::<TaskKind, ErrView>(err_view(e)),
            },
    {
        if str_eq(s, "task") {
            Ok(TaskKind::Task)
        } else if str_eq(s, "milestone") {
            Ok(TaskKind::Milestone)
        } else if str_eq(s, "checkpoint") {
            Ok(TaskKind::Checkpoint)
        } else {
            let q = debug_quoted(s);
            let mut m = owned("kind must be \"task\", \"milestone\", or \"checkpoint\", got ");
            m.append(q.as_str());
            Err(task_error(TaskErrorCode::InvalidKind, m))
        }
    }

    /// The name of the value.
    pub fn as_str(self) -> (r: &'static str)
        ensures
            r@ == kind_text(self),
    {
        match self {
            TaskKind::Task => "task",
            TaskKind::Milestone => "milestone",
            TaskKind::Checkpoint => "checkpoint",
        }
    }
}

/// The state of a task.
#[derive(Clone, Copy, PartialEq, Eq, Structural, Debug)]
pub enum TaskStatus {
    Backlog,
    Ready,
    Running,
    WaitingCheckpoint,
    Blocked,
    Done,
    Failed,
    Cancelled,
}

/// The name of each value.
pub open spec fn task_status_text(v: TaskStatus) -> Seq<char> {
    match v {
        TaskStatus::Backlog => "backlog"@,
        TaskStatus::Ready => "ready"@,
        TaskStatus::Running => "running"@,
        TaskStatus::WaitingCheckpoint => "waiting_checkpoint"@,
        TaskStatus::Blocked => "blocked"@,
        TaskStatus::Done => "done"@,
        TaskStatus::Failed => "failed"@,
        TaskStatus::Cancelled => "cancelled"@,
    }
}

/// The outcome of parsing a name.
pub open spec fn task_status_outcome(s: Seq<char>) -> Result<TaskStatus, ErrView> {
    if s == "backlog"@ {
        Ok(TaskStatus::Backlog)
    } else if s == "ready"@ {
        Ok(TaskStatus::Ready)
    } else if s == "running"@ {
        Ok(TaskStatus::Running)
    } else if s == "waiting_checkpoint"@ {
        Ok(TaskStatus::WaitingCheckpoint)
    } else if s == "blocked"@ {
        Ok(TaskStatus::Blocked)
    } else if s == "done"@ {
        Ok(TaskStatus::Done)
    } else if s == "failed"@ {
        Ok(TaskStatus::Failed)
    } else if s == "cancelled"@ {
        Ok(TaskStatus::Cancelled)
    } else {
        Err(task_err(TaskErrorCode::InvalidStatus, "invalid task status "@ + debug_text(s)))
    }
}

impl TaskStatus {
    /// Parse a name.
    pub fn parse(s: &str) -> (r: Result<TaskStatus, ToolError>)
        ensures
            match r {
                Ok(v) => task_status_outcome(s@) == Ok::<TaskStatus, ErrView>(v),
                Err(e) => task_status_outcome(s@) == Err::<TaskStatus, ErrView>(err_view(e)),
            },
    {
        if str_eq(s, "backlog") {
            Ok(TaskStatus::Backlog)
        } else if str_eq(s, "ready") {
            Ok(TaskStatus::Ready)
        } else if str_eq(s, "running") {
            Ok(TaskStatus::Running)
        } else if str_eq(s, "waiting_checkpoint") {
            Ok(TaskStatus::WaitingCheckpoint)
        } else if str_eq(s, "blocked") {
            Ok(TaskStatus::Blocked)
        } else if str_eq(s, "done") {
            Ok(TaskStatus::Done)
        } else if str_eq(s, "failed") {
            Ok(TaskStatus::Failed)
        } else if str_eq(s, "cancelled") {
            Ok(TaskStatus::Cancelled)
        } else {
            let q = debug_quoted(s);
            let mut m = owned("invalid task status ");
            m.append(q.as_str());
            Err(task_error(TaskErrorCode::InvalidStatus, m))
        }
    }

    /// The name of the value.
    pub fn as_str(self) -> (r: &'static str)
        ensures
            r@ == task_status_text(self),
    {
        match self {
            TaskStatus::Backlog => "backlog",
            TaskStatus::Ready => "ready",
            TaskStatus::Running => "running",
            TaskStatus::WaitingCheckpoint => "waiting_checkpoint",
            TaskStatus::Blocked => "blocked",
            TaskStatus::Done => "done",
            TaskStatus::Failed => "failed",
            TaskStatus::Cancelled => "cancelled",
        }
    }
}

/// Who works on a task.
#[derive(Clone, Copy, PartialEq, Eq, Structural, Debug)]
pub enum TaskOwner {
    Agent,
    Human,
}

/// The name of each value.
pub open spec fn owner_text(v: TaskOwner) -> Seq<char> {
    match v {
        TaskOwner::Agent => "agent"@,
        TaskOwner::Human => "human"@,
    }
}

/// The outcome of parsing a name.
pub open spec fn owner_outcome(s: Seq<char>) -> Result<TaskOwner, ErrView> {
    if s == "agent"@ {
        Ok(TaskOwner::Agent)
    } else if s == "human"@ {
        Ok(TaskOwner::Human)
    } else {
        Err(task_err(TaskErrorCode::InvalidOwner, "owner must be \"agent\" or \"human\", got "@ + debug_text(s)))
    }
}

impl TaskOwner {
    /// Parse a name.
    pub fn parse(s: &str) -> (r: Result<TaskOwner, ToolError>)
        ensures
            match r {
                Ok(v) => owner_outcome(s@) == Ok::<TaskOwner, ErrView>(v),
                Err(e) => owner_outcome(s@) == Err::<TaskOwner, ErrView>(err_view(e)),
            },
    {
        if str_eq(s, "agent") {
            Ok(TaskOwner::Agent)
        } else if str_eq(s, "human") {
            Ok(TaskOwner::Human)
        } else {
            let q = debug_quoted(s);
            let mut m = owned("owner must be \"agent\" or \"human\", got ");
            m.append(q.as_str());
            Err(task_error(TaskErrorCode::InvalidOwner, m))
        }
    }

    /// The name of the value.
    pub fn as_str(self) -> (r: &'static str)
        ensures
            r@ == owner_text(self),
    {
        match self {
            TaskOwner::Agent => "agent",
            TaskOwner::Human => "human",
        }
    }
}

/// The priority of a task.
#[derive(Clone, Copy, PartialEq, Eq, Structural, Debug)]
pub enum TaskPriority {
    Low,
    Medium,
    High,
}

/// The name of each value.
pub open spec fn task_priority_text(v: TaskPriority) -> Seq<char> {
    match v {
        TaskPriority::Low => "low"@,
        TaskPriority::Medium => "medium"@,
        TaskPriority::High => "high"@,
    }
}

/// The outcome of parsing a name.
pub open spec fn task_priority_outcome(s: Seq<char>) -> Result<TaskPriority, ErrView> {
    if s == "low"@ {
        Ok(TaskPriority::Low)
    } else if s == "medium"@ {
        Ok(TaskPriority::Medium)
    } else if s == "high"@ {
        Ok(TaskPriority::High)
    } else {
        Err(task_err(TaskErrorCode::InvalidPriority, "priority must be \"low\", \"medium\", or \"high\", got "@ + debug_text(s)))
    }
}

impl TaskPriority {
    /// Parse a name.
    pub fn parse(s: &str) -> (r: Result<TaskPriority, ToolError>)
        ensures
            match r {
                Ok(v) => task_priority_outcome(s@) == Ok::<TaskPriority, ErrView>(v),
                Err(e) => task_priority_outcome(s@) == Err::<TaskPriority, ErrView>(err_view(e)),
            },
    {
        if str_eq(s, "low") {
            Ok(TaskPriority::Low)
        } else if str_eq(s, "medium") {
            Ok(TaskPriority::Medium)
        } else if str_eq(s, "high") {
            Ok(TaskPriority::High)
        } else {
            let q = debug_quoted(s);
            let mut m = owned("priority must be \"low\", \"medium\", or \"high\", got ");
            m.append(q.as_str());
            Err(task_error(TaskErrorCode::InvalidPriority, m))
        }
    }

    /// The name of the value.
    pub fn as_str(self) -> (r: &'static str)
        ensures
            r@ == task_priority_text(self),
    {
        match self {
            TaskPriority::Low => "low",
            TaskPriority::Medium => "medium",
            TaskPriority::High => "high",
        }
    }
}

/// The risk of a task or checkpoint.
#[derive(Clone, Copy, PartialEq, Eq, Structural, Debug)]
pub enum RiskLevel {
    Low,
    Medium,
    High,
    Critical,
}

/// The name of each value.
pub open spec fn risk_text(v: RiskLevel) -> Seq<char> {
    match v {
        RiskLevel::Low => "low"@,
        RiskLevel::Medium => "medium"@,
        RiskLevel::High => "high"@,
        RiskLevel::Critical => "critical"@,
    }
}

/// The outcome of parsing a name.
pub open spec fn risk_outcome(s: Seq<char>) -> Result<RiskLevel, ErrView> {
    if s == "low"@ {
        Ok(RiskLevel::Low)
    } else if s == "medium"@ {
        Ok(RiskLevel::Medium)
    } else if s == "high"@ {
        Ok(RiskLevel::High)
    } else if s == "critical"@ {
        Ok(RiskLevel::Critical)
    } else {
        Err(task_err(TaskErrorCode::InvalidInput, "risk_level must be \"low\", \"medium\", \"high\", or \"critical\", got "@ + debug_text(s)))
    }
}

impl RiskLevel {
    /// Parse a name.
    pub fn parse(s: &str) -> (r: Result<RiskLevel, ToolError>)
        ensures
            match r {
                Ok(v) => risk_outcome(s@) == Ok::<RiskLevel, ErrView>(v),
                Err(e) => risk_outcome(s@) == Err::<RiskLevel, ErrView>(err_view(e)),
            },
    {
        if str_eq(s, "low") {
            Ok(RiskLevel::Low)
        } else if str_eq(s, "medium") {
            Ok(RiskLevel::Medium)
        } else if str_eq(s, "high") {
            Ok(RiskLevel::High)
        } else if str_eq(s, "critical") {
            Ok(RiskLevel::Critical)
        } else {
            let q = debug_quoted(s);
            let mut m = owned("risk_level must be \"low\", \"medium\", \"high\", or \"critical\", got ");
            m.append(q.as_str());
            Err(task_error(TaskErrorCode::InvalidInput, m))
        }
    }

    /// The name of the value.
    pub fn as_str(self) -> (r: &'static str)
        ensures
            r@ == risk_text(self),
    {
        match self {
            RiskLevel::Low => "low",
            RiskLevel::Medium => "medium",
            RiskLevel::High => "high",
            RiskLevel::Critical => "critical",
        }
    }
}

/// The state of a step.
#[derive(Clone, Copy, PartialEq, Eq, Structural, Debug)]
pub enum StepStatus {
    Pending,
    Running,
    Done,
    Failed,
    Cancelled,
}

/// The name of each value.
pub open spec fn step_status_text(v: StepStatus) -> Seq<char> {
    match v {
        StepStatus::Pending => "pending"@,
        StepStatus::Running => "running"@,
        StepStatus::Done => "done"@,
        StepStatus::Failed => "failed"@,
        StepStatus::Cancelled => "cancelled"@,
    }
}

/// The outcome of parsing a name.
pub open spec fn step_status_outcome(s: Seq<char>) -> Result<StepStatus, ErrView> {
    if s == "pending"@ {
        Ok(StepStatus::Pending)
    } else if s == "running"@ {
        Ok(StepStatus::Running)
    } else if s == "done"@ {
        Ok(StepStatus::Done)
    } else if s == "failed"@ {
        Ok(StepStatus::Failed)
    } else if s == "cancelled"@ {
        Ok(StepStatus::Cancelled)
    } else {
        Err(task_err(TaskErrorCode::InvalidStatus, "invalid step status "@ + debug_text(s)))
    }
}

impl StepStatus {
    /// Parse a name.
    pub fn parse(s: &str) -> (r: Result<StepStatus, ToolError>)
        ensures
            match r {
                Ok(v) => step_status_outcome(s@) == Ok::<StepStatus, ErrView>(v),
                Err(e) => step_status_outcome(s@) == Err::<StepStatus, ErrView>(err_view(e)),
            },
    {
        if str_eq(s, "pending") {
            Ok(StepStatus::Pending)
        } else if str_eq(s, "running") {
            Ok(StepStatus::Running)
        } else if str_eq(s, "done") {
            Ok(StepStatus::Done)
        } else if str_eq(s, "failed") {
            Ok(StepStatus::Failed)
        } else if str_eq(s, "cancelled") {
            Ok(StepStatus::Cancelled)
        } else {
            let q = debug_quoted(s);
            let mut m = owned("invalid step status ");
            m.append(q.as_str());
            Err(task_error(TaskErrorCode::InvalidStatus, m))
        }
    }

    /// The name of the value.
    pub fn as_str(self) -> (r: &'static str)
        ensures
            r@ == step_status_text(self),
    {
        match self {
            StepStatus::Pending => "pending",
            StepStatus::Running => "running",
            StepStatus::Done => "done",
            StepStatus::Failed => "failed",
            StepStatus::Cancelled => "cancelled",
        }
    }
}

/// The state of a run.
#[derive(Clone, Copy, PartialEq, Eq, Structural, Debug)]
pub enum RunStatus {
    Running,
    Done,
    Failed,
    Cancelled,
}

/// The name of each value.
pub open spec fn run_status_text(v: RunStatus) -> Seq<char> {
    match v {
        RunStatus::Running => "running"@,
        RunStatus::Done => "done"@,
        RunStatus::Failed => "failed"@,
        RunStatus::Cancelled => "cancelled"@,
    }
}

/// The outcome of parsing a name.
pub open spec fn run_status_outcome(s: Seq<char>) -> Result<RunStatus, ErrView> {
    if s == "running"@ {
        Ok(RunStatus::Running)
    } else if s == "done"@ {
        Ok(RunStatus::Done)
    } else if s == "failed"@ {
        Ok(RunStatus::Failed)
    } else if s == "cancelled"@ {
        Ok(RunStatus::Cancelled)
    } else {
        Err(task_err(TaskErrorCode::InvalidStatus, "invalid run status "@ + debug_text(s)))
    }
}

impl RunStatus {
    /// Parse a name.
    pub fn parse(s: &str) -> (r: Result<RunStatus, ToolError>)
        ensures
            match r {
                Ok(v) => run_status_outcome(s@) == Ok::<RunStatus, ErrView>(v),
                Err(e) => run_status_outcome(s@) == Err::<RunStatus, ErrView>(err_view(e)),
            },
    {
        if str_eq(s, "running") {
            Ok(RunStatus::Running)
        } else if str_eq(s, "done") {
            Ok(RunStatus::Done)
        } else if str_eq(s, "failed") {
            Ok(RunStatus::Failed)
        } else if str_eq(s, "cancelled") {
            Ok(RunStatus::Cancelled)
        } else {
            let q = debug_quoted(s);
            let mut m = owned("invalid run status ");
            m.append(q.as_str());
            Err(task_error(TaskErrorCode::InvalidStatus, m))
        }
    }

    /// The name of the value.
    pub fn as_str(self) -> (r: &'static str)
        ensures
            r@ == run_status_text(self),
    {
        match self {
            RunStatus::Running => "running",
            RunStatus::Done => "done",
            RunStatus::Failed => "failed",
            RunStatus::Cancelled => "cancelled",
        }
    }
}

/// The state of a checkpoint.
#[derive(Clone, Copy, PartialEq, Eq, Structural, Debug)]
pub enum CheckpointStatus {
    Open,
    Acknowledged,
    ActionRequired,
    Resolved,
    Closed,
}

/// The name of each value.
pub open spec fn checkpoint_status_text(v: CheckpointStatus) -> Seq<char> {
    match v {
        CheckpointStatus::Open => "open"@,
        CheckpointStatus::Acknowledged => "acknowledged"@,
        CheckpointStatus::ActionRequired => "action_required"@,
        CheckpointStatus::Resolved => "resolved"@,
        CheckpointStatus::Closed => "closed"@,
    }
}

/// The outcome of parsing a name.
pub open spec fn checkpoint_status_outcome(s: Seq<char>) -> Result<CheckpointStatus, ErrView> {
    if s == "open"@ {
        Ok(CheckpointStatus::Open)
    } else if s == "acknowledged"@ {
        Ok(CheckpointStatus::Acknowledged)
    } else if s == "action_required"@ {
        Ok(CheckpointStatus::ActionRequired)
    } else if s == "resolved"@ {
        Ok(CheckpointStatus::Resolved)
    } else if s == "closed"@ {
        Ok(CheckpointStatus::Closed)
    } else {
        Err(task_err(TaskErrorCode::InvalidStatus, "invalid checkpoint status "@ + debug_text(s)))
    }
}

impl CheckpointStatus {
    /// Parse a name.
    pub fn parse(s: &str) -> (r: Result<CheckpointStatus, ToolError>)
        ensures
            match r {
                Ok(v) => checkpoint_status_outcome(s@) == Ok::<CheckpointStatus, ErrView>(v),
                Err(e) => checkpoint_status_outcome(s@) == Err::<CheckpointStatus, ErrView>(err_view(e)),
            },
    {
        if str_eq(s, "open") {
            Ok(CheckpointStatus::Open)
        } else if str_eq(s, "acknowledged") {
            Ok(CheckpointStatus::Acknowledged)
        } else if str_eq(s, "action_required") {
            Ok(CheckpointStatus::ActionRequired)
        } else if str_eq(s, "resolved") {
            Ok(CheckpointStatus::Resolved)
        } else if str_eq(s, "closed") {
            Ok(CheckpointStatus::Closed)
        } else {
            let q = debug_quoted(s);
            let mut m = owned("invalid checkpoint status ");
            m.append(q.as_str());
            Err(task_error(TaskErrorCode::InvalidStatus, m))
        }
    }

    /// The name of the value.
    pub fn as_str(self) -> (r: &'static str)
        ensures
            r@ == checkpoint_status_text(self),
    {
        match self {
            CheckpointStatus::Open => "open",
            CheckpointStatus::Acknowledged => "acknowledged",
            CheckpointStatus::ActionRequired => "action_required",
            CheckpointStatus::Resolved => "resolved",
            CheckpointStatus::Closed => "closed",
        }
    }
}

/// The things a task tool looks up by id.
#[derive(Clone, Copy, PartialEq, Eq, Debug)]
pub enum TaskEntity {
    Task,
    Run,
    Step,
    Checkpoint,
    Lock,
}

/// The name of each entity in messages.
pub open spec fn entity_text(e: TaskEntity) -> Seq<char> {
    match e {
        TaskEntity::Task => "task"@,
        TaskEntity::Run => "run"@,
        TaskEntity::Step => "step"@,
        TaskEntity::Checkpoint => "checkpoint"@,
        TaskEntity::Lock => "lock"@,
    }
}

/// The error for an unknown id.
pub open spec fn not_found_err(e: TaskEntity, id: Seq<char>) -> ErrView {
    task_err(TaskErrorCode::NotFound, "no "@ + entity_text(e) + " with id `"@ + id + "`"@)
}

/// The error for an unknown id: `no <entity> with id `<id>``.
pub fn not_found(e: TaskEntity, id: &str) -> (r: ToolError)
    ensures
        err_view(r) == not_found_err(e, id@),
{
    let m = match e {
        TaskEntity::Task => concat3("no task with id `", id, "`"),
        TaskEntity::Run => concat3("no run with id `", id, "`"),
        TaskEntity::Step => concat3("no step with id `", id, "`"),
        TaskEntity::Checkpoint => concat3("no checkpoint with id `", id, "`"),
        TaskEntity::Lock => concat3("no lock with id `", id, "`"),
    };
    proof {
        reveal_strlit("no ");
        reveal_strlit(" with id `");
        reveal_strlit("no task with id `");
        reveal_strlit("no run with id `");
        reveal_strlit("no step with id `");
        reveal_strlit("no checkpoint with id `");
        reveal_strlit("no lock with id `");
        reveal_strlit("task");
        reveal_strlit("run");
        reveal_strlit("step");
        reveal_strlit("checkpoint");
        reveal_strlit("lock");
    }
    assert(m@ == "no "@ + entity_text(e) + " with id `"@ + id@ + "`"@);
    task_error(TaskErrorCode::NotFound, m)
}

/// A statement that changed `affected` rows: none means the id was unknown.
pub fn check_affected(affected: usize, e: TaskEntity, id: &str) -> (r: Result<(), ToolError>)
    ensures
        match r {
            Ok(()) => affected > 0,
            Err(err) => affected == 0 && err_view(err) == not_found_err(e, id@),
        },
{
    if affected == 0 {
        Err(not_found(e, id))
    } else {
        Ok(())
    }
}

/// A required lookup found its row, or the id is unknown.
pub fn check_found(found: bool, e: TaskEntity, id: &str) -> (r: Result<(), ToolError>)
    ensures
        match r {
            Ok(()) => found,
            Err(err) => !found && err_view(err) == not_found_err(e, id@),
        },
{
    if found {
        Ok(())
    } else {
        Err(not_found(e, id))
    }
}

/// Parse an optional name: absent stays absent.
pub open spec fn parse_opt<T>(o: Option<Seq<char>>, f: spec_fn(Seq<char>) -> Result<T, ErrView>) -> Result<Option<T>, ErrView> {
    match o {
        None => Ok(None),
        Some(s) => match f(s) {
            Ok(v) => Ok(Some(v)),
            Err(e) => Err(e),
        },
    }
}

/// A parsed `task_create` request.
pub struct CreateRequest {
    /// Trimmed, not empty.
    pub title: String,
    pub description: String,
    pub kind: TaskKind,
    pub owner: TaskOwner,
    pub priority: Option<TaskPriority>,
    pub tags: Vec<String>,
    pub goal: Option<String>,
    pub acceptance: Option<String>,
    pub risk_level: Option<RiskLevel>,
}

/// The abstract value of a create request.
pub struct CreateView {
    pub title: Seq<char>,
    pub description: Seq<char>,
    pub kind: TaskKind,
    pub owner: TaskOwner,
    pub priority: Option<TaskPriority>,
    pub tags: Seq<Seq<char>>,
    pub goal: Option<Seq<char>>,
    pub acceptance: Option<Seq<char>>,
    pub risk_level: Option<RiskLevel>,
}

/// The abstract value of a create request.
pub open spec fn create_view(r: CreateRequest) -> CreateView {
    CreateView {
        title: r.title@,
        description: r.description@,
        kind: r.kind,
        owner: r.owner,
        priority: r.priority,
        tags: string_views(r.tags@),
        goal: opt_view(r.goal),
        acceptance: opt_view(r.acceptance),
        risk_level: r.risk_level,
    }
}

/// The outcome of reading a `task_create` request. The title is required, trimmed and not
/// empty; `kind` (default task), `owner` (default agent), `priority` and `risk_level` are
/// parsed when they are strings; other members count only when they have the right type.
pub open spec fn create_request(params: Json) -> Result<CreateView, ErrView> {
    match str_param(params, "title"@) {
        Err(e) => Err(e),
        Ok(t) => if trim(t).len() == 0 {
            Err(task_err(TaskErrorCode::InvalidInput, "`title` must be non-empty"@))
        } else {
            match parse_opt(lenient_str(params, "kind"@), |s: Seq<char>| kind_outcome(s)) {
                Err(e) => Err(e),
                Ok(kind) => match parse_opt(lenient_str(params, "owner"@), |s: Seq<char>| owner_outcome(s)) {
                    Err(e) => Err(e),
                    Ok(owner) => match parse_opt(
                        lenient_str(params, "priority"@),
                        |s: Seq<char>| task_priority_outcome(s),
                    ) {
                        Err(e) => Err(e),
                        Ok(priority) => match parse_opt(
                            lenient_str(params, "risk_level"@),
                            |s: Seq<char>| risk_outcome(s),
                        ) {
                            Err(e) => Err(e),
                            Ok(risk_level) => Ok(
                                CreateView {
                                    title: trim(t),
                                    description: match lenient_str(params, "description"@) {
                                        Some(d) => d,
                                        None => Seq::empty(),
                                    },
                                    kind: match kind {
                                        Some(k) => k,
                                        None => TaskKind::Task,
                                    },
                                    owner: match owner {
                                        Some(o) => o,
                                        None => TaskOwner::Agent,
                                    },
                                    priority,
                                    tags: lenient_strings(params, "tags"@),
                                    goal: lenient_str(params, "goal"@),
                                    acceptance: lenient_str(params, "acceptance"@),
                                    risk_level,
                                },
                            ),
                        },
                    },
                },
            }
        },
    }
}

/// Law: a create request with a blank title is refused; an accepted one has a trimmed,
/// non-empty title, and takes kind task, owner agent and an empty description when the
/// request gives none of them.
pub proof fn law_create_refuses_blank_title_and_fills_defaults(params: Json)
    ensures
        (str_param(params, "title"@) matches Ok(t) && trim(t).len() == 0) ==> create_request(params) is Err,
        create_request(params) matches Ok(v) ==> {
            &&& v.title.len() > 0 && trim(v.title) == v.title
            &&& lenient_str(params, "kind"@) is None ==> v.kind == TaskKind::Task
            &&& lenient_str(params, "owner"@) is None ==> v.owner == TaskOwner::Agent
            &&& lenient_str(params, "description"@) is None ==> v.description == Seq::<char>::empty()
        },
{
    match str_param(params, "title"@) {
        Ok(t) => crate::memory::shape::lemma_trim_idempotent(t),
        Err(_) => {},
    }
}

/// Read a `task_create` request.
pub fn parse_create_request(params: &Json) -> (r: Result<CreateRequest, ToolError>)
    ensures
        match r {
            Ok(req) => create_request(*params) == Ok::<CreateView, ErrView>(create_view(req)),
            Err(e) => create_request(*params) == Err::<CreateView, ErrView>(err_view(e)),
        },
{
    let t = json_str(params, "title")?;
    let tc = chars_of(t.as_str());
    let title = trim_vec(tc.as_slice());
    if title.len() == 0 {
        return Err(task_error(TaskErrorCode::InvalidInput, owned("`title` must be non-empty")));
    }
    let description = match json_str_lenient(params, "description") {
        Some(d) => d,
        None => String::new(),
    };
    let kind = match json_str_lenient(params, "kind") {
        Some(s) => TaskKind::parse(s.as_str())?,
        None => TaskKind::Task,
    };
    let owner = match json_str_lenient(params, "owner") {
        Some(s) => TaskOwner::parse(s.as_str())?,
        None => TaskOwner::Agent,
    };
    let priority = match json_str_lenient(params, "priority") {
        Some(s) => Some(TaskPriority::parse(s.as_str())?),
        None => None,
    };
    let tags = json_strings_lenient(params, "tags");
    let goal = json_str_lenient(params, "goal");
    let acceptance = json_str_lenient(params, "acceptance");
    let risk_level = match json_str_lenient(params, "risk_level") {
        Some(s) => Some(RiskLevel::parse(s.as_str())?),
        None => None,
    };
    Ok(
        CreateRequest {
            title: string_of(title.as_slice()),
            description,
            kind,
            owner,
            priority,
            tags,
            goal,
            acceptance,
            risk_level,
        },
    )
}

/// What `serde_json::from_str::<Vec<String>>` gives for a text: its strings, or `None` when
/// the text is not a JSON array of strings.
pub uninterp spec fn json_list_decoding(text: Seq<char>) -> Option<Seq<Seq<char>>>;

/// A hexadecimal digit, in lower case.
pub open spec fn hex_digit(n: u32) -> char {
    if n < 10 {
        (48 + n) as char
    } else {
        (87 + n) as char
    }
}

/// How `serde_json` writes one character inside a JSON string: `"` and `\` and the control
/// characters are escaped, short forms first, `\u00XX` for the rest; others stand as they are.
pub open spec fn json_char_escape(c: char) -> Seq<char> {
    let v = c as u32;
    if c == '"' {
        seq!['\\', '"']
    } else if c == '\\' {
        seq!['\\', '\\']
    } else if v == 8 {
        seq!['\\', 'b']
    } else if v == 9 {
        seq!['\\', 't']
    } else if v == 10 {
        seq!['\\', 'n']
    } else if v == 12 {
        seq!['\\', 'f']
    } else if v == 13 {
        seq!['\\', 'r']
    } else if v < 0x20 {
        seq!['\\', 'u', '0', '0', hex_digit(v / 16), hex_digit(v % 16)]
    } else {
        seq![c]
    }
}

/// The escaped characters of a string.
pub open spec fn json_escaped(s: Seq<char>) -> Seq<char>
    decreases s.len(),
{
    if s.len() == 0 {
        seq![]
    } else {
        json_escaped(s.drop_last()) + json_char_escape(s.last())
    }
}

/// The array elements of a list of strings: each quoted and escaped, separated by `,`.
pub open spec fn json_elements(items: Seq<Seq<char>>) -> Seq<char>
    decreases items.len(),
{
    if items.len() == 0 {
        seq![]
    } else {
        let q = seq!['"'] + json_escaped(items.last()) + seq!['"'];
        if items.len() == 1 {
            q
        } else {
            json_elements(items.drop_last()) + seq![','] + q
        }
    }
}

/// The compact JSON text of a list of strings, as `serde_json::to_string` writes it.
pub open spec fn json_list_text(items: Seq<Seq<char>>) -> Seq<char> {
    seq!['['] + json_elements(items) + seq![']']
}

/// `serde_json::from_str::<Vec<String>>(text).ok()`. The text that `serde_json` writes for
/// a list of strings reads back as that list.
#[verifier::external_body]
fn decode_json_strings(text: &str) -> (r: Option<Vec<String>>)
    ensures
        match r {
            Some(v) => json_list_decoding(text@) == Some(string_views(v@)) && forall|
                items: Seq<Seq<char>>,
            |
                text@ == #[trigger] json_list_text(items) ==> string_views(v@) == items,
            None => json_list_decoding(text@) is None && forall|items: Seq<Seq<char>>|
                text@ != #[trigger] json_list_text(items),
        },
{
    serde_json::from_str::<Vec<String>>(text).ok()
}

/// `serde_json::to_string(items)`: writing strings into memory does not fail, and gives
/// the compact JSON array of the escaped strings.
#[verifier::external_body]
fn encode_json_strings(items: &Vec<String>) -> (r: Option<String>)
    ensures
        r is Some,
        match r {
            Some(t) => t@ == json_list_text(string_views(items@)),
            None => true,
        },
{
    serde_json::to_string(items).ok()
}

/// A stored list of strings: the decoded list, or empty when the text does not decode.
pub open spec fn stored_list(text: Seq<char>) -> Seq<Seq<char>> {
    match json_list_decoding(text) {
        Some(v) => v,
        None => seq![],
    }
}

/// The text a list of strings is stored as: its JSON.
pub open spec fn list_text(items: Seq<Seq<char>>) -> Seq<char> {
    json_list_text(items)
}

/// Decode a stored list of strings (tags, artifact references). A list's stored text reads
/// back as that list.
pub fn list_from_text(text: &str) -> (r: Vec<String>)
    ensures
        string_views(r@) == stored_list(text@),
        forall|items: Seq<Seq<char>>| text@ == #[trigger] list_text(items) ==> string_views(r@) == items,
{
    match decode_json_strings(text) {
        Some(v) => v,
        None => {
            let v: Vec<String> = Vec::new();
            assert(string_views(v@) =~= Seq::<Seq<char>>::empty());
            v
        },
    }
}

/// Encode a list of strings for storage.
pub fn list_to_text(items: &Vec<String>) -> (r: String)
    ensures
        r@ == list_text(string_views(items@)),
{
    match encode_json_strings(items) {
        Some(t) => t,
        None => owned("[]"),
    }
}

/// The stored artifact references after one more is added.
pub open spec fn refs_after(refs_text: Seq<char>, artifact_id: Seq<char>) -> Seq<char> {
    list_text(stored_list(refs_text).push(artifact_id))
}

/// Add an artifact id to the stored references of a task.
pub fn artifact_refs_after(refs_text: &str, artifact_id: &str) -> (r: String)
    ensures
        r@ == refs_after(refs_text@, artifact_id@),
{
    let mut refs = list_from_text(refs_text);
    let ghost before = string_views(refs@);
    refs.push(owned(artifact_id));
    assert(string_views(refs@) =~= before.push(artifact_id@));
    list_to_text(&refs)
}

/// A task as stored: the list members still in their stored text.
pub struct TaskRow {
    pub id: String,
    pub title: String,
    pub description: String,
    pub kind: String,
    pub status: String,
    pub owner: String,
    pub priority: Option<String>,
    pub tags_text: String,
    pub blocked_reason: Option<String>,
    pub goal: Option<String>,
    pub acceptance: Option<String>,
    pub risk_level: Option<String>,
    pub last_error: Option<String>,
    pub retry_count: i64,
    pub artifact_refs_text: String,
    pub created_at: String,
    pub updated_at: String,
}

/// A parsed `task_list` request.
pub struct ListRequest {
    pub status: Option<TaskStatus>,
    pub kind: Option<TaskKind>,
    pub owner: Option<TaskOwner>,
    pub tag: Option<String>,
    /// Between 1 and 200.
    pub limit: usize,
}

/// The listing limit: 50 when absent, else clamped to `1..=200`.
pub open spec fn list_limit(n: Option<u64>) -> int {
    match n {
        None => 50,
        Some(v) => if v < 1 {
            1
        } else if v > 200 {
            200
        } else {
            v as int
        },
    }
}

/// The outcome of reading a `task_list` request: the `status`, `kind` and `owner` filters
/// are parsed in that order when they are strings.
pub open spec fn list_request(params: Json) -> Result<
    (Option<TaskStatus>, Option<TaskKind>, Option<TaskOwner>, Option<Seq<char>>, int),
    ErrView,
> {
    match parse_opt(lenient_str(params, "status"@), |s: Seq<char>| task_status_outcome(s)) {
        Err(e) => Err(e),
        Ok(status) => match parse_opt(lenient_str(params, "kind"@), |s: Seq<char>| kind_outcome(s)) {
            Err(e) => Err(e),
            Ok(kind) => match parse_opt(lenient_str(params, "owner"@), |s: Seq<char>| owner_outcome(s)) {
                Err(e) => Err(e),
                Ok(owner) => Ok(
                    (status, kind, owner, lenient_str(params, "tag"@), list_limit(lenient_u64(params, "limit"@))),
                ),
            },
        },
    }
}

/// Read a `task_list` request.
pub fn parse_list_request(params: &Json) -> (r: Result<ListRequest, ToolError>)
    ensures
        match r {
            Ok(req) => list_request(*params) == Ok::<
                (Option<TaskStatus>, Option<TaskKind>, Option<TaskOwner>, Option<Seq<char>>, int),
                ErrView,
            >((req.status, req.kind, req.owner, opt_view(req.tag), req.limit as int)),
            Err(e) => list_request(*params) == Err::<
                (Option<TaskStatus>, Option<TaskKind>, Option<TaskOwner>, Option<Seq<char>>, int),
                ErrView,
            >(err_view(e)),
        },
{
    let status = match json_str_lenient(params, "status") {
        Some(s) => Some(TaskStatus::parse(s.as_str())?),
        None => None,
    };
    let kind = match json_str_lenient(params, "kind") {
        Some(s) => Some(TaskKind::parse(s.as_str())?),
        None => None,
    };
    let owner = match json_str_lenient(params, "owner") {
        Some(s) => Some(TaskOwner::parse(s.as_str())?),
        None => None,
    };
    let tag = json_str_lenient(params, "tag");
    let limit: usize = match json_u64_lenient(params, "limit") {
        None => 50,
        Some(v) => if v < 1 {
            1
        } else if v > 200 {
            200
        } else {
            v as usize
        },
    };
    Ok(ListRequest { status, kind, owner, tag, limit })
}

/// A stored task passes the listing filters.
pub open spec fn row_matches(
    row: TaskRow,
    status: Option<TaskStatus>,
    kind: Option<TaskKind>,
    owner: Option<TaskOwner>,
    tag: Option<Seq<char>>,
) -> bool {
    &&& (status matches Some(s) ==> row.status@ == task_status_text(s))
    &&& (kind matches Some(k) ==> row.kind@ == kind_text(k))
    &&& (owner matches Some(o) ==> row.owner@ == owner_text(o))
    &&& (tag matches Some(g) ==> stored_list(row.tags_text@).contains(g))
}

/// The positions `i < n` whose row passes the filters, in order.
pub open spec fn matching_rows(rows: Seq<TaskRow>, req: ListRequest, n: int) -> Seq<int>
    decreases n,
{
    if n <= 0 {
        seq![]
    } else {
        let prev = matching_rows(rows, req, n - 1);
        if row_matches(rows[n - 1], req.status, req.kind, req.owner, opt_view(req.tag)) {
            prev.push(n - 1)
        } else {
            prev
        }
    }
}

/// The matching positions are rows below `n`, in increasing order, that pass the filters.
proof fn lemma_matching_rows_pass(rows: Seq<TaskRow>, req: ListRequest, n: int)
    ensures
        forall|k: int|
            0 <= k < matching_rows(rows, req, n).len() ==> 0 <= #[trigger] matching_rows(rows, req, n)[k]
                < n && row_matches(
                rows[matching_rows(rows, req, n)[k]],
                req.status,
                req.kind,
                req.owner,
                opt_view(req.tag),
            ),
    decreases n,
{
    if n > 0 {
        lemma_matching_rows_pass(rows, req, n - 1);
        let prev = matching_rows(rows, req, n - 1);
        assert forall|k: int| 0 <= k < matching_rows(rows, req, n).len() implies 0
            <= #[trigger] matching_rows(rows, req, n)[k] < n && row_matches(
            rows[matching_rows(rows, req, n)[k]],
            req.status,
            req.kind,
            req.owner,
            opt_view(req.tag),
        ) by {
            if k < prev.len() {
                assert(matching_rows(rows, req, n)[k] == prev[k]);
            }
        }
    }
}

/// The matching positions increase, and every row below `n` that passes the filters is
/// among them.
proof fn lemma_matching_rows_complete(rows: Seq<TaskRow>, req: ListRequest, n: int)
    ensures
        forall|a: int, b: int|
            0 <= a < b < matching_rows(rows, req, n).len() ==> #[trigger] matching_rows(rows, req, n)[a]
                < #[trigger] matching_rows(rows, req, n)[b],
        forall|i: int|
            0 <= i < n && row_matches(#[trigger] rows[i], req.status, req.kind, req.owner, opt_view(req.tag))
                ==> matching_rows(rows, req, n).contains(i),
    decreases n,
{
    if n > 0 {
        lemma_matching_rows_complete(rows, req, n - 1);
        lemma_matching_rows_pass(rows, req, n - 1);
        let prev = matching_rows(rows, req, n - 1);
        let m = matching_rows(rows, req, n);
        assert forall|a: int, b: int| 0 <= a < b < m.len() implies #[trigger] m[a] < #[trigger] m[b] by {
            assert(m[a] == prev[a]);
            if b < prev.len() {
                assert(m[b] == prev[b]);
            }
        }
        assert forall|i: int|
            0 <= i < n && row_matches(#[trigger] rows[i], req.status, req.kind, req.owner, opt_view(req.tag))
                implies m.contains(i) by {
            if i < n - 1 {
                let k = choose|k: int| 0 <= k < prev.len() && prev[k] == i;
                assert(m[k] == i);
            } else {
                assert(m[prev.len() as int] == i);
            }
        }
    }
}

/// Law: a listing returns the rows in the store's order, and, when the limit leaves room,
/// every row that passes the filters.
pub proof fn law_task_listing_is_complete_in_store_order(rows: Seq<TaskRow>, req: ListRequest, r: Seq<int>)
    requires
        ({
            let m = matching_rows(rows, req, rows.len() as int);
            r == m.take(
                if (req.limit as int) < m.len() {
                    req.limit as int
                } else {
                    m.len() as int
                },
            )
        }),
    ensures
        forall|a: int, b: int| 0 <= a < b < r.len() ==> #[trigger] r[a] < #[trigger] r[b],
        matching_rows(rows, req, rows.len() as int).len() <= req.limit ==> forall|i: int|
            0 <= i < rows.len() && (req.status matches Some(s) ==> (#[trigger] rows[i]).status@ == task_status_text(s))
                && (req.kind matches Some(k) ==> rows[i].kind@ == kind_text(k)) && (req.owner matches Some(o)
                ==> rows[i].owner@ == owner_text(o)) && (req.tag matches Some(g) ==> stored_list(
                rows[i].tags_text@,
            ).contains(g@)) ==> r.contains(i),
{
    let m = matching_rows(rows, req, rows.len() as int);
    lemma_matching_rows_complete(rows, req, rows.len() as int);
    assert forall|a: int, b: int| 0 <= a < b < r.len() implies #[trigger] r[a] < #[trigger] r[b] by {
        assert(r[a] == m[a] && r[b] == m[b]);
    }
    if m.len() <= req.limit {
        assert(r == m);
        assert forall|i: int|
            0 <= i < rows.len() && (req.status matches Some(s) ==> (#[trigger] rows[i]).status@ == task_status_text(s))
                && (req.kind matches Some(k) ==> rows[i].kind@ == kind_text(k)) && (req.owner matches Some(o)
                ==> rows[i].owner@ == owner_text(o)) && (req.tag matches Some(g) ==> stored_list(
                rows[i].tags_text@,
            ).contains(g@)) implies r.contains(i) by {
            assert(row_matches(rows[i], req.status, req.kind, req.owner, opt_view(req.tag)));
        }
    }
}

/// Law: every task a listing returns passes every filter the request gives: its status,
/// kind and owner are the ones asked for, and it carries the tag asked for.
pub proof fn law_listed_tasks_pass_every_filter(rows: Seq<TaskRow>, req: ListRequest, r: Seq<int>)
    requires
        ({
            let m = matching_rows(rows, req, rows.len() as int);
            r == m.take(
                if (req.limit as int) < m.len() {
                    req.limit as int
                } else {
                    m.len() as int
                },
            )
        }),
    ensures
        forall|j: int| 0 <= j < r.len() ==> 0 <= #[trigger] r[j] < rows.len(),
        forall|j: int|
            0 <= j < r.len() ==> {
                let row = #[trigger] rows[r[j]];
                &&& req.status matches Some(s) ==> row.status@ == task_status_text(s)
                &&& req.kind matches Some(k) ==> row.kind@ == kind_text(k)
                &&& req.owner matches Some(o) ==> row.owner@ == owner_text(o)
                &&& req.tag matches Some(g) ==> stored_list(row.tags_text@).contains(g@)
            },
{
    let m = matching_rows(rows, req, rows.len() as int);
    lemma_matching_rows_pass(rows, req, rows.len() as int);
    assert forall|j: int| 0 <= j < r.len() implies 0 <= #[trigger] r[j] < rows.len() && {
        let row = rows[r[j]];
        &&& req.status matches Some(s) ==> row.status@ == task_status_text(s)
        &&& req.kind matches Some(k) ==> row.kind@ == kind_text(k)
        &&& req.owner matches Some(o) ==> row.owner@ == owner_text(o)
        &&& req.tag matches Some(g) ==> stored_list(row.tags_text@).contains(g@)
    } by {
        assert(r[j] == m[j]);
        assert(row_matches(rows[m[j]], req.status, req.kind, req.owner, opt_view(req.tag)));
    }
}

fn has_tag(tags: &Vec<String>, tag: &str) -> (r: bool)
    ensures
        r == string_views(tags@).contains(tag@),
{
    let ghost tv = string_views(tags@);
    let mut k: usize = 0;
    while k < tags.len()
        invariant
            tv == string_views(tags@),
            k <= tags@.len(),
            forall|q: int| 0 <= q < k ==> tv[q] != tag@,
        decreases tags@.len() - k,
    {
        if str_eq(tags[k].as_str(), tag) {
            assert(tv[k as int] == tag@);
            return true;
        }
        k = k + 1;
    }
    false
}

/// The positions of the stored tasks a listing shows: the rows come in the store's order
/// (newest update first) and the first `limit` that pass the filters are kept.
pub fn list_tasks(rows: &Vec<TaskRow>, req: &ListRequest) -> (r: Vec<usize>)
    ensures
        ({
            let m = matching_rows(rows@, *req, rows@.len() as int);
            r@.map_values(|i: usize| i as int) == m.take(
                if (req.limit as int) < m.len() {
                    req.limit as int
                } else {
                    m.len() as int
                },
            )
        }),
{
    let mut out: Vec<usize> = Vec::new();
    let mut i: usize = 0;
    while i < rows.len() && out.len() < req.limit
        invariant
            i <= rows@.len(),
            out@.len() <= req.limit,
            out@.map_values(|x: usize| x as int) == matching_rows(rows@, *req, i as int),
        decreases rows@.len() - i,
    {
        let row = &rows[i];
        let ok_status = match req.status {
            Some(s) => str_eq(row.status.as_str(), s.as_str()),
            None => true,
        };
        let ok_kind = match req.kind {
            Some(k) => str_eq(row.kind.as_str(), k.as_str()),
            None => true,
        };
        let ok_owner = match req.owner {
            Some(o) => str_eq(row.owner.as_str(), o.as_str()),
            None => true,
        };
        let ok_tag = match &req.tag {
            Some(g) => {
                let tags = list_from_text(row.tags_text.as_str());
                has_tag(&tags, g.as_str())
            },
            None => true,
        };
        let ghost before = out@;
        if ok_status && ok_kind && ok_owner && ok_tag {
            out.push(i);
            assert(out@.map_values(|x: usize| x as int) =~= before.map_values(|x: usize| x as int).push(i as int));
        }
        i = i + 1;
    }
    proof {
        lemma_matching_rows_prefix(rows@, *req, i as int, rows@.len() as int);
    }
    let ghost m = matching_rows(rows@, *req, rows@.len() as int);
    assert(out@.map_values(|x: usize| x as int) =~= m.take(out@.len() as int));
    out
}

/// Matching positions below `n` are a prefix of those below a larger bound; when the
/// shorter list stops short of `limit` matches, the longer one adds only later rows.
pub proof fn lemma_matching_rows_prefix(rows: Seq<TaskRow>, req: ListRequest, n: int, m: int)
    requires
        0 <= n <= m,
    ensures
        matching_rows(rows, req, m).len() >= matching_rows(rows, req, n).len(),
        matching_rows(rows, req, m).take(matching_rows(rows, req, n).len() as int)
            == matching_rows(rows, req, n),
    decreases m - n,
{
    if n < m {
        lemma_matching_rows_prefix(rows, req, n, m - 1);
        let a = matching_rows(rows, req, n);
        let b = matching_rows(rows, req, m - 1);
        let c = matching_rows(rows, req, m);
        assert(c.take(b.len() as int) == b);
        assert(c.take(a.len() as int) =~= b.take(a.len() as int));
    }
}

/// One field change of a `task_update`.
pub enum TaskFieldUpdate {
    Title(String),
    Description(String),
    Status(TaskStatus),
    Priority(Option<TaskPriority>),
    BlockedReason(Option<String>),
    LastError(Option<String>),
    Tags(Vec<String>),
    RiskLevel(Option<RiskLevel>),
}

/// The abstract value of a field change.
pub enum FieldChange {
    Title(Seq<char>),
    Description(Seq<char>),
    Status(TaskStatus),
    Priority(Option<TaskPriority>),
    BlockedReason(Option<Seq<char>>),
    LastError(Option<Seq<char>>),
    Tags(Seq<Seq<char>>),
    RiskLevel(Option<RiskLevel>),
}

/// The abstract value of a field change.
pub open spec fn change_view(u: TaskFieldUpdate) -> FieldChange {
    match u {
        TaskFieldUpdate::Title(t) => FieldChange::Title(t@),
        TaskFieldUpdate::Description(d) => FieldChange::Description(d@),
        TaskFieldUpdate::Status(s) => FieldChange::Status(s),
        TaskFieldUpdate::Priority(p) => FieldChange::Priority(p),
        TaskFieldUpdate::BlockedReason(b) => FieldChange::BlockedReason(opt_view(b)),
        TaskFieldUpdate::LastError(e) => FieldChange::LastError(opt_view(e)),
        TaskFieldUpdate::Tags(t) => FieldChange::Tags(string_views(t@)),
        TaskFieldUpdate::RiskLevel(r) => FieldChange::RiskLevel(r),
    }
}

/// The abstract values of field changes.
pub open spec fn changes_view(v: Seq<TaskFieldUpdate>) -> Seq<FieldChange> {
    v.map_values(|u: TaskFieldUpdate| change_view(u))
}

/// The changes of a `task_update` so far, and the error that stopped it, if any.
pub type Progress = (Seq<FieldChange>, Option<ErrView>);

/// Add a change unless the update has already stopped.
pub open spec fn then_change(p: Progress, c: Option<FieldChange>) -> Progress {
    if p.1 is Some {
        p
    } else {
        match c {
            Some(x) => (p.0.push(x), None),
            None => p,
        }
    }
}

/// Stop the update with an error unless it has already stopped.
pub open spec fn then_fail(p: Progress, e: ErrView) -> Progress {
    if p.1 is Some {
        p
    } else {
        (p.0, Some(e))
    }
}

/// A member that is `null` clears the field, a string of the right kind sets it, a bad
/// name stops the update, and anything else is ignored.
pub open spec fn then_named<T>(
    p: Progress,
    v: Option<Json>,
    f: spec_fn(Seq<char>) -> Result<T, ErrView>,
    make: spec_fn(Option<T>) -> FieldChange,
) -> Progress {
    match v {
        Some(Json::Null) => then_change(p, Some(make(None))),
        Some(Json::Str(s)) => match f(s@) {
            Ok(x) => then_change(p, Some(make(Some(x)))),
            Err(e) => then_fail(p, e),
        },
        _ => p,
    }
}

/// A member that is present sets a nullable text field: to its text when it is a string,
/// and to nothing otherwise.
pub open spec fn nullable_text(v: Option<Json>) -> Option<Option<Seq<char>>> {
    match v {
        None => None,
        Some(Json::Str(s)) => Some(Some(s@)),
        Some(_) => Some(None),
    }
}

/// The `title` stage of an update: a string is trimmed and must not be empty.
pub open spec fn stage_title(params: Json, p: Progress) -> Progress {
    match json_get(params, "title"@) {
        Some(Json::Str(t)) => if trim(t@).len() == 0 {
            then_fail(p, task_err(TaskErrorCode::InvalidInput, "`title` cannot be empty"@))
        } else {
            then_change(p, Some(FieldChange::Title(trim(t@))))
        },
        _ => p,
    }
}

/// The `description` stage: a string replaces the description.
pub open spec fn stage_description(params: Json, p: Progress) -> Progress {
    match json_get(params, "description"@) {
        Some(Json::Str(d)) => then_change(p, Some(FieldChange::Description(d@))),
        _ => p,
    }
}

/// The `status` stage: a string must name a task status.
pub open spec fn stage_status(params: Json, p: Progress) -> Progress {
    match json_get(params, "status"@) {
        Some(Json::Str(st)) => match task_status_outcome(st@) {
            Ok(x) => then_change(p, Some(FieldChange::Status(x))),
            Err(e) => then_fail(p, e),
        },
        _ => p,
    }
}

/// The `priority` stage: `null` clears it, a string must name a priority.
pub open spec fn stage_priority(params: Json, p: Progress) -> Progress {
    then_named(
        p,
        json_get(params, "priority"@),
        |s: Seq<char>| task_priority_outcome(s),
        |x: Option<TaskPriority>| FieldChange::Priority(x),
    )
}

/// The `blocked_reason` stage: present sets it to its text, or to nothing.
pub open spec fn stage_blocked(params: Json, p: Progress) -> Progress {
    match nullable_text(json_get(params, "blocked_reason"@)) {
        Some(b) => then_change(p, Some(FieldChange::BlockedReason(b))),
        None => p,
    }
}

/// The `last_error` stage: present sets it to its text, or to nothing.
pub open spec fn stage_last_error(params: Json, p: Progress) -> Progress {
    match nullable_text(json_get(params, "last_error"@)) {
        Some(b) => then_change(p, Some(FieldChange::LastError(b))),
        None => p,
    }
}

/// The `tags` stage: an array replaces the tags with its strings.
pub open spec fn stage_tags(params: Json, p: Progress) -> Progress {
    match json_get(params, "tags"@) {
        Some(Json::Array(items)) => then_change(p, Some(FieldChange::Tags(crate::json::strings_among(items@)))),
        _ => p,
    }
}

/// The `risk_level` stage: `null` clears it, a string must name a risk level.
pub open spec fn stage_risk(params: Json, p: Progress) -> Progress {
    then_named(
        p,
        json_get(params, "risk_level"@),
        |s: Seq<char>| risk_outcome(s),
        |x: Option<RiskLevel>| FieldChange::RiskLevel(x),
    )
}

/// The stages after `title`, in order.
pub open spec fn stages_after_title(params: Json, p: Progress) -> Progress {
    stage_risk(
        params,
        stage_tags(
            params,
            stage_last_error(
                params,
                stage_blocked(params, stage_priority(params, stage_status(params, stage_description(params, p)))),
            ),
        ),
    )
}

/// The changes a `task_update` makes, in order, and the error that stops it partway:
/// `title` (a string, trimmed, not empty), `description` (a string), `status`,
/// `priority` (`null` clears), `blocked_reason` and `last_error` (present: their text or
/// nothing), `tags` (an array; its strings), `risk_level` (`null` clears). Changes made
/// before an error stay made.
pub open spec fn update_plan(params: Json) -> Progress {
    stages_after_title(params, stage_title(params, (seq![], None)))
}

/// Once an update has stopped, later stages change nothing.
pub proof fn lemma_stopped_stays(params: Json, p: Progress)
    requires
        p.1 is Some,
    ensures
        stage_description(params, p) == p,
        stage_status(params, p) == p,
        stage_priority(params, p) == p,
        stage_blocked(params, p) == p,
        stage_last_error(params, p) == p,
        stage_tags(params, p) == p,
        stage_risk(params, p) == p,
        stages_after_title(params, p) == p,
{
}

/// The request field a change comes from.
pub open spec fn change_field(c: FieldChange) -> Seq<char> {
    match c {
        FieldChange::Title(_) => "title"@,
        FieldChange::Description(_) => "description"@,
        FieldChange::Status(_) => "status"@,
        FieldChange::Priority(_) => "priority"@,
        FieldChange::BlockedReason(_) => "blocked_reason"@,
        FieldChange::LastError(_) => "last_error"@,
        FieldChange::Tags(_) => "tags"@,
        FieldChange::RiskLevel(_) => "risk_level"@,
    }
}

/// Every change so far comes from a field the request gives.
pub open spec fn changes_given(params: Json, p: Progress) -> bool {
    forall|k: int| 0 <= k < p.0.len() ==> json_get(params, change_field(#[trigger] p.0[k])) is Some
}

/// Adding the change of a given field keeps every change to a given field.
proof fn lemma_change_given(params: Json, p: Progress, c: Option<FieldChange>)
    requires
        changes_given(params, p),
        c matches Some(x) ==> json_get(params, change_field(x)) is Some,
    ensures
        changes_given(params, then_change(p, c)),
{
    if p.1 is None && c is Some {
        let q = then_change(p, c);
        assert forall|k: int| 0 <= k < q.0.len() implies json_get(params, change_field(#[trigger] q.0[k])) is Some by {
            if k < p.0.len() {
                assert(q.0[k] == p.0[k]);
            }
        }
    }
}

/// Law: a task update changes only the fields that the request gives: each change of the
/// plan comes from a field present in the request, and a request that gives none of the
/// fields changes nothing and fails on nothing.
pub proof fn law_update_changes_only_given_fields(params: Json)
    ensures
        changes_given(params, update_plan(params)),
        (json_get(params, "title"@) is None && json_get(params, "description"@) is None && json_get(
            params,
            "status"@,
        ) is None && json_get(params, "priority"@) is None && json_get(params, "blocked_reason"@) is None
            && json_get(params, "last_error"@) is None && json_get(params, "tags"@) is None && json_get(
            params,
            "risk_level"@,
        ) is None) ==> update_plan(params) == (Seq::<FieldChange>::empty(), None::<ErrView>),
{
    let p0: Progress = (seq![], None);
    let p1 = stage_title(params, p0);
    match json_get(params, "title"@) {
        Some(Json::Str(t)) => {
            if trim(t@).len() != 0 {
                lemma_change_given(params, p0, Some(FieldChange::Title(trim(t@))));
            }
        },
        _ => {},
    }
    let p2 = stage_description(params, p1);
    match json_get(params, "description"@) {
        Some(Json::Str(d)) => lemma_change_given(params, p1, Some(FieldChange::Description(d@))),
        _ => {},
    }
    let p3 = stage_status(params, p2);
    match json_get(params, "status"@) {
        Some(Json::Str(st)) => match task_status_outcome(st@) {
            Ok(x) => lemma_change_given(params, p2, Some(FieldChange::Status(x))),
            Err(_) => {},
        },
        _ => {},
    }
    let p4 = stage_priority(params, p3);
    match json_get(params, "priority"@) {
        Some(Json::Null) => lemma_change_given(params, p3, Some(FieldChange::Priority(None))),
        Some(Json::Str(x)) => match task_priority_outcome(x@) {
            Ok(v) => lemma_change_given(params, p3, Some(FieldChange::Priority(Some(v)))),
            Err(_) => {},
        },
        _ => {},
    }
    let p5 = stage_blocked(params, p4);
    match nullable_text(json_get(params, "blocked_reason"@)) {
        Some(b) => lemma_change_given(params, p4, Some(FieldChange::BlockedReason(b))),
        None => {},
    }
    let p6 = stage_last_error(params, p5);
    match nullable_text(json_get(params, "last_error"@)) {
        Some(b) => lemma_change_given(params, p5, Some(FieldChange::LastError(b))),
        None => {},
    }
    let p7 = stage_tags(params, p6);
    match json_get(params, "tags"@) {
        Some(Json::Array(items)) => lemma_change_given(
            params,
            p6,
            Some(FieldChange::Tags(crate::json::strings_among(items@))),
        ),
        _ => {},
    }
    match json_get(params, "risk_level"@) {
        Some(Json::Null) => lemma_change_given(params, p7, Some(FieldChange::RiskLevel(None))),
        Some(Json::Str(x)) => match risk_outcome(x@) {
            Ok(v) => lemma_change_given(params, p7, Some(FieldChange::RiskLevel(Some(v)))),
            Err(_) => {},
        },
        _ => {},
    }
}

/// The changes to apply, and the error to report after them.
pub struct UpdatePlan {
    pub changes: Vec<TaskFieldUpdate>,
    pub error: Option<ToolError>,
}

/// The abstract value of an error option.
pub open spec fn opt_err(e: Option<ToolError>) -> Option<ErrView> {
    match e {
        Some(x) => Some(err_view(x)),
        None => None,
    }
}

fn push_change(changes: &mut Vec<TaskFieldUpdate>, u: TaskFieldUpdate)
    ensures
        changes_view(final(changes)@) == changes_view(old(changes)@).push(change_view(u)),
{
    let ghost before = changes_view(changes@);
    changes.push(u);
    assert(changes_view(changes@) =~= before.push(change_view(u)));
}

fn run_title(params: &Json, changes: &mut Vec<TaskFieldUpdate>) -> (r: Option<ToolError>)
    ensures
        stage_title(*params, (changes_view(old(changes)@), None)) == (changes_view(final(changes)@), opt_err(r)),
{
    match params.get("title") {
        Some(Json::Str(t)) => {
            let c = chars_of(t.as_str());
            let tt = trim_vec(c.as_slice());
            if tt.len() == 0 {
                return Some(task_error(TaskErrorCode::InvalidInput, owned("`title` cannot be empty")));
            }
            push_change(changes, TaskFieldUpdate::Title(string_of(tt.as_slice())));
        },
        _ => {},
    }
    None
}

fn run_description(params: &Json, changes: &mut Vec<TaskFieldUpdate>) -> (r: Option<ToolError>)
    ensures
        stage_description(*params, (changes_view(old(changes)@), None)) == (changes_view(final(changes)@), opt_err(r)),
{
    match params.get("description") {
        Some(Json::Str(d)) => push_change(changes, TaskFieldUpdate::Description(owned(d.as_str()))),
        _ => {},
    }
    None
}

fn run_status(params: &Json, changes: &mut Vec<TaskFieldUpdate>) -> (r: Option<ToolError>)
    ensures
        stage_status(*params, (changes_view(old(changes)@), None)) == (changes_view(final(changes)@), opt_err(r)),
{
    match params.get("status") {
        Some(Json::Str(st)) => match TaskStatus::parse(st.as_str()) {
            Ok(x) => push_change(changes, TaskFieldUpdate::Status(x)),
            Err(e) => {
                return Some(e);
            },
        },
        _ => {},
    }
    None
}

fn run_priority(params: &Json, changes: &mut Vec<TaskFieldUpdate>) -> (r: Option<ToolError>)
    ensures
        stage_priority(*params, (changes_view(old(changes)@), None)) == (changes_view(final(changes)@), opt_err(r)),
{
    match params.get("priority") {
        Some(Json::Null) => push_change(changes, TaskFieldUpdate::Priority(None)),
        Some(Json::Str(ps)) => match TaskPriority::parse(ps.as_str()) {
            Ok(x) => push_change(changes, TaskFieldUpdate::Priority(Some(x))),
            Err(e) => {
                return Some(e);
            },
        },
        _ => {},
    }
    None
}

fn run_blocked(params: &Json, changes: &mut Vec<TaskFieldUpdate>) -> (r: Option<ToolError>)
    ensures
        stage_blocked(*params, (changes_view(old(changes)@), None)) == (changes_view(final(changes)@), opt_err(r)),
{
    match params.get("blocked_reason") {
        Some(v) => {
            let b = match v {
                Json::Str(x) => Some(owned(x.as_str())),
                _ => None,
            };
            push_change(changes, TaskFieldUpdate::BlockedReason(b));
        },
        None => {},
    }
    None
}

fn run_last_error(params: &Json, changes: &mut Vec<TaskFieldUpdate>) -> (r: Option<ToolError>)
    ensures
        stage_last_error(*params, (changes_view(old(changes)@), None)) == (changes_view(final(changes)@), opt_err(r)),
{
    match params.get("last_error") {
        Some(v) => {
            let b = match v {
                Json::Str(x) => Some(owned(x.as_str())),
                _ => None,
            };
            push_change(changes, TaskFieldUpdate::LastError(b));
        },
        None => {},
    }
    None
}

fn run_tags(params: &Json, changes: &mut Vec<TaskFieldUpdate>) -> (r: Option<ToolError>)
    ensures
        stage_tags(*params, (changes_view(old(changes)@), None)) == (changes_view(final(changes)@), opt_err(r)),
{
    match params.get("tags") {
        Some(Json::Array(items)) => push_change(changes, TaskFieldUpdate::Tags(crate::json::collect_strings(items))),
        _ => {},
    }
    None
}

fn run_risk(params: &Json, changes: &mut Vec<TaskFieldUpdate>) -> (r: Option<ToolError>)
    ensures
        stage_risk(*params, (changes_view(old(changes)@), None)) == (changes_view(final(changes)@), opt_err(r)),
{
    match params.get("risk_level") {
        Some(Json::Null) => push_change(changes, TaskFieldUpdate::RiskLevel(None)),
        Some(Json::Str(rs)) => match RiskLevel::parse(rs.as_str()) {
            Ok(x) => push_change(changes, TaskFieldUpdate::RiskLevel(Some(x))),
            Err(e) => {
                return Some(e);
            },
        },
        _ => {},
    }
    None
}

/// Plan a `task_update` of an existing task: the changes to apply in order, and the error
/// to report once they are applied. An unknown task is refused before anything changes.
pub fn plan_task_update(task_exists: bool, id: &str, params: &Json) -> (r: Result<UpdatePlan, ToolError>)
    ensures
        match r {
            Ok(plan) => task_exists && update_plan(*params) == (changes_view(plan.changes@), opt_err(plan.error)),
            Err(e) => !task_exists && err_view(e) == not_found_err(TaskEntity::Task, id@),
        },
{
    if !task_exists {
        return Err(not_found(TaskEntity::Task, id));
    }
    let mut changes: Vec<TaskFieldUpdate> = Vec::new();
    assert(changes_view(changes@) =~= Seq::<FieldChange>::empty());
    let ghost p0: Progress = (changes_view(changes@), None);
    let e0 = run_title(params, &mut changes);
    let ghost p1: Progress = (changes_view(changes@), opt_err(e0));
    assert(p1 == stage_title(*params, p0));
    if e0.is_some() {
        proof {
            lemma_stopped_stays(*params, p1);
        }
        return Ok(UpdatePlan { changes, error: e0 });
    }
    let e1 = run_description(params, &mut changes);
    let ghost p2: Progress = (changes_view(changes@), opt_err(e1));
    assert(p2 == stage_description(*params, p1));
    if e1.is_some() {
        proof {
            lemma_stopped_stays(*params, p2);
        }
        return Ok(UpdatePlan { changes, error: e1 });
    }
    let e2 = run_status(params, &mut changes);
    let ghost p3: Progress = (changes_view(changes@), opt_err(e2));
    assert(p3 == stage_status(*params, p2));
    if e2.is_some() {
        proof {
            lemma_stopped_stays(*params, p3);
        }
        return Ok(UpdatePlan { changes, error: e2 });
    }
    let e3 = run_priority(params, &mut changes);
    let ghost p4: Progress = (changes_view(changes@), opt_err(e3));
    assert(p4 == stage_priority(*params, p3));
    if e3.is_some() {
        proof {
            lemma_stopped_stays(*params, p4);
        }
        return Ok(UpdatePlan { changes, error: e3 });
    }
    let e4 = run_blocked(params, &mut changes);
    let ghost p5: Progress = (changes_view(changes@), opt_err(e4));
    assert(p5 == stage_blocked(*params, p4));
    if e4.is_some() {
        proof {
            lemma_stopped_stays(*params, p5);
        }
        return Ok(UpdatePlan { changes, error: e4 });
    }
    let e5 = run_last_error(params, &mut changes);
    let ghost p6: Progress = (changes_view(changes@), opt_err(e5));
    assert(p6 == stage_last_error(*params, p5));
    if e5.is_some() {
        proof {
            lemma_stopped_stays(*params, p6);
        }
        return Ok(UpdatePlan { changes, error: e5 });
    }
    let e6 = run_tags(params, &mut changes);
    let ghost p7: Progress = (changes_view(changes@), opt_err(e6));
    assert(p7 == stage_tags(*params, p6));
    if e6.is_some() {
        proof {
            lemma_stopped_stays(*params, p7);
        }
        return Ok(UpdatePlan { changes, error: e6 });
    }
    let e7 = run_risk(params, &mut changes);
    let ghost p8: Progress = (changes_view(changes@), opt_err(e7));
    assert(p8 == stage_risk(*params, p7));
    if e7.is_some() {
        proof {
            lemma_stopped_stays(*params, p8);
        }
        return Ok(UpdatePlan { changes, error: e7 });
    }
    Ok(UpdatePlan { changes, error: None })
}

/// A parsed `task_end_run` request.
pub struct EndRunRequest {
    pub run_id: String,
    pub status: RunStatus,
    pub error: Option<String>,
    pub summary: Option<String>,
}

/// The outcome of reading a `task_end_run` request: `run_id` is required; `status` defaults
/// to `done` and must name a run status.
pub open spec fn end_run_request(params: Json) -> Result<
    (Seq<char>, RunStatus, Option<Seq<char>>, Option<Seq<char>>),
    ErrView,
> {
    match str_param(params, "run_id"@) {
        Err(e) => Err(e),
        Ok(run_id) => match run_status_outcome(
            match lenient_str(params, "status"@) {
                Some(s) => s,
                None => "done"@,
            },
        ) {
            Err(e) => Err(e),
            Ok(status) => Ok(
                (run_id, status, lenient_str(params, "error"@), lenient_str(params, "summary"@)),
            ),
        },
    }
}

/// Read a `task_end_run` request.
pub fn parse_end_run_request(params: &Json) -> (r: Result<EndRunRequest, ToolError>)
    ensures
        match r {
            Ok(req) => end_run_request(*params) == Ok::<
                (Seq<char>, RunStatus, Option<Seq<char>>, Option<Seq<char>>),
                ErrView,
            >((req.run_id@, req.status, opt_view(req.error), opt_view(req.summary))),
            Err(e) => end_run_request(*params) == Err::<
                (Seq<char>, RunStatus, Option<Seq<char>>, Option<Seq<char>>),
                ErrView,
            >(err_view(e)),
        },
{
    let run_id = json_str(params, "run_id")?;
    let status = match json_str_lenient(params, "status") {
        Some(s) => RunStatus::parse(s.as_str())?,
        None => RunStatus::parse("done")?,
    };
    let error = json_str_lenient(params, "error");
    let summary = json_str_lenient(params, "summary");
    Ok(EndRunRequest { run_id, status, error, summary })
}

/// The task status that ending a run with the given status sets.
pub open spec fn status_after_run(s: RunStatus) -> TaskStatus {
    match s {
        RunStatus::Done => TaskStatus::Done,
        RunStatus::Failed => TaskStatus::Failed,
        RunStatus::Cancelled => TaskStatus::Cancelled,
        RunStatus::Running => TaskStatus::Running,
    }
}

/// Law: ending a run gives the task the status named like the run's end: done, failed or
/// cancelled (a run still running leaves the task running).
pub proof fn law_run_end_names_task_status(s: RunStatus)
    ensures
        task_status_text(status_after_run(s)) == run_status_text(s),
{
}

/// The task status that ending a run sets.
pub fn task_status_after_run(s: RunStatus) -> (r: TaskStatus)
    ensures
        r == status_after_run(s),
{
    match s {
        RunStatus::Done => TaskStatus::Done,
        RunStatus::Failed => TaskStatus::Failed,
        RunStatus::Cancelled => TaskStatus::Cancelled,
        RunStatus::Running => TaskStatus::Running,
    }
}

/// A parsed `task_close_checkpoint` request.
pub struct CloseCheckpointRequest {
    pub checkpoint_id: String,
    pub status: CheckpointStatus,
    /// The status the task moves to.
    pub task_status: TaskStatus,
}

/// The outcome of reading a `task_close_checkpoint` request: `checkpoint_id` is required;
/// `status` defaults to `closed`, `task_status` to `ready`, and each must be a valid name.
pub open spec fn close_checkpoint_request(params: Json) -> Result<(Seq<char>, CheckpointStatus, TaskStatus), ErrView> {
    match str_param(params, "checkpoint_id"@) {
        Err(e) => Err(e),
        Ok(id) => match checkpoint_status_outcome(
            match lenient_str(params, "status"@) {
                Some(s) => s,
                None => "closed"@,
            },
        ) {
            Err(e) => Err(e),
            Ok(status) => match task_status_outcome(
                match lenient_str(params, "task_status"@) {
                    Some(s) => s,
                    None => "ready"@,
                },
            ) {
                Err(e) => Err(e),
                Ok(ts) => Ok((id, status, ts)),
            },
        },
    }
}

/// Read a `task_close_checkpoint` request.
pub fn parse_close_checkpoint_request(params: &Json) -> (r: Result<CloseCheckpointRequest, ToolError>)
    ensures
        match r {
            Ok(req) => close_checkpoint_request(*params) == Ok::<(Seq<char>, CheckpointStatus, TaskStatus), ErrView>(
                (req.checkpoint_id@, req.status, req.task_status),
            ),
            Err(e) => close_checkpoint_request(*params) == Err::<(Seq<char>, CheckpointStatus, TaskStatus), ErrView>(
                err_view(e),
            ),
        },
{
    let checkpoint_id = json_str(params, "checkpoint_id")?;
    let status = match json_str_lenient(params, "status") {
        Some(s) => CheckpointStatus::parse(s.as_str())?,
        None => CheckpointStatus::parse("closed")?,
    };
    let task_status = match json_str_lenient(params, "task_status") {
        Some(s) => TaskStatus::parse(s.as_str())?,
        None => TaskStatus::parse("ready")?,
    };
    Ok(CloseCheckpointRequest { checkpoint_id, status, task_status })
}

/// A parsed `task_start_run` request.
pub struct StartRunRequest {
    pub task_id: String,
    pub step_id: Option<String>,
}

/// Read a `task_start_run` request: `task_id` is required, `step_id` counts when it is a
/// string.
pub fn parse_start_run_request(params: &Json) -> (r: Result<StartRunRequest, ToolError>)
    ensures
        match r {
            Ok(req) => str_param(*params, "task_id"@) == Ok::<Seq<char>, ErrView>(req.task_id@)
                && opt_view(req.step_id) == lenient_str(*params, "step_id"@),
            Err(e) => str_param(*params, "task_id"@) == Err::<Seq<char>, ErrView>(err_view(e)),
        },
{
    let task_id = json_str(params, "task_id")?;
    Ok(StartRunRequest { task_id, step_id: json_str_lenient(params, "step_id") })
}

/// A parsed `task_append_step` request.
pub struct AppendStepRequest {
    pub task_id: String,
    /// Trimmed, not empty.
    pub title: String,
}

/// The outcome of reading a `task_append_step` request: `task_id`, then `title`, which is
/// trimmed and must not be empty.
pub open spec fn append_step_request(params: Json) -> Result<(Seq<char>, Seq<char>), ErrView> {
    match str_param(params, "task_id"@) {
        Err(e) => Err(e),
        Ok(task_id) => match str_param(params, "title"@) {
            Err(e) => Err(e),
            Ok(t) => if trim(t).len() == 0 {
                Err(task_err(TaskErrorCode::InvalidInput, "`title` must be non-empty"@))
            } else {
                Ok((task_id, trim(t)))
            },
        },
    }
}

/// Read a `task_append_step` request.
pub fn parse_append_step_request(params: &Json) -> (r: Result<AppendStepRequest, ToolError>)
    ensures
        match r {
            Ok(req) => append_step_request(*params) == Ok::<(Seq<char>, Seq<char>), ErrView>(
                (req.task_id@, req.title@),
            ),
            Err(e) => append_step_request(*params) == Err::<(Seq<char>, Seq<char>), ErrView>(err_view(e)),
        },
{
    let task_id = json_str(params, "task_id")?;
    let t = json_str(params, "title")?;
    let c = chars_of(t.as_str());
    let title = trim_vec(c.as_slice());
    if title.len() == 0 {
        return Err(task_error(TaskErrorCode::InvalidInput, owned("`title` must be non-empty")));
    }
    Ok(AppendStepRequest { task_id, title: string_of(title.as_slice()) })
}

/// The outcome of reading a `task_update_step` request: `step_id`, then `status`, which is
/// required and must name a step status.
pub open spec fn update_step_request(params: Json) -> Result<(Seq<char>, StepStatus), ErrView> {
    match str_param(params, "step_id"@) {
        Err(e) => Err(e),
        Ok(step_id) => match str_param(params, "status"@) {
            Err(e) => Err(e),
            Ok(s) => match step_status_outcome(s) {
                Err(e) => Err(e),
                Ok(st) => Ok((step_id, st)),
            },
        },
    }
}

/// Read a `task_update_step` request.
pub fn parse_update_step_request(params: &Json) -> (r: Result<(String, StepStatus), ToolError>)
    ensures
        match r {
            Ok((id, st)) => update_step_request(*params) == Ok::<(Seq<char>, StepStatus), ErrView>((id@, st)),
            Err(e) => update_step_request(*params) == Err::<(Seq<char>, StepStatus), ErrView>(err_view(e)),
        },
{
    let step_id = json_str(params, "step_id")?;
    let s = json_str(params, "status")?;
    let st = StepStatus::parse(s.as_str())?;
    Ok((step_id, st))
}

/// A parsed `task_open_checkpoint` request.
pub struct OpenCheckpointRequest {
    pub task_id: String,
    pub message: String,
    pub run_id: Option<String>,
    pub risk_level: Option<RiskLevel>,
}

/// The outcome of reading a `task_open_checkpoint` request: `task_id`, `message`, then
/// `risk_level` when it is a string.
pub open spec fn open_checkpoint_request(params: Json) -> Result<
    (Seq<char>, Seq<char>, Option<Seq<char>>, Option<RiskLevel>),
    ErrView,
> {
    match str_param(params, "task_id"@) {
        Err(e) => Err(e),
        Ok(task_id) => match str_param(params, "message"@) {
            Err(e) => Err(e),
            Ok(message) => match parse_opt(lenient_str(params, "risk_level"@), |s: Seq<char>| risk_outcome(s)) {
                Err(e) => Err(e),
                Ok(risk) => Ok((task_id, message, lenient_str(params, "run_id"@), risk)),
            },
        },
    }
}

/// Read a `task_open_checkpoint` request.
pub fn parse_open_checkpoint_request(params: &Json) -> (r: Result<OpenCheckpointRequest, ToolError>)
    ensures
        match r {
            Ok(req) => open_checkpoint_request(*params) == Ok::<
                (Seq<char>, Seq<char>, Option<Seq<char>>, Option<RiskLevel>),
                ErrView,
            >((req.task_id@, req.message@, opt_view(req.run_id), req.risk_level)),
            Err(e) => open_checkpoint_request(*params) == Err::<
                (Seq<char>, Seq<char>, Option<Seq<char>>, Option<RiskLevel>),
                ErrView,
            >(err_view(e)),
        },
{
    let task_id = json_str(params, "task_id")?;
    let message = json_str(params, "message")?;
    let run_id = json_str_lenient(params, "run_id");
    let risk_level = match json_str_lenient(params, "risk_level") {
        Some(s) => Some(RiskLevel::parse(s.as_str())?),
        None => None,
    };
    Ok(OpenCheckpointRequest { task_id, message, run_id, risk_level })
}

/// A parsed `task_acquire_lock` request.
pub struct LockRequest {
    pub task_id: String,
    pub path: String,
    pub run_id: Option<String>,
    pub expires_at: Option<String>,
}

/// Read a `task_acquire_lock` request: `task_id` and `path` are required.
pub fn parse_lock_request(params: &Json) -> (r: Result<LockRequest, ToolError>)
    ensures
        match r {
            Ok(req) => str_param(*params, "task_id"@) == Ok::<Seq<char>, ErrView>(req.task_id@)
                && str_param(*params, "path"@) == Ok::<Seq<char>, ErrView>(req.path@)
                && opt_view(req.run_id) == lenient_str(*params, "run_id"@)
                && opt_view(req.expires_at) == lenient_str(*params, "expires_at"@),
            Err(e) => match str_param(*params, "task_id"@) {
                Err(x) => x == err_view(e),
                Ok(_) => str_param(*params, "path"@) == Err::<Seq<char>, ErrView>(err_view(e)),
            },
        },
{
    let task_id = json_str(params, "task_id")?;
    let path = json_str(params, "path")?;
    Ok(
        LockRequest {
            task_id,
            path,
            run_id: json_str_lenient(params, "run_id"),
            expires_at: json_str_lenient(params, "expires_at"),
        },
    )
}

/// A failed lock insert: a uniqueness violation means the path is locked already; other
/// failures pass through.
pub open spec fn lock_failure(e: ErrView, path: Seq<char>) -> ErrView {
    if contains(e.1, "UNIQUE"@) {
        task_err(TaskErrorCode::LockConflict, "path `"@ + path + "` is already locked"@)
    } else {
        e
    }
}

/// Map a failed lock insert.
pub fn lock_insert_error(e: ToolError, path: &str) -> (r: ToolError)
    ensures
        err_view(r) == lock_failure(err_view(e), path@),
{
    let m = chars_of(e.message.as_str());
    let u = chars_of("UNIQUE");
    if contains_exec(m.as_slice(), u.as_slice()) {
        task_error(TaskErrorCode::LockConflict, concat3("path `", path, "` is already locked"))
    } else {
        e
    }
}

/// A failed lookup of one task: "no rows" from storage means the id is unknown; other
/// failures pass through.
pub open spec fn get_failure(e: ErrView, id: Seq<char>) -> ErrView {
    if e.0 == task_code_text(TaskErrorCode::StorageError) && contains(e.1, "no rows"@) {
        not_found_err(TaskEntity::Task, id)
    } else {
        e
    }
}

/// Map a failed lookup of one task.
pub fn task_get_error(e: ToolError, id: &str) -> (r: ToolError)
    ensures
        err_view(r) == get_failure(err_view(e), id@),
{
    let m = chars_of(e.message.as_str());
    let nr = chars_of("no rows");
    if str_eq(e.code.as_str(), TaskErrorCode::StorageError.as_str()) && contains_exec(
        m.as_slice(),
        nr.as_slice(),
    ) {
        not_found(TaskEntity::Task, id)
    } else {
        e
    }
}

/// A storage failure, with the storage layer's message.
pub fn storage_error(message: String) -> (r: ToolError)
    ensures
        err_view(r) == task_err(TaskErrorCode::StorageError, message@),
{
    task_error(TaskErrorCode::StorageError, message)
}

/// A parsed `task_add_artifact` request.
pub struct ArtifactRequest {
    pub task_id: String,
    pub kind: String,
    pub run_id: Option<String>,
    pub path: Option<String>,
    pub content: Option<String>,
}

/// Read a `task_add_artifact` request: `task_id` and `kind` are required.
pub fn parse_artifact_request(params: &Json) -> (r: Result<ArtifactRequest, ToolError>)
    ensures
        match r {
            Ok(req) => str_param(*params, "task_id"@) == Ok::<Seq<char>, ErrView>(req.task_id@)
                && str_param(*params, "kind"@) == Ok::<Seq<char>, ErrView>(req.kind@)
                && opt_view(req.run_id) == lenient_str(*params, "run_id"@)
                && opt_view(req.path) == lenient_str(*params, "path"@)
                && opt_view(req.content) == lenient_str(*params, "content"@),
            Err(e) => match str_param(*params, "task_id"@) {
                Err(x) => x == err_view(e),
                Ok(_) => str_param(*params, "kind"@) == Err::<Seq<char>, ErrView>(err_view(e)),
            },
        },
{
    let task_id = json_str(params, "task_id")?;
    let kind = json_str(params, "kind")?;
    Ok(
        ArtifactRequest {
            task_id,
            kind,
            run_id: json_str_lenient(params, "run_id"),
            path: json_str_lenient(params, "path"),
            content: json_str_lenient(params, "content"),
        },
    )
}

/// The database file: the relative path joined onto the root (an absolute one replaces
/// it).
pub fn task_db_path(root_canonical: &str, db_relative: &str) -> (r: String)
    ensures
        r@ == crate::path::join_path(root_canonical@, db_relative@),
{
    crate::path::join_exec(root_canonical, db_relative)
}

} // verus!
