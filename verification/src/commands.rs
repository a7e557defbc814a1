//! The values the app's window sees — a task's row, a run, a log tail, an
//! adoption diff — and the rules that derive them: the status dot, the
//! uptime, the log window.

use vstd::prelude::*;

use crate::env::{env_map, env_set, unique_keys};
use crate::model::{
    AdoptionPlan, ExternalAgent, MAX_INSTANT_MS, MIN_INSTANT_MS, Run, StopReason, Task, Trigger, TriggerKind,
    instant_ok,
};
use crate::paths::starts_with_path;
use crate::text::{copy_string, push_str, string_of};
use crate::trigger_args::texts;

verus! {

/// The status dot in the task list.
#[derive(Debug, Clone, Copy, PartialEq, Eq, Structural)]
pub enum TaskStatus {
    /// Last run succeeded (`ok` on the wire).
    Succeeded,
    /// Last run failed, timed out or was killed.
    Failed,
    /// A run is in flight.
    Running,
    /// Enabled but never run.
    Never,
    /// Not loaded into launchd.
    Disabled,
    /// A service that is loaded but not running right now.
    Stopped,
}

/// One environment variable.
#[derive(Debug, Clone, PartialEq, Eq)]
pub struct EnvVar {
    /// Variable name.
    pub key: String,
    /// Variable value.
    pub value: String,
}

/// A run's row id, as it crosses the bridge.
#[derive(Debug, Clone, Copy, PartialEq, Eq, Structural)]
pub struct RunHandle(pub i64);

/// One recorded execution, as the window sees it. Timestamps are RFC 3339
/// strings.
#[derive(Debug, Clone, PartialEq, Eq)]
pub struct RunView {
    /// Row id; the handle the log reader takes.
    pub id: RunHandle,
    /// RFC 3339, UTC.
    pub started_at: String,
    /// RFC 3339, UTC. `None` while the run is in flight.
    pub finished_at: Option<String>,
    /// Exit code. `None` with `finished_at` set means killed by a signal.
    pub exit_code: Option<i32>,
    /// Wall-clock duration, `None` while running.
    pub duration_ms: Option<i64>,
    /// launchd-triggered or user-triggered.
    pub trigger_kind: TriggerKind,
    /// Why the run ended.
    pub stop_reason: Option<StopReason>,
    /// True while `finished_at` is unset.
    pub running: bool,
}

/// A task as the list renders it.
#[derive(Debug, Clone, PartialEq, Eq)]
pub struct TaskView {
    /// Unique name.
    pub name: String,
    /// Human-facing name.
    pub display_name: String,
    /// Optional longer description.
    pub description: Option<String>,
    /// Structured trigger, for the editor.
    pub trigger: Trigger,
    /// The trigger in words, for the list row.
    pub trigger_text: String,
    /// How the task runs, as one line.
    pub interpreter_label: Option<String>,
    /// A `Manual` task, driven by start/stop rather than by a schedule.
    pub is_service: bool,
    /// launchd `KeepAlive`.
    pub keep_alive: bool,
    /// Plist present and launchd knows the label.
    pub enabled: bool,
    /// Pid of the running job, when launchd reports one.
    pub loaded_pid: Option<u32>,
    /// Seconds since the run still in flight started.
    pub uptime_secs: Option<i64>,
    /// Newest run, when there is one.
    pub last_run: Option<RunView>,
    /// Free-form tags.
    pub tags: Vec<String>,
    /// Pinned to the menu bar.
    pub favorite: bool,
    /// Post a notification when a run fails.
    pub notify_on_fail: bool,
    /// The status dot.
    pub status: TaskStatus,
}

/// Which section of the interpreter picker an entry belongs to.
#[derive(Debug, Clone, Copy, PartialEq, Eq, Structural)]
pub enum InterpreterGroup {
    /// The one recommended entry.
    Recommended,
    /// A `.venv` belonging to the script's own project.
    Project,
    /// Everything else.
    Path,
}

/// Which of a run's two captured streams to read.
#[derive(Debug, Clone, Copy, PartialEq, Eq, Structural)]
pub enum LogStream {
    /// The script's standard output.
    Stdout,
    /// The script's standard error.
    Stderr,
}

/// The tail of one log file.
#[derive(Debug, Clone, PartialEq, Eq)]
pub struct LogChunk {
    /// The tail, lossily decoded as UTF-8.
    pub content: String,
    /// Size of the whole file on disk.
    pub total_bytes: i64,
    /// True when `content` is only the tail of a larger file.
    pub truncated: bool,
}

/// The three service verbs.
#[derive(Debug, Clone, Copy, PartialEq, Eq, Structural)]
pub enum Lifecycle {
    /// Load the job if needed, then start it.
    Start,
    /// SIGTERM through launchd; the job stays loaded.
    Stop,
    /// Stop, then start.
    Restart,
}

impl Lifecycle {
    /// The past tense a finished verb is reported with.
    pub fn past_tense(self) -> (s: &'static str)
        ensures
            s@ == (match self {
                Lifecycle::Start => "已启动"@,
                Lifecycle::Stop => "已停止"@,
                Lifecycle::Restart => "已重启"@,
            }),
    {
        match self {
            Lifecycle::Start => "已启动",
            Lifecycle::Stop => "已停止",
            Lifecycle::Restart => "已重启",
        }
    }
}

/// What the form needs to know about a script path before saving it.
#[derive(Debug, Clone, Copy, PartialEq, Eq, Structural)]
pub struct ScriptCheck {
    /// The path resolves to something.
    pub exists: bool,
    /// A regular file with an execute bit.
    pub executable: bool,
}

/// One line of an adoption diff: a plist key and its value on one line.
#[derive(Debug, Clone, PartialEq, Eq)]
pub struct DiffEntry {
    /// The plist key.
    pub key: String,
    /// Its value, on one line.
    pub value: String,
}

/// What adoption would do to one plist, key by key.
#[derive(Debug, Clone, PartialEq, Eq)]
pub struct AdoptionPlanView {
    /// The label, which adoption does not change.
    pub label: String,
    /// The task name the adopted job would get.
    pub name: String,
    /// The plist that would be rewritten, abbreviated.
    pub path: String,
    /// Where the original bytes go first, abbreviated.
    pub backup_path: String,
    /// Keys the rewrite drops, with their current values.
    pub removed: Vec<DiffEntry>,
    /// Keys it adds or changes, with their new values.
    pub added: Vec<DiffEntry>,
    /// Keys that come through untouched.
    pub kept: Vec<DiffEntry>,
}

// ---------------------------------------------------------------------------
// Runs
// ---------------------------------------------------------------------------

/// How chrono writes an instant in RFC 3339 with milliseconds and a `Z`.
pub uninterp spec fn rfc3339_text(ms: int) -> Seq<char>;

/// `DateTime::<Utc>::from_timestamp_millis(ms)` written with
/// `to_rfc3339_opts(SecondsFormat::Millis, true)`.
#[verifier::external_body]
pub(crate) fn rfc3339_millis(ms: i64) -> (s: String)
    requires
        instant_ok(ms),
    ensures
        s@ == rfc3339_text(ms as int),
{
    match chrono::DateTime::from_timestamp_millis(ms) {
        Some(t) => t.to_rfc3339_opts(chrono::SecondsFormat::Millis, true),
        None => String::new(),
    }
}

/// `finished - started` in milliseconds, never negative.
pub open spec fn duration_of(started: i64, finished: i64) -> i64 {
    if finished - started <= 0 {
        0
    } else {
        (finished - started) as i64
    }
}

/// The view a run is shown as.
pub open spec fn run_view_of(r: Run, v: RunView) -> bool {
    &&& v.id == RunHandle(r.id)
    &&& v.started_at@ == rfc3339_text(r.started_at_ms as int)
    &&& match (r.finished_at_ms, v.finished_at) {
        (Some(f), Some(s)) => s@ == rfc3339_text(f as int),
        (None, None) => true,
        _ => false,
    }
    &&& v.exit_code == r.exit_code
    &&& v.duration_ms == match r.finished_at_ms {
        Some(f) => Some(duration_of(r.started_at_ms, f)),
        None => None,
    }
    &&& v.trigger_kind == r.trigger_kind
    &&& v.stop_reason == r.stop_reason
    &&& v.running == (r.finished_at_ms is None)
}

impl RunView {
    /// The view of one recorded run.
    pub fn from_run(r: &Run) -> (v: RunView)
        requires
            r.wf(),
        ensures
            run_view_of(*r, v),
    {
        let finished_at = match r.finished_at_ms {
            Some(f) => Some(rfc3339_millis(f)),
            None => None,
        };
        let duration_ms = match r.finished_at_ms {
            Some(f) => Some(
                if f - r.started_at_ms <= 0 {
                    0
                } else {
                    f - r.started_at_ms
                },
            ),
            None => None,
        };
        RunView {
            id: RunHandle(r.id),
            started_at: rfc3339_millis(r.started_at_ms),
            finished_at,
            exit_code: r.exit_code,
            duration_ms,
            trigger_kind: r.trigger_kind,
            stop_reason: r.stop_reason,
            running: r.finished_at_ms.is_none(),
        }
    }
}

// ---------------------------------------------------------------------------
// Status
// ---------------------------------------------------------------------------

/// Whether a finished run is one launchd would restart a `KeepAlive`
/// service for: finished, not exit code 0, and not asked to stop.
pub open spec fn run_ended_badly(r: Run) -> bool {
    r.finished_at_ms is Some && r.exit_code != Some(0i32) && r.stop_reason != Some(
        StopReason::Stopped,
    )
}

/// Whether a finished run ended badly.
pub fn ended_badly(r: &Run) -> (b: bool)
    ensures
        b == run_ended_badly(*r),
{
    let finished = r.finished_at_ms.is_some();
    let ok = match r.exit_code {
        Some(c) => c == 0,
        None => false,
    };
    let stopped = match r.stop_reason {
        Some(StopReason::Stopped) => true,
        _ => false,
    };
    finished && !ok && !stopped
}

/// The status dot. Not enabled → `Disabled`. A service: launchd reports a
/// pid → `Running`; else a crash loop (`keep_alive` and the last run ended
/// badly) → `Failed`; else `Stopped`. A scheduled task: no run → `Never`;
/// newest run in flight → `Running`; exit code 0 → `Succeeded`; else `Failed`.
pub open spec fn status_rule(
    is_service: bool,
    keep_alive: bool,
    enabled: bool,
    loaded_pid: Option<u32>,
    last_run: Option<Run>,
) -> TaskStatus {
    if !enabled {
        TaskStatus::Disabled
    } else if is_service {
        if loaded_pid is Some {
            TaskStatus::Running
        } else if keep_alive && (last_run matches Some(r) && run_ended_badly(r)) {
            TaskStatus::Failed
        } else {
            TaskStatus::Stopped
        }
    } else {
        match last_run {
            None => TaskStatus::Never,
            Some(r) => if r.finished_at_ms is None {
                TaskStatus::Running
            } else if r.exit_code == Some(0i32) {
                TaskStatus::Succeeded
            } else {
                TaskStatus::Failed
            },
        }
    }
}

/// An enabled scheduled task whose newest run has finished shows green
/// exactly when that run exited with code 0, and red otherwise: any other
/// exit code, or none at all (killed by a signal). launchd's pid plays no
/// part for such a task.
pub proof fn a_finished_scheduled_run_is_green_only_on_exit_zero(
    keep_alive: bool,
    loaded_pid: Option<u32>,
    r: Run,
)
    requires
        r.finished_at_ms is Some,
    ensures
        (status_rule(false, keep_alive, true, loaded_pid, Some(r)) == TaskStatus::Succeeded) <==> (
        r.exit_code == Some(0i32)),
        (status_rule(false, keep_alive, true, loaded_pid, Some(r)) == TaskStatus::Failed) <==> (
        r.exit_code != Some(0i32)),
{
}

/// The status dot of `task`, from launchd's answer and its newest run.
pub fn status_of(task: &Task, enabled: bool, loaded_pid: Option<u32>, last_run: Option<&Run>) -> (s:
    TaskStatus)
    ensures
        s == status_rule(
            task.trigger@ is Manual,
            task.keep_alive,
            enabled,
            loaded_pid,
            match last_run {
                Some(r) => Some(*r),
                None => None,
            },
        ),
{
    if !enabled {
        return TaskStatus::Disabled;
    }
    if task.is_service() {
        if loaded_pid.is_some() {
            return TaskStatus::Running;
        }
        let bad = match last_run {
            Some(r) => ended_badly(r),
            None => false,
        };
        if task.keep_alive && bad {
            return TaskStatus::Failed;
        }
        return TaskStatus::Stopped;
    }
    match last_run {
        None => TaskStatus::Never,
        Some(r) => {
            if r.finished_at_ms.is_none() {
                TaskStatus::Running
            } else {
                match r.exit_code {
                    Some(c) => if c == 0 {
                        TaskStatus::Succeeded
                    } else {
                        TaskStatus::Failed
                    },
                    None => TaskStatus::Failed,
                }
            }
        },
    }
}

/// A service whose `KeepAlive` is off is never reported as crash-looping,
/// whatever its last run did: without `KeepAlive` launchd does not bring it
/// back, so an exit is a stop.
pub proof fn a_service_without_keep_alive_is_never_failed(
    enabled: bool,
    loaded_pid: Option<u32>,
    last_run: Option<Run>,
)
    ensures
        status_rule(true, false, enabled, loaded_pid, last_run) != TaskStatus::Failed,
{
}

/// For a service, launchd's pid decides whether it is running, whatever the
/// run rows say.
pub proof fn a_service_with_a_pid_is_running(keep_alive: bool, pid: u32, last_run: Option<Run>)
    ensures
        status_rule(true, keep_alive, true, Some(pid), last_run) == TaskStatus::Running,
{
}

/// Seconds since `last_run` started, at `now_ms`, when launchd reports a pid
/// and the run has not finished; never negative.
pub open spec fn uptime_rule(loaded_pid: Option<u32>, last_run: Option<Run>, now_ms: i64) -> Option<
    i64,
> {
    match (loaded_pid, last_run) {
        (Some(_), Some(r)) => if r.finished_at_ms is Some {
            None
        } else if now_ms - r.started_at_ms <= 0 {
            Some(0)
        } else {
            Some(((now_ms - r.started_at_ms) / 1000) as i64)
        },
        _ => None,
    }
}

/// How long the run still in flight has been going at `now_ms`, in whole
/// seconds. Both a pid and an unfinished run are required.
pub fn uptime_at(loaded_pid: Option<u32>, last_run: Option<&Run>, now_ms: i64) -> (u: Option<i64>)
    requires
        instant_ok(now_ms),
        last_run matches Some(r) ==> r.wf(),
    ensures
        u == uptime_rule(
            loaded_pid,
            match last_run {
                Some(r) => Some(*r),
                None => None,
            },
            now_ms,
        ),
{
    if loaded_pid.is_none() {
        return None;
    }
    let run = match last_run {
        Some(r) => r,
        None => {
            return None;
        },
    };
    if run.finished_at_ms.is_some() {
        return None;
    }
    let d = now_ms - run.started_at_ms;
    if d <= 0 {
        Some(0)
    } else {
        Some(d / 1000)
    }
}

/// The system clock's type, carried through opaque.
#[verifier::external_type_specification]
#[verifier::external_body]
pub struct ExSystemTime(std::time::SystemTime);

/// `SystemTime::now()`: the machine's clock, so nothing is promised of it.
#[verifier::external_body]
fn system_now() -> (t: std::time::SystemTime)
{
    std::time::SystemTime::now()
}

/// `SystemTime::duration_since(UNIX_EPOCH)` in whole milliseconds: `Ok`
/// for a time at or after the epoch, `Err` with the distance back for one
/// before it. The reading is opaque, so nothing is promised of the count.
#[verifier::external_body]
fn millis_since_epoch(t: &std::time::SystemTime) -> (r: Result<u128, u128>)
{
    match t.duration_since(std::time::UNIX_EPOCH) {
        Ok(d) => Ok(d.as_millis()),
        Err(e) => Err(e.duration().as_millis()),
    }
}

/// A signed count of milliseconds from the epoch, saturated at the ends of
/// `i64`: `Ok(m)` is `m` after it, `Err(m)` is `m` before it.
pub open spec fn signed_millis(r: Result<u128, u128>) -> i64 {
    match r {
        Ok(m) => if m <= i64::MAX as u128 {
            m as i64
        } else {
            i64::MAX
        },
        Err(m) => if m <= i64::MAX as u128 {
            -(m as int) as i64
        } else {
            i64::MIN
        },
    }
}

/// A clock reading as [`signed_millis`] counts it.
pub fn epoch_millis(r: Result<u128, u128>) -> (ms: i64)
    ensures
        ms == signed_millis(r),
{
    match r {
        Ok(m) => if m <= i64::MAX as u128 {
            m as i64
        } else {
            i64::MAX
        },
        Err(m) => if m <= i64::MAX as u128 {
            -(m as i64)
        } else {
            i64::MIN
        },
    }
}

/// The current time in milliseconds since the Unix epoch, negative for a
/// clock set before 1970 and saturated at the ends of `i64`.
fn now_millis() -> (ms: i64)
{
    let t = system_now();
    epoch_millis(millis_since_epoch(&t))
}

/// The run behind a reference.
pub open spec fn deref_run(o: Option<&Run>) -> Option<Run> {
    match o {
        Some(r) => Some(*r),
        None => None,
    }
}

/// launchd reports a pid and the newest run has not finished.
pub open spec fn in_flight(loaded_pid: Option<u32>, last_run: Option<Run>) -> bool {
    loaded_pid is Some && (last_run matches Some(r) && r.finished_at_ms is None)
}

/// How long the run still in flight has been going, in whole seconds, now.
/// `None` unless launchd reports a pid and the newest run has not finished.
pub fn uptime_secs(loaded_pid: Option<u32>, last_run: Option<&Run>) -> (u: Option<i64>)
    requires
        last_run matches Some(r) ==> r.wf(),
    ensures
        u is Some <==> in_flight(loaded_pid, deref_run(last_run)),
        u matches Some(s) ==> s >= 0,
{
    let raw = now_millis();
    // A clock beyond the instants chrono represents (where reading it
    // through chrono would fail) reads as the nearest one.
    let now = if raw > MAX_INSTANT_MS {
        MAX_INSTANT_MS
    } else if raw < MIN_INSTANT_MS {
        MIN_INSTANT_MS
    } else {
        raw
    };
    uptime_at(loaded_pid, last_run, now)
}

// ---------------------------------------------------------------------------
// Views
// ---------------------------------------------------------------------------

/// A copy of every string in `v`.
pub fn copy_strings(v: &Vec<String>) -> (r: Vec<String>)
    ensures
        texts(r@) == texts(v@),
{
    let mut r: Vec<String> = Vec::new();
    let mut i: usize = 0;
    while i < v.len()
        invariant
            i <= v@.len(),
            r@.len() == i,
            forall|j: int| 0 <= j < i ==> (#[trigger] r@[j])@ == v@[j]@,
        decreases v@.len() - i,
    {
        r.push(copy_string(&v[i]));
        i = i + 1;
    }
    assert(texts(r@) =~= texts(v@));
    r
}

/// A copy of an optional string.
pub fn copy_opt(s: &Option<String>) -> (r: Option<String>)
    ensures
        match (s, r) {
            (Some(a), Some(b)) => a@ == b@,
            (None, None) => true,
            _ => false,
        },
{
    match s {
        Some(a) => Some(copy_string(a)),
        None => None,
    }
}

/// A copy of a trigger.
pub fn copy_trigger(t: &Trigger) -> (r: Trigger)
    ensures
        r@ == t@,
{
    match t {
        Trigger::AtLogin => Trigger::AtLogin,
        Trigger::Interval { seconds } => Trigger::Interval { seconds: *seconds },
        Trigger::Calendar { entries } => {
            let mut es = Vec::new();
            let mut i: usize = 0;
            while i < entries.len()
                invariant
                    i <= entries@.len(),
                    es@ == entries@.subrange(0, i as int),
                decreases entries@.len() - i,
            {
                es.push(entries[i]);
                i = i + 1;
                assert(es@ =~= entries@.subrange(0, i as int));
            }
            assert(entries@.subrange(0, entries@.len() as int) =~= entries@);
            Trigger::Calendar { entries: es }
        },
        Trigger::Manual => Trigger::Manual,
    }
}

/// The view of `task` built from data already in hand: launchd's answer
/// (`enabled`, `loaded_pid`), the newest run, and the two texts that
/// describe the task's trigger and how it runs.
pub fn build_view(
    task: &Task,
    enabled: bool,
    loaded_pid: Option<u32>,
    last_run: Option<&Run>,
    trigger_text: &str,
    interpreter_label: Option<&str>,
) -> (v: TaskView)
    requires
        last_run matches Some(r) ==> r.wf(),
    ensures
        v.name@ == task.name@,
        v.display_name@ == task.display_name@,
        match (v.description, task.description) {
            (Some(a), Some(b)) => a@ == b@,
            (None, None) => true,
            _ => false,
        },
        v.trigger@ == task.trigger@,
        v.trigger_text@ == trigger_text@,
        match (v.interpreter_label, interpreter_label) {
            (Some(a), Some(b)) => a@ == b@,
            (None, None) => true,
            _ => false,
        },
        v.is_service == (task.trigger@ is Manual),
        v.keep_alive == task.keep_alive,
        v.enabled == enabled,
        v.loaded_pid == loaded_pid,
        v.uptime_secs is Some <==> in_flight(loaded_pid, deref_run(last_run)),
        v.uptime_secs matches Some(s) ==> s >= 0,
        match (v.last_run, last_run) {
            (Some(rv), Some(r)) => run_view_of(*r, rv),
            (None, None) => true,
            _ => false,
        },
        texts(v.tags@) == texts(task.tags@),
        v.favorite == task.favorite,
        v.notify_on_fail == task.notify_on_fail,
        v.status == status_rule(
            task.trigger@ is Manual,
            task.keep_alive,
            enabled,
            loaded_pid,
            match last_run {
                Some(r) => Some(*r),
                None => None,
            },
        ),
{
    TaskView {
        name: copy_string(&task.name),
        display_name: copy_string(&task.display_name),
        description: copy_opt(&task.description),
        trigger: copy_trigger(&task.trigger),
        trigger_text: string_of(trigger_text),
        interpreter_label: match interpreter_label {
            Some(l) => Some(string_of(l)),
            None => None,
        },
        is_service: task.is_service(),
        keep_alive: task.keep_alive,
        enabled,
        loaded_pid,
        uptime_secs: uptime_secs(loaded_pid, last_run),
        last_run: match last_run {
            Some(r) => Some(RunView::from_run(r)),
            None => None,
        },
        tags: copy_strings(&task.tags),
        favorite: task.favorite,
        notify_on_fail: task.notify_on_fail,
        status: status_of(task, enabled, loaded_pid, last_run),
    }
}

/// Which section of the picker an interpreter belongs to: the recommended
/// one first, then the project's own `.venv`, then everything else.
pub fn interpreter_group(recommended: bool, project_venv: bool) -> (g: InterpreterGroup)
    ensures
        g == (if recommended {
            InterpreterGroup::Recommended
        } else if project_venv {
            InterpreterGroup::Project
        } else {
            InterpreterGroup::Path
        }),
{
    if recommended {
        InterpreterGroup::Recommended
    } else if project_venv {
        InterpreterGroup::Project
    } else {
        InterpreterGroup::Path
    }
}

// ---------------------------------------------------------------------------
// The editor form
// ---------------------------------------------------------------------------

/// A task's editable fields, as the form holds them: `create_task` and
/// `update_task` take it, and the detail pane starts from it, so the two
/// never drift apart.
#[derive(Debug, Clone, PartialEq, Eq)]
pub struct TaskInput {
    /// Unique name.
    pub name: String,
    /// Human-facing name.
    pub display_name: String,
    /// Optional longer description.
    pub description: Option<String>,
    /// Absolute path to the script or executable.
    pub script_path: String,
    /// Arguments passed to it.
    pub args: Vec<String>,
    /// Working directory; `$HOME` when unset.
    pub working_dir: Option<String>,
    /// Extra environment variables; a later entry wins over an earlier one
    /// with the same key.
    pub env: Vec<EnvVar>,
    /// When it runs.
    pub trigger: Trigger,
    /// launchd `KeepAlive`.
    pub keep_alive: bool,
    /// Per-run wall-clock limit in seconds.
    pub timeout_secs: Option<u32>,
    /// Free-form tags.
    pub tags: Vec<String>,
    /// Pinned to the menu bar.
    pub favorite: bool,
    /// Post a notification when a run fails.
    pub notify_on_fail: bool,
}

/// The environment the form's entries make: each entry set in order, so a
/// later one wins.
pub open spec fn input_env(vars: Seq<EnvVar>) -> Map<Seq<char>, Seq<char>>
    decreases vars.len(),
{
    if vars.len() == 0 {
        Map::empty()
    } else {
        input_env(vars.drop_last()).insert(vars.last().key@, vars.last().value@)
    }
}

/// The same text in two optional strings.
pub open spec fn same_opt(a: Option<String>, b: Option<String>) -> bool {
    match (a, b) {
        (Some(x), Some(y)) => x@ == y@,
        (None, None) => true,
        _ => false,
    }
}

/// `t` is the task the form `i` saves as at `now_ms`, over `existing` when
/// it edits one: the form's fields, and from the existing task only its
/// creation time and where it was adopted from.
pub open spec fn task_from_input(i: TaskInput, existing: Option<Task>, now_ms: i64, t: Task) -> bool {
    &&& t.name@ == i.name@
    &&& t.display_name@ == i.display_name@
    &&& same_opt(t.description, i.description)
    &&& t.script_path@ == i.script_path@
    &&& texts(t.args@) == texts(i.args@)
    &&& same_opt(t.working_dir, i.working_dir)
    &&& unique_keys(t.env@)
    &&& env_map(t.env@) == input_env(i.env@)
    &&& t.trigger@ == i.trigger@
    &&& t.keep_alive == i.keep_alive
    &&& t.timeout_secs == i.timeout_secs
    &&& texts(t.tags@) == texts(i.tags@)
    &&& t.favorite == i.favorite
    &&& t.notify_on_fail == i.notify_on_fail
    &&& t.created_at_ms == (match existing {
        Some(e) => e.created_at_ms,
        None => now_ms,
    })
    &&& t.updated_at_ms == now_ms
    &&& t.adopted == (match existing {
        Some(e) => e.adopted,
        None => false,
    })
    &&& same_opt(t.plist_path, match existing {
        Some(e) => e.plist_path,
        None => None,
    })
}

/// `i` is the form that shows the stored task `t`.
pub open spec fn form_of(t: Task, i: TaskInput) -> bool {
    &&& i.name@ == t.name@
    &&& i.display_name@ == t.display_name@
    &&& same_opt(i.description, t.description)
    &&& i.script_path@ == t.script_path@
    &&& texts(i.args@) == texts(t.args@)
    &&& same_opt(i.working_dir, t.working_dir)
    &&& i.env@.len() == t.env@.len()
    &&& forall|k: int|
        0 <= k < t.env@.len() ==> (#[trigger] i.env@[k]).key@ == t.env@[k].0@ && i.env@[k].value@
            == t.env@[k].1@
    &&& i.trigger@ == t.trigger@
    &&& i.keep_alive == t.keep_alive
    &&& i.timeout_secs == t.timeout_secs
    &&& texts(i.tags@) == texts(t.tags@)
    &&& i.favorite == t.favorite
    &&& i.notify_on_fail == t.notify_on_fail
}

proof fn lemma_input_env_mirrors(vars: Seq<EnvVar>, pairs: Seq<(String, String)>)
    requires
        vars.len() == pairs.len(),
        forall|k: int|
            0 <= k < pairs.len() ==> (#[trigger] vars[k]).key@ == pairs[k].0@ && vars[k].value@
                == pairs[k].1@,
    ensures
        input_env(vars) == env_map(pairs),
    decreases vars.len(),
{
    if vars.len() > 0 {
        let (v2, p2) = (vars.drop_last(), pairs.drop_last());
        assert forall|k: int| 0 <= k < p2.len() implies (#[trigger] v2[k]).key@ == p2[k].0@
            && v2[k].value@ == p2[k].1@ by {
            assert(v2[k] == vars[k]);
            assert(p2[k] == pairs[k]);
        }
        lemma_input_env_mirrors(v2, p2);
        assert(vars.last() == vars[vars.len() - 1]);
    }
}

/// Opening a stored task in the editor and saving it unchanged gives the
/// same task back: every field the form shows, the creation time and the
/// adoption record; only the update time moves.
pub proof fn a_form_round_trips(t: Task, i: TaskInput, now_ms: i64, back: Task)
    requires
        form_of(t, i),
        task_from_input(i, Some(t), now_ms, back),
    ensures
        back.name@ == t.name@,
        back.display_name@ == t.display_name@,
        same_opt(back.description, t.description),
        back.script_path@ == t.script_path@,
        texts(back.args@) == texts(t.args@),
        same_opt(back.working_dir, t.working_dir),
        env_map(back.env@) == env_map(t.env@),
        back.trigger@ == t.trigger@,
        back.keep_alive == t.keep_alive,
        back.timeout_secs == t.timeout_secs,
        texts(back.tags@) == texts(t.tags@),
        back.favorite == t.favorite,
        back.notify_on_fail == t.notify_on_fail,
        back.created_at_ms == t.created_at_ms,
        back.updated_at_ms == now_ms,
        back.adopted == t.adopted,
        same_opt(back.plist_path, t.plist_path),
{
    lemma_input_env_mirrors(i.env@, t.env@);
}

impl TaskInput {
    /// The task this form saves as at `now_ms`, over `existing` when it
    /// edits one: [`task_from_input`].
    pub fn into_task(&self, existing: Option<&Task>, now_ms: i64) -> (t: Task)
        ensures
            task_from_input(
                *self,
                match existing {
                    Some(e) => Some(*e),
                    None => None,
                },
                now_ms,
                t,
            ),
    {
        let mut env: Vec<(String, String)> = Vec::new();
        let mut i: usize = 0;
        assert(self.env@.take(0) =~= Seq::<EnvVar>::empty());
        while i < self.env.len()
            invariant
                i <= self.env@.len(),
                unique_keys(env@),
                env_map(env@) == input_env(self.env@.take(i as int)),
            decreases self.env@.len() - i,
        {
            env_set(&mut env, &self.env[i].key, &self.env[i].value);
            proof {
                let upto = self.env@.take(i + 1);
                assert(upto.drop_last() =~= self.env@.take(i as int));
                assert(upto.last() == self.env@[i as int]);
            }
            i = i + 1;
        }
        assert(self.env@.take(self.env@.len() as int) =~= self.env@);
        Task {
            name: copy_string(&self.name),
            display_name: copy_string(&self.display_name),
            description: copy_opt(&self.description),
            script_path: copy_string(&self.script_path),
            args: copy_strings(&self.args),
            working_dir: copy_opt(&self.working_dir),
            env,
            trigger: copy_trigger(&self.trigger),
            keep_alive: self.keep_alive,
            timeout_secs: self.timeout_secs,
            tags: copy_strings(&self.tags),
            favorite: self.favorite,
            notify_on_fail: self.notify_on_fail,
            created_at_ms: match existing {
                Some(e) => e.created_at_ms,
                None => now_ms,
            },
            updated_at_ms: now_ms,
            adopted: match existing {
                Some(e) => e.adopted,
                None => false,
            },
            plist_path: match existing {
                Some(e) => copy_opt(&e.plist_path),
                None => None,
            },
        }
    }

    /// The form a stored task starts the editor from: [`form_of`].
    pub fn from_task(t: &Task) -> (i: TaskInput)
        ensures
            form_of(*t, i),
    {
        let mut env: Vec<EnvVar> = Vec::new();
        let mut k: usize = 0;
        while k < t.env.len()
            invariant
                k <= t.env@.len(),
                env@.len() == k,
                forall|j: int|
                    0 <= j < k ==> (#[trigger] env@[j]).key@ == t.env@[j].0@ && env@[j].value@
                        == t.env@[j].1@,
            decreases t.env@.len() - k,
        {
            env.push(EnvVar { key: copy_string(&t.env[k].0), value: copy_string(&t.env[k].1) });
            k = k + 1;
        }
        TaskInput {
            name: copy_string(&t.name),
            display_name: copy_string(&t.display_name),
            description: copy_opt(&t.description),
            script_path: copy_string(&t.script_path),
            args: copy_strings(&t.args),
            working_dir: copy_opt(&t.working_dir),
            env,
            trigger: copy_trigger(&t.trigger),
            keep_alive: t.keep_alive,
            timeout_secs: t.timeout_secs,
            tags: copy_strings(&t.tags),
            favorite: t.favorite,
            notify_on_fail: t.notify_on_fail,
        }
    }
}

// ---------------------------------------------------------------------------
// Logs
// ---------------------------------------------------------------------------

/// Upper bound on what one log read returns, and what `tail_bytes == 0`
/// means.
pub const MAX_TAIL_BYTES: u64 = 4194304;

/// How many trailing bytes a `tail_bytes` argument actually asks for: zero
/// means the cap, and nothing goes above it.
pub fn tail_window(tail_bytes: u32) -> (w: u64)
    ensures
        w == (if tail_bytes == 0 || tail_bytes as u64 > MAX_TAIL_BYTES {
            MAX_TAIL_BYTES
        } else {
            tail_bytes as u64
        }),
{
    let n = tail_bytes as u64;
    if n == 0 {
        MAX_TAIL_BYTES
    } else if n < MAX_TAIL_BYTES {
        n
    } else {
        MAX_TAIL_BYTES
    }
}

/// Where a log read of a `total`-byte file starts, and whether that cuts
/// anything: the last [`tail_window`] bytes, or the whole file when it is
/// no longer than that.
pub open spec fn log_range_of(total: u64, tail_bytes: u32) -> (u64, bool) {
    let want = if tail_bytes == 0 || tail_bytes as u64 > MAX_TAIL_BYTES {
        MAX_TAIL_BYTES
    } else {
        tail_bytes as u64
    };
    if total > want {
        ((total - want) as u64, true)
    } else {
        (0, false)
    }
}

/// [`log_range_of`]: the offset to read a log from, and whether the chunk
/// is only a tail.
pub fn log_range(total: u64, tail_bytes: u32) -> (r: (u64, bool))
    ensures
        r == log_range_of(total, tail_bytes),
{
    let want = tail_window(tail_bytes);
    if total > want {
        (total - want, true)
    } else {
        (0, false)
    }
}

/// How `String::from_utf8_lossy` decodes bytes: UTF-8, with each invalid
/// sequence (such as a character cut by the tail window) replaced by
/// U+FFFD.
pub uninterp spec fn lossy_text(bytes: Seq<u8>) -> Seq<char>;

/// `String::from_utf8_lossy(bytes).into_owned()`.
#[verifier::external_body]
fn decode_lossy(bytes: &[u8]) -> (s: String)
    ensures
        s@ == lossy_text(bytes@),
{
    String::from_utf8_lossy(bytes).into_owned()
}

/// The chunk a log read returns: the bytes read from the window's start,
/// decoded lossily, the file's size (saturated at `i64::MAX`, since the
/// window's side has no `u64`), and whether this is only a tail.
pub fn log_chunk(bytes: &[u8], total: u64, truncated: bool) -> (c: LogChunk)
    ensures
        c.content@ == lossy_text(bytes@),
        c.total_bytes == (if total > i64::MAX as u64 {
            i64::MAX
        } else {
            total as i64
        }),
        c.truncated == truncated,
{
    LogChunk {
        content: decode_lossy(bytes),
        total_bytes: if total > i64::MAX as u64 {
            i64::MAX
        } else {
            total as i64
        },
        truncated,
    }
}

/// A log that was never written (pruned or deleted by hand) reads as empty
/// rather than as an error.
pub fn missing_log() -> (c: LogChunk)
    ensures
        c.content@.len() == 0,
        c.total_bytes == 0,
        !c.truncated,
{
    LogChunk { content: String::new(), total_bytes: 0, truncated: false }
}

// ---------------------------------------------------------------------------
// Adoption
// ---------------------------------------------------------------------------

/// The diff entries for `(key, value)` pairs, in order.
pub fn diff_entries(pairs: &[(String, String)]) -> (r: Vec<DiffEntry>)
    ensures
        r@.len() == pairs@.len(),
        forall|i: int|
            0 <= i < pairs@.len() ==> (#[trigger] r@[i]).key@ == pairs@[i].0@ && r@[i].value@
                == pairs@[i].1@,
{
    let mut r: Vec<DiffEntry> = Vec::new();
    let mut i: usize = 0;
    while i < pairs.len()
        invariant
            i <= pairs@.len(),
            r@.len() == i,
            forall|j: int|
                0 <= j < i ==> (#[trigger] r@[j]).key@ == pairs@[j].0@ && r@[j].value@
                    == pairs@[j].1@,
        decreases pairs@.len() - i,
    {
        let (k, v) = &pairs[i];
        r.push(DiffEntry { key: copy_string(k), value: copy_string(v) });
        i = i + 1;
    }
    r
}

/// What `Path::strip_prefix` leaves of `p` once the leading components of
/// `base` are removed, written back as text; `None` when `base` is not a
/// component-wise prefix of `p`.
pub uninterp spec fn path_strip(p: Seq<char>, base: Seq<char>) -> Option<Seq<char>>;

/// `Path::new(p).strip_prefix(base)`, displayed. It succeeds exactly when
/// `base` is a component-wise prefix of `p` (what `Path::starts_with`
/// answers); the remainder's text is named, not spelled out.
#[verifier::external_body]
fn strip_path_prefix(p: &str, base: &str) -> (r: Option<String>)
    ensures
        match (r, path_strip(p@, base@)) {
            (Some(a), Some(b)) => a@ == b,
            (None, None) => true,
            _ => false,
        },
        r is Some <==> starts_with_path(p@, base@),
{
    match std::path::Path::new(p).strip_prefix(base) {
        Ok(rest) => Some(rest.display().to_string()),
        Err(_) => None,
    }
}

/// `p` with the home directory written as `~`, for display.
pub open spec fn shortened(p: Seq<char>, home: Option<Seq<char>>) -> Seq<char> {
    match home {
        Some(h) => match path_strip(p, h) {
            Some(rest) => "~/"@ + rest,
            None => p,
        },
        None => p,
    }
}

/// `/Users/x/Library/LaunchAgents/a.plist` → `~/Library/LaunchAgents/a.plist`
/// when `home` is `/Users/x`; any path not under `home` unchanged.
pub fn shorten_home(p: &str, home: Option<&str>) -> (r: String)
    ensures
        r@ == shortened(p@, match home {
            Some(h) => Some(h@),
            None => None,
        }),
{
    if let Some(h) = home {
        if let Some(rest) = strip_path_prefix(p, h) {
            let mut s = string_of("~/");
            push_str(&mut s, rest.as_str());
            return s;
        }
    }
    string_of(p)
}

/// [`shorten_home`] over an optional path.
pub fn shorten_opt(p: Option<&str>, home: Option<&str>) -> (r: Option<String>)
    ensures
        match (p, r) {
            (Some(a), Some(b)) => b@ == shortened(a@, match home {
                Some(h) => Some(h@),
                None => None,
            }),
            (None, None) => true,
            _ => false,
        },
{
    match p {
        Some(a) => Some(shorten_home(a, home)),
        None => None,
    }
}

/// The same rows, key by key, as a diff group.
pub open spec fn same_rows(r: Seq<DiffEntry>, pairs: Seq<(String, String)>) -> bool {
    &&& r.len() == pairs.len()
    &&& forall|i: int|
        0 <= i < pairs.len() ==> (#[trigger] r[i]).key@ == pairs[i].0@ && r[i].value@
            == pairs[i].1@
}

impl AdoptionPlanView {
    /// The dialog's content for `p`, with paths under `home` abbreviated.
    pub fn from_plan(p: &AdoptionPlan, home: Option<&str>) -> (v: AdoptionPlanView)
        ensures
            v.label@ == p.label@,
            v.name@ == p.task_name@,
            v.path@ == shortened(p.path@, match home {
                Some(h) => Some(h@),
                None => None,
            }),
            v.backup_path@ == shortened(p.backup_path@, match home {
                Some(h) => Some(h@),
                None => None,
            }),
            same_rows(v.removed@, p.removed@),
            same_rows(v.added@, p.added@),
            same_rows(v.kept@, p.kept@),
    {
        AdoptionPlanView {
            label: copy_string(&p.label),
            name: copy_string(&p.task_name),
            path: shorten_home(p.path.as_str(), home),
            backup_path: shorten_home(p.backup_path.as_str(), home),
            removed: diff_entries(p.removed.as_slice()),
            added: diff_entries(p.added.as_slice()),
            kept: diff_entries(p.kept.as_slice()),
        }
    }
}

/// One LaunchAgent this program did not write, as the list and the
/// read-only detail pane render it.
#[derive(Debug, Clone, PartialEq, Eq)]
pub struct ExternalAgentView {
    /// The launchd label, which is also this view's key.
    pub label: String,
    /// The plist file, with the home directory abbreviated to `~`.
    pub path: String,
    /// The same file, absolute.
    pub full_path: String,
    /// Program plus arguments as one line.
    pub command: String,
    /// The trigger in words.
    pub trigger_text: String,
    /// The structured trigger, when there is one.
    pub trigger: Option<Trigger>,
    /// `WorkingDirectory`, abbreviated.
    pub working_dir: Option<String>,
    /// `StandardOutPath`, abbreviated.
    pub stdout_path: Option<String>,
    /// `StandardErrorPath`, abbreviated.
    pub stderr_path: Option<String>,
    /// `KeepAlive` in either of its shapes.
    pub keep_alive: bool,
    /// launchd knows this label right now.
    pub loaded: bool,
    /// Pid, while the job has a process.
    pub pid: Option<u32>,
    /// The exit code launchd remembers for it.
    pub last_exit: Option<i32>,
    /// Adoption would work; `false` greys the row out.
    pub adoptable: bool,
    /// Why not, when `adoptable` is false: the row's tooltip.
    pub adopt_reason: Option<String>,
    /// Already managed here; listed but never offered for adoption.
    pub managed: bool,
}

/// `p` abbreviated under `home`, when there is a `p`.
pub open spec fn shortened_opt(p: Option<String>, home: Option<&str>) -> Option<Seq<char>> {
    match p {
        Some(a) => Some(shortened(a@, match home {
            Some(h) => Some(h@),
            None => None,
        })),
        None => None,
    }
}

/// The text of an optional string.
pub open spec fn opt_text(p: Option<String>) -> Option<Seq<char>> {
    match p {
        Some(a) => Some(a@),
        None => None,
    }
}

impl ExternalAgentView {
    /// The row for `a`, with paths under `home` abbreviated; the full path
    /// stays absolute, for revealing the file.
    pub fn from_agent(a: &ExternalAgent, home: Option<&str>) -> (v: ExternalAgentView)
        ensures
            v.label@ == a.label@,
            v.path@ == shortened(a.path@, match home {
                Some(h) => Some(h@),
                None => None,
            }),
            v.full_path@ == a.path@,
            v.command@ == a.command@,
            v.trigger_text@ == a.trigger_text@,
            match (v.trigger, a.trigger) {
                (Some(x), Some(y)) => x@ == y@,
                (None, None) => true,
                _ => false,
            },
            opt_text(v.working_dir) == shortened_opt(a.working_dir, home),
            opt_text(v.stdout_path) == shortened_opt(a.stdout_path, home),
            opt_text(v.stderr_path) == shortened_opt(a.stderr_path, home),
            v.keep_alive == a.keep_alive,
            v.loaded == a.loaded,
            v.pid == a.pid,
            v.last_exit == a.last_exit,
            v.adoptable == a.adoptable,
            opt_text(v.adopt_reason) == opt_text(a.adopt_reason),
            v.managed == a.managed,
    {
        ExternalAgentView {
            label: copy_string(&a.label),
            path: shorten_home(a.path.as_str(), home),
            full_path: copy_string(&a.path),
            command: copy_string(&a.command),
            trigger_text: copy_string(&a.trigger_text),
            trigger: match &a.trigger {
                Some(t) => Some(copy_trigger(t)),
                None => None,
            },
            working_dir: shorten_opt(opt_str(&a.working_dir), home),
            stdout_path: shorten_opt(opt_str(&a.stdout_path), home),
            stderr_path: shorten_opt(opt_str(&a.stderr_path), home),
            keep_alive: a.keep_alive,
            loaded: a.loaded,
            pid: a.pid,
            last_exit: a.last_exit,
            adoptable: a.adoptable,
            adopt_reason: copy_opt(&a.adopt_reason),
            managed: a.managed,
        }
    }
}

/// The text inside an optional string.
fn opt_str(p: &Option<String>) -> (r: Option<&str>)
    ensures
        match (p, r) {
            (Some(a), Some(b)) => a@ == b@,
            (None, None) => true,
            _ => false,
        },
{
    match p {
        Some(a) => Some(a.as_str()),
        None => None,
    }
}

/// How "run now" runs a task.
#[derive(Debug, Clone, Copy, PartialEq, Eq, Structural)]
pub enum RunRoute {
    /// A service is started (loaded first when needed), never run outside
    /// launchd where nothing could stop it again.
    Start,
    /// An enabled task is kicked through launchd.
    Launchd,
    /// A task that is not loaded is run by spawning the runner directly.
    Direct,
}

/// [`RunRoute`] for a task.
pub fn run_route(is_service: bool, enabled: bool) -> (r: RunRoute)
    ensures
        r == (if is_service {
            RunRoute::Start
        } else if enabled {
            RunRoute::Launchd
        } else {
            RunRoute::Direct
        }),
{
    if is_service {
        RunRoute::Start
    } else if enabled {
        RunRoute::Launchd
    } else {
        RunRoute::Direct
    }
}

} // verus!
