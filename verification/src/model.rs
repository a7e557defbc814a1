//! The scheduling vocabulary every other module speaks: when a task fires
//! ([`Trigger`]), how a run started and ended ([`TriggerKind`],
//! [`StopReason`]), and one recorded execution ([`Run`]).

use vstd::prelude::*;

verus! {

/// One `StartCalendarInterval` dictionary: `None` fields are wildcards.
#[derive(Debug, Clone, Copy, PartialEq, Eq, Structural)]
pub struct CalendarEntry {
    pub minute: u8,
    pub hour: u8,
    /// `0`/`7` = Sunday.
    pub weekday: Option<u8>,
    /// Day of the month.
    pub day: Option<u8>,
}

impl CalendarEntry {
    /// Every day at `hour:minute`.
    pub fn daily(hour: u8, minute: u8) -> (e: CalendarEntry)
        ensures
            e == (CalendarEntry { minute, hour, weekday: None, day: None }),
    {
        CalendarEntry { minute, hour, weekday: None, day: None }
    }
}

/// When a task fires.
#[derive(Debug, Clone, PartialEq, Eq)]
pub enum Trigger {
    /// `RunAtLoad`: once when the agent is loaded, i.e. at login.
    AtLogin,
    /// `StartInterval`.
    Interval { seconds: u32 },
    /// `StartCalendarInterval`.
    Calendar { entries: Vec<CalendarEntry> },
    /// No automatic trigger: a service started and stopped by hand.
    Manual,
}

/// The mathematical form of a [`Trigger`].
pub enum TriggerModel {
    AtLogin,
    Interval(u32),
    Calendar(Seq<CalendarEntry>),
    Manual,
}

impl View for Trigger {
    type V = TriggerModel;

    open spec fn view(&self) -> TriggerModel {
        match self {
            Trigger::AtLogin => TriggerModel::AtLogin,
            Trigger::Interval { seconds } => TriggerModel::Interval(*seconds),
            Trigger::Calendar { entries } => TriggerModel::Calendar(entries@),
            Trigger::Manual => TriggerModel::Manual,
        }
    }
}

impl Trigger {
    /// A manual trigger, i.e. a service rather than a scheduled task.
    pub fn is_manual(&self) -> (b: bool)
        ensures
            b == (self@ is Manual),
    {
        match self {
            Trigger::Manual => true,
            _ => false,
        }
    }
}

/// Who started a run.
#[derive(Debug, Clone, Copy, PartialEq, Eq, Structural)]
pub enum TriggerKind {
    /// launchd fired it.
    Scheduled,
    /// A user asked for it.
    Manual,
}

/// Why a run ended.
#[derive(Debug, Clone, Copy, PartialEq, Eq, Structural)]
pub enum StopReason {
    /// The script exited on its own.
    Exited,
    /// A stop was requested (SIGTERM through launchd).
    Stopped,
    /// The per-run timeout killed it.
    Timeout,
}

impl StopReason {
    /// The wire name: `exited`, `stopped`, `timeout`.
    pub fn as_str(self) -> (s: &'static str)
        ensures
            s@ == stop_reason_name(self),
    {
        proof {
            reveal_strlit("exited");
            reveal_strlit("stopped");
            reveal_strlit("timeout");
        }
        match self {
            StopReason::Exited => "exited",
            StopReason::Stopped => "stopped",
            StopReason::Timeout => "timeout",
        }
    }
}

/// The wire name of a [`StopReason`].
pub open spec fn stop_reason_name(r: StopReason) -> Seq<char> {
    match r {
        StopReason::Exited => seq!['e', 'x', 'i', 't', 'e', 'd'],
        StopReason::Stopped => seq!['s', 't', 'o', 'p', 'p', 'e', 'd'],
        StopReason::Timeout => seq!['t', 'i', 'm', 'e', 'o', 'u', 't'],
    }
}

/// One recorded execution of a task. Times are milliseconds since the Unix
/// epoch, UTC.
#[derive(Debug, Clone, PartialEq, Eq)]
pub struct Run {
    pub id: i64,
    pub started_at_ms: i64,
    /// `None` while the run is in flight.
    pub finished_at_ms: Option<i64>,
    /// `None` with `finished_at_ms` set: killed by a signal.
    pub exit_code: Option<i32>,
    pub trigger_kind: TriggerKind,
    /// `None` while running, and on rows older than stop reasons.
    pub stop_reason: Option<StopReason>,
    pub stdout_path: String,
    pub stderr_path: String,
}

} // verus!

verus! {

/// The earliest instant `chrono` represents: -262143-01-01T00:00:00.000Z,
/// in milliseconds since the Unix epoch.
pub const MIN_INSTANT_MS: i64 = -8334601228800000;

/// The latest instant `chrono` represents: +262142-12-31T23:59:59.999Z.
pub const MAX_INSTANT_MS: i64 = 8210266876799999;

/// The instants `chrono` represents, to the millisecond.
pub open spec fn instant_ok(ms: i64) -> bool {
    MIN_INSTANT_MS <= ms && ms <= MAX_INSTANT_MS
}

impl Run {
    /// Both timestamps are representable instants.
    pub open spec fn wf(&self) -> bool {
        &&& instant_ok(self.started_at_ms)
        &&& match self.finished_at_ms {
            Some(f) => instant_ok(f),
            None => true,
        }
    }

    /// Whether both timestamps are representable instants: [`Run::wf`].
    pub fn is_wf(&self) -> (b: bool)
        ensures
            b == self.wf(),
    {
        MIN_INSTANT_MS <= self.started_at_ms && self.started_at_ms <= MAX_INSTANT_MS && match self.finished_at_ms {
            Some(f) => MIN_INSTANT_MS <= f && f <= MAX_INSTANT_MS,
            None => true,
        }
    }
}

/// What adopting one hand-written LaunchAgent would do to its plist.
#[derive(Debug, Clone, PartialEq, Eq)]
pub struct AdoptionPlan {
    /// The launchd label, which adoption keeps.
    pub label: String,
    /// The name the adopted task gets.
    pub task_name: String,
    /// The plist, which stays where it is.
    pub path: String,
    /// Where the original bytes are copied first.
    pub backup_path: String,
    /// Keys the rewrite drops, with their current values.
    pub removed: Vec<(String, String)>,
    /// Keys it adds or changes, with their new values.
    pub added: Vec<(String, String)>,
    /// Keys that come through untouched.
    pub kept: Vec<(String, String)>,
}

/// A LaunchAgent this program did not write, as the plist scan found it.
/// The command line and the trigger in words come composed.
#[derive(Debug, Clone, PartialEq, Eq)]
pub struct ExternalAgent {
    /// The launchd label.
    pub label: String,
    /// The plist file, absolute.
    pub path: String,
    /// Program plus arguments as one line.
    pub command: String,
    /// The trigger in words.
    pub trigger_text: String,
    /// The trigger, when the plist's scheduling keys translate into one.
    pub trigger: Option<Trigger>,
    /// `WorkingDirectory`.
    pub working_dir: Option<String>,
    /// `StandardOutPath`.
    pub stdout_path: Option<String>,
    /// `StandardErrorPath`.
    pub stderr_path: Option<String>,
    /// `KeepAlive` in either of its shapes.
    pub keep_alive: bool,
    /// launchd knows this label right now.
    pub loaded: bool,
    /// Pid, while the job has a process.
    pub pid: Option<u32>,
    /// The exit code launchd remembers for it.
    pub last_exit: Option<i32>,
    /// Adoption would work.
    pub adoptable: bool,
    /// Why not, when it would not.
    pub adopt_reason: Option<String>,
    /// Already managed here: an adopted task's plist or one of our labels.
    pub managed: bool,
}

/// What launchd reports about a loaded job.
#[derive(Debug, Clone, PartialEq, Eq)]
pub struct JobStatus {
    /// The running process, if any.
    pub pid: Option<u32>,
    /// launchd's own word for the job's state, e.g. `running`.
    pub state: String,
}

/// A task definition, as stored. Times are milliseconds since the Unix
/// epoch, UTC.
#[derive(Debug, Clone, PartialEq, Eq)]
pub struct Task {
    /// Unique name (also the launchd label suffix).
    pub name: String,
    pub display_name: String,
    pub description: Option<String>,
    pub script_path: String,
    pub args: Vec<String>,
    pub working_dir: Option<String>,
    /// Extra environment variables, each key once.
    pub env: Vec<(String, String)>,
    pub trigger: Trigger,
    /// launchd `KeepAlive`.
    pub keep_alive: bool,
    pub timeout_secs: Option<u32>,
    pub tags: Vec<String>,
    pub favorite: bool,
    pub notify_on_fail: bool,
    pub created_at_ms: i64,
    pub updated_at_ms: i64,
    /// Taken over from somebody else's LaunchAgent.
    pub adopted: bool,
    /// The adopted plist's own path.
    pub plist_path: Option<String>,
}

impl Task {
    /// A `Manual` task: driven by start/stop rather than by a schedule.
    pub fn is_service(&self) -> (b: bool)
        ensures
            b == (self.trigger@ is Manual),
    {
        self.trigger.is_manual()
    }
}

} // verus!
