//! Failure notifications: which of two consecutive scans' changes deserve a
//! notification, with the dedup state that keeps one failure from being
//! announced twice.
//!
//! Two rules, both skipped for a task's first appearance in a comparison:
//!
//! 1. **A run just finished badly**: the newest run is no longer running,
//!    its exit code is not 0 and it was not asked to stop — and its id has
//!    not been accounted for yet.
//! 2. **A `KeepAlive` service's pid changed** between the scans while it
//!    stayed enabled, unless this scan already explained why (rule 1 fired,
//!    or the newest run says the user stopped it).
//!
//! Both respect the task's own switch and the matching half of the settings.

use vstd::prelude::*;

use crate::commands::{RunView, TaskView};
use crate::i18n::{Key, Lang, explicit_lang, t, text_of};
use crate::model::StopReason;
use crate::settings::AppSettings;
use crate::text::{copy_string, has_prefix, int_text, push_i64, push_str, str_eq, string_of};

verus! {

/// One notification the planner decided should fire.
#[derive(Debug, Clone, PartialEq, Eq)]
pub struct Notification {
    /// `Launchkeeper · <display name> 失败`.
    pub title: String,
    /// `退出码 N · <time>`, or `服务崩溃，已自动重启` for a service.
    pub body: String,
    /// The task this is about.
    pub task_name: String,
}

/// Dedup state the planner owns across calls: for each task name, the id of
/// the last terminal run already accounted for.
#[derive(Debug)]
pub struct SeenState {
    last_run_id: Vec<(String, i64)>,
}

/// The map a list of `(name, id)` pairs stands for; a later pair wins.
pub open spec fn map_of(s: Seq<(String, i64)>) -> Map<Seq<char>, i64>
    decreases s.len(),
{
    if s.len() == 0 {
        Map::empty()
    } else {
        map_of(s.drop_last()).insert(s.last().0@, s.last().1)
    }
}

/// No name occurs twice.
pub open spec fn unique_names(s: Seq<(String, i64)>) -> bool {
    forall|i: int, j: int| 0 <= i < j < s.len() ==> s[i].0@ != s[j].0@
}

proof fn lemma_map_of_dom(s: Seq<(String, i64)>)
    ensures
        map_of(s).dom().finite(),
        forall|k: Seq<char>|
            map_of(s).dom().contains(k) <==> exists|i: int| 0 <= i < s.len() && #[trigger] s[i].0@ == k,
    decreases s.len(),
{
    if s.len() > 0 {
        lemma_map_of_dom(s.drop_last());
        assert forall|k: Seq<char>| map_of(s).dom().contains(k) implies exists|i: int|
            0 <= i < s.len() && #[trigger] s[i].0@ == k by {
            if k != s.last().0@ {
                let i = choose|i: int| 0 <= i < s.drop_last().len() && #[trigger] s.drop_last()[i].0@ == k;
                assert(s[i].0@ == k);
            } else {
                assert(s[s.len() - 1].0@ == k);
            }
        }
        assert forall|k: Seq<char>| (exists|i: int| 0 <= i < s.len() && #[trigger] s[i].0@ == k) implies map_of(s).dom().contains(k) by {
            let i = choose|i: int| 0 <= i < s.len() && #[trigger] s[i].0@ == k;
            if i < s.len() - 1 {
                assert(s.drop_last()[i].0@ == k);
            }
        }
    }
}

proof fn lemma_map_of_value(s: Seq<(String, i64)>, i: int)
    requires
        unique_names(s),
        0 <= i < s.len(),
    ensures
        map_of(s).dom().contains(s[i].0@),
        map_of(s)[s[i].0@] == s[i].1,
    decreases s.len(),
{
    if i < s.len() - 1 {
        lemma_map_of_value(s.drop_last(), i);
        assert(s.drop_last()[i] == s[i]);
    }
}

proof fn lemma_map_of_len(s: Seq<(String, i64)>)
    requires
        unique_names(s),
    ensures
        map_of(s).dom().len() == s.len(),
    decreases s.len(),
{
    lemma_map_of_dom(s);
    if s.len() > 0 {
        lemma_map_of_len(s.drop_last());
        lemma_map_of_dom(s.drop_last());
        if map_of(s.drop_last()).dom().contains(s.last().0@) {
            let i = choose|i: int|
                0 <= i < s.drop_last().len() && #[trigger] s.drop_last()[i].0@ == s.last().0@;
            assert(s[i].0@ == s[s.len() - 1].0@);
        }
    }
}

proof fn lemma_map_of_congruent(a: Seq<(String, i64)>, b: Seq<(String, i64)>)
    requires
        a.len() == b.len(),
        forall|j: int| 0 <= j < a.len() ==> (#[trigger] a[j]).0@ == b[j].0@ && a[j].1 == b[j].1,
    ensures
        map_of(a) == map_of(b),
    decreases a.len(),
{
    if a.len() > 0 {
        lemma_map_of_congruent(a.drop_last(), b.drop_last());
        assert(a.last().0@ == b.last().0@);
    }
}

proof fn lemma_map_of_update(s: Seq<(String, i64)>, i: int, e: (String, i64))
    requires
        unique_names(s),
        0 <= i < s.len(),
        e.0@ == s[i].0@,
    ensures
        map_of(s.update(i, e)) == map_of(s).insert(e.0@, e.1),
        unique_names(s.update(i, e)),
    decreases s.len(),
{
    let u = s.update(i, e);
    if i == s.len() - 1 {
        assert(u.drop_last() =~= s.drop_last());
        lemma_map_of_dom(s.drop_last());
        assert(map_of(u) =~= map_of(s).insert(e.0@, e.1));
    } else {
        lemma_map_of_update(s.drop_last(), i, e);
        assert(u.drop_last() =~= s.drop_last().update(i, e));
        assert(s.last().0@ != e.0@);
        assert(map_of(u) =~= map_of(s).insert(e.0@, e.1));
    }
}

impl View for SeenState {
    type V = Map<Seq<char>, i64>;

    closed spec fn view(&self) -> Map<Seq<char>, i64> {
        map_of(self.last_run_id@)
    }
}

impl SeenState {
    #[verifier::type_invariant]
    closed spec fn names_unique(self) -> bool {
        unique_names(self.last_run_id@)
    }

    /// Nothing accounted for yet.
    pub fn new() -> (s: SeenState)
        ensures
            s@ == Map::<Seq<char>, i64>::empty(),
    {
        SeenState { last_run_id: Vec::new() }
    }

    /// How many tasks have a run accounted for.
    pub fn len(&self) -> (n: usize)
        ensures
            n == self@.dom().len(),
            self@.dom().finite(),
    {
        proof {
            use_type_invariant(self);
            lemma_map_of_len(self.last_run_id@);
            lemma_map_of_dom(self.last_run_id@);
        }
        self.last_run_id.len()
    }

    /// No task has a run accounted for.
    pub fn is_empty(&self) -> (b: bool)
        ensures
            b == (self@.dom().len() == 0),
            self@.dom().finite(),
    {
        self.len() == 0
    }

    /// The run id accounted for under `name`.
    pub fn get(&self, name: &str) -> (r: Option<i64>)
        ensures
            r == (if self@.dom().contains(name@) {
                Some(self@[name@])
            } else {
                None::<i64>
            }),
    {
        proof {
            use_type_invariant(self);
            lemma_map_of_dom(self.last_run_id@);
        }
        let mut i: usize = 0;
        while i < self.last_run_id.len()
            invariant
                i <= self.last_run_id@.len(),
                unique_names(self.last_run_id@),
                forall|j: int| 0 <= j < i ==> (#[trigger] self.last_run_id@[j]).0@ != name@,
            decreases self.last_run_id@.len() - i,
        {
            if str_eq(self.last_run_id[i].0.as_str(), name) {
                proof {
                    lemma_map_of_value(self.last_run_id@, i as int);
                }
                return Some(self.last_run_id[i].1);
            }
            i = i + 1;
        }
        None
    }

    /// Records `id` under `name`.
    pub fn insert(&mut self, name: &String, id: i64)
        ensures
            final(self)@ == old(self)@.insert(name@, id),
    {
        proof {
            use_type_invariant(&*self);
        }
        let ghost old_s = self.last_run_id@;
        let mut out: Vec<(String, i64)> = Vec::new();
        let mut replaced = false;
        let mut i: usize = 0;
        while i < self.last_run_id.len()
            invariant
                i <= old_s.len(),
                self.last_run_id@ == old_s,
                unique_names(old_s),
                out@.len() == i,
                forall|j: int| 0 <= j < i ==> (#[trigger] out@[j]).0@ == old_s[j].0@,
                forall|j: int| 0 <= j < i ==> (#[trigger] out@[j]).1 == (if old_s[j].0@ == name@ { id } else { old_s[j].1 }),
                replaced <==> exists|j: int| 0 <= j < i && #[trigger] old_s[j].0@ == name@,
            decreases old_s.len() - i,
        {
            let same = str_eq(self.last_run_id[i].0.as_str(), name.as_str());
            let v = if same { id } else { self.last_run_id[i].1 };
            out.push((copy_string(&self.last_run_id[i].0), v));
            if same {
                replaced = true;
            }
            i = i + 1;
        }
        if !replaced {
            out.push((copy_string(name), id));
        }
        proof {
            lemma_map_of_dom(old_s);
            if replaced {
                let k = choose|j: int| 0 <= j < old_s.len() && #[trigger] old_s[j].0@ == name@;
                lemma_map_of_update(old_s, k, (old_s[k].0, id));
                let u = old_s.update(k, (old_s[k].0, id));
                lemma_map_of_dom(u);
                lemma_map_of_dom(out@);
                assert forall|a: int, b: int| 0 <= a < b < out@.len() implies out@[a].0@ != out@[b].0@ by {
                    assert(out@[a].0@ == old_s[a].0@);
                    assert(out@[b].0@ == old_s[b].0@);
                }
                assert forall|j: int| 0 <= j < out@.len() implies #[trigger] out@[j].0@ == u[j].0@ && out@[j].1 == u[j].1 by {
                    if old_s[j].0@ == name@ {
                        assert(j == k);
                    }
                }
                lemma_map_of_congruent(out@, u);
            } else {
                assert(out@.drop_last().len() == old_s.len());
                assert forall|j: int| 0 <= j < old_s.len() implies (#[trigger] out@.drop_last()[j]).0@
                    == old_s[j].0@ && out@.drop_last()[j].1 == old_s[j].1 by {
                    assert(out@.drop_last()[j] == out@[j]);
                    assert(old_s[j].0@ != name@);
                }
                lemma_map_of_congruent(out@.drop_last(), old_s);
                assert forall|a: int, b: int| 0 <= a < b < out@.len() implies out@[a].0@ != out@[b].0@ by {
                    assert(out@[a].0@ == old_s[a].0@);
                    if b < old_s.len() {
                        assert(out@[b].0@ == old_s[b].0@);
                    } else {
                        assert(old_s[a].0@ != name@);
                    }
                }
            }
        }
        self.last_run_id = out;
    }

    /// Forgets every name not in `names`.
    pub fn retain_names(&mut self, names: &Vec<&String>)
        ensures
            final(self)@ == old(self)@.restrict(Set::new(|k: Seq<char>| exists|i: int| 0 <= i < names@.len() && #[trigger] names@[i]@ == k)),
    {
        let ghost keep = Set::new(|k: Seq<char>| exists|i: int| 0 <= i < names@.len() && #[trigger] names@[i]@ == k);
        proof {
            use_type_invariant(&*self);
        }
        let ghost old_s = self.last_run_id@;
        let mut kept: Vec<(String, i64)> = Vec::new();
        let mut i: usize = 0;
        assert(map_of(kept@) =~= map_of(old_s.subrange(0, 0)).restrict(keep));
        while i < self.last_run_id.len()
            invariant
                i <= old_s.len(),
                self.last_run_id@ == old_s,
                unique_names(old_s),
                unique_names(kept@),
                keep == Set::new(|k: Seq<char>| exists|i: int| 0 <= i < names@.len() && #[trigger] names@[i]@ == k),
                forall|a: int| 0 <= a < kept@.len() ==> exists|b: int| 0 <= b < i && (#[trigger] kept@[a]).0@ == old_s[b].0@,
                map_of(kept@) == map_of(old_s.subrange(0, i as int)).restrict(keep),
            decreases old_s.len() - i,
        {
            let mut found = false;
            let mut j: usize = 0;
            while j < names.len()
                invariant
                    j <= names@.len(),
                    i < old_s.len(),
                    self.last_run_id@ == old_s,
                    keep == Set::new(|k: Seq<char>| exists|i: int| 0 <= i < names@.len() && #[trigger] names@[i]@ == k),
                    found ==> keep.contains(old_s[i as int].0@),
                    !found ==> forall|q: int| 0 <= q < j ==> (#[trigger] names@[q])@ != old_s[i as int].0@,
                decreases names@.len() - j,
            {
                if !found && str_eq(names[j].as_str(), self.last_run_id[i].0.as_str()) {
                    found = true;
                    assert(names@[j as int]@ == old_s[i as int].0@);
                    assert(keep.contains(old_s[i as int].0@));
                }
                j = j + 1;
            }
            let ghost pre = old_s.subrange(0, i as int);
            let ghost e = old_s[i as int];
            assert(old_s.subrange(0, i + 1).drop_last() =~= pre);
            if found {
                let ghost kept0 = kept@;
                kept.push((copy_string(&self.last_run_id[i].0), self.last_run_id[i].1));
                proof {
                    assert(kept@.drop_last() =~= kept0);
                    assert forall|a: int, b: int| 0 <= a < b < kept@.len() implies kept@[a].0@ != kept@[b].0@ by {
                        if b == kept@.len() - 1 {
                            let c = choose|c: int| 0 <= c < i && (#[trigger] kept0[a]).0@ == old_s[c].0@;
                            assert(kept0[a] == kept@[a]);
                        } else {
                            assert(kept0[a] == kept@[a]);
                            assert(kept0[b] == kept@[b]);
                        }
                    }
                    assert forall|a: int| 0 <= a < kept@.len() implies exists|b: int| 0 <= b < i + 1 && (#[trigger] kept@[a]).0@ == old_s[b].0@ by {
                        if a < kept@.len() - 1 {
                            assert(kept0[a] == kept@[a]);
                            let c = choose|c: int| 0 <= c < i && (#[trigger] kept0[a]).0@ == old_s[c].0@;
                            assert(0 <= c < i + 1 && kept@[a].0@ == old_s[c].0@);
                        } else {
                            assert(kept@[a].0@ == old_s[i as int].0@);
                        }
                    }
                    assert(map_of(kept@) =~= map_of(old_s.subrange(0, i + 1)).restrict(keep));
                }
            } else {
                proof {
                    assert(!keep.contains(e.0@));
                    assert(map_of(kept@) =~= map_of(old_s.subrange(0, i + 1)).restrict(keep));
                }
            }
            i = i + 1;
        }
        assert(old_s.subrange(0, old_s.len() as int) =~= old_s);
        self.last_run_id = kept;
    }
}

impl Default for SeenState {
    /// Nothing accounted for yet.
    fn default() -> (s: SeenState)
        ensures
            s@ == Map::<Seq<char>, i64>::empty(),
    {
        SeenState::new()
    }
}

} // verus!

verus! {

// ---------------------------------------------------------------------------
// The rules
// ---------------------------------------------------------------------------

/// A finished run a user watching the task would call a failure: not a
/// success, and not the runner reporting that it was asked to stop.
pub open spec fn run_failed(run: RunView) -> bool {
    !run.running && run.exit_code != Some(0i32) && run.stop_reason != Some(StopReason::Stopped)
}

/// The resident service the "crashed" wording and rule 2 are about:
/// a `KeepAlive` service, not every manual task.
pub open spec fn resident(v: TaskView) -> bool {
    v.is_service && v.keep_alive
}

/// The task's own switch and the matching half of the settings both allow a
/// notification.
pub open spec fn allowed_by(v: TaskView, settings: AppSettings) -> bool {
    v.notify_on_fail && (if resident(v) {
        settings.notify_on_service_crash
    } else {
        settings.notify_on_task_failure
    })
}

/// The first view in `prev` with this name.
pub open spec fn find_prev(prev: Seq<TaskView>, name: Seq<char>) -> Option<TaskView>
    decreases prev.len(),
{
    if prev.len() == 0 {
        None
    } else if prev[0].name@ == name {
        Some(prev[0])
    } else {
        find_prev(prev.drop_first(), name)
    }
}

/// What one notification is about: a run that just failed, or a service
/// whose pid changed underneath a scan.
pub enum Planned {
    RunFailed(TaskView, RunView),
    Crashed(TaskView),
}

/// Records a terminal newest run as accounted for.
pub open spec fn seed_view(seen: Map<Seq<char>, i64>, v: TaskView) -> Map<Seq<char>, i64> {
    match v.last_run {
        Some(run) => if !run.running {
            seen.insert(v.name@, run.id.0)
        } else {
            seen
        },
        None => seen,
    }
}

/// [`seed_view`] over every view, in order.
pub open spec fn seed_all(seen: Map<Seq<char>, i64>, views: Seq<TaskView>) -> Map<Seq<char>, i64>
    decreases views.len(),
{
    if views.len() == 0 {
        seen
    } else {
        seed_view(seed_all(seen, views.drop_last()), views.last())
    }
}

/// Rule 1 for one view: what fires, whether it explains a pid change, and
/// the dedup state after it.
pub open spec fn rule_one(v: TaskView, settings: AppSettings, seen: Map<Seq<char>, i64>) -> (
    Seq<Planned>,
    bool,
    Map<Seq<char>, i64>,
) {
    match v.last_run {
        Some(run) => if !run.running {
            let is_new = !(seen.dom().contains(v.name@) && seen[v.name@] == run.id.0);
            let seen2 = seen.insert(v.name@, run.id.0);
            if is_new && run_failed(run) {
                (
                    if allowed_by(v, settings) {
                        seq![Planned::RunFailed(v, run)]
                    } else {
                        Seq::empty()
                    },
                    true,
                    seen2,
                )
            } else if is_new && run.stop_reason == Some(StopReason::Stopped) {
                (Seq::empty(), true, seen2)
            } else {
                (Seq::empty(), false, seen2)
            }
        } else {
            (Seq::empty(), false, seen)
        },
        None => (Seq::empty(), false, seen),
    }
}

/// Rule 2 for one view against its previous scan.
pub open spec fn rule_two(v: TaskView, p: TaskView, settings: AppSettings, explained: bool) -> Seq<
    Planned,
> {
    if !explained && resident(v) && v.enabled && v.loaded_pid is Some && p.loaded_pid is Some
        && v.loaded_pid != p.loaded_pid && allowed_by(v, settings) {
        seq![Planned::Crashed(v)]
    } else {
        Seq::empty()
    }
}

/// Both rules for one view.
pub open spec fn plan_view(
    prev: Seq<TaskView>,
    v: TaskView,
    settings: AppSettings,
    seen: Map<Seq<char>, i64>,
) -> (Seq<Planned>, Map<Seq<char>, i64>) {
    match find_prev(prev, v.name@) {
        None => (Seq::empty(), seed_view(seen, v)),
        Some(p) => {
            let (one, explained, seen2) = rule_one(v, settings, seen);
            (one + rule_two(v, p, settings, explained), seen2)
        },
    }
}

/// Both rules for every view, in order.
pub open spec fn plan_views(
    prev: Seq<TaskView>,
    now: Seq<TaskView>,
    settings: AppSettings,
    seen: Map<Seq<char>, i64>,
) -> (Seq<Planned>, Map<Seq<char>, i64>)
    decreases now.len(),
{
    if now.len() == 0 {
        (Seq::empty(), seen)
    } else {
        let (out, seen2) = plan_views(prev, now.drop_last(), settings, seen);
        let (more, seen3) = plan_view(prev, now.last(), settings, seen2);
        (out + more, seen3)
    }
}

/// The names in a scan.
pub open spec fn names_in(views: Seq<TaskView>) -> Set<Seq<char>> {
    Set::new(|k: Seq<char>| exists|i: int| 0 <= i < views.len() && #[trigger] views[i].name@ == k)
}

/// The whole pass: what fires, and the dedup state afterwards, which keeps
/// only tasks still present.
pub open spec fn plan(
    prev: Seq<TaskView>,
    now: Seq<TaskView>,
    settings: AppSettings,
    seen: Map<Seq<char>, i64>,
) -> (Seq<Planned>, Map<Seq<char>, i64>) {
    let (out, seen2) = plan_views(prev, now, settings, seen);
    (out, seen2.restrict(names_in(now)))
}

/// The language notifications are written in.
pub open spec fn notify_lang(settings: AppSettings, system: Lang) -> Lang {
    match explicit_lang(settings.language) {
        Some(l) => l,
        None => system,
    }
}

/// `Launchkeeper · <display name> <failed>`.
pub open spec fn title_text(v: TaskView, lang: Lang) -> Seq<char> {
    "Launchkeeper · "@ + v.display_name@ + " "@ + text_of(lang, Key::NotifyFailedSuffix)
}

/// What a failed run's body starts with (the local time follows).
pub open spec fn run_body_prefix(run: RunView, lang: Lang) -> Seq<char> {
    match run.exit_code {
        Some(code) => text_of(lang, Key::NotifyExitCode) + " "@ + int_text(code as int) + " · "@,
        None => text_of(lang, Key::NotifySignal) + " · "@,
    }
}

/// `n` is the notification `p` plans, in `lang`: its task, its title, and
/// its body (for a failed run of a non-service task, up to the local time
/// at its end).
pub open spec fn renders(n: Notification, p: Planned, lang: Lang) -> bool {
    match p {
        Planned::RunFailed(v, run) => {
            &&& n.task_name@ == v.name@
            &&& n.title@ == title_text(v, lang)
            &&& if resident(v) {
                n.body@ == text_of(lang, Key::NotifyServiceCrash)
            } else {
                has_prefix(n.body@, run_body_prefix(run, lang))
            }
        },
        Planned::Crashed(v) => {
            &&& n.task_name@ == v.name@
            &&& n.title@ == title_text(v, lang)
            &&& n.body@ == text_of(lang, Key::NotifyServiceCrash)
        },
    }
}

// ---------------------------------------------------------------------------
// Executable rules
// ---------------------------------------------------------------------------

fn ended_badly(run: &RunView) -> (b: bool)
    ensures
        b == run_failed(*run),
{
    let ok = match run.exit_code {
        Some(c) => c == 0,
        None => false,
    };
    let stopped = match run.stop_reason {
        Some(StopReason::Stopped) => true,
        _ => false,
    };
    !run.running && !ok && !stopped
}

fn is_resident_service(v: &TaskView) -> (b: bool)
    ensures
        b == resident(*v),
{
    v.is_service && v.keep_alive
}

fn allowed(v: &TaskView, settings: &AppSettings) -> (b: bool)
    ensures
        b == allowed_by(*v, *settings),
{
    if !v.notify_on_fail {
        return false;
    }
    if is_resident_service(v) {
        settings.notify_on_service_crash
    } else {
        settings.notify_on_task_failure
    }
}

/// The local wall-clock time (`HH:MM`) of an RFC 3339 timestamp, or the
/// timestamp itself when it does not parse: `DateTime::parse_from_rfc3339`,
/// then `with_timezone(&Local)`, then `format("%H:%M")`. The answer depends
/// on the machine's time zone, so nothing is promised about it.
#[verifier::external_body]
fn local_time(rfc3339: &str) -> String {
    chrono::DateTime::parse_from_rfc3339(rfc3339)
        .map(|t| t.with_timezone(&chrono::Local).format("%H:%M").to_string())
        .unwrap_or_else(|_| rfc3339.to_string())
}

fn notification_title(v: &TaskView, lang: Lang) -> (s: String)
    ensures
        s@ == title_text(*v, lang),
{
    let mut s = string_of("Launchkeeper · ");
    push_str(&mut s, v.display_name.as_str());
    push_str(&mut s, " ");
    push_str(&mut s, t(lang, Key::NotifyFailedSuffix));
    s
}

fn notification_for(v: &TaskView, run: &RunView, lang: Lang) -> (n: Notification)
    ensures
        renders(n, Planned::RunFailed(*v, *run), lang),
{
    let body = if is_resident_service(v) {
        string_of(t(lang, Key::NotifyServiceCrash))
    } else {
        let when: &str = match &run.finished_at {
            Some(f) => f.as_str(),
            None => run.started_at.as_str(),
        };
        let mut b = String::new();
        match run.exit_code {
            Some(code) => {
                push_str(&mut b, t(lang, Key::NotifyExitCode));
                push_str(&mut b, " ");
                push_i64(&mut b, code as i64);
                push_str(&mut b, " · ");
            },
            None => {
                push_str(&mut b, t(lang, Key::NotifySignal));
                push_str(&mut b, " · ");
            },
        }
        let ghost pre = b@;
        assert(pre =~= run_body_prefix(*run, lang));
        let lt = local_time(when);
        push_str(&mut b, lt.as_str());
        assert(b@.subrange(0, pre.len() as int) =~= pre);
        b
    };
    Notification {
        title: notification_title(v, lang),
        body,
        task_name: copy_string(&v.name),
    }
}

fn crash_notification(v: &TaskView, lang: Lang) -> (n: Notification)
    ensures
        renders(n, Planned::Crashed(*v), lang),
{
    Notification {
        title: notification_title(v, lang),
        body: string_of(t(lang, Key::NotifyServiceCrash)),
        task_name: copy_string(&v.name),
    }
}

/// The first view in `prev` named `name`.
fn find_prev_view<'a>(prev: &'a Vec<TaskView>, name: &String) -> (r: Option<&'a TaskView>)
    ensures
        match (r, find_prev(prev@, name@)) {
            (Some(a), Some(b)) => *a == b,
            (None, None) => true,
            _ => false,
        },
{
    let mut i: usize = 0;
    assert(prev@.subrange(0, prev@.len() as int) =~= prev@);
    while i < prev.len()
        invariant
            i <= prev@.len(),
            find_prev(prev@, name@) == find_prev(prev@.subrange(i as int, prev@.len() as int), name@),
        decreases prev@.len() - i,
    {
        let ghost rest = prev@.subrange(i as int, prev@.len() as int);
        assert(rest[0] == prev@[i as int]);
        if str_eq(prev[i].name.as_str(), name.as_str()) {
            return Some(&prev[i]);
        }
        assert(rest.drop_first() =~= prev@.subrange(i + 1, prev@.len() as int));
        i = i + 1;
    }
    None
}

/// Records the run ids `views` already carries (terminal runs only), so
/// that history which predates a comparison is never mistaken for something
/// that just happened.
pub fn seed(seen: &mut SeenState, views: &Vec<TaskView>)
    ensures
        final(seen)@ == seed_all(old(seen)@, views@),
{
    let mut i: usize = 0;
    while i < views.len()
        invariant
            i <= views@.len(),
            seen@ == seed_all(old(seen)@, views@.subrange(0, i as int)),
        decreases views@.len() - i,
    {
        let v = &views[i];
        if let Some(run) = &v.last_run {
            if !run.running {
                seen.insert(&v.name, run.id.0);
            }
        }
        proof {
            assert(views@.subrange(0, i + 1).drop_last() =~= views@.subrange(0, i as int));
        }
        i = i + 1;
    }
    assert(views@.subrange(0, views@.len() as int) =~= views@);
}

/// Both rules for one view, appending what fires to `out`.
fn plan_one(
    prev: &Vec<TaskView>,
    v: &TaskView,
    settings: &AppSettings,
    lang: Lang,
    seen: &mut SeenState,
    out: &mut Vec<Notification>,
)
    ensures
        ({
            let (more, seen2) = plan_view(prev@, *v, *settings, old(seen)@);
            &&& final(seen)@ == seen2
            &&& final(out)@.len() == old(out)@.len() + more.len()
            &&& forall|j: int| 0 <= j < old(out)@.len() ==> final(out)@[j] == old(out)@[j]
            &&& forall|j: int|
                0 <= j < more.len() ==> renders(
                    #[trigger] final(out)@[old(out)@.len() + j],
                    more[j],
                    lang,
                )
        }),
{
    let prev_v = match find_prev_view(prev, &v.name) {
        Some(p) => p,
        None => {
            if let Some(run) = &v.last_run {
                if !run.running {
                    seen.insert(&v.name, run.id.0);
                }
            }
            return;
        },
    };
    let ghost seen0 = seen@;
    let ghost out0 = out@;
    let mut explained = false;
    if let Some(run) = &v.last_run {
        if !run.running {
            let is_new = match seen.get(v.name.as_str()) {
                Some(id) => id != run.id.0,
                None => true,
            };
            if is_new && ended_badly(run) {
                if allowed(v, settings) {
                    out.push(notification_for(v, run, lang));
                }
                explained = true;
            } else if is_new && match run.stop_reason {
                Some(StopReason::Stopped) => true,
                _ => false,
            } {
                explained = true;
            }
            seen.insert(&v.name, run.id.0);
        }
    }
    let ghost (one, ex, seen2) = rule_one(*v, *settings, seen0);
    assert(explained == ex);
    assert(seen@ == seen2);
    assert(out@.len() == out0.len() + one.len());
    let ghost out1 = out@;
    let crash = !explained && is_resident_service(v) && v.enabled && match (
        v.loaded_pid,
        prev_v.loaded_pid,
    ) {
        (Some(a), Some(b)) => a != b,
        _ => false,
    } && allowed(v, settings);
    if crash {
        out.push(crash_notification(v, lang));
    }
    proof {
        let two = rule_two(*v, *prev_v, *settings, explained);
        assert(crash == (two.len() == 1));
        assert forall|j: int| 0 <= j < (one + two).len() implies renders(
            #[trigger] out@[out0.len() + j],
            (one + two)[j],
            lang,
        ) by {
            if j < one.len() {
                assert(out@[out0.len() + j] == out1[out0.len() + j]);
            }
        }
    }
}

/// The pure detection pass: compares this scan (`now`) with the previous one
/// (`prev`), returns the notifications that should fire, in `now`'s order,
/// and updates the dedup state, which afterwards holds only tasks present in
/// `now`. `system` is the language to use when the settings do not pick one.
pub fn plan_notifications(
    prev: &Vec<TaskView>,
    now: &Vec<TaskView>,
    settings: &AppSettings,
    seen: &mut SeenState,
    system: Lang,
) -> (out: Vec<Notification>)
    ensures
        ({
            let (planned, seen2) = plan(prev@, now@, *settings, old(seen)@);
            &&& final(seen)@ == seen2
            &&& out@.len() == planned.len()
            &&& forall|j: int|
                0 <= j < planned.len() ==> renders(
                    #[trigger] out@[j],
                    planned[j],
                    notify_lang(*settings, system),
                )
        }),
{
    let lang = Lang::from_settings(settings, system);
    let mut out: Vec<Notification> = Vec::new();
    let mut i: usize = 0;
    while i < now.len()
        invariant
            i <= now@.len(),
            lang == notify_lang(*settings, system),
            ({
                let (planned, seen2) = plan_views(
                    prev@,
                    now@.subrange(0, i as int),
                    *settings,
                    old(seen)@,
                );
                &&& seen@ == seen2
                &&& out@.len() == planned.len()
                &&& forall|j: int|
                    0 <= j < planned.len() ==> renders(#[trigger] out@[j], planned[j], lang)
            }),
        decreases now@.len() - i,
    {
        let ghost (before, _s) = plan_views(
            prev@,
            now@.subrange(0, i as int),
            *settings,
            old(seen)@,
        );
        let ghost out0 = out@;
        plan_one(prev, &now[i], settings, lang, seen, &mut out);
        proof {
            let pre = now@.subrange(0, i + 1);
            assert(pre.drop_last() =~= now@.subrange(0, i as int));
            let (after, _t) = plan_views(prev@, pre, *settings, old(seen)@);
            let (more, _u) = plan_view(prev@, now@[i as int], *settings, _s);
            assert(after == before + more);
            assert forall|j: int| 0 <= j < after.len() implies renders(
                #[trigger] out@[j],
                after[j],
                lang,
            ) by {
                if j < before.len() {
                    assert(out@[j] == out0[j]);
                } else {
                    let k = j - before.len();
                    assert(out@[out0.len() + k] == out@[j]);
                }
            }
        }
        i = i + 1;
    }
    assert(now@.subrange(0, now@.len() as int) =~= now@);
    let mut names: Vec<&String> = Vec::new();
    let mut k: usize = 0;
    while k < now.len()
        invariant
            k <= now@.len(),
            names@.len() == k,
            forall|j: int| 0 <= j < k ==> (#[trigger] names@[j])@ == now@[j].name@,
        decreases now@.len() - k,
    {
        names.push(&now[k].name);
        k = k + 1;
    }
    let ghost seen_before = seen@;
    seen.retain_names(&names);
    proof {
        let kept = Set::new(
            |key: Seq<char>| exists|i: int| 0 <= i < names@.len() && #[trigger] names@[i]@ == key,
        );
        assert forall|key: Seq<char>| kept.contains(key) <==> names_in(now@).contains(key) by {
            if kept.contains(key) {
                let i = choose|i: int| 0 <= i < names@.len() && #[trigger] names@[i]@ == key;
                assert(now@[i].name@ == key);
            }
            if names_in(now@).contains(key) {
                let i = choose|i: int| 0 <= i < now@.len() && #[trigger] now@[i].name@ == key;
                assert(names@[i]@ == key);
            }
        }
        assert(kept =~= names_in(now@));
    }
    out
}

} // verus!

verus! {

// ---------------------------------------------------------------------------
// Laws
// ---------------------------------------------------------------------------

/// No two views share a name.
pub open spec fn distinct_names(views: Seq<TaskView>) -> bool {
    forall|i: int, j: int| 0 <= i < j < views.len() ==> views[i].name@ != views[j].name@
}

/// Every terminal newest run in `views` is accounted for in `seen`.
pub open spec fn accounted(seen: Map<Seq<char>, i64>, views: Seq<TaskView>) -> bool {
    forall|j: int|
        #![trigger views[j]]
        0 <= j < views.len() && (views[j].last_run matches Some(r) && !r.running) ==> seen.dom().contains(
            views[j].name@,
        ) && seen[views[j].name@] == views[j].last_run->0.id.0
}

/// The task the planned notification is about.
pub open spec fn subject(p: Planned) -> TaskView {
    match p {
        Planned::RunFailed(v, _) => v,
        Planned::Crashed(v) => v,
    }
}

proof fn lemma_find_prev_distinct(views: Seq<TaskView>, k: int)
    requires
        distinct_names(views),
        0 <= k < views.len(),
    ensures
        find_prev(views, views[k].name@) == Some(views[k]),
    decreases k,
{
    if k > 0 {
        let t = views.drop_first();
        assert(views[0].name@ != views[k].name@);
        assert(t[k - 1] == views[k]);
        assert(distinct_names(t)) by {
            assert forall|i: int, j: int| 0 <= i < j < t.len() implies t[i].name@ != t[j].name@ by {
                assert(t[i] == views[i + 1]);
                assert(t[j] == views[j + 1]);
            }
        }
        lemma_find_prev_distinct(t, k - 1);
    }
}

proof fn lemma_find_prev_none(prev: Seq<TaskView>, name: Seq<char>)
    requires
        forall|i: int| 0 <= i < prev.len() ==> (#[trigger] prev[i]).name@ != name,
    ensures
        find_prev(prev, name) is None,
    decreases prev.len(),
{
    if prev.len() > 0 {
        let t = prev.drop_first();
        assert forall|i: int| 0 <= i < t.len() implies (#[trigger] t[i]).name@ != name by {
            assert(t[i] == prev[i + 1]);
        }
        lemma_find_prev_none(t, name);
    }
}

/// One view's pass changes the dedup state only under that view's name, and
/// leaves its terminal run accounted for.
proof fn lemma_plan_view_frame(
    prev: Seq<TaskView>,
    v: TaskView,
    settings: AppSettings,
    seen: Map<Seq<char>, i64>,
)
    ensures
        ({
            let m = plan_view(prev, v, settings, seen).1;
            &&& forall|key: Seq<char>|
                key != v.name@ ==> (#[trigger] m.dom().contains(key) == seen.dom().contains(key))
                    && (seen.dom().contains(key) ==> m[key] == seen[key])
            &&& (v.last_run matches Some(r) && !r.running) ==> m.dom().contains(v.name@) && m[v.name@]
                == v.last_run->0.id.0
        }),
{
}

proof fn lemma_distinct_prefix(views: Seq<TaskView>, k: int)
    requires
        distinct_names(views),
        0 <= k <= views.len(),
    ensures
        distinct_names(views.subrange(0, k)),
{
    assert forall|i: int, j: int| 0 <= i < j < k implies views.subrange(0, k)[i].name@ != views.subrange(0, k)[j].name@ by {
        assert(views.subrange(0, k)[i] == views[i]);
        assert(views.subrange(0, k)[j] == views[j]);
    }
}

proof fn lemma_plan_views_account(
    prev: Seq<TaskView>,
    now: Seq<TaskView>,
    settings: AppSettings,
    seen: Map<Seq<char>, i64>,
)
    requires
        distinct_names(now),
    ensures
        accounted(plan_views(prev, now, settings, seen).1, now),
    decreases now.len(),
{
    if now.len() > 0 {
        let init = now.drop_last();
        lemma_distinct_prefix(now, now.len() - 1);
        assert(init =~= now.subrange(0, now.len() - 1));
        lemma_plan_views_account(prev, init, settings, seen);
        let m2 = plan_views(prev, init, settings, seen).1;
        let v = now.last();
        lemma_plan_view_frame(prev, v, settings, m2);
        let m3 = plan_views(prev, now, settings, seen).1;
        assert forall|j: int|
            #![trigger now[j]]
            0 <= j < now.len() && (now[j].last_run matches Some(r) && !r.running) implies m3.dom().contains(
                now[j].name@,
            ) && m3[now[j].name@] == now[j].last_run->0.id.0 by {
            if j < now.len() - 1 {
                assert(init[j] == now[j]);
                assert(now[j].name@ != v.name@);
            }
        }
    }
}

proof fn lemma_replay(full: Seq<TaskView>, k: int, settings: AppSettings, seen: Map<Seq<char>, i64>)
    requires
        distinct_names(full),
        accounted(seen, full),
        0 <= k <= full.len(),
    ensures
        plan_views(full, full.subrange(0, k), settings, seen).0.len() == 0,
        accounted(plan_views(full, full.subrange(0, k), settings, seen).1, full),
    decreases k,
{
    if k > 0 {
        let cur = full.subrange(0, k);
        assert(cur.drop_last() =~= full.subrange(0, k - 1));
        lemma_replay(full, k - 1, settings, seen);
        let m = plan_views(full, full.subrange(0, k - 1), settings, seen).1;
        let v = full[k - 1];
        assert(cur.last() == v);
        lemma_find_prev_distinct(full, k - 1);
        lemma_plan_view_frame(full, v, settings, m);
        let m2 = plan_view(full, v, settings, m).1;
        assert(plan_view(full, v, settings, m).0.len() == 0);
        assert forall|j: int|
            #![trigger full[j]]
            0 <= j < full.len() && (full[j].last_run matches Some(r) && !r.running) implies m2.dom().contains(
                full[j].name@,
            ) && m2[full[j].name@] == full[j].last_run->0.id.0 by {
            if j != k - 1 {
                assert(full[j].name@ != v.name@);
            }
        }
    } else {
        assert(full.subrange(0, 0).len() == 0);
    }
}

/// A scan that changed nothing notifies nothing: run the planner over a scan
/// whose task names are distinct, then again with that same scan as both
/// the previous and the current one, and the second pass is silent — the
/// same failed run is announced once, not once per scan.
pub proof fn an_unchanged_scan_notifies_nothing(
    prev: Seq<TaskView>,
    now: Seq<TaskView>,
    settings: AppSettings,
    seen: Map<Seq<char>, i64>,
)
    requires
        distinct_names(now),
    ensures
        plan(now, now, settings, plan(prev, now, settings, seen).1).0.len() == 0,
{
    lemma_plan_views_account(prev, now, settings, seen);
    let m = plan(prev, now, settings, seen).1;
    assert(accounted(m, now)) by {
        assert forall|j: int|
            #![trigger now[j]]
            0 <= j < now.len() && (now[j].last_run matches Some(r) && !r.running) implies m.dom().contains(
                now[j].name@,
            ) && m[now[j].name@] == now[j].last_run->0.id.0 by {
            assert(names_in(now).contains(now[j].name@));
        }
    }
    lemma_replay(now, now.len() as int, settings, m);
    assert(now.subrange(0, now.len() as int) =~= now);
}

/// A task's first appearance in a comparison never notifies: when no task of
/// `now` is in `prev`, nothing fires, whatever state the tasks are in.
pub proof fn a_first_scan_notifies_nothing(
    prev: Seq<TaskView>,
    now: Seq<TaskView>,
    settings: AppSettings,
    seen: Map<Seq<char>, i64>,
)
    requires
        forall|i: int, j: int|
            0 <= i < prev.len() && 0 <= j < now.len() ==> prev[i].name@ != now[j].name@,
    ensures
        plan(prev, now, settings, seen).0.len() == 0,
    decreases now.len(),
{
    if now.len() > 0 {
        let init = now.drop_last();
        a_first_scan_notifies_nothing(prev, init, settings, seen);
        let v = now.last();
        assert forall|i: int| 0 <= i < prev.len() implies (#[trigger] prev[i]).name@ != v.name@ by {
            assert(prev[i].name@ != now[now.len() - 1].name@);
        }
        lemma_find_prev_none(prev, v.name@);
    }
}

/// Every notification is about a task whose own switch, and the matching
/// half of the settings, allow it; a run-failure notification is about a
/// run that really failed (so a stop the user asked for never notifies),
/// and a crash notification is about a `KeepAlive` service.
pub proof fn every_notification_is_allowed_and_justified(
    prev: Seq<TaskView>,
    now: Seq<TaskView>,
    settings: AppSettings,
    seen: Map<Seq<char>, i64>,
)
    ensures
        forall|j: int|
            0 <= j < plan(prev, now, settings, seen).0.len() ==> {
                let p = #[trigger] plan(prev, now, settings, seen).0[j];
                &&& allowed_by(subject(p), settings)
                &&& p matches Planned::RunFailed(_, run) ==> run_failed(run)
                        && run.stop_reason != Some(StopReason::Stopped)
                &&& p matches Planned::Crashed(v) ==> resident(v)
            },
    decreases now.len(),
{
    if now.len() > 0 {
        every_notification_is_allowed_and_justified(prev, now.drop_last(), settings, seen);
        let (out, m2) = plan_views(prev, now.drop_last(), settings, seen);
        let (more, _m3) = plan_view(prev, now.last(), settings, m2);
        let all = plan(prev, now, settings, seen).0;
        assert(all == out + more);
        assert forall|j: int| 0 <= j < all.len() implies {
            let p = #[trigger] all[j];
            &&& allowed_by(subject(p), settings)
            &&& p matches Planned::RunFailed(_, run) ==> run_failed(run)
                    && run.stop_reason != Some(StopReason::Stopped)
            &&& p matches Planned::Crashed(v) ==> resident(v)
        } by {
            if j < out.len() {
                assert(all[j] == out[j]);
                assert(plan(prev, now.drop_last(), settings, seen).0 == out);
            } else {
                assert(all[j] == more[j - out.len()]);
            }
        }
    }
}

/// The dedup state never outlives the tasks: afterwards it holds only names
/// present in the current scan.
pub proof fn the_seen_state_forgets_vanished_tasks(
    prev: Seq<TaskView>,
    now: Seq<TaskView>,
    settings: AppSettings,
    seen: Map<Seq<char>, i64>,
)
    ensures
        plan(prev, now, settings, seen).1.dom().subset_of(names_in(now)),
{
}

} // verus!

verus! {

/// A task seen for the first time notifies nothing, and its newest run, if
/// finished, is recorded as accounted for, so a later scan does not treat
/// it as news.
pub proof fn a_first_appearance_is_recorded(
    prev: Seq<TaskView>,
    v: TaskView,
    settings: AppSettings,
    seen: Map<Seq<char>, i64>,
)
    requires
        find_prev(prev, v.name@) is None,
    ensures
        plan_view(prev, v, settings, seen).0.len() == 0,
        (v.last_run matches Some(r) && !r.running) ==> plan_view(prev, v, settings, seen).1
            == seen.insert(v.name@, v.last_run->0.id.0),
{
}

/// Rule 1 never fires twice for one run: a finished run already accounted
/// for, on a task whose pid did not change, notifies nothing and stays
/// accounted for.
pub proof fn an_accounted_run_never_fires_again(
    prev: Seq<TaskView>,
    v: TaskView,
    settings: AppSettings,
    seen: Map<Seq<char>, i64>,
)
    requires
        find_prev(prev, v.name@) is Some,
        find_prev(prev, v.name@)->0.loaded_pid == v.loaded_pid,
        v.last_run is Some,
        !v.last_run->0.running,
        seen.dom().contains(v.name@),
        seen[v.name@] == v.last_run->0.id.0,
    ensures
        plan_view(prev, v, settings, seen).0.len() == 0,
        plan_view(prev, v, settings, seen).1 == seen,
{
    let r = v.last_run->0;
    assert(seen.insert(v.name@, r.id.0) =~= seen);
}

/// A fresh finished run of a task seen before fires exactly once when it
/// failed and the switches allow it (a timeout counts), never when the
/// runner was asked to stop it, and is accounted for either way.
pub proof fn a_fresh_bad_run_fires_exactly_once(
    prev: Seq<TaskView>,
    v: TaskView,
    settings: AppSettings,
    seen: Map<Seq<char>, i64>,
)
    requires
        find_prev(prev, v.name@) is Some,
        v.last_run is Some,
        !v.last_run->0.running,
        !(seen.dom().contains(v.name@) && seen[v.name@] == v.last_run->0.id.0),
    ensures
        run_failed(v.last_run->0) && allowed_by(v, settings) ==> plan_view(prev, v, settings, seen).0
            == seq![Planned::RunFailed(v, v.last_run->0)],
        v.last_run->0.stop_reason == Some(StopReason::Stopped) ==> plan_view(
            prev,
            v,
            settings,
            seen,
        ).0.len() == 0,
        plan_view(prev, v, settings, seen).1 == seen.insert(v.name@, v.last_run->0.id.0),
{
    let (one, explained, seen2) = rule_one(v, settings, seen);
    if run_failed(v.last_run->0) && allowed_by(v, settings) {
        assert(one + rule_two(v, find_prev(prev, v.name@)->0, settings, explained) =~= one);
    }
}

/// One view plans at most one notification, and it is about that view.
pub proof fn one_view_plans_at_most_one_notification(
    prev: Seq<TaskView>,
    v: TaskView,
    settings: AppSettings,
    seen: Map<Seq<char>, i64>,
)
    ensures
        plan_view(prev, v, settings, seen).0.len() <= 1,
        forall|k: int|
            0 <= k < plan_view(prev, v, settings, seen).0.len() ==> subject(
                #[trigger] plan_view(prev, v, settings, seen).0[k],
            ) == v,
{
    match find_prev(prev, v.name@) {
        None => {},
        Some(p) => {
            let (one, explained, seen2) = rule_one(v, settings, seen);
            let two = rule_two(v, p, settings, explained);
            assert(one.len() > 0 ==> explained);
            let out = one + two;
            assert forall|k: int| 0 <= k < out.len() implies subject(#[trigger] out[k]) == v by {
                if k < one.len() {
                    assert(out[k] == one[k]);
                } else {
                    assert(out[k] == two[k - one.len()]);
                }
            }
        },
    }
}

/// A whole pass plans at most one notification per view of the scan, each
/// about a view of the scan.
pub proof fn a_pass_plans_at_most_one_notification_per_task(
    prev: Seq<TaskView>,
    now: Seq<TaskView>,
    settings: AppSettings,
    seen: Map<Seq<char>, i64>,
)
    ensures
        plan(prev, now, settings, seen).0.len() <= now.len(),
        forall|k: int|
            0 <= k < plan(prev, now, settings, seen).0.len() ==> exists|i: int|
                0 <= i < now.len() && subject(#[trigger] plan(prev, now, settings, seen).0[k])
                    == now[i],
    decreases now.len(),
{
    lemma_plan_views_per_view(prev, now, settings, seen);
}

proof fn lemma_plan_views_per_view(
    prev: Seq<TaskView>,
    now: Seq<TaskView>,
    settings: AppSettings,
    seen: Map<Seq<char>, i64>,
)
    ensures
        plan_views(prev, now, settings, seen).0.len() <= now.len(),
        forall|k: int|
            0 <= k < plan_views(prev, now, settings, seen).0.len() ==> exists|i: int|
                0 <= i < now.len() && subject(#[trigger] plan_views(prev, now, settings, seen).0[k])
                    == now[i],
    decreases now.len(),
{
    if now.len() > 0 {
        let init = now.drop_last();
        lemma_plan_views_per_view(prev, init, settings, seen);
        let (out, seen2) = plan_views(prev, init, settings, seen);
        let v = now.last();
        one_view_plans_at_most_one_notification(prev, v, settings, seen2);
        let (more, seen3) = plan_view(prev, v, settings, seen2);
        let all = out + more;
        assert(plan_views(prev, now, settings, seen).0 == all);
        assert forall|k: int| 0 <= k < all.len() implies exists|i: int|
            0 <= i < now.len() && subject(#[trigger] all[k]) == now[i] by {
            if k < out.len() {
                assert(all[k] == out[k]);
                let i = choose|i: int| 0 <= i < init.len() && subject(out[k]) == init[i];
                assert(now[i] == init[i]);
            } else {
                assert(all[k] == more[k - out.len()]);
                assert(subject(more[k - out.len()]) == v);
                assert(now[now.len() - 1] == v);
            }
        }
    }
}

/// After a pass over a scan whose names are distinct, every task's newest
/// finished run is recorded as accounted for, whether it fired, was
/// explained away, or was seen for the first time.
pub proof fn a_pass_records_every_finished_run(
    prev: Seq<TaskView>,
    now: Seq<TaskView>,
    settings: AppSettings,
    seen: Map<Seq<char>, i64>,
)
    requires
        distinct_names(now),
    ensures
        accounted(plan(prev, now, settings, seen).1, now),
{
    lemma_plan_views_account(prev, now, settings, seen);
    let m = plan(prev, now, settings, seen).1;
    assert forall|j: int|
        #![trigger now[j]]
        0 <= j < now.len() && (now[j].last_run matches Some(r) && !r.running) implies m.dom().contains(
            now[j].name@,
        ) && m[now[j].name@] == now[j].last_run->0.id.0 by {
        assert(names_in(now).contains(now[j].name@));
    }
}

/// Over a scan whose names are distinct, no two notifications of one pass
/// are about the same task: each names exactly one task of the scan, and no
/// task gets more than one.
pub proof fn a_pass_notifies_each_task_at_most_once(
    prev: Seq<TaskView>,
    now: Seq<TaskView>,
    settings: AppSettings,
    seen: Map<Seq<char>, i64>,
)
    requires
        distinct_names(now),
    ensures
        forall|k1: int, k2: int|
            0 <= k1 < k2 < plan(prev, now, settings, seen).0.len() ==> subject(
                #[trigger] plan(prev, now, settings, seen).0[k1],
            ).name@ != subject(#[trigger] plan(prev, now, settings, seen).0[k2]).name@,
        forall|k: int|
            0 <= k < plan(prev, now, settings, seen).0.len() ==> exists|i: int|
                0 <= i < now.len() && subject(#[trigger] plan(prev, now, settings, seen).0[k])
                    == now[i],
    decreases now.len(),
{
    lemma_plan_views_per_view(prev, now, settings, seen);
    if now.len() > 0 {
        let init = now.drop_last();
        lemma_distinct_prefix(now, now.len() - 1);
        assert(init =~= now.subrange(0, now.len() - 1));
        a_pass_notifies_each_task_at_most_once(prev, init, settings, seen);
        lemma_plan_views_per_view(prev, init, settings, seen);
        let (out, seen2) = plan_views(prev, init, settings, seen);
        let v = now.last();
        one_view_plans_at_most_one_notification(prev, v, settings, seen2);
        let (more, _seen3) = plan_view(prev, v, settings, seen2);
        let all = out + more;
        assert(plan(prev, now, settings, seen).0 == all);
        assert forall|k1: int, k2: int| 0 <= k1 < k2 < all.len() implies subject(
            #[trigger] all[k1],
        ).name@ != subject(#[trigger] all[k2]).name@ by {
            assert(more.len() <= 1);
            if k2 < out.len() {
                assert(all[k1] == out[k1]);
                assert(all[k2] == out[k2]);
                assert(plan(prev, init, settings, seen).0 == out);
            } else {
                assert(k1 < out.len());
                assert(all[k1] == out[k1]);
                assert(all[k2] == more[k2 - out.len()]);
                assert(subject(more[k2 - out.len()]) == v);
                let i = choose|i: int| 0 <= i < init.len() && subject(out[k1]) == init[i];
                assert(init[i] == now[i]);
                assert(now[now.len() - 1] == v);
            }
        }
    }
}

proof fn lemma_plan_views_frame(
    prev: Seq<TaskView>,
    views: Seq<TaskView>,
    settings: AppSettings,
    seen: Map<Seq<char>, i64>,
    key: Seq<char>,
)
    requires
        forall|i: int| 0 <= i < views.len() ==> (#[trigger] views[i]).name@ != key,
    ensures
        plan_views(prev, views, settings, seen).1.dom().contains(key) == seen.dom().contains(key),
        seen.dom().contains(key) ==> plan_views(prev, views, settings, seen).1[key] == seen[key],
    decreases views.len(),
{
    if views.len() > 0 {
        let init = views.drop_last();
        assert forall|i: int| 0 <= i < init.len() implies (#[trigger] init[i]).name@ != key by {
            assert(init[i] == views[i]);
        }
        lemma_plan_views_frame(prev, init, settings, seen, key);
        let v = views.last();
        assert(views[views.len() - 1] == v);
        lemma_plan_view_frame(prev, v, settings, plan_views(prev, init, settings, seen).1);
    }
}

/// Within a whole pass over a scan whose names are distinct, a fresh finished
/// run of a task seen before fires exactly when it failed and the switches
/// allow it (a timeout counts), and nothing at all is said of the task when
/// the runner was asked to stop the run, even if its pid changed.
pub proof fn a_fresh_bad_run_fires_once_in_a_pass(
    prev: Seq<TaskView>,
    now: Seq<TaskView>,
    settings: AppSettings,
    seen: Map<Seq<char>, i64>,
    i: int,
)
    requires
        distinct_names(now),
        0 <= i < now.len(),
        find_prev(prev, now[i].name@) is Some,
        now[i].last_run is Some,
        !now[i].last_run->0.running,
        !(seen.dom().contains(now[i].name@) && seen[now[i].name@] == now[i].last_run->0.id.0),
    ensures
        run_failed(now[i].last_run->0) && allowed_by(now[i], settings) ==> exists|k: int|
            0 <= k < plan(prev, now, settings, seen).0.len() && #[trigger] plan(
                prev,
                now,
                settings,
                seen,
            ).0[k] == Planned::RunFailed(now[i], now[i].last_run->0),
        now[i].last_run->0.stop_reason == Some(StopReason::Stopped) ==> forall|k: int|
            0 <= k < plan(prev, now, settings, seen).0.len() ==> subject(
                #[trigger] plan(prev, now, settings, seen).0[k],
            ).name@ != now[i].name@,
    decreases now.len(),
{
    let init = now.drop_last();
    let v = now.last();
    assert(now[now.len() - 1] == v);
    lemma_distinct_prefix(now, now.len() - 1);
    assert(init =~= now.subrange(0, now.len() - 1));
    let (out, seen2) = plan_views(prev, init, settings, seen);
    let (more, _seen3) = plan_view(prev, v, settings, seen2);
    let all = out + more;
    assert(plan(prev, now, settings, seen).0 == all);
    one_view_plans_at_most_one_notification(prev, v, settings, seen2);
    if i < now.len() - 1 {
        assert(init[i] == now[i]);
        a_fresh_bad_run_fires_once_in_a_pass(prev, init, settings, seen, i);
        assert(plan(prev, init, settings, seen).0 == out);
        assert(v.name@ != now[i].name@);
        if run_failed(now[i].last_run->0) && allowed_by(now[i], settings) {
            let k = choose|k: int| 0 <= k < out.len() && out[k] == Planned::RunFailed(now[i], now[i].last_run->0);
            assert(all[k] == out[k]);
        }
        if now[i].last_run->0.stop_reason == Some(StopReason::Stopped) {
            assert forall|k: int| 0 <= k < all.len() implies subject(#[trigger] all[k]).name@
                != now[i].name@ by {
                if k < out.len() {
                    assert(all[k] == out[k]);
                } else {
                    assert(all[k] == more[k - out.len()]);
                }
            }
        }
    } else {
        assert(v == now[i]);
        assert forall|j: int| 0 <= j < init.len() implies (#[trigger] init[j]).name@ != v.name@ by {
            assert(init[j] == now[j]);
        }
        lemma_plan_views_frame(prev, init, settings, seen, v.name@);
        a_fresh_bad_run_fires_exactly_once(prev, v, settings, seen2);
        if run_failed(v.last_run->0) && allowed_by(v, settings) {
            assert(all[out.len() as int] == more[0]);
        }
        if v.last_run->0.stop_reason == Some(StopReason::Stopped) {
            lemma_plan_views_per_view(prev, init, settings, seen);
            assert forall|k: int| 0 <= k < all.len() implies subject(#[trigger] all[k]).name@
                != now[i].name@ by {
                assert(k < out.len());
                assert(all[k] == out[k]);
                let j = choose|j: int| 0 <= j < init.len() && subject(out[k]) == init[j];
                assert(init[j] == now[j]);
            }
        }
    }
}

/// Within a whole pass over a scan whose names are distinct, a task whose
/// newest run was already accounted for before the pass, and whose pid did
/// not change, is not notified about.
pub proof fn an_accounted_run_stays_quiet_in_a_pass(
    prev: Seq<TaskView>,
    now: Seq<TaskView>,
    settings: AppSettings,
    seen: Map<Seq<char>, i64>,
    i: int,
)
    requires
        distinct_names(now),
        0 <= i < now.len(),
        find_prev(prev, now[i].name@) is Some,
        find_prev(prev, now[i].name@)->0.loaded_pid == now[i].loaded_pid,
        now[i].last_run is Some,
        !now[i].last_run->0.running,
        seen.dom().contains(now[i].name@),
        seen[now[i].name@] == now[i].last_run->0.id.0,
    ensures
        forall|k: int|
            0 <= k < plan(prev, now, settings, seen).0.len() ==> subject(
                #[trigger] plan(prev, now, settings, seen).0[k],
            ).name@ != now[i].name@,
    decreases now.len(),
{
    let init = now.drop_last();
    let v = now.last();
    assert(now[now.len() - 1] == v);
    lemma_distinct_prefix(now, now.len() - 1);
    assert(init =~= now.subrange(0, now.len() - 1));
    let (out, seen2) = plan_views(prev, init, settings, seen);
    let (more, _seen3) = plan_view(prev, v, settings, seen2);
    let all = out + more;
    assert(plan(prev, now, settings, seen).0 == all);
    one_view_plans_at_most_one_notification(prev, v, settings, seen2);
    if i < now.len() - 1 {
        assert(init[i] == now[i]);
        an_accounted_run_stays_quiet_in_a_pass(prev, init, settings, seen, i);
        assert(plan(prev, init, settings, seen).0 == out);
        assert(v.name@ != now[i].name@);
        assert forall|k: int| 0 <= k < all.len() implies subject(#[trigger] all[k]).name@
            != now[i].name@ by {
            if k < out.len() {
                assert(all[k] == out[k]);
            } else {
                assert(all[k] == more[k - out.len()]);
            }
        }
    } else {
        assert(v == now[i]);
        assert forall|j: int| 0 <= j < init.len() implies (#[trigger] init[j]).name@ != v.name@ by {
            assert(init[j] == now[j]);
        }
        lemma_plan_views_frame(prev, init, settings, seen, v.name@);
        an_accounted_run_never_fires_again(prev, v, settings, seen2);
        lemma_plan_views_per_view(prev, init, settings, seen);
        assert forall|k: int| 0 <= k < all.len() implies subject(#[trigger] all[k]).name@
            != now[i].name@ by {
            assert(k < out.len());
            assert(all[k] == out[k]);
            let j = choose|j: int| 0 <= j < init.len() && subject(out[k]) == init[j];
            assert(init[j] == now[j]);
        }
    }
}

/// The crash wording goes to resident services and to nothing else: a
/// notification that renders an item a pass planned carries the body
/// "service crashed and was restarted" exactly when its task is a
/// `KeepAlive` service; it names that task, whose switches allow it.
pub proof fn the_crash_wording_is_for_resident_services_only(
    prev: Seq<TaskView>,
    now: Seq<TaskView>,
    settings: AppSettings,
    seen: Map<Seq<char>, i64>,
    lang: Lang,
    j: int,
    n: Notification,
)
    requires
        0 <= j < plan(prev, now, settings, seen).0.len(),
        renders(n, plan(prev, now, settings, seen).0[j], lang),
    ensures
        (n.body@ == text_of(lang, Key::NotifyServiceCrash)) <==> resident(
            subject(plan(prev, now, settings, seen).0[j]),
        ),
        n.task_name@ == subject(plan(prev, now, settings, seen).0[j]).name@,
        allowed_by(subject(plan(prev, now, settings, seen).0[j]), settings),
{
    every_notification_is_allowed_and_justified(prev, now, settings, seen);
    let p = plan(prev, now, settings, seen).0[j];
    match p {
        Planned::RunFailed(v, run) => {
            if !resident(v) {
                let pre = run_body_prefix(run, lang);
                let crash = text_of(lang, Key::NotifyServiceCrash);
                reveal_strlit("服务崩溃，已自动重启");
                reveal_strlit("Service crashed and was restarted");
                reveal_strlit("退出码");
                reveal_strlit("Exit code");
                reveal_strlit("被信号终止");
                reveal_strlit("Killed by a signal");
                let head = match run.exit_code {
                    Some(_) => text_of(lang, Key::NotifyExitCode),
                    None => text_of(lang, Key::NotifySignal),
                };
                assert(head.len() > 0);
                assert(pre[0] == head[0]);
                assert(crash[0] != head[0]);
                if n.body@ == crash {
                    assert(n.body@.subrange(0, pre.len() as int)[0] == crash[0]);
                }
            }
        },
        Planned::Crashed(v) => {},
    }
}

/// What counts as a failure: a fresh finished run of a task seen before,
/// whose switches allow a notice, is reported as failed exactly when it
/// neither exited with code 0 nor was stopped on request. Any other exit
/// code counts, and so does a run with no exit code at all (killed by a
/// signal).
pub proof fn a_run_fails_unless_it_exited_zero_or_was_stopped(
    prev: Seq<TaskView>,
    v: TaskView,
    settings: AppSettings,
    seen: Map<Seq<char>, i64>,
)
    requires
        find_prev(prev, v.name@) is Some,
        v.last_run is Some,
        !v.last_run->0.running,
        !(seen.dom().contains(v.name@) && seen[v.name@] == v.last_run->0.id.0),
        allowed_by(v, settings),
    ensures
        plan_view(prev, v, settings, seen).0.contains(Planned::RunFailed(v, v.last_run->0)) <==> (
        v.last_run->0.exit_code != Some(0i32) && v.last_run->0.stop_reason != Some(
            StopReason::Stopped,
        )),
{
    let run = v.last_run->0;
    let planned = plan_view(prev, v, settings, seen).0;
    if run.exit_code != Some(0i32) && run.stop_reason != Some(StopReason::Stopped) {
        a_fresh_bad_run_fires_exactly_once(prev, v, settings, seen);
        assert(planned[0] == Planned::RunFailed(v, run));
    } else {
        let p = find_prev(prev, v.name@)->0;
        let (one, explained, seen2) = rule_one(v, settings, seen);
        assert(one.len() == 0);
        let two = rule_two(v, p, settings, explained);
        assert(planned =~= two);
        assert forall|k: int| 0 <= k < planned.len() implies planned[k] != Planned::RunFailed(v, run) by {
            assert(planned[k] == Planned::Crashed(v));
        }
    }
}

} // verus!
