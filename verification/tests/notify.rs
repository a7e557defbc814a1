use launchkeeper::commands::{RunHandle, RunView, TaskStatus, TaskView};
use launchkeeper::i18n::Lang;
use launchkeeper::model::{StopReason, Trigger, TriggerKind};
use launchkeeper::notify::{SeenState, plan_notifications, seed};
use launchkeeper::settings::AppSettings;

fn run(id: i64, running: bool, exit_code: Option<i32>, stop_reason: Option<StopReason>) -> RunView {
    RunView {
        id: RunHandle(id),
        started_at: "2026-09-10T13:00:00.000Z".to_string(),
        finished_at: if running { None } else { Some("2026-09-10T13:00:05.000Z".to_string()) },
        exit_code,
        duration_ms: if running { None } else { Some(5000) },
        trigger_kind: TriggerKind::Scheduled,
        stop_reason,
        running,
    }
}

fn task(name: &str, is_service: bool, keep_alive: bool, notify_on_fail: bool) -> TaskView {
    TaskView {
        name: name.to_string(),
        display_name: format!("任务 {name}"),
        description: None,
        trigger: if is_service { Trigger::Manual } else { Trigger::AtLogin },
        trigger_text: String::new(),
        interpreter_label: None,
        is_service,
        keep_alive,
        enabled: true,
        loaded_pid: None,
        uptime_secs: None,
        last_run: None,
        tags: Vec::new(),
        favorite: false,
        notify_on_fail,
        status: TaskStatus::Never,
    }
}

/// Settings with the language pinned, so the wording asserted on does not
/// depend on the machine the tests run on.
fn settings(task_on: bool, service_on: bool) -> AppSettings {
    AppSettings {
        notify_on_task_failure: task_on,
        notify_on_service_crash: service_on,
        language: Some("zh-CN".to_string()),
        ..AppSettings::default()
    }
}

fn vec_of(v: &TaskView) -> Vec<TaskView> {
    vec![v.clone()]
}

#[test]
fn first_scan_notifies_nothing_even_if_already_failed() {
    let mut seen = SeenState::default();
    let mut t = task("a", false, false, true);
    t.last_run = Some(run(1, false, Some(1), Some(StopReason::Exited)));
    let out = plan_notifications(
        &vec![],
        &vec_of(&t),
        &settings(true, true),
        &mut seen,
        Lang::Zh,
    );
    assert!(out.is_empty());
    // But it is remembered, so a later "no-op" scan (same run) also
    // stays quiet rather than treating the seed as a fresh success.
    let out2 = plan_notifications(
        &vec_of(&t),
        &vec_of(&t),
        &settings(true, true),
        &mut seen,
        Lang::Zh,
    );
    assert!(out2.is_empty());
}

/// The app starts with a task whose newest run failed days ago.
/// `scan_loop`'s `prev` is the startup seed — not an empty slice — so
/// the first-appearance branch never fires for it, and only the explicit
/// [`seed`] keeps that stale failure from being announced as news on
/// every launch.
#[test]
fn a_stale_failed_run_present_at_startup_never_notifies() {
    let mut stale = task("a", false, false, true);
    stale.last_run = Some(run(7, false, Some(1), Some(StopReason::Exited)));
    let startup = vec![stale.clone()];

    let mut seen = SeenState::default();
    seed(&mut seen, &startup);

    // First real scan: prev is the seed the app started from.
    let out = plan_notifications(&startup, &startup, &settings(true, true), &mut seen, Lang::Zh);
    assert!(out.is_empty(), "启动时就在那儿的旧失败不该通知: {out:?}");

    // Restarting the app all over again does the same thing.
    let mut seen = SeenState::default();
    seed(&mut seen, &startup);
    assert!(
        plan_notifications(&startup, &startup, &settings(true, true), &mut seen, Lang::Zh).is_empty()
    );

    // But a genuinely new failure on the same task still notifies.
    let mut fresh = stale.clone();
    fresh.last_run = Some(run(8, false, Some(2), Some(StopReason::Exited)));
    let out = plan_notifications(
        &startup,
        &vec_of(&fresh),
        &settings(true, true),
        &mut seen,
        Lang::Zh,
    );
    assert_eq!(out.len(), 1, "新的一次失败仍然要通知");
}

/// Without the seed the same startup would notify — the assertion that
/// keeps `seed` from being quietly dropped again.
#[test]
fn without_the_seed_that_same_startup_would_have_notified() {
    let mut stale = task("a", false, false, true);
    stale.last_run = Some(run(7, false, Some(1), Some(StopReason::Exited)));
    let startup = vec![stale];
    let mut seen = SeenState::default();
    let out = plan_notifications(&startup, &startup, &settings(true, true), &mut seen, Lang::Zh);
    assert_eq!(out.len(), 1);
}

#[test]
fn success_then_failure_notifies_once() {
    let mut seen = SeenState::default();
    let mut before = task("a", false, false, true);
    before.last_run = Some(run(1, false, Some(0), Some(StopReason::Exited)));
    let mut after = before.clone();
    after.last_run = Some(run(2, false, Some(1), Some(StopReason::Exited)));

    let out = plan_notifications(
        &vec_of(&before),
        &vec_of(&after),
        &settings(true, true),
        &mut seen,
        Lang::Zh,
    );
    assert_eq!(out.len(), 1);
    assert!(out[0].body.starts_with("退出码 1"));
    assert_eq!(out[0].title, "Launchkeeper · 任务 a 失败");
}

/// The same failure, with the app set to English . The display
/// name is the user's own and stays exactly as it is; only the fixed
/// words around it change.
#[test]
fn the_notification_follows_the_language_setting() {
    let mut seen = SeenState::default();
    let mut before = task("a", false, false, true);
    before.last_run = Some(run(1, false, Some(0), Some(StopReason::Exited)));
    let mut after = before.clone();
    after.last_run = Some(run(2, false, Some(1), Some(StopReason::Exited)));
    let english = AppSettings {
        language: Some("en".into()),
        ..settings(true, true)
    };

    let out = plan_notifications(
        &vec_of(&before),
        &vec_of(&after),
        &english,
        &mut seen,
        Lang::Zh,
    );
    assert_eq!(out.len(), 1);
    assert_eq!(out[0].title, "Launchkeeper · 任务 a failed");
    assert!(out[0].body.starts_with("Exit code 1"), "{}", out[0].body);

    // A service crash says the same thing in the other language.
    let mut seen = SeenState::default();
    let mut svc = task("bridge", true, true, true);
    svc.enabled = true;
    svc.loaded_pid = Some(100);
    let mut after = svc.clone();
    after.loaded_pid = Some(101);
    let out = plan_notifications(
        &vec_of(&svc),
        &vec_of(&after),
        &english,
        &mut seen,
        Lang::Zh,
    );
    assert_eq!(out.len(), 1);
    assert_eq!(out[0].body, "Service crashed and was restarted");
}

#[test]
fn the_same_failed_run_does_not_notify_twice() {
    let mut seen = SeenState::default();
    let mut running = task("a", false, false, true);
    running.last_run = Some(run(1, true, None, None));
    let mut failed = running.clone();
    failed.last_run = Some(run(1, false, Some(1), Some(StopReason::Exited)));

    let first = plan_notifications(
        &vec_of(&running),
        &vec_of(&failed),
        &settings(true, true),
        &mut seen,
        Lang::Zh,
    );
    assert_eq!(first.len(), 1);

    // Nothing changed on the next scan: same failed run is still
    // `last_run`.
    let second = plan_notifications(
        &vec_of(&failed),
        &vec_of(&failed),
        &settings(true, true),
        &mut seen,
        Lang::Zh,
    );
    assert!(second.is_empty());
}

#[test]
fn a_timeout_is_a_failure() {
    let mut seen = SeenState::default();
    let mut running = task("a", false, false, true);
    running.last_run = Some(run(1, true, None, None));
    let mut timed_out = running.clone();
    timed_out.last_run = Some(run(1, false, Some(124), Some(StopReason::Timeout)));

    let out = plan_notifications(
        &vec_of(&running),
        &vec_of(&timed_out),
        &settings(true, true),
        &mut seen,
        Lang::Zh,
    );
    assert_eq!(out.len(), 1);
    assert!(out[0].body.starts_with("退出码 124"));
}

#[test]
fn a_user_initiated_stop_does_not_notify() {
    let mut seen = SeenState::default();
    let mut running = task("bridge", true, true, true);
    running.loaded_pid = Some(100);
    running.last_run = Some(run(1, true, None, None));
    let mut stopped = running.clone();
    stopped.loaded_pid = None;
    stopped.last_run = Some(run(1, false, None, Some(StopReason::Stopped)));

    let out = plan_notifications(
        &vec_of(&running),
        &vec_of(&stopped),
        &settings(true, true),
        &mut seen,
        Lang::Zh,
    );
    assert!(out.is_empty());
}

#[test]
fn a_service_crash_restart_notifies_via_the_run_row_when_the_scan_catches_it() {
    let mut seen = SeenState::default();
    let mut running = task("bridge", true, true, true);
    running.loaded_pid = Some(100);
    running.last_run = Some(run(1, true, None, None));
    let mut crashed = running.clone();
    crashed.loaded_pid = None;
    crashed.last_run = Some(run(1, false, Some(1), Some(StopReason::Exited)));

    let out = plan_notifications(
        &vec_of(&running),
        &vec_of(&crashed),
        &settings(true, true),
        &mut seen,
        Lang::Zh,
    );
    assert_eq!(out.len(), 1);
    assert_eq!(out[0].body, "服务崩溃，已自动重启");
}

#[test]
fn a_service_crash_restart_notifies_via_the_pid_change_when_the_scan_misses_the_run_row() {
    let mut seen = SeenState::default();
    let mut running = task("bridge", true, true, true);
    running.loaded_pid = Some(100);
    running.last_run = Some(run(1, true, None, None));
    // By the time the next scan runs, launchd has already relaunched it
    // under a new pid with a fresh, still-running run row (id 2) — the
    // failed run (id 1) is never observed as `last_run`.
    let mut restarted = running.clone();
    restarted.loaded_pid = Some(200);
    restarted.last_run = Some(run(2, true, None, None));

    let out = plan_notifications(
        &vec_of(&running),
        &vec_of(&restarted),
        &settings(true, true),
        &mut seen,
        Lang::Zh,
    );
    assert_eq!(out.len(), 1);
    assert_eq!(out[0].body, "服务崩溃，已自动重启");

    // And it settles: the next scan's `prev` already carries pid 200, so
    // an unrelated later scan does not refire.
    let out2 = plan_notifications(
        &vec_of(&restarted),
        &vec_of(&restarted),
        &settings(true, true),
        &mut seen,
        Lang::Zh,
    );
    assert!(out2.is_empty());
}

#[test]
fn per_task_opt_out_is_respected() {
    let mut seen = SeenState::default();
    let mut before = task("a", false, false, false);
    before.last_run = Some(run(1, false, Some(0), Some(StopReason::Exited)));
    let mut after = before.clone();
    after.last_run = Some(run(2, false, Some(1), Some(StopReason::Exited)));

    let out = plan_notifications(
        &vec_of(&before),
        &vec_of(&after),
        &settings(true, true),
        &mut seen,
        Lang::Zh,
    );
    assert!(out.is_empty());
}

#[test]
fn global_opt_out_is_respected_for_scheduled_tasks() {
    let mut seen = SeenState::default();
    let mut before = task("a", false, false, true);
    before.last_run = Some(run(1, false, Some(0), Some(StopReason::Exited)));
    let mut after = before.clone();
    after.last_run = Some(run(2, false, Some(1), Some(StopReason::Exited)));

    let out = plan_notifications(
        &vec_of(&before),
        &vec_of(&after),
        &settings(false, true),
        &mut seen,
        Lang::Zh,
    );
    assert!(out.is_empty());
}

#[test]
fn global_opt_out_is_respected_for_services() {
    let mut seen = SeenState::default();
    let mut running = task("bridge", true, true, true);
    running.loaded_pid = Some(100);
    running.last_run = Some(run(1, true, None, None));
    let mut restarted = running.clone();
    restarted.loaded_pid = Some(200);
    restarted.last_run = Some(run(2, true, None, None));

    let out = plan_notifications(
        &vec_of(&running),
        &vec_of(&restarted),
        &settings(true, false),
        &mut seen,
        Lang::Zh,
    );
    assert!(out.is_empty());
}

/// `is_service` is true for every `Manual` task, including a
/// one-shot script the user runs by hand. Failing, it is a *task*
/// failure: the task switch decides, and the body names the exit code
/// instead of claiming a service was restarted.
#[test]
fn a_manual_task_without_keep_alive_gets_the_task_wording_and_switch() {
    let mut running = task("once", true, false, true);
    running.last_run = Some(run(1, true, None, None));
    let mut failed = running.clone();
    failed.last_run = Some(run(1, false, Some(3), Some(StopReason::Exited)));

    // 服务开关关着也照样通知——它不是服务。
    let mut seen = SeenState::default();
    let out = plan_notifications(
        &vec_of(&running),
        &vec_of(&failed),
        &settings(true, false),
        &mut seen,
        Lang::Zh,
    );
    assert_eq!(out.len(), 1);
    assert!(out[0].body.starts_with("退出码 3"), "{}", out[0].body);

    // 反过来，关掉任务失败通知就该安静，哪怕服务开关开着。
    let mut seen = SeenState::default();
    let out = plan_notifications(
        &vec_of(&running),
        &vec_of(&failed),
        &settings(false, true),
        &mut seen,
        Lang::Zh,
    );
    assert!(out.is_empty(), "{out:?}");
}

/// The user pressed 停止 / 重启. One scan later the pid has changed
/// and the newest run says `Stopped` — rule 2 must not call that a
/// crash, and must stay quiet afterwards too.
#[test]
fn a_user_restart_does_not_look_like_a_crash_to_rule_2() {
    let mut seen = SeenState::default();
    let mut running = task("bridge", true, true, true);
    running.loaded_pid = Some(100);
    running.last_run = Some(run(1, true, None, None));

    // The stop landed and launchd already has the new process, but the
    // new run row is not written yet: `last_run` is still the stopped one.
    let mut restarted = running.clone();
    restarted.loaded_pid = Some(200);
    restarted.last_run = Some(run(1, false, None, Some(StopReason::Stopped)));

    let out = plan_notifications(
        &vec_of(&running),
        &vec_of(&restarted),
        &settings(true, true),
        &mut seen,
        Lang::Zh,
    );
    assert!(out.is_empty(), "用户自己重启的服务不该报崩溃: {out:?}");

    // And the scan after that, once the new run row shows up.
    let mut settled = restarted.clone();
    settled.last_run = Some(run(2, true, None, None));
    let out = plan_notifications(
        &vec_of(&restarted),
        &vec_of(&settled),
        &settings(true, true),
        &mut seen,
        Lang::Zh,
    );
    assert!(out.is_empty(), "{out:?}");
}

/// A task that is gone leaves nothing behind in the dedup map.
#[test]
fn seen_state_forgets_tasks_that_are_no_longer_there() {
    let mut seen = SeenState::default();
    let mut a = task("a", false, false, true);
    a.last_run = Some(run(1, false, Some(0), Some(StopReason::Exited)));
    let b = task("b", false, false, true);

    let both = vec![a.clone(), b.clone()];
    plan_notifications(&both, &both, &settings(true, true), &mut seen, Lang::Zh);
    assert_eq!(seen.len(), 1, "只有 a 有终态 run");

    // a is deleted; the next scan only carries b.
    let only_b = vec![b];
    plan_notifications(&both, &only_b, &settings(true, true), &mut seen, Lang::Zh);
    assert!(seen.is_empty(), "{:?}", seen);
}

#[test]
fn a_service_without_keep_alive_never_matches_rule_2() {
    let mut seen = SeenState::default();
    let mut running = task("mail", true, false, true);
    running.loaded_pid = Some(100);
    running.last_run = Some(run(1, true, None, None));
    // Restarted manually by the user (start again after stop): a
    // different pid, but no KeepAlive, so this is not a crash.
    let mut again = running.clone();
    again.loaded_pid = Some(300);
    again.last_run = Some(run(3, true, None, None));

    let out = plan_notifications(
        &vec_of(&running),
        &vec_of(&again),
        &settings(true, true),
        &mut seen,
        Lang::Zh,
    );
    assert!(out.is_empty());
}
