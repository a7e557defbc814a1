use launchkeeper::commands::{
    AdoptionPlanView, EnvVar, ExternalAgentView, Lifecycle, MAX_TAIL_BYTES, RunHandle, RunRoute, RunView, TaskInput,
    TaskStatus, build_view, epoch_millis, log_chunk, log_range, run_route, shorten_home, status_of, tail_window,
    uptime_at, uptime_secs,
};
use launchkeeper::model::{AdoptionPlan, CalendarEntry, ExternalAgent, Run, StopReason, Task, Trigger, TriggerKind};

const T0: i64 = 1_789_000_000_000;

fn task(name: &str, script: &str, trigger: Trigger) -> Task {
    Task {
        name: name.to_string(),
        display_name: name.to_string(),
        description: None,
        script_path: script.to_string(),
        args: Vec::new(),
        working_dir: None,
        env: Vec::new(),
        trigger,
        keep_alive: false,
        timeout_secs: None,
        tags: Vec::new(),
        favorite: false,
        notify_on_fail: true,
        created_at_ms: T0,
        updated_at_ms: T0,
        adopted: false,
        plist_path: None,
    }
}

fn sample_task() -> Task {
    let mut t = task(
        "sample",
        "/usr/bin/true",
        Trigger::Calendar { entries: vec![CalendarEntry::daily(21, 0)] },
    );
    t.env.push(("FOO".to_string(), "bar".to_string()));
    t.tags = vec!["work".to_string()];
    t
}

/// A `Manual` task, i.e. a service.
fn service_task(keep_alive: bool) -> Task {
    let mut t = task("bridge", "/usr/bin/yes", Trigger::Manual);
    t.keep_alive = keep_alive;
    t
}

/// One recorded run of a task, still in flight.
fn running_run(id: i64) -> Run {
    Run {
        id,
        started_at_ms: T0,
        finished_at_ms: None,
        exit_code: None,
        trigger_kind: TriggerKind::Manual,
        stop_reason: None,
        stdout_path: "/tmp/out".to_string(),
        stderr_path: "/tmp/err".to_string(),
    }
}

/// The same run, finished.
fn finished(r: &Run, exit_code: Option<i32>, stop_reason: Option<StopReason>) -> Run {
    Run { finished_at_ms: Some(T0 + 1500), exit_code, stop_reason, ..r.clone() }
}

#[test]
fn task_input_round_trips() {
    let task = sample_task();
    let input = TaskInput::from_task(&task);
    let back = input.into_task(Some(&task), T0 + 10);
    assert_eq!(back.name, task.name);
    assert_eq!(back.env, task.env);
    assert_eq!(back.trigger, task.trigger);
    assert_eq!(back.tags, task.tags);
    assert_eq!(back.created_at_ms, task.created_at_ms);
    assert_eq!(back.updated_at_ms, T0 + 10);
}

#[test]
fn a_later_form_entry_wins_over_an_earlier_one() {
    let mut input = TaskInput::from_task(&sample_task());
    input.env = vec![
        EnvVar { key: "A".to_string(), value: "1".to_string() },
        EnvVar { key: "B".to_string(), value: "2".to_string() },
        EnvVar { key: "A".to_string(), value: "3".to_string() },
    ];
    let t = input.into_task(None, T0);
    assert_eq!(t.env.len(), 2);
    assert!(t.env.contains(&("A".to_string(), "3".to_string())));
    assert!(t.env.contains(&("B".to_string(), "2".to_string())));
    assert_eq!(t.created_at_ms, T0);
    assert!(!t.adopted);
}

#[test]
fn tail_window_is_clamped_and_zero_means_the_cap() {
    assert_eq!(tail_window(0), MAX_TAIL_BYTES);
    assert_eq!(tail_window(1024), 1024);
    assert_eq!(tail_window(u32::MAX), MAX_TAIL_BYTES);
}

#[test]
fn a_log_read_starts_where_the_window_does() {
    assert_eq!(log_range(100, 1024), (0, false));
    assert_eq!(log_range(5000, 1024), (3976, true));
    assert_eq!(log_range(MAX_TAIL_BYTES + 1, 0), (1, true));
}

#[test]
fn status_follows_the_table() {
    let task = sample_task();
    assert_eq!(status_of(&task, false, None, None), TaskStatus::Disabled);
    assert_eq!(status_of(&task, true, None, None), TaskStatus::Never);

    let running = running_run(1);
    assert_eq!(status_of(&task, true, None, Some(&running)), TaskStatus::Running);
    assert!(RunView::from_run(&running).running);
    assert!(RunView::from_run(&running).duration_ms.is_none());
    assert_eq!(RunView::from_run(&running).stop_reason, None);

    let ok = finished(&running, Some(0), Some(StopReason::Exited));
    assert_eq!(status_of(&task, true, None, Some(&ok)), TaskStatus::Succeeded);
    assert!(RunView::from_run(&ok).duration_ms.is_some());
    assert_eq!(
        RunView::from_run(&ok).stop_reason,
        Some(StopReason::Exited),
        "stop_reason 要原样送到前端"
    );

    let failed = finished(&running, Some(1), Some(StopReason::Exited));
    assert_eq!(status_of(&task, true, None, Some(&failed)), TaskStatus::Failed);
}

#[test]
fn a_run_view_carries_the_times_and_the_duration() {
    let done = finished(&running_run(7), Some(0), Some(StopReason::Exited));
    let v = RunView::from_run(&done);
    assert_eq!(v.id, RunHandle(7));
    assert_eq!(v.duration_ms, Some(1500));
    assert_eq!(v.started_at, "2026-09-10T00:26:40.000Z");
    assert_eq!(v.finished_at.as_deref(), Some("2026-09-10T00:26:41.500Z"));
}

#[test]
fn a_service_is_running_when_launchd_has_a_pid() {
    let task = service_task(true);
    let run = running_run(1);
    assert_eq!(status_of(&task, true, Some(4242), Some(&run)), TaskStatus::Running);
    // 没 pid 就不是运行中，哪怕那条 run 还没写 finished_at（runner 死了）
    assert_eq!(status_of(&task, true, None, Some(&run)), TaskStatus::Stopped);
    assert_eq!(status_of(&task, false, Some(4242), None), TaskStatus::Disabled);
}

#[test]
fn a_stopped_service_is_stopped_not_failed() {
    let task = service_task(true);
    // 手动停止：runner 转发 SIGTERM，子进程被信号打死 -> exit_code 为空
    let run = finished(&running_run(1), None, Some(StopReason::Stopped));
    assert_eq!(status_of(&task, true, None, Some(&run)), TaskStatus::Stopped);
}

#[test]
fn a_crash_looping_service_is_failed_only_with_keep_alive() {
    let with = service_task(true);
    let run = finished(&running_run(1), Some(1), Some(StopReason::Exited));
    assert_eq!(status_of(&with, true, None, Some(&run)), TaskStatus::Failed);
    // 没勾 keep_alive 的服务退出就是退出，launchd 不会再拉起来。
    let without = service_task(false);
    assert_eq!(status_of(&without, true, None, Some(&run)), TaskStatus::Stopped);
}

#[test]
fn a_service_that_never_ran_is_stopped() {
    let task = service_task(true);
    assert_eq!(status_of(&task, true, None, None), TaskStatus::Stopped);
}

#[test]
fn uptime_needs_both_a_pid_and_an_unfinished_run() {
    let running = running_run(1);
    assert!(uptime_secs(Some(9), Some(&running)).is_some_and(|s| s >= 0));
    assert_eq!(uptime_secs(None, Some(&running)), None, "没 pid 就没运行时长");
    assert_eq!(uptime_secs(Some(9), None), None);

    let done = finished(&running, Some(0), Some(StopReason::Exited));
    assert_eq!(uptime_secs(Some(9), Some(&done)), None, "已结束的 run 不该报运行时长");
}

#[test]
fn uptime_counts_whole_seconds_and_never_goes_negative() {
    let running = running_run(1);
    assert_eq!(uptime_at(Some(9), Some(&running), T0 + 61_999), Some(61));
    assert_eq!(uptime_at(Some(9), Some(&running), T0 - 5_000), Some(0));
}

#[test]
fn home_is_abbreviated_for_display() {
    let home = "/Users/demo";
    assert_eq!(
        shorten_home("/Users/demo/Library/LaunchAgents/a.plist", Some(home)),
        "~/Library/LaunchAgents/a.plist"
    );
    assert_eq!(shorten_home("/etc/x", Some(home)), "/etc/x");
    assert_eq!(shorten_home("/Users/demonstration/x", Some(home)), "/Users/demonstration/x");
    assert_eq!(shorten_home("/etc/x", None), "/etc/x");
}

#[test]
fn the_plan_view_keeps_the_three_diff_groups_apart() {
    let plan = AdoptionPlan {
        label: "com.example.backup-notes".to_string(),
        task_name: "sample".to_string(),
        path: "/tmp/a.plist".to_string(),
        backup_path: "/tmp/a.plist.bak".to_string(),
        removed: vec![("ProgramArguments".to_string(), "/bin/zsh x.sh".to_string())],
        added: vec![
            ("ProgramArguments".to_string(), "runner run sample".to_string()),
            ("LaunchkeeperManaged".to_string(), "true".to_string()),
        ],
        kept: vec![("Label".to_string(), "com.example.backup-notes".to_string())],
    };
    let view = AdoptionPlanView::from_plan(&plan, Some("/Users/demo"));
    assert_eq!(view.name, "sample", "接管后的任务名就是 plan 里的那个");
    assert_eq!(view.backup_path, "/tmp/a.plist.bak");
    assert_eq!(view.removed.len(), 1);
    assert_eq!(view.added.len(), 2);
    assert_eq!(view.added[1].key, "LaunchkeeperManaged");
    assert_eq!(view.kept[0].value, "com.example.backup-notes");
}

#[test]
fn the_view_carries_the_service_flags() {
    let task = service_task(true);
    let view = build_view(&task, true, Some(77), None, "手动启停", None);
    assert!(view.is_service);
    assert!(view.keep_alive);
    assert_eq!(view.loaded_pid, Some(77));
    assert_eq!(view.trigger_text, "手动启停");

    let scheduled = build_view(&sample_task(), true, None, None, "每天 21:00", Some("直接执行"));
    assert!(!scheduled.is_service);
    assert!(!scheduled.keep_alive);
    assert_eq!(scheduled.interpreter_label.as_deref(), Some("直接执行"));
}

#[test]
fn run_now_picks_the_route_by_kind_and_state() {
    assert_eq!(run_route(true, false), RunRoute::Start);
    assert_eq!(run_route(true, true), RunRoute::Start);
    assert_eq!(run_route(false, true), RunRoute::Launchd);
    assert_eq!(run_route(false, false), RunRoute::Direct);
}

#[test]
fn lifecycle_verbs_report_in_the_past_tense() {
    assert_eq!(Lifecycle::Start.past_tense(), "已启动");
    assert_eq!(Lifecycle::Stop.past_tense(), "已停止");
    assert_eq!(Lifecycle::Restart.past_tense(), "已重启");
}

#[test]
fn a_log_chunk_decodes_lossily_and_saturates_the_size() {
    let c = log_chunk(b"ok\n\xffx", 5, false);
    assert_eq!(c.content, "ok\n\u{FFFD}x");
    assert_eq!(c.total_bytes, 5);
    assert!(!c.truncated);
    let c = log_chunk(b"", u64::MAX, true);
    assert_eq!(c.total_bytes, i64::MAX);
    assert!(c.truncated);
}

fn external(adoptable: bool, adopt_reason: Option<&str>) -> ExternalAgent {
    ExternalAgent {
        label: "com.example.backup-notes".to_string(),
        path: "/tmp/agents/com.example.backup-notes.plist".to_string(),
        command: "/bin/zsh /Users/demo/scripts/backup-notes.sh".to_string(),
        trigger_text: "每天 03:00".to_string(),
        trigger: Some(Trigger::Calendar { entries: vec![CalendarEntry::daily(3, 0)] }),
        working_dir: Some("/Users/demo/Notes".to_string()),
        stdout_path: Some("/tmp/backup-notes.log".to_string()),
        stderr_path: None,
        keep_alive: false,
        loaded: true,
        pid: Some(321),
        last_exit: Some(0),
        adoptable,
        adopt_reason: adopt_reason.map(str::to_string),
        managed: false,
    }
}

#[test]
fn the_external_view_composes_its_own_strings() {
    let view = ExternalAgentView::from_agent(&external(true, None), Some("/Users/demo"));
    assert_eq!(view.label, "com.example.backup-notes");
    assert_eq!(view.full_path, "/tmp/agents/com.example.backup-notes.plist");
    assert_eq!(view.path, "/tmp/agents/com.example.backup-notes.plist");
    assert_eq!(view.command, "/bin/zsh /Users/demo/scripts/backup-notes.sh");
    assert_eq!(view.trigger_text, "每天 03:00");
    assert_eq!(view.working_dir.as_deref(), Some("~/Notes"));
    assert_eq!(view.stdout_path.as_deref(), Some("/tmp/backup-notes.log"));
    assert_eq!(view.stderr_path, None);
    assert!(view.adoptable);
    assert_eq!(view.adopt_reason, None);
    assert!(view.loaded);
    assert_eq!(view.pid, Some(321));

    let view = ExternalAgentView::from_agent(&external(false, Some("第三方应用安装")), None);
    assert!(!view.adoptable);
    assert_eq!(view.adopt_reason.as_deref(), Some("第三方应用安装"));
    assert_eq!(view.working_dir.as_deref(), Some("/Users/demo/Notes"));
}

#[test]
fn a_clock_reading_counts_signed_milliseconds_from_the_epoch() {
    assert_eq!(epoch_millis(Ok(1_700_000_000_123)), 1_700_000_000_123);
    assert_eq!(epoch_millis(Err(1_500)), -1_500);
    assert_eq!(epoch_millis(Ok(0)), 0);
    assert_eq!(epoch_millis(Ok(u128::MAX)), i64::MAX);
    assert_eq!(epoch_millis(Err(u128::MAX)), i64::MIN);
    assert_eq!(epoch_millis(Err(i64::MAX as u128)), -i64::MAX);
}
