use launchkeeper::cli::{
    foreign_disable_refusal, foreign_disable_warning, is_foreign_agent,
    CmdKind, SetEdits, absolute_path_from, apply_edits, confirmed, locate_runner_source,
    logs_json, needs_runner, parse_env_kv, pick_log_run, runner_candidates, status_row,
    secret_from_input, tail_lines, list_row, agent_row, not_enabled_message,
    direct_run_failure,
};
use launchkeeper::model::{JobStatus, Run, StopReason, Task, Trigger, TriggerKind};
use launchkeeper::paths::lexical_normalize;

const RUNNER_NAME: &str = "launchkeeper-runner";

#[test]
fn explicit_wins_and_is_not_probed() {
    let ghost = format!("/tmp/d/nowhere/{RUNNER_NAME}");
    assert_eq!(
        locate_runner_source(Some(&ghost), None, "/tmp/d", &[true, false]),
        Some(ghost)
    );
}

#[test]
fn the_env_var_beats_the_sibling_but_an_empty_one_does_not() {
    let sibling = format!("/tmp/d/{RUNNER_NAME}");
    let from_env = format!("/tmp/d/elsewhere/{RUNNER_NAME}");
    assert_eq!(
        locate_runner_source(None, Some(&from_env), "/tmp/d", &[true, false]),
        Some(from_env)
    );
    assert_eq!(locate_runner_source(None, Some(""), "/tmp/d", &[true, false]), Some(sibling));
}

/// The CLI and the runner installed side by side.
#[test]
fn a_sibling_of_the_cli_is_found() {
    let sibling = format!("/tmp/d/bin/{RUNNER_NAME}");
    assert_eq!(locate_runner_source(None, None, "/tmp/d/bin", &[true, false]), Some(sibling));
}

/// `bin/launchkeeper` next to `libexec/launchkeeper-runner`.
#[test]
fn a_libexec_neighbour_of_the_cli_is_found() {
    let found = locate_runner_source(None, None, "/tmp/d/bin", &[false, true]).expect("found");
    assert_eq!(found, format!("/tmp/d/bin/../libexec/{RUNNER_NAME}"));
    assert_eq!(lexical_normalize(&found), format!("/tmp/d/libexec/{RUNNER_NAME}"));
}

#[test]
fn nothing_installed_anywhere_is_none() {
    assert_eq!(locate_runner_source(None, None, "/tmp/d", &[false, false]), None);
    assert_eq!(locate_runner_source(None, None, "/tmp/d", &[]), None);
}

#[test]
fn the_candidates_are_the_sibling_then_libexec() {
    assert_eq!(
        runner_candidates("/opt/homebrew/bin"),
        vec![
            "/opt/homebrew/bin/launchkeeper-runner".to_string(),
            "/opt/homebrew/bin/../libexec/launchkeeper-runner".to_string(),
        ]
    );
}

#[test]
fn env_pairs_split_at_the_first_equals_sign() {
    assert_eq!(parse_env_kv("A=1"), Ok(("A".to_string(), "1".to_string())));
    assert_eq!(parse_env_kv("A=b=c"), Ok(("A".to_string(), "b=c".to_string())));
    assert_eq!(parse_env_kv("A="), Ok(("A".to_string(), String::new())));
    assert_eq!(parse_env_kv("A"), Err("--env 格式错误: \"A\"，期望 KEY=VALUE".to_string()));
    assert_eq!(parse_env_kv("=x"), Err("--env 键不能为空: \"=x\"".to_string()));
}

#[test]
fn only_plist_writers_and_runners_need_the_runner() {
    for c in [
        CmdKind::Add,
        CmdKind::SetFields,
        CmdKind::SetTrigger,
        CmdKind::Enable,
        CmdKind::Plist,
        CmdKind::Run,
        CmdKind::Start,
        CmdKind::Restart,
        CmdKind::Adopt,
    ] {
        assert!(needs_runner(c), "{c:?}");
    }
    for c in [
        CmdKind::List,
        CmdKind::Show,
        CmdKind::Disable,
        CmdKind::Remove,
        CmdKind::Stop,
        CmdKind::Logs,
        CmdKind::Runs,
        CmdKind::Status,
        CmdKind::Agents,
        CmdKind::Unadopt,
        CmdKind::Docs,
    ] {
        assert!(!needs_runner(c), "{c:?}");
    }
}

#[test]
fn a_tail_keeps_the_last_lines_and_says_when_it_cut() {
    assert_eq!(tail_lines("a\nb\nc\n", 2), ("b\nc\n".to_string(), true));
    assert_eq!(tail_lines("a\nb\nc", 2), ("b\nc".to_string(), true));
    assert_eq!(tail_lines("a\nb\n", 5), ("a\nb\n".to_string(), false));
    assert_eq!(tail_lines("a\r\nb\r\nc\r\n", 1), ("c\n".to_string(), true));
    assert_eq!(tail_lines("", 0), (String::new(), false));
    assert_eq!(tail_lines("x", 0), (String::new(), true));
}

#[test]
fn a_carriage_return_ending_the_text_stays_in_the_last_line() {
    assert_eq!(tail_lines("a\nb\r", 1), ("b\r".to_string(), true));
    assert_eq!(tail_lines("a\r\nb\r", 1), ("b\r".to_string(), true));
    assert_eq!(tail_lines("a\r\nb\r\n", 1), ("b\n".to_string(), true));
    assert_eq!(tail_lines("a\r\r\nb", 2), ("a\r\r\nb".to_string(), false));
    assert_eq!(tail_lines("x\na\r\r\nb", 2), ("a\r\nb".to_string(), true));
}

#[test]
fn paths_are_cleaned_up_on_the_text_alone() {
    assert_eq!(lexical_normalize("/a/./b/../c"), "/a/c");
    assert_eq!(lexical_normalize("a/b/.."), "a");
    assert_eq!(lexical_normalize("a/.."), ".");
    assert_eq!(lexical_normalize("../x"), "../x");
    assert_eq!(lexical_normalize("../../x"), "../../x");
    assert_eq!(lexical_normalize("a/../../b"), "../b");
    assert_eq!(lexical_normalize("./../.."), "../..");
    assert_eq!(lexical_normalize("/usr/./local/../bin"), "/usr/bin");
    assert_eq!(lexical_normalize("/../../x"), "/x");
    assert_eq!(lexical_normalize("/.."), "/");
    assert_eq!(lexical_normalize("//a//b/"), "/a/b");
    assert_eq!(lexical_normalize(""), ".");
    assert_eq!(absolute_path_from("bin/run.sh", "/Users/demo"), "/Users/demo/bin/run.sh");
    assert_eq!(absolute_path_from("/opt/x", "/Users/demo"), "/opt/x");
    assert_eq!(absolute_path_from("../y", "/Users/demo/z"), "/Users/demo/y");
}

#[test]
fn a_cleaned_path_cleans_up_to_itself() {
    for p in ["../../x", "/a/./b/../c", "a/..", "./../..", "//a//b/", "", "/..", "x/./y/"] {
        let once = lexical_normalize(p);
        assert_eq!(lexical_normalize(&once), once);
        assert_eq!(once.starts_with('/'), p.starts_with('/'));
        assert!(once == "." || !once.split('/').any(|c| c == "."));
    }
}

fn run(id: i64, finished: Option<i64>, exit_code: Option<i32>) -> Run {
    Run {
        id,
        started_at_ms: 0,
        finished_at_ms: finished,
        exit_code,
        trigger_kind: TriggerKind::Manual,
        stop_reason: finished.map(|_| StopReason::Exited),
        stdout_path: format!("/logs/{id}.out"),
        stderr_path: format!("/logs/{id}.err"),
    }
}

#[test]
fn logs_pick_the_nth_newest_run() {
    let runs = vec![run(9, Some(1), Some(0)), run(8, Some(1), Some(1))];
    assert_eq!(pick_log_run(&runs, "sync", 1), Ok(0));
    assert_eq!(pick_log_run(&runs, "sync", 2), Ok(1));
    assert_eq!(pick_log_run(&runs, "sync", 0), Err("--last 必须 >= 1".to_string()));
    assert_eq!(
        pick_log_run(&runs, "sync", 3),
        Err("任务 sync 没有第 3 近的运行记录".to_string())
    );
}

#[test]
fn the_logs_json_names_the_stream_and_its_file() {
    let r = run(9, Some(1), Some(0));
    let j = logs_json(&r, true, "a\nb\n", Some(1));
    assert_eq!(j.run_id, 9);
    assert_eq!(j.stream, "stderr");
    assert_eq!(j.path, "/logs/9.err");
    assert_eq!(j.content, "b\n");
    assert!(j.truncated);
    let j = logs_json(&r, false, "a\nb\n", None);
    assert_eq!(j.stream, "stdout");
    assert_eq!(j.path, "/logs/9.out");
    assert_eq!(j.content, "a\nb\n");
    assert!(!j.truncated);
}

#[test]
fn only_y_and_yes_confirm() {
    assert!(confirmed("y"));
    assert!(confirmed(" YES \n"));
    assert!(!confirmed(""));
    assert!(!confirmed("no"));
    assert!(!confirmed("yep"));
}

#[test]
fn a_status_row_shows_launchd_state_and_the_last_result() {
    let job = JobStatus { pid: Some(42), state: "running".to_string() };
    let last = run(3, Some(1), Some(1));
    assert_eq!(
        status_row("bridge", true, true, Some(&job), Some(125), Some(&last)),
        vec!["bridge", "服务", "✓", "✓", "42", "2m05s", "running", "exit 1"]
    );
    assert_eq!(
        status_row("cron", false, false, None, None, None),
        vec!["cron", "定时", "–", "–", "-", "-", "-", "-"]
    );
}

fn task() -> Task {
    Task {
        name: "sync".to_string(),
        display_name: "Sync".to_string(),
        description: None,
        script_path: "/bin/sync.sh".to_string(),
        args: vec!["--fast".to_string()],
        working_dir: None,
        env: vec![("A".to_string(), "1".to_string()), ("B".to_string(), "2".to_string())],
        trigger: Trigger::AtLogin,
        keep_alive: false,
        timeout_secs: Some(60),
        tags: vec!["x".to_string()],
        favorite: false,
        notify_on_fail: true,
        created_at_ms: 1,
        updated_at_ms: 1,
        adopted: false,
        plist_path: None,
    }
}

fn no_edits() -> SetEdits {
    SetEdits {
        display_name: None,
        description: None,
        working_dir: None,
        script_path: None,
        args: None,
        env: Vec::new(),
        unset_env: Vec::new(),
        tags: Vec::new(),
        timeout: None,
        no_timeout: false,
        favorite: false,
        no_favorite: false,
        notify: false,
        no_notify: false,
        keep_alive: false,
        no_keep_alive: false,
    }
}

#[test]
fn set_changes_only_what_was_given() {
    let mut t = task();
    let e = SetEdits {
        display_name: Some("Nightly sync".to_string()),
        env: vec![("B".to_string(), "3".to_string()), ("C".to_string(), "4".to_string())],
        unset_env: vec!["A".to_string()],
        timeout: Some("2h".to_string()),
        favorite: true,
        no_notify: true,
        ..no_edits()
    };
    apply_edits(&mut t, &e, 99).unwrap();
    assert_eq!(t.display_name, "Nightly sync");
    assert_eq!(t.script_path, "/bin/sync.sh");
    assert_eq!(t.args, vec!["--fast".to_string()]);
    let mut env = t.env.clone();
    env.sort();
    assert_eq!(env, vec![("B".to_string(), "3".to_string()), ("C".to_string(), "4".to_string())]);
    assert_eq!(t.timeout_secs, Some(7200));
    assert!(t.favorite);
    assert!(!t.notify_on_fail);
    assert_eq!(t.tags, vec!["x".to_string()]);
    assert_eq!(t.updated_at_ms, 99);
    assert_eq!(t.created_at_ms, 1);
}

#[test]
fn a_bad_timeout_leaves_the_task_untouched() {
    let mut t = task();
    let e = SetEdits { timeout: Some("soon".to_string()), favorite: true, ..no_edits() };
    let err = apply_edits(&mut t, &e, 99).unwrap_err();
    assert!(err.starts_with("--every 格式错误"), "{err}");
    assert_eq!(t, task());
    let e = SetEdits { no_timeout: true, tags: vec!["a".to_string(), "b".to_string()], ..no_edits() };
    apply_edits(&mut t, &e, 5).unwrap();
    assert_eq!(t.timeout_secs, None);
    assert_eq!(t.tags, vec!["a".to_string(), "b".to_string()]);
}

#[test]
fn turning_off_somebody_elses_agent_is_warned_about() {
    assert!(is_foreign_agent(false, Some("Apple 自带")));
    assert!(!is_foreign_agent(true, Some("已由 Launchkeeper 管理")));
    assert!(!is_foreign_agent(false, None));
    let w = foreign_disable_warning("com.example.watcher", Some("WatchPaths"), "/L/w.plist");
    assert!(w.starts_with("警告：com.example.watcher 是别的软件"));
    assert!(w.contains("不可接管的原因：WatchPaths\n"));
    assert!(w.contains("plist 文件不会被改动（还在 /L/w.plist）"));
    assert!(w.ends_with("`launchkeeper on com.example.watcher`。"));
    assert_eq!(
        foreign_disable_refusal("com.example.watcher", None),
        "com.example.watcher 不是 Launchkeeper 管理的任务，而是别的软件的 LaunchAgent（不可接管）；--json 模式下禁用它必须加 --yes"
    );
}

#[test]
fn a_pasted_key_is_trimmed_and_an_empty_one_refused() {
    assert_eq!(secret_from_input(9, " sk-test \n"), Ok("sk-test".to_string()));
    assert_eq!(secret_from_input(0, ""), Err("没有从标准输入读到任何内容".to_string()));
    assert_eq!(secret_from_input(1, "\n"), Err("API Key 不能为空".to_string()));
}

#[test]
fn list_and_agent_rows_read_like_the_tables() {
    let last = run(4, Some(1), Some(0));
    assert_eq!(
        list_row("sync", "每天 21:00", true, Some(("2026-09-10 08:26:40", &last))),
        vec!["sync", "每天 21:00", "✓", "2026-09-10 08:26:40 (exit 0)"]
    );
    assert_eq!(list_row("x", "登录时", false, None), vec!["x", "登录时", "–", "-"]);
    assert_eq!(
        agent_row("com.example.a", "每天 03:00", true, Some(321), None),
        vec!["com.example.a", "每天 03:00", "✓", "321", "可接管"]
    );
    assert_eq!(
        agent_row("com.apple.b", "-", false, None, Some("Apple 自带")),
        vec!["com.apple.b", "-", "–", "-", "否：Apple 自带"]
    );
}

#[test]
fn run_failures_are_explained() {
    assert_eq!(
        not_enabled_message("sync"),
        "任务 sync 未启用，无法通过 launchd 运行；用 --direct 直接跑，或先 `enable sync`"
    );
    assert_eq!(direct_run_failure(3), "脚本以退出码 3 结束");
    assert_eq!(direct_run_failure(-1), "脚本以退出码 -1 结束");
}
