use launchkeeper::fmt::{duration, exit_code, table, uptime};
use launchkeeper::model::{Run, StopReason, TriggerKind};

fn run(started: i64, finished: Option<i64>, exit_code: Option<i32>) -> Run {
    Run {
        id: 1,
        started_at_ms: started,
        finished_at_ms: finished,
        exit_code,
        trigger_kind: TriggerKind::Scheduled,
        stop_reason: finished.map(|_| StopReason::Exited),
        stdout_path: String::new(),
        stderr_path: String::new(),
    }
}

#[test]
fn table_pads_columns() {
    let out = table(
        &["name", "trigger"],
        &[
            vec!["a".to_string(), "每天 21:00".to_string()],
            vec!["long-name".to_string(), "登录时".to_string()],
        ],
    );
    let lines: Vec<&str> = out.lines().collect();
    assert_eq!(lines.len(), 3);
    assert!(lines[0].starts_with("name"));
}

#[test]
fn uptime_picks_a_readable_unit() {
    assert_eq!(uptime(0), "0s");
    assert_eq!(uptime(-5), "0s");
    assert_eq!(uptime(45), "45s");
    assert_eq!(uptime(60), "1m00s");
    assert_eq!(uptime(723), "12m03s");
    assert_eq!(uptime(3600), "1h00m");
    assert_eq!(uptime(11_220), "3h07m");
    assert_eq!(uptime(187_200), "2d04h");
}

#[test]
fn table_lines_up_wide_characters() {
    let out = table(
        &["name", "trigger"],
        &[
            vec!["a".to_string(), "每天 21:00".to_string()],
            vec!["long-name".to_string(), "登录时".to_string()],
        ],
    );
    assert_eq!(out, "name       trigger\na          每天 21:00\nlong-name  登录时\n");
}

#[test]
fn durations_and_exit_codes_read_naturally() {
    assert_eq!(duration(&run(0, None, None)), "运行中");
    assert_eq!(duration(&run(0, Some(4_500), Some(0))), "4s");
    assert_eq!(duration(&run(0, Some(125_000), Some(0))), "2m5s");
    assert_eq!(exit_code(&run(0, None, None)), "-");
    assert_eq!(exit_code(&run(0, Some(1), Some(3))), "3");
    assert_eq!(exit_code(&run(0, Some(1), None)), "signal");
}

#[test]
fn a_table_has_one_line_per_row_after_the_header_and_no_trailing_blanks() {
    let rows = vec![
        vec!["备份".to_string(), "".to_string()],
        vec!["x".to_string(), "long value".to_string()],
        vec!["".to_string(), "".to_string()],
    ];
    let out = table(&["名称", "值"], &rows);
    let lines: Vec<&str> = out.lines().collect();
    assert_eq!(lines.len(), rows.len() + 1);
    for l in &lines {
        assert_eq!(*l, l.trim_end());
    }
    assert_eq!(lines[0], "名称  值");
    assert_eq!(lines[1], "备份");
    assert_eq!(lines[2], "x     long value");
    assert_eq!(lines[3], "");
}
