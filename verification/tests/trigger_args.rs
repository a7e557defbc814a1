use launchkeeper::model::{CalendarEntry, Trigger};
use launchkeeper::trigger_args::{
    TriggerArgs, parse_duration, parse_hhmm, parse_monthly, parse_weekday, parse_weekly,
    trigger_from_args,
};

fn args() -> TriggerArgs {
    TriggerArgs {
        at_login: false,
        every: None,
        daily: Vec::new(),
        weekly: Vec::new(),
        monthly: Vec::new(),
        manual: false,
    }
}

#[test]
fn at_login() {
    let a = TriggerArgs {
        at_login: true,
        ..args()
    };
    assert_eq!(trigger_from_args(&a).unwrap(), Trigger::AtLogin);
}

#[test]
fn manual() {
    let a = TriggerArgs {
        manual: true,
        ..args()
    };
    assert_eq!(trigger_from_args(&a).unwrap(), Trigger::Manual);
}

#[test]
fn every_forms() {
    for (input, secs) in [
        ("30m", 1800),
        ("2h", 7200),
        ("90s", 90),
        ("1h30m", 5400),
        ("1h30m10s", 5410),
    ] {
        let a = TriggerArgs {
            every: Some(input.to_string()),
            ..args()
        };
        assert_eq!(
            trigger_from_args(&a).unwrap(),
            Trigger::Interval { seconds: secs },
            "input {input}"
        );
    }
}

#[test]
fn every_errors() {
    for bad in ["", "30", "m", "30x", "h30"] {
        let a = TriggerArgs {
            every: Some(bad.to_string()),
            ..args()
        };
        assert!(trigger_from_args(&a).is_err(), "should reject {bad:?}");
    }
}

#[test]
fn daily_single_and_repeated() {
    let a = TriggerArgs {
        daily: vec!["21:00".into()],
        ..args()
    };
    assert_eq!(
        trigger_from_args(&a).unwrap(),
        Trigger::Calendar {
            entries: vec![CalendarEntry::daily(21, 0)]
        }
    );

    let a = TriggerArgs {
        daily: vec!["09:00".into(), "21:30".into()],
        ..args()
    };
    assert_eq!(
        trigger_from_args(&a).unwrap(),
        Trigger::Calendar {
            entries: vec![CalendarEntry::daily(9, 0), CalendarEntry::daily(21, 30)]
        }
    );
}

#[test]
fn daily_bad_time() {
    for bad in ["25:00", "12:60", "noon", "12", "12:"] {
        let a = TriggerArgs {
            daily: vec![bad.into()],
            ..args()
        };
        assert!(trigger_from_args(&a).is_err(), "should reject {bad:?}");
    }
}

#[test]
fn weekly_names_and_numbers() {
    let a = TriggerArgs {
        weekly: vec!["mon,fri@09:30".into()],
        ..args()
    };
    assert_eq!(
        trigger_from_args(&a).unwrap(),
        Trigger::Calendar {
            entries: vec![
                CalendarEntry {
                    minute: 30,
                    hour: 9,
                    weekday: Some(1),
                    day: None
                },
                CalendarEntry {
                    minute: 30,
                    hour: 9,
                    weekday: Some(5),
                    day: None
                },
            ]
        }
    );

    let a = TriggerArgs {
        weekly: vec!["0,7@08:00".into()],
        ..args()
    };
    assert_eq!(
        trigger_from_args(&a).unwrap(),
        Trigger::Calendar {
            entries: vec![
                CalendarEntry {
                    minute: 0,
                    hour: 8,
                    weekday: Some(0),
                    day: None
                },
                CalendarEntry {
                    minute: 0,
                    hour: 8,
                    weekday: Some(7),
                    day: None
                },
            ]
        }
    );
}

#[test]
fn weekly_repeated_flag_accumulates() {
    let a = TriggerArgs {
        weekly: vec!["mon@09:00".into(), "fri@18:00".into()],
        ..args()
    };
    let t = trigger_from_args(&a).unwrap();
    match t {
        Trigger::Calendar { entries } => assert_eq!(entries.len(), 2),
        _ => panic!("expected calendar"),
    }
}

#[test]
fn weekly_bad_weekday_and_empty() {
    for bad in ["xyz@09:00", "@09:00", "mon@25:00", "mon,@09:00"] {
        let a = TriggerArgs {
            weekly: vec![bad.into()],
            ..args()
        };
        assert!(trigger_from_args(&a).is_err(), "should reject {bad:?}");
    }
}

#[test]
fn monthly_valid_and_invalid() {
    let a = TriggerArgs {
        monthly: vec!["15@08:00".into()],
        ..args()
    };
    assert_eq!(
        trigger_from_args(&a).unwrap(),
        Trigger::Calendar {
            entries: vec![CalendarEntry {
                minute: 0,
                hour: 8,
                weekday: None,
                day: Some(15)
            }]
        }
    );

    for bad in ["0@08:00", "32@08:00", "abc@08:00", "15@25:00", "15"] {
        let a = TriggerArgs {
            monthly: vec![bad.into()],
            ..args()
        };
        assert!(trigger_from_args(&a).is_err(), "should reject {bad:?}");
    }
}

#[test]
fn nothing_set_is_an_error() {
    assert!(trigger_from_args(&args()).is_err());
}

#[test]
fn duration_errors_say_what_was_wrong() {
    assert_eq!(parse_duration("").unwrap_err(), "--every 不能为空");
    assert!(parse_duration("30").is_err());
    assert!(parse_duration("30x").is_err());
    assert_eq!(parse_duration("1h30m10s"), Ok(5410));
}

#[test]
fn hhmm_and_weekday_parse_exactly() {
    assert_eq!(parse_hhmm("09:05"), Ok((9, 5)));
    assert_eq!(parse_hhmm("23:59"), Ok((23, 59)));
    assert!(parse_hhmm("24:00").is_err());
    assert_eq!(parse_weekday("sun"), Ok(0));
    assert_eq!(parse_weekday("Fri"), Ok(5));
    assert_eq!(parse_weekday("7"), Ok(7));
    assert!(parse_weekday("8").is_err());
    assert_eq!(parse_weekly("tue@07:15").unwrap(), vec![CalendarEntry { minute: 15, hour: 7, weekday: Some(2), day: None }]);
    assert_eq!(parse_monthly("1@00:00").unwrap(), CalendarEntry { minute: 0, hour: 0, weekday: None, day: Some(1) });
}

#[test]
fn error_messages_quote_the_input() {
    assert_eq!(
        parse_duration("5x").unwrap_err(),
        "--every 未知单位 'x': \"5x\"，期望 h/m/s"
    );
    assert_eq!(parse_hhmm("25:00").unwrap_err(), "小时必须在 0-23: \"25:00\"");
    assert_eq!(parse_hhmm("noon").unwrap_err(), "时间格式错误: \"noon\"，期望 HH:MM");
}

#[test]
fn durations_glued_together_add_up_in_either_order() {
    assert_eq!(parse_duration("30m"), Ok(1800));
    assert_eq!(parse_duration("1h"), Ok(3600));
    assert_eq!(parse_duration("30m1h"), Ok(5400));
    assert_eq!(parse_duration("1h30m"), Ok(5400));
    // The pieces may exceed their unit's range; only the total counts.
    assert_eq!(parse_duration("90m"), Ok(5400));
    assert_eq!(parse_duration("4294967295s"), Ok(4294967295));
    assert!(parse_duration("4294967296s").is_err());
    assert!(parse_duration("0s").is_err());
}
