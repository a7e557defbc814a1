use launchkeeper::i18n::{Key, Lang, count_phrase, first_known_tag, t};
use launchkeeper::settings::AppSettings;

#[test]
fn tags_map_to_the_two_languages_we_have() {
    assert_eq!(Lang::from_tag("zh-Hans-CN"), Some(Lang::Zh));
    assert_eq!(Lang::from_tag("zh"), Some(Lang::Zh));
    assert_eq!(Lang::from_tag("en_US.UTF-8"), Some(Lang::En));
    assert_eq!(Lang::from_tag("EN"), Some(Lang::En));
    // Not "close enough to English": we have no strings for it, and the
    // caller decides what to do about that.
    assert_eq!(Lang::from_tag("fr-FR"), None);
    assert_eq!(Lang::from_tag(""), None);
}

#[test]
fn defaults_output_is_parsed_and_unknown_languages_are_skipped() {
    let raw = "(\n    \"zh-Hans-CN\",\n    en\n)\n";
    assert_eq!(first_known_tag(raw), Some(Lang::Zh));
    // A language we have no dictionary for does not get to decide; the
    // next one the user listed does.
    let raw = "(\n    \"fr-FR\",\n    \"zh-Hans\",\n    en\n)\n";
    assert_eq!(first_known_tag(raw), Some(Lang::Zh));
    let raw = "(\n    en\n)\n";
    assert_eq!(first_known_tag(raw), Some(Lang::En));
    // Nothing usable in there at all.
    assert_eq!(first_known_tag("(\n    \"fr-FR\"\n)\n"), None);
    assert_eq!(first_known_tag(""), None);
}

#[test]
fn an_explicit_setting_wins_over_the_system() {
    let zh = AppSettings {
        language: Some("zh-CN".to_string()),
        ..AppSettings::default()
    };
    let en = AppSettings {
        language: Some("en".to_string()),
        ..AppSettings::default()
    };
    assert_eq!(Lang::from_settings(&zh, Lang::En), Lang::Zh);
    assert_eq!(Lang::from_settings(&en, Lang::Zh), Lang::En);
    // "system", a missing field and a value from some other version all
    // mean the same thing, and none of them may panic.
    for raw in [None, Some("system".to_string()), Some("klingon".to_string())] {
        let s = AppSettings {
            language: raw,
            ..AppSettings::default()
        };
        assert_eq!(Lang::from_settings(&s, Lang::En), Lang::En);
        assert_eq!(Lang::from_settings(&s, Lang::Zh), Lang::Zh);
    }
}

#[test]
fn every_key_has_a_string_in_both_languages() {
    let keys = [
        Key::TrayOpen,
        Key::TrayQuit,
        Key::TrayStart,
        Key::TrayStop,
        Key::TraySummaryRunning,
        Key::TraySummaryFailed,
        Key::TraySummaryDisabled,
        Key::NotifyFailedSuffix,
        Key::NotifyServiceCrash,
        Key::NotifyExitCode,
        Key::NotifySignal,
    ];
    for key in keys {
        let zh = t(Lang::Zh, key);
        let en = t(Lang::En, key);
        assert!(!zh.is_empty(), "{key:?} 中文为空");
        assert!(!en.is_empty(), "{key:?} 英文为空");
        // Every one of these differs between the two languages; a copy
        // left untranslated would show up here.
        assert_ne!(zh, en, "{key:?} 两种语言一模一样，多半是漏翻了");
    }
}

#[test]
fn a_count_phrase_puts_the_number_where_the_language_wants_it() {
    assert_eq!(
        count_phrase(Lang::Zh, Key::TraySummaryRunning, 2),
        "运行中 2"
    );
    assert_eq!(
        count_phrase(Lang::En, Key::TraySummaryRunning, 2),
        "2 running"
    );
    // 0 is a number like any other here: the tray line always shows all
    // three counts, so "失败 0" / "0 failed" has to read correctly too.
    assert_eq!(count_phrase(Lang::Zh, Key::TraySummaryFailed, 0), "失败 0");
    assert_eq!(
        count_phrase(Lang::En, Key::TraySummaryFailed, 0),
        "0 failed"
    );
}
