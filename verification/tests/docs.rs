use launchkeeper::docs::{AiLang, CLI_REFERENCE, PROMPT_EN, PROMPT_ZH, default_lang, prompt};
use launchkeeper::i18n::Lang;

#[test]
fn the_reference_is_embedded_whole() {
    assert!(CLI_REFERENCE.starts_with("# `launchkeeper` reference"));
    assert!(CLI_REFERENCE.contains("### `agents`"));
}

#[test]
fn the_reference_covers_every_command_an_assistant_starts_with() {
    assert!(CLI_REFERENCE.contains("## Commands"));
    assert!(CLI_REFERENCE.contains("### `docs`"));
    assert!(CLI_REFERENCE.contains("### `ai-prompt"));
}

#[test]
fn both_prompts_name_the_docs_command() {
    for lang in [AiLang::ZhCn, AiLang::En] {
        assert!(prompt(lang).contains("launchkeeper docs"));
        assert!(prompt(lang).contains("--json"));
    }
}

/// The flags in the prompt have to be the flags `add` actually takes.
#[test]
fn the_prompt_names_the_real_trigger_flags() {
    assert!(PROMPT_ZH.contains("`-d`（每天几点）"));
    assert!(PROMPT_ZH.contains("`-e`（每隔多久）"));
    assert!(PROMPT_EN.contains("`-d` (a time of day)"));
    assert!(PROMPT_EN.contains("`-e` (an interval)"));
}

#[test]
fn each_language_gets_its_own_prompt() {
    assert_eq!(prompt(AiLang::ZhCn), PROMPT_ZH);
    assert_eq!(prompt(AiLang::En), PROMPT_EN);
    assert!(PROMPT_ZH.starts_with("本机安装了 Launchkeeper"));
    assert!(PROMPT_EN.starts_with("Launchkeeper is installed on this machine"));
}

#[test]
fn lc_all_beats_lang_and_chinese_is_the_default() {
    assert_eq!(default_lang(None, Some("en_US.UTF-8")), AiLang::En);
    assert_eq!(default_lang(None, Some("zh_CN.UTF-8")), AiLang::ZhCn);
    assert_eq!(default_lang(None, None), AiLang::ZhCn);
    assert_eq!(default_lang(Some("en_GB.UTF-8"), Some("zh_CN.UTF-8")), AiLang::En);
    // An empty or blank LC_ALL does not count as set.
    assert_eq!(default_lang(Some("  "), Some("en_US.UTF-8")), AiLang::En);
    assert_eq!(default_lang(Some(""), None), AiLang::ZhCn);
}

#[test]
fn tags_and_window_languages_map_to_ai_languages() {
    assert_eq!(AiLang::from_tag("zh-CN"), AiLang::ZhCn);
    assert_eq!(AiLang::from_tag("en"), AiLang::En);
    assert_eq!(AiLang::from_tag("EN_us"), AiLang::En);
    assert_eq!(AiLang::of(Lang::Zh), AiLang::ZhCn);
    assert_eq!(AiLang::of(Lang::En), AiLang::En);
}
