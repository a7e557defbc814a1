use launchkeeper::json::{
    AiConfigJson, AiConfigResultJson, AiTestResultJson, ConfigDataDirResultJson, api_key_source,
    changes, config_base_url, config_model, data_dir_warning, log_stream,
};

fn config() -> AiConfigJson {
    AiConfigJson {
        provider: "anthropic",
        base_url: None,
        effective_base_url: "https://api.anthropic.com".to_string(),
        endpoint: "https://api.anthropic.com/v1/messages".to_string(),
        model: "m".to_string(),
        config_file: "/d/ai.json".to_string(),
        has_api_key: true,
        api_key_source: Some("env"),
    }
}

#[test]
fn envelopes_carry_ok_and_the_payload_or_the_error() {
    assert_eq!(
        ConfigDataDirResultJson::ok("/d".to_string(), "/c".to_string(), None),
        ConfigDataDirResultJson::Success {
            ok: true,
            data_dir: "/d".to_string(),
            config_file: "/c".to_string(),
            warning: None
        }
    );
    assert_eq!(
        ConfigDataDirResultJson::err("boom"),
        ConfigDataDirResultJson::Failure { ok: false, error: "boom".to_string() }
    );
    assert_eq!(
        AiConfigResultJson::ok(config()),
        AiConfigResultJson::Success { ok: true, config: Box::new(config()) }
    );
    assert_eq!(
        AiConfigResultJson::err("no"),
        AiConfigResultJson::Failure { ok: false, error: "no".to_string() }
    );
    assert_eq!(
        AiTestResultJson::ok("e".to_string(), "m".to_string(), "pong".to_string()),
        AiTestResultJson::Success {
            ok: true,
            endpoint: "e".to_string(),
            model: "m".to_string(),
            reply: "pong".to_string()
        }
    );
    assert_eq!(
        AiTestResultJson::err("x"),
        AiTestResultJson::Failure { ok: false, error: "x".to_string() }
    );
}

#[test]
fn a_diff_group_keeps_its_order() {
    let rows = changes(&[
        ("Label".to_string(), "a".to_string()),
        ("KeepAlive".to_string(), "true".to_string()),
    ]);
    assert_eq!(rows.len(), 2);
    assert_eq!(rows[0].key, "Label");
    assert_eq!(rows[1].value, "true");
}

#[test]
fn the_key_source_prefers_the_environment() {
    assert_eq!(api_key_source(false, false), None);
    assert_eq!(api_key_source(false, true), None);
    assert_eq!(api_key_source(true, true), Some("env"));
    assert_eq!(api_key_source(true, false), Some("file"));
}

#[test]
fn ai_config_edits_are_trimmed() {
    assert_eq!(config_base_url("  http://127.0.0.1:11434/v1 "), Some("http://127.0.0.1:11434/v1".to_string()));
    assert_eq!(config_base_url("   "), None);
    assert_eq!(config_model(" qwen2.5 "), Ok("qwen2.5".to_string()));
    assert_eq!(config_model(" "), Err("--model 不能为空".to_string()));
}

#[test]
fn a_set_environment_variable_shadows_the_config_file() {
    assert_eq!(data_dir_warning(None), None);
    assert_eq!(data_dir_warning(Some("")), None);
    assert_eq!(
        data_dir_warning(Some("/x")).as_deref(),
        Some("环境变量 LAUNCHKEEPER_DATA_DIR 仍然设置着，优先级高于这个文件，取消它之后这个文件才会生效")
    );
    assert_eq!(log_stream(true), "stderr");
    assert_eq!(log_stream(false), "stdout");
}
