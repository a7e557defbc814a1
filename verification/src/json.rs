//! The shapes `--json` prints, and the small rules that fill them. The wire
//! contract lives here so it is easy to scan and to keep stable for scripts
//! and AI agents. Paths are carried as text.

use vstd::prelude::*;

use crate::text::{chars_of, copy_string, string_of, string_of_chars, trim, trimmed};

verus! {

/// `logs --json` output.
#[derive(Debug, Clone, PartialEq, Eq)]
pub struct LogsJson {
    pub run_id: i64,
    /// `stdout` or `stderr`.
    pub stream: &'static str,
    pub path: String,
    pub content: String,
    /// Whether `--tail` actually cut something.
    pub truncated: bool,
}

/// `config data-dir` output (no path given): a plain read, no `ok`
/// envelope.
#[derive(Debug, Clone, PartialEq, Eq)]
pub struct ConfigDataDirJson {
    pub data_dir: String,
    /// `env` | `config_file` | `default`.
    pub source: &'static str,
    pub config_file: String,
}

/// `config data-dir <path>` output: the usual `ok`/`error` envelope.
#[derive(Debug, Clone, PartialEq, Eq)]
pub enum ConfigDataDirResultJson {
    /// `{"ok": true, "data_dir": .., "config_file": .., "warning"?: ..}`.
    Success {
        ok: bool,
        data_dir: String,
        config_file: String,
        /// Present only when the write cannot take effect here because the
        /// environment variable outranks the file.
        warning: Option<String>,
    },
    /// `{"ok": false, "error": ..}`.
    Failure { ok: bool, error: String },
}

impl ConfigDataDirResultJson {
    /// The success envelope.
    pub fn ok(data_dir: String, config_file: String, warning: Option<String>) -> (r:
        ConfigDataDirResultJson)
        ensures
            r == (ConfigDataDirResultJson::Success { ok: true, data_dir, config_file, warning }),
    {
        ConfigDataDirResultJson::Success { ok: true, data_dir, config_file, warning }
    }

    /// The failure envelope, carrying `message`.
    pub fn err(message: &str) -> (r: ConfigDataDirResultJson)
        ensures
            r matches ConfigDataDirResultJson::Failure { ok, error } && !ok && error@ == message@,
    {
        ConfigDataDirResultJson::Failure { ok: false, error: string_of(message) }
    }
}

/// One plist key in an adoption diff group.
#[derive(Debug, Clone, PartialEq, Eq)]
pub struct PlistChangeJson {
    pub key: String,
    /// The value as a single line.
    pub value: String,
}

/// The `(key, value)` pairs of a diff group, in order, as JSON rows.
pub fn changes(pairs: &[(String, String)]) -> (r: Vec<PlistChangeJson>)
    ensures
        r@.len() == pairs@.len(),
        forall|i: int|
            0 <= i < pairs@.len() ==> (#[trigger] r@[i]).key@ == pairs@[i].0@ && r@[i].value@
                == pairs@[i].1@,
{
    let mut r: Vec<PlistChangeJson> = Vec::new();
    let mut i: usize = 0;
    while i < pairs.len()
        invariant
            i <= pairs@.len(),
            r@.len() == i,
            forall|j: int|
                0 <= j < i ==> (#[trigger] r@[j]).key@ == pairs@[j].0@ && r@[j].value@
                    == pairs@[j].1@,
        decreases pairs@.len() - i,
    {
        r.push(PlistChangeJson { key: copy_string(&pairs[i].0), value: copy_string(&pairs[i].1) });
        i = i + 1;
    }
    r
}

/// `ai config` output: the non-secret configuration, and whether a key can
/// be found and where. The key itself is never in any JSON.
#[derive(Debug, Clone, PartialEq, Eq)]
pub struct AiConfigJson {
    /// `anthropic` | `openai_compatible`.
    pub provider: &'static str,
    /// What the user set, or `None` when the provider default applies.
    pub base_url: Option<String>,
    /// The URL actually used, provider default filled in.
    pub effective_base_url: String,
    /// Where one completion request goes.
    pub endpoint: String,
    pub model: String,
    /// Where `ai.json` lives.
    pub config_file: String,
    /// A key is available from either source.
    pub has_api_key: bool,
    /// `env` | `file` | `None`: which source produced it.
    pub api_key_source: Option<&'static str>,
}

/// The `ok` envelope of `ai config --provider/...` and `ai key set|clear`.
#[derive(Debug, Clone, PartialEq, Eq)]
pub enum AiConfigResultJson {
    /// `{"ok": true, "config": ..}`.
    Success { ok: bool, config: Box<AiConfigJson> },
    /// `{"ok": false, "error": ..}`.
    Failure { ok: bool, error: String },
}

impl AiConfigResultJson {
    /// The success envelope around `config`.
    pub fn ok(config: AiConfigJson) -> (r: AiConfigResultJson)
        ensures
            r matches AiConfigResultJson::Success { ok, config: c } && ok && *c == config,
    {
        AiConfigResultJson::Success { ok: true, config: Box::new(config) }
    }

    /// The failure envelope, carrying `message`.
    pub fn err(message: &str) -> (r: AiConfigResultJson)
        ensures
            r matches AiConfigResultJson::Failure { ok, error } && !ok && error@ == message@,
    {
        AiConfigResultJson::Failure { ok: false, error: string_of(message) }
    }
}

/// `ai test`: did the configured endpoint answer, and with what.
#[derive(Debug, Clone, PartialEq, Eq)]
pub enum AiTestResultJson {
    /// `{"ok": true, "endpoint": .., "model": .., "reply": ..}`.
    Success { ok: bool, endpoint: String, model: String, reply: String },
    /// `{"ok": false, "error": ..}`.
    Failure { ok: bool, error: String },
}

impl AiTestResultJson {
    /// The success envelope: the endpoint that answered, the model, and its
    /// reply verbatim.
    pub fn ok(endpoint: String, model: String, reply: String) -> (r: AiTestResultJson)
        ensures
            r == (AiTestResultJson::Success { ok: true, endpoint, model, reply }),
    {
        AiTestResultJson::Success { ok: true, endpoint, model, reply }
    }

    /// The failure envelope, carrying `message`.
    pub fn err(message: &str) -> (r: AiTestResultJson)
        ensures
            r matches AiTestResultJson::Failure { ok, error } && !ok && error@ == message@,
    {
        AiTestResultJson::Failure { ok: false, error: string_of(message) }
    }
}

/// Which source a key came from: `None` when there is none, `env` when the
/// environment variable holds one (it wins), `file` otherwise.
pub open spec fn key_source(has_key: bool, env_key: bool) -> Option<Seq<char>> {
    if !has_key {
        None
    } else if env_key {
        Some("env"@)
    } else {
        Some("file"@)
    }
}

/// [`key_source`] as the JSON field.
pub fn api_key_source(has_key: bool, env_key: bool) -> (r: Option<&'static str>)
    ensures
        match (r, key_source(has_key, env_key)) {
            (Some(s), Some(t)) => s@ == t,
            (None, None) => true,
            _ => false,
        },
{
    if !has_key {
        None
    } else if env_key {
        Some("env")
    } else {
        Some("file")
    }
}

/// What `ai config --base-url <u>` stores: the trimmed URL, or `None` (the
/// provider default) for an empty one.
pub fn config_base_url(u: &str) -> (r: Option<String>)
    ensures
        trim(u@).len() == 0 ==> r is None,
        trim(u@).len() > 0 ==> (r matches Some(s) && s@ == trim(u@)),
{
    let t = trimmed(&chars_of(u));
    if t.len() == 0 {
        None
    } else {
        Some(string_of_chars(&t))
    }
}

/// What `ai config --model <m>` stores: the trimmed model id; an empty one
/// is refused.
pub fn config_model(m: &str) -> (r: Result<String, String>)
    ensures
        trim(m@).len() == 0 ==> (r matches Err(e) && e@ == "--model 不能为空"@),
        trim(m@).len() > 0 ==> (r matches Ok(s) && s@ == trim(m@)),
{
    let t = trimmed(&chars_of(m));
    if t.len() == 0 {
        Err(string_of("--model 不能为空"))
    } else {
        Ok(string_of_chars(&t))
    }
}

/// The note `config data-dir <path>` adds when `LAUNCHKEEPER_DATA_DIR` is
/// set (to anything non-empty) and so still outranks the file just written.
pub open spec fn shadow_warning(env_value: Option<&str>) -> Option<Seq<char>> {
    match env_value {
        Some(v) => if v@.len() > 0 {
            Some("环境变量 LAUNCHKEEPER_DATA_DIR 仍然设置着，优先级高于这个文件，取消它之后这个文件才会生效"@)
        } else {
            None
        },
        None => None,
    }
}

/// [`shadow_warning`] for the current value of `LAUNCHKEEPER_DATA_DIR`.
pub fn data_dir_warning(env_value: Option<&str>) -> (r: Option<String>)
    ensures
        match (r, shadow_warning(env_value)) {
            (Some(s), Some(t)) => s@ == t,
            (None, None) => true,
            _ => false,
        },
{
    match env_value {
        Some(v) => if chars_of(v).len() > 0 {
            Some(
                string_of(
                    "环境变量 LAUNCHKEEPER_DATA_DIR 仍然设置着，优先级高于这个文件，取消它之后这个文件才会生效",
                ),
            )
        } else {
            None
        },
        None => None,
    }
}

/// The stream name `logs` reports.
pub fn log_stream(err: bool) -> (s: &'static str)
    ensures
        s@ == (if err {
            "stderr"@
        } else {
            "stdout"@
        }),
{
    if err {
        "stderr"
    } else {
        "stdout"
    }
}

} // verus!
