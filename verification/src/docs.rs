//! The two things `launchkeeper` prints for an AI assistant rather than a
//! human: the CLI reference itself, and the short prompt that points an
//! assistant at it. Both are constants, so `launchkeeper docs` works from an
//! installed binary with no checkout anywhere on the machine.

use vstd::prelude::*;

use crate::i18n::{Lang, tag_lang};
use crate::text::{chars_of, trim, trimmed};

verus! {

/// The language an AI-facing text is written in.
#[derive(Debug, Clone, Copy, PartialEq, Eq, Structural)]
pub enum AiLang {
    /// Simplified Chinese, `zh-CN`.
    ZhCn,
    /// English, `en`.
    En,
}

/// The language a tag such as `en`, `zh-CN` or `en_US.UTF-8` names: English
/// for an English tag, Chinese for everything else, which is what every
/// other line this tool prints is written in.
pub open spec fn ai_lang_of_tag(tag: Seq<char>) -> AiLang {
    if tag_lang(tag) == Some(Lang::En) {
        AiLang::En
    } else {
        AiLang::ZhCn
    }
}

impl AiLang {
    /// The language `tag` names; see [`ai_lang_of_tag`].
    pub fn from_tag(tag: &str) -> (l: AiLang)
        ensures
            l == ai_lang_of_tag(tag@),
    {
        match Lang::from_tag(tag) {
            Some(Lang::En) => AiLang::En,
            _ => AiLang::ZhCn,
        }
    }

    /// The language an answer shown in a window set to `lang` is asked for.
    pub fn of(lang: Lang) -> (l: AiLang)
        ensures
            l == (match lang {
                Lang::Zh => AiLang::ZhCn,
                Lang::En => AiLang::En,
            }),
    {
        match lang {
            Lang::Zh => AiLang::ZhCn,
            Lang::En => AiLang::En,
        }
    }
}

/// The text of an environment variable, when it is set to something other
/// than white space.
pub open spec fn given(v: Option<&str>) -> Option<Seq<char>> {
    match v {
        Some(s) => if trim(s@).len() > 0 {
            Some(s@)
        } else {
            None
        },
        None => None,
    }
}

/// The language to print AI-facing text in when the user did not ask for
/// one: `LC_ALL` wins over `LANG`, as everywhere else in a POSIX shell, and
/// with neither set the answer is Chinese.
pub open spec fn default_lang_of(lc_all: Option<&str>, lang: Option<&str>) -> AiLang {
    match given(lc_all) {
        Some(t) => ai_lang_of_tag(t),
        None => match given(lang) {
            Some(t) => ai_lang_of_tag(t),
            None => AiLang::ZhCn,
        },
    }
}

/// Whether `v` holds more than white space.
fn is_given(v: &str) -> (b: bool)
    ensures
        b == (trim(v@).len() > 0),
{
    let c = chars_of(v);
    let t = trimmed(&c);
    t.len() > 0
}

/// [`default_lang_of`] for the values of `LC_ALL` and `LANG`.
pub fn default_lang(lc_all: Option<&str>, lang: Option<&str>) -> (l: AiLang)
    ensures
        l == default_lang_of(lc_all, lang),
{
    if let Some(v) = lc_all {
        if is_given(v) {
            return AiLang::from_tag(v);
        }
    }
    if let Some(v) = lang {
        if is_given(v) {
            return AiLang::from_tag(v);
        }
    }
    AiLang::ZhCn
}

/// The prompt in Chinese. The trigger flags named here are the real ones:
/// `-d` is `--daily` (a time of day) and `-e` is `--every` (an interval).
pub const PROMPT_ZH: &'static str = "\
本机安装了 Launchkeeper，一个基于 macOS launchd 的定时任务 / 常驻服务管理器，命令行工具是 `launchkeeper`。
操作前先运行 `launchkeeper docs` 阅读完整 CLI 参考（子命令、参数、JSON 输出格式）。
约定：
- 查询类命令一律加 `--json`，按结构化输出解析，不要解析人类可读文本。
- 创建任务用 `launchkeeper add`，脚本路径给 `--script`，运行方式一般让它自动推断；触发规则用 `-d`（每天几点）/`-e`（每隔多久）/`-m`（手动启停的服务）。
- 修改前先 `launchkeeper show <name> --json` 看当前定义；改完用 `launchkeeper runs <name>` 和 `launchkeeper log <name>` 验证。
- 只操作 Launchkeeper 管理的任务；`launchkeeper agents` 列出的其他 LaunchAgents 除非用户要求接管，否则只读。
- 破坏性操作（rm、unadopt、off）先向用户确认。
";

/// The same prompt in English.
pub const PROMPT_EN: &'static str = "\
Launchkeeper is installed on this machine: a manager for scheduled tasks and long-running services built on macOS launchd. Its command-line tool is `launchkeeper`.
Before you do anything, run `launchkeeper docs` and read the full CLI reference (subcommands, flags, JSON output shapes).
Conventions:
- Always pass `--json` to read-only commands and parse the structured output; never parse the human-readable text.
- Create a task with `launchkeeper add`: give the script path to `--script` and normally let it infer how to run it; choose the trigger with `-d` (a time of day) / `-e` (an interval) / `-m` (a service you start and stop by hand).
- Before changing anything, run `launchkeeper show <name> --json` to see the current definition; afterwards verify with `launchkeeper runs <name>` and `launchkeeper log <name>`.
- Only touch tasks Launchkeeper manages; the other LaunchAgents that `launchkeeper agents` lists are read-only unless the user asks you to adopt one.
- Ask the user before any destructive operation (rm, unadopt, off).
";

/// The prompt in `lang`.
pub fn prompt(lang: AiLang) -> (p: &'static str)
    ensures
        p@ == (match lang {
            AiLang::ZhCn => PROMPT_ZH@,
            AiLang::En => PROMPT_EN@,
        }),
{
    match lang {
        AiLang::ZhCn => PROMPT_ZH,
        AiLang::En => PROMPT_EN,
    }
}

/// The complete CLI reference `launchkeeper docs` prints, in Markdown.
pub const CLI_REFERENCE: &'static str = "\
# `launchkeeper` reference

`launchkeeper` drives Launchkeeper from a terminal, a script or an AI
assistant: scheduled tasks and long-running services on top of macOS
launchd. Every command that reads or changes a task has a stable `--json`
shape, so non-interactive callers never have to parse human text.

## Global flags

- `--json`, `-j`: print machine-readable JSON instead of human text. No
  effect on `plist`, `docs` and `ai-prompt`.
- `--data-dir <path>`: where the database and logs live. Beats
  `LAUNCHKEEPER_DATA_DIR`, which beats the file written by
  `config data-dir`, which beats the default.
- `--runner <path>`: the `launchkeeper-runner` binary. Beats
  `LAUNCHKEEPER_RUNNER`, which beats a runner next to this binary, which
  beats one in `../libexec/`.

## JSON conventions

- Reads (`show`, `list`, `status`, `runs`, `logs`, `agents`,
  `config data-dir`, `ai config`) print the object itself.
- Mutations print an envelope: `{\"ok\": true, \"task\": {...}}` on success,
  `{\"ok\": false, \"error\": \"...\"}` on failure, and exit with status 1 on
  failure.

## Triggers

Exactly one of these is given to `add` and `set-trigger`:

- `--at-login`: once when the agent is loaded, i.e. at login.
- `--every <duration>`, `-e`: an interval such as `30m`, `2h`, `90s`,
  `1h30m`.
- `--daily <HH:MM>`, `-d`: a time of day. Repeatable.
- `--weekly <days@HH:MM>`, `-w`: e.g. `mon,fri@09:30`. Repeatable.
- `--monthly <day@HH:MM>`, `-M`: e.g. `15@08:00`. Repeatable.
- `--manual`, `-m`: no schedule; a service started and stopped by hand.
  Pair with `--keep-alive` to have launchd restart it after a crash.

## Commands

### `add <name>`

Registers a task. `--script <path>` (required), `--arg <value>`
(repeatable), `--interpreter <id|path|direct>`, `--raw`, `--cwd <dir>`,
`--env KEY=VALUE` (repeatable), a trigger, `--display-name`,
`--description`, `--tag` (repeatable), `--keep-alive` (only with
`--at-login` or `--manual`), `--timeout <duration>` (the run is recorded
with exit code 124).

### `set <name>`

Edits fields of an existing task without re-adding it, and reloads launchd
when the task is enabled. Only the flags given change anything. `--arg` and
`--tag` replace the whole list; `--env` merges and `--unset-env` removes;
`--timeout`/`--no-timeout`, `--favorite`/`--no-favorite`,
`--notify`/`--no-notify`, `--keep-alive`/`--no-keep-alive`.

### `set-trigger <name>` (alias `trigger`)

Replaces a task's trigger; takes the trigger flags above.

### `list` (alias `ls`)

Every task, one row each.

### `show <name>`

One task in full, plus its recent runs.

### `enable <name>` (alias `on`)

Loads the task into launchd.

### `disable <name>` (alias `off`)

Unloads the task from launchd; the database row and the logs stay. Also
takes the label of a LaunchAgent Launchkeeper does not manage; for one that
belongs to other software it asks first, and `--yes`/`-y` skips the
question.

### `remove <name>` (alias `rm`)

Deletes a task entirely: launchd job, plist, database row, logs. `--yes`
skips the confirmation.

### `run <name>`

Runs a task now. `--direct` skips launchd and starts the runner itself.

### `start <name>`, `stop <name>`, `restart <name>`

Drive a service: `start` loads it first when needed, `stop` sends SIGTERM
through launchd and keeps it loaded, `restart` is `stop` then `start`.

### `logs <name>` (alias `log`)

A run's captured output. `--last <n>` (1 = newest), `--err` for stderr,
`--tail <n>` for the last lines only; JSON carries `run_id`, `stream`,
`path`, `content` and `truncated`.

### `runs <name>`

Recent runs, newest first. `--limit <n>` (default 20).

### `plist <name>`

The plist that would be generated for the task, as XML.

### `status` (alias `st`)

Every task's launchd state: enabled, loaded, pid, uptime, last run.

### `agents`

The LaunchAgents in `~/Library/LaunchAgents` that Launchkeeper did not
create, each with whether it could be adopted and, if not, why.

### `adopt <label>`

Takes a hand-written LaunchAgent under management in place: label and file
stay, the runner is put in front of the script. `--dry-run` prints the
key-by-key diff and writes nothing; `--yes`/`-y` skips the confirmation.

### `unadopt <name>`

Restores the original plist from its backup, byte for byte, and forgets the
task. Log files are kept.

### `interpreters`

The interpreters found on `PATH`; with `--script <path>` also the one
`add` would pick, and `--cwd <dir>` for where to look for project markers.

### `completions <bash|zsh|fish>`

Prints a static completion script. `COMPLETE=<shell> launchkeeper` instead
completes task names too, by reading the task list live.

### `explain <name>`

Asks the configured model what a task does and why it last failed, and
stores the answer. `--refresh`/`-r` asks again; `--lang` picks the language.

### `docs`

Prints this reference.

### `ai-prompt`

Prints a short prompt telling an AI assistant how to drive Launchkeeper.
`--lang zh-CN|en`; without it `LC_ALL`, then `LANG`, decide, and Chinese is
the default.

### `ai config`, `ai key set`, `ai key clear`, `ai test`

The AI provider configuration (`--provider`, `--base-url`, `--model`), the
API key (read from stdin, never from the command line, never printed) and a
one-line connection test.

### `config data-dir [path]`

Prints where the data directory is and which source decided it, or
remembers a new one.
";

} // verus!
