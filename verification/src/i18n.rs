//! The handful of strings Rust itself puts in front of the user — the tray
//! menu and notifications — in the two languages the app has: a `Key` enum
//! and one table per language.

use vstd::prelude::*;

use crate::settings::AppSettings;
use crate::text::{
    chars_of, dec, has_prefix, lower_seq, lowercased, push_char, push_str,
    push_u64, slice_vec, str_eq, trim, trimmed, vec_starts_with,
};
use crate::cli::{lines_vec, views};
use crate::trigger_args::split_all;

verus! {

/// A language this app has strings for. Anything else follows the system,
/// and failing that English.
#[derive(Debug, Clone, Copy, PartialEq, Eq, Structural)]
pub enum Lang {
    /// 简体中文.
    Zh,
    /// English.
    En,
}

/// One translatable string. Keys with a value in them (a task name, an exit
/// code) are the fixed half only; the caller formats the rest.
#[derive(Debug, Clone, Copy, PartialEq, Eq, Structural)]
pub enum Key {
    /// Tray: show the main window.
    TrayOpen,
    /// Tray: quit the app.
    TrayQuit,
    /// Tray: the verb in front of a stopped service's name.
    TrayStart,
    /// Tray: the verb in front of a running service's name.
    TrayStop,
    /// Tray summary: the word next to the number of running tasks.
    TraySummaryRunning,
    /// Tray summary: the word next to the number of failed tasks.
    TraySummaryFailed,
    /// Tray summary: the word next to the number of disabled tasks.
    TraySummaryDisabled,
    /// Notification title: what follows the task's display name.
    NotifyFailedSuffix,
    /// Notification body for a `KeepAlive` service that crashed.
    NotifyServiceCrash,
    /// Notification body: what precedes the exit code.
    NotifyExitCode,
    /// Notification body for a run killed by a signal.
    NotifySignal,
}

/// The string for `key` in `lang`.
pub open spec fn text_of(lang: Lang, key: Key) -> Seq<char> {
    match (lang, key) {
        (Lang::Zh, Key::TrayOpen) => "打开 Launchkeeper"@,
        (Lang::En, Key::TrayOpen) => "Open Launchkeeper"@,
        (Lang::Zh, Key::TrayQuit) => "退出"@,
        (Lang::En, Key::TrayQuit) => "Quit"@,
        (Lang::Zh, Key::TrayStart) => "启动"@,
        (Lang::En, Key::TrayStart) => "Start"@,
        (Lang::Zh, Key::TrayStop) => "停止"@,
        (Lang::En, Key::TrayStop) => "Stop"@,
        (Lang::Zh, Key::TraySummaryRunning) => "运行中"@,
        (Lang::En, Key::TraySummaryRunning) => "running"@,
        (Lang::Zh, Key::TraySummaryFailed) => "失败"@,
        (Lang::En, Key::TraySummaryFailed) => "failed"@,
        (Lang::Zh, Key::TraySummaryDisabled) => "已停用"@,
        (Lang::En, Key::TraySummaryDisabled) => "disabled"@,
        (Lang::Zh, Key::NotifyFailedSuffix) => "失败"@,
        (Lang::En, Key::NotifyFailedSuffix) => "failed"@,
        (Lang::Zh, Key::NotifyServiceCrash) => "服务崩溃，已自动重启"@,
        (Lang::En, Key::NotifyServiceCrash) => "Service crashed and was restarted"@,
        (Lang::Zh, Key::NotifyExitCode) => "退出码"@,
        (Lang::En, Key::NotifyExitCode) => "Exit code"@,
        (Lang::Zh, Key::NotifySignal) => "被信号终止"@,
        (Lang::En, Key::NotifySignal) => "Killed by a signal"@,
    }
}

/// The string for `key` in `lang`.
pub fn t(lang: Lang, key: Key) -> (s: &'static str)
    ensures
        s@ == text_of(lang, key),
{
    match (lang, key) {
        (Lang::Zh, Key::TrayOpen) => "打开 Launchkeeper",
        (Lang::En, Key::TrayOpen) => "Open Launchkeeper",
        (Lang::Zh, Key::TrayQuit) => "退出",
        (Lang::En, Key::TrayQuit) => "Quit",
        (Lang::Zh, Key::TrayStart) => "启动",
        (Lang::En, Key::TrayStart) => "Start",
        (Lang::Zh, Key::TrayStop) => "停止",
        (Lang::En, Key::TrayStop) => "Stop",
        (Lang::Zh, Key::TraySummaryRunning) => "运行中",
        (Lang::En, Key::TraySummaryRunning) => "running",
        (Lang::Zh, Key::TraySummaryFailed) => "失败",
        (Lang::En, Key::TraySummaryFailed) => "failed",
        (Lang::Zh, Key::TraySummaryDisabled) => "已停用",
        (Lang::En, Key::TraySummaryDisabled) => "disabled",
        (Lang::Zh, Key::NotifyFailedSuffix) => "失败",
        (Lang::En, Key::NotifyFailedSuffix) => "failed",
        (Lang::Zh, Key::NotifyServiceCrash) => "服务崩溃，已自动重启",
        (Lang::En, Key::NotifyServiceCrash) => "Service crashed and was restarted",
        (Lang::Zh, Key::NotifyExitCode) => "退出码",
        (Lang::En, Key::NotifyExitCode) => "Exit code",
        (Lang::Zh, Key::NotifySignal) => "被信号终止",
        (Lang::En, Key::NotifySignal) => "Killed by a signal",
    }
}

/// Every key has a string in both languages, neither of them empty, and the
/// two differ (an untranslated copy would not).
pub proof fn every_key_is_translated(key: Key)
    ensures
        text_of(Lang::Zh, key).len() > 0,
        text_of(Lang::En, key).len() > 0,
        text_of(Lang::Zh, key) != text_of(Lang::En, key),
{
    reveal_strlit("打开 Launchkeeper");
    reveal_strlit("Open Launchkeeper");
    reveal_strlit("退出");
    reveal_strlit("Quit");
    reveal_strlit("启动");
    reveal_strlit("Start");
    reveal_strlit("停止");
    reveal_strlit("Stop");
    reveal_strlit("运行中");
    reveal_strlit("running");
    reveal_strlit("失败");
    reveal_strlit("failed");
    reveal_strlit("已停用");
    reveal_strlit("disabled");
    reveal_strlit("服务崩溃，已自动重启");
    reveal_strlit("Service crashed and was restarted");
    reveal_strlit("退出码");
    reveal_strlit("Exit code");
    reveal_strlit("被信号终止");
    reveal_strlit("Killed by a signal");
    match key {
        Key::TrayOpen => {
            assert(text_of(Lang::Zh, key)[0] != text_of(Lang::En, key)[0]);
        },
        Key::TrayQuit => {
            assert(text_of(Lang::Zh, key)[0] != text_of(Lang::En, key)[0]);
        },
        Key::TrayStart => {
            assert(text_of(Lang::Zh, key)[0] != text_of(Lang::En, key)[0]);
        },
        Key::TrayStop => {
            assert(text_of(Lang::Zh, key)[0] != text_of(Lang::En, key)[0]);
        },
        Key::TraySummaryRunning => {
            assert(text_of(Lang::Zh, key)[0] != text_of(Lang::En, key)[0]);
        },
        Key::TraySummaryFailed => {
            assert(text_of(Lang::Zh, key)[0] != text_of(Lang::En, key)[0]);
        },
        Key::TraySummaryDisabled => {
            assert(text_of(Lang::Zh, key)[0] != text_of(Lang::En, key)[0]);
        },
        Key::NotifyFailedSuffix => {
            assert(text_of(Lang::Zh, key)[0] != text_of(Lang::En, key)[0]);
        },
        Key::NotifyServiceCrash => {
            assert(text_of(Lang::Zh, key)[0] != text_of(Lang::En, key)[0]);
        },
        Key::NotifyExitCode => {
            assert(text_of(Lang::Zh, key)[0] != text_of(Lang::En, key)[0]);
        },
        Key::NotifySignal => {
            assert(text_of(Lang::Zh, key)[0] != text_of(Lang::En, key)[0]);
        },
    }
}

/// `<count> <word>` in the order the language wants it: Chinese puts the
/// noun first (`运行中 2`), English the number (`2 running`).
pub open spec fn count_text(lang: Lang, key: Key, n: nat) -> Seq<char> {
    match lang {
        Lang::Zh => text_of(lang, key) + seq![' '] + dec(n),
        Lang::En => dec(n) + seq![' '] + text_of(lang, key),
    }
}

/// `<count> <word>` in the order the language wants it.
pub fn count_phrase(lang: Lang, key: Key, n: usize) -> (s: String)
    ensures
        s@ == count_text(lang, key, n as nat),
{
    let word = t(lang, key);
    let mut s = String::new();
    match lang {
        Lang::Zh => {
            push_str(&mut s, word);
            push_char(&mut s, ' ');
            push_u64(&mut s, n as u64);
        },
        Lang::En => {
            push_u64(&mut s, n as u64);
            push_char(&mut s, ' ');
            push_str(&mut s, word);
        },
    }
    assert(s@ =~= count_text(lang, key, n as nat));
    s
}

/// The language a tag names: whatever it starts with once trimmed and
/// lowercased, `zh` or `en`.
pub open spec fn tag_lang(tag: Seq<char>) -> Option<Lang> {
    let t = lower_seq(trim(tag));
    if has_prefix(t, "zh"@) {
        Some(Lang::Zh)
    } else if has_prefix(t, "en"@) {
        Some(Lang::En)
    } else {
        None
    }
}

/// The explicit language `settings.language` picks, if it picks one.
pub open spec fn explicit_lang(language: Option<String>) -> Option<Lang> {
    match language {
        Some(l) => if l@ == "zh-CN"@ {
            Some(Lang::Zh)
        } else if l@ == "en"@ {
            Some(Lang::En)
        } else {
            None
        },
        None => None,
    }
}

impl Lang {
    /// A BCP 47-ish tag (`zh-Hans-CN`, `en_US.UTF-8`, `zh`) to a language,
    /// or `None` when it is neither of the two.
    pub fn from_tag(tag: &str) -> (r: Option<Lang>)
        ensures
            r == tag_lang(tag@),
    {
        let v = chars_of(tag);
        let tv = trimmed(&v);
        let l = lowercased(&tv);
        if vec_starts_with(&l, "zh") {
            Some(Lang::Zh)
        } else if vec_starts_with(&l, "en") {
            Some(Lang::En)
        } else {
            None
        }
    }

    /// What `settings.language` says: an explicit choice, or `system` (the
    /// system language) when the field is `"system"`, absent, or something
    /// this version does not understand.
    pub fn from_settings(settings: &AppSettings, system: Lang) -> (r: Lang)
        ensures
            r == match explicit_lang(settings.language) {
                Some(l) => l,
                None => system,
            },
    {
        match &settings.language {
            Some(l) => {
                if str_eq(l.as_str(), "zh-CN") {
                    Lang::Zh
                } else if str_eq(l.as_str(), "en") {
                    Lang::En
                } else {
                    system
                }
            },
            None => system,
        }
    }
}

/// The characters `defaults` wraps a language tag in.
pub open spec fn is_wrapper(c: char) -> bool {
    c == '(' || c == ')' || c == ',' || c == '"'
}

/// `s` without wrapper characters at its start.
pub open spec fn strip_start(s: Seq<char>) -> Seq<char>
    decreases s.len(),
{
    if s.len() > 0 && is_wrapper(s[0]) {
        strip_start(s.drop_first())
    } else {
        s
    }
}

/// `s` without wrapper characters at its end.
pub open spec fn strip_end(s: Seq<char>) -> Seq<char>
    decreases s.len(),
{
    if s.len() > 0 && is_wrapper(s.last()) {
        strip_end(s.drop_last())
    } else {
        s
    }
}

/// One line of `defaults` output reduced to the tag it holds.
pub open spec fn line_tag(line: Seq<char>) -> Seq<char> {
    strip_end(strip_start(trim(line)))
}

/// Line `i` of the `\n`-separated `pieces`: a piece that a `\n` follows
/// loses one `\r` right before it; the last piece is kept as it is.
pub open spec fn line_piece(pieces: Seq<Seq<char>>, i: int) -> Seq<char> {
    if i + 1 < pieces.len() {
        drop_cr(pieces[i])
    } else {
        pieces[i]
    }
}

/// `str::lines`: split at `\n`, no final empty line, and a `\r` right
/// before a `\n` dropped with it; a `\r` that ends the text stays.
pub open spec fn lines_of(s: Seq<char>) -> Seq<Seq<char>> {
    let pieces = split_all(s, '\n');
    let n: int = if pieces.last().len() == 0 {
        pieces.len() - 1
    } else {
        pieces.len() as int
    };
    Seq::new(n as nat, |i: int| line_piece(pieces, i))
}

/// A line without its trailing `\r`.
pub open spec fn drop_cr(l: Seq<char>) -> Seq<char> {
    if l.len() > 0 && l.last() == '\r' {
        l.drop_last()
    } else {
        l
    }
}

/// The first line, in order, whose tag names a known language.
pub open spec fn first_known(lines: Seq<Seq<char>>) -> Option<Lang>
    decreases lines.len(),
{
    if lines.len() == 0 {
        None
    } else {
        let tag = line_tag(lines[0]);
        if tag.len() > 0 && tag_lang(tag) is Some {
            tag_lang(tag)
        } else {
            first_known(lines.drop_first())
        }
    }
}

proof fn lemma_strip_start_is(s: Seq<char>, i: int)
    requires
        0 <= i <= s.len(),
        forall|j: int| 0 <= j < i ==> is_wrapper(#[trigger] s[j]),
        i < s.len() ==> !is_wrapper(s[i]),
    ensures
        strip_start(s) == s.subrange(i, s.len() as int),
    decreases i,
{
    if i > 0 {
        let t = s.drop_first();
        assert forall|j: int| 0 <= j < i - 1 implies is_wrapper(#[trigger] t[j]) by {
            assert(t[j] == s[j + 1]);
        }
        if i - 1 < t.len() {
            assert(t[i - 1] == s[i]);
        }
        lemma_strip_start_is(t, i - 1);
        assert(t.subrange(i - 1, t.len() as int) =~= s.subrange(i, s.len() as int));
    } else {
        assert(s.subrange(0, s.len() as int) =~= s);
    }
}

proof fn lemma_strip_end_is(s: Seq<char>, k: int)
    requires
        0 <= k <= s.len(),
        forall|j: int| k <= j < s.len() ==> is_wrapper(#[trigger] s[j]),
        k > 0 ==> !is_wrapper(s[k - 1]),
    ensures
        strip_end(s) == s.subrange(0, k),
    decreases s.len() - k,
{
    if k < s.len() {
        let t = s.drop_last();
        assert forall|j: int| k <= j < t.len() implies is_wrapper(#[trigger] t[j]) by {
            assert(t[j] == s[j]);
        }
        if k > 0 {
            assert(t[k - 1] == s[k - 1]);
        }
        lemma_strip_end_is(t, k);
        assert(t.subrange(0, k) =~= s.subrange(0, k));
    } else {
        assert(s.subrange(0, k) =~= s);
    }
}

fn is_wrapper_char(c: char) -> (b: bool)
    ensures
        b == is_wrapper(c),
{
    c == '(' || c == ')' || c == ',' || c == '"'
}

/// The tag one line of `defaults` output holds.
fn tag_of_line(line: &Vec<char>) -> (r: Vec<char>)
    ensures
        r@ == line_tag(line@),
{
    let t = trimmed(line);
    let mut a: usize = 0;
    while a < t.len() && is_wrapper_char(t[a])
        invariant
            a <= t@.len(),
            forall|j: int| 0 <= j < a ==> is_wrapper(#[trigger] t@[j]),
        decreases t@.len() - a,
    {
        a = a + 1;
    }
    proof {
        lemma_strip_start_is(t@, a as int);
    }
    let u = slice_vec(&t, a, t.len());
    let mut b = u.len();
    while b > 0 && is_wrapper_char(u[b - 1])
        invariant
            b <= u@.len(),
            forall|j: int| b <= j < u@.len() ==> is_wrapper(#[trigger] u@[j]),
        decreases b,
    {
        b = b - 1;
    }
    proof {
        lemma_strip_end_is(u@, b as int);
    }
    slice_vec(&u, 0, b)
}

/// The first language tag in `defaults read -g AppleLanguages` output (one
/// tag per line, quoted or bare, between parentheses) that this app has
/// strings for.
pub fn first_known_tag(raw: &str) -> (r: Option<Lang>)
    ensures
        r == first_known(lines_of(raw@)),
{
    let v = chars_of(raw);
    let lines = lines_vec(&v);
    let ghost ls = views(lines@);
    assert(ls.subrange(0, ls.len() as int) =~= ls);
    let mut i: usize = 0;
    while i < lines.len()
        invariant
            i <= lines@.len(),
            ls == views(lines@),
            ls == lines_of(raw@),
            first_known(ls) == first_known(ls.subrange(i as int, ls.len() as int)),
        decreases lines@.len() - i,
    {
        let tag = tag_of_line(&lines[i]);
        let ghost tail = ls.subrange(i as int, ls.len() as int);
        assert(tail[0] == lines@[i as int]@);
        if tag.len() > 0 {
            let s = crate::text::string_of_chars(&tag);
            let found = Lang::from_tag(s.as_str());
            if found.is_some() {
                return found;
            }
        }
        assert(tail.drop_first() =~= ls.subrange(i + 1, ls.len() as int));
        i = i + 1;
    }
    None
}

} // verus!
