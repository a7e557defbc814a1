//! What the menu bar item shows: one icon state derived from every task, a
//! counts line, one item per favourite, and a fingerprint that changes
//! exactly when any of that would render differently.

use vstd::prelude::*;

use crate::commands::{TaskStatus, TaskView};
use crate::fmt::join;
use crate::trigger_args::{lemma_split_concat, lemma_split_join, lemma_split_one, split_all};
use crate::i18n::{Key, Lang, count_phrase, count_text, t, text_of};
use crate::text::{chars_of, copy_string, dec, digit_char, has_prefix, push_char, push_str, slice_vec, starts_with_at, str_eq, string_of, string_of_chars};

verus! {

/// The tray icon's id.
pub const TRAY_ID: &'static str = "launchkeeper";

/// The three icon states.
#[derive(Debug, Clone, Copy, PartialEq, Eq, Structural)]
pub enum TrayState {
    /// Nothing running, nothing failed.
    AllClear,
    /// At least one task's last run failed.
    Failed,
    /// At least one task is running.
    Running,
}

/// Some view is in `status`.
pub open spec fn any_status(views: Seq<TaskView>, status: TaskStatus) -> bool {
    exists|i: int| 0 <= i < views.len() && (#[trigger] views[i]).status == status
}

/// Some scheduled (non-service) task is running.
pub open spec fn scheduled_running(views: Seq<TaskView>) -> bool {
    exists|i: int|
        0 <= i < views.len() && (#[trigger] views[i]).status == TaskStatus::Running
            && !views[i].is_service
}

/// Running beats failed beats all-clear, except that a running *service*
/// only wins when nothing is failed.
pub open spec fn tray_state_of(views: Seq<TaskView>) -> TrayState {
    if scheduled_running(views) {
        TrayState::Running
    } else if any_status(views, TaskStatus::Failed) {
        TrayState::Failed
    } else if any_status(views, TaskStatus::Running) {
        TrayState::Running
    } else {
        TrayState::AllClear
    }
}

/// The icon state for a scan.
pub fn derive_state(views: &[TaskView]) -> (s: TrayState)
    ensures
        s == tray_state_of(views@),
{
    let mut sched = false;
    let mut failed = false;
    let mut running = false;
    let mut i: usize = 0;
    while i < views.len()
        invariant
            i <= views@.len(),
            sched == scheduled_running(views@.subrange(0, i as int)),
            failed == any_status(views@.subrange(0, i as int), TaskStatus::Failed),
            running == any_status(views@.subrange(0, i as int), TaskStatus::Running),
        decreases views@.len() - i,
    {
        let v = &views[i];
        let ghost pre = views@.subrange(0, i as int);
        let ghost post = views@.subrange(0, i + 1);
        let is_run = v.status == TaskStatus::Running;
        let is_fail = v.status == TaskStatus::Failed;
        proof {
            assert(post[i as int] == views@[i as int]);
            assert forall|j: int| 0 <= j < i implies post[j] == #[trigger] pre[j] by {}
            if scheduled_running(pre) {
                let j = choose|j: int|
                    0 <= j < pre.len() && (#[trigger] pre[j]).status == TaskStatus::Running
                        && !pre[j].is_service;
                assert(post[j] == pre[j]);
            }
            if any_status(pre, TaskStatus::Failed) {
                let j = choose|j: int| 0 <= j < pre.len() && (#[trigger] pre[j]).status == TaskStatus::Failed;
                assert(post[j] == pre[j]);
            }
            if any_status(pre, TaskStatus::Running) {
                let j = choose|j: int| 0 <= j < pre.len() && (#[trigger] pre[j]).status == TaskStatus::Running;
                assert(post[j] == pre[j]);
            }
            if scheduled_running(post) && !(is_run && !v.is_service) {
                let j = choose|j: int|
                    0 <= j < post.len() && (#[trigger] post[j]).status == TaskStatus::Running
                        && !post[j].is_service;
                assert(j < i);
                assert(pre[j] == post[j]);
            }
            if any_status(post, TaskStatus::Failed) && !is_fail {
                let j = choose|j: int| 0 <= j < post.len() && (#[trigger] post[j]).status == TaskStatus::Failed;
                assert(pre[j] == post[j]);
            }
            if any_status(post, TaskStatus::Running) && !is_run {
                let j = choose|j: int| 0 <= j < post.len() && (#[trigger] post[j]).status == TaskStatus::Running;
                assert(pre[j] == post[j]);
            }
        }
        sched = sched || (is_run && !v.is_service);
        failed = failed || is_fail;
        running = running || is_run;
        i = i + 1;
    }
    assert(views@.subrange(0, views@.len() as int) =~= views@);
    if sched {
        TrayState::Running
    } else if failed {
        TrayState::Failed
    } else if running {
        TrayState::Running
    } else {
        TrayState::AllClear
    }
}

/// A running scheduled run always shows as running, whatever else fails.
pub proof fn a_scheduled_run_wins(views: Seq<TaskView>, i: int)
    requires
        0 <= i < views.len(),
        views[i].status == TaskStatus::Running,
        !views[i].is_service,
    ensures
        tray_state_of(views) == TrayState::Running,
{
}

/// A long-running service never hides a failure elsewhere.
pub proof fn a_running_service_does_not_mask_a_failure(views: Seq<TaskView>, i: int)
    requires
        0 <= i < views.len(),
        views[i].status == TaskStatus::Failed,
        !scheduled_running(views),
    ensures
        tray_state_of(views) == TrayState::Failed,
{
}

/// Disabled, never-run and stopped tasks, and successes, are not problems:
/// a scan with nothing running and nothing failed is all clear.
pub proof fn quiet_tasks_are_all_clear(views: Seq<TaskView>)
    requires
        forall|i: int|
            0 <= i < views.len() ==> (#[trigger] views[i]).status != TaskStatus::Running
                && views[i].status != TaskStatus::Failed,
    ensures
        tray_state_of(views) == TrayState::AllClear,
{
}

/// Clicking this favourite would stop it rather than start it.
pub open spec fn running_service(v: TaskView) -> bool {
    v.is_service && v.status == TaskStatus::Running
}

/// What one favourite's menu item says: the display name, with the verb in
/// front for a service.
pub open spec fn item_text(v: TaskView, lang: Lang) -> Seq<char> {
    if !v.is_service {
        v.display_name@
    } else {
        text_of(
            lang,
            if running_service(v) {
                Key::TrayStop
            } else {
                Key::TrayStart
            },
        ) + seq![' '] + v.display_name@
    }
}

/// What one favourite's menu item says.
pub fn item_label(v: &TaskView, lang: Lang) -> (s: String)
    ensures
        s@ == item_text(*v, lang),
{
    if !v.is_service {
        return copy_string(&v.display_name);
    }
    let verb = if v.is_service && v.status == TaskStatus::Running {
        t(lang, Key::TrayStop)
    } else {
        t(lang, Key::TrayStart)
    };
    let mut s = string_of(verb);
    push_char(&mut s, ' ');
    push_str(&mut s, v.display_name.as_str());
    assert(s@ =~= item_text(*v, lang));
    s
}

/// How many views are in `status`.
pub open spec fn count_status(views: Seq<TaskView>, status: TaskStatus) -> nat
    decreases views.len(),
{
    if views.len() == 0 {
        0
    } else {
        count_status(views.drop_last(), status) + if views.last().status == status {
            1nat
        } else {
            0nat
        }
    }
}

proof fn lemma_count_bound(views: Seq<TaskView>, status: TaskStatus)
    ensures
        count_status(views, status) <= views.len(),
    decreases views.len(),
{
    if views.len() > 0 {
        lemma_count_bound(views.drop_last(), status);
    }
}

fn count(views: &[TaskView], status: TaskStatus) -> (n: usize)
    ensures
        n == count_status(views@, status),
{
    let mut n: usize = 0;
    let mut i: usize = 0;
    while i < views.len()
        invariant
            i <= views@.len(),
            n == count_status(views@.subrange(0, i as int), status),
        decreases views@.len() - i,
    {
        proof {
            assert(views@.subrange(0, i + 1).drop_last() =~= views@.subrange(0, i as int));
            lemma_count_bound(views@.subrange(0, i + 1), status);
        }
        if views[i].status == status {
            n = n + 1;
        }
        i = i + 1;
    }
    assert(views@.subrange(0, views@.len() as int) =~= views@);
    n
}

/// The counts line: `运行中 n · 失败 n · 已停用 n`, zeros included, over every
/// task; absent when there are no tasks at all.
pub open spec fn summary_text(views: Seq<TaskView>, lang: Lang) -> Option<Seq<char>> {
    if views.len() == 0 {
        None
    } else {
        Some(
            count_text(lang, Key::TraySummaryRunning, count_status(views, TaskStatus::Running))
                + " · "@ + count_text(
                lang,
                Key::TraySummaryFailed,
                count_status(views, TaskStatus::Failed),
            ) + " · "@ + count_text(
                lang,
                Key::TraySummaryDisabled,
                count_status(views, TaskStatus::Disabled),
            ),
        )
    }
}

/// The first line of the menu.
pub fn summary_line(views: &[TaskView], lang: Lang) -> (s: Option<String>)
    ensures
        match (s, summary_text(views@, lang)) {
            (Some(a), Some(b)) => a@ == b,
            (None, None) => true,
            _ => false,
        },
{
    if views.len() == 0 {
        return None;
    }
    let running = count_phrase(lang, Key::TraySummaryRunning, count(views, TaskStatus::Running));
    let failed = count_phrase(lang, Key::TraySummaryFailed, count(views, TaskStatus::Failed));
    let disabled = count_phrase(
        lang,
        Key::TraySummaryDisabled,
        count(views, TaskStatus::Disabled),
    );
    let mut s = string_of(running.as_str());
    push_str(&mut s, " · ");
    push_str(&mut s, failed.as_str());
    push_str(&mut s, " · ");
    push_str(&mut s, disabled.as_str());
    Some(s)
}

/// The favourites, in list order.
pub open spec fn favorites_of(views: Seq<TaskView>) -> Seq<TaskView>
    decreases views.len(),
{
    if views.len() == 0 {
        Seq::empty()
    } else {
        let f = favorites_of(views.drop_last());
        if views.last().favorite {
            f.push(views.last())
        } else {
            f
        }
    }
}

/// One favourite's part of the fingerprint: its name, `\u{1}`, its label.
pub open spec fn favorite_sig(v: TaskView, lang: Lang) -> Seq<char> {
    v.name@ + seq!['\u{1}'] + item_text(v, lang)
}

/// A fingerprint of everything the menu renders: the counts line, `\u{3}`,
/// then each favourite's name and label, separated by `\u{2}`.
pub open spec fn signature_text(views: Seq<TaskView>, lang: Lang) -> Seq<char> {
    let favs = favorites_of(views);
    let summary = match summary_text(views, lang) {
        Some(s) => s,
        None => Seq::empty(),
    };
    summary + seq!['\u{3}'] + join(
        Seq::new(favs.len(), |i: int| favorite_sig(favs[i], lang)),
        seq!['\u{2}'],
    )
}

/// The menu is rebuilt only when this changes.
pub fn menu_signature(views: &[TaskView], lang: Lang) -> (s: String)
    ensures
        s@ == signature_text(views@, lang),
{
    let ghost favs_all = favorites_of(views@);
    let mut favs = String::new();
    let ghost mut parts: Seq<Seq<char>> = Seq::empty();
    let mut first = true;
    let mut i: usize = 0;
    while i < views.len()
        invariant
            i <= views@.len(),
            parts == ({
                let f = favorites_of(views@.subrange(0, i as int));
                Seq::new(f.len(), |j: int| favorite_sig(f[j], lang))
            }),
            favs@ == join(parts, seq!['\u{2}']),
            first == (parts.len() == 0),
        decreases views@.len() - i,
    {
        let v = &views[i];
        proof {
            let pre = views@.subrange(0, i as int);
            let post = views@.subrange(0, i + 1);
            assert(post.drop_last() =~= pre);
            assert(post.last() == *v);
        }
        if v.favorite {
            if !first {
                push_char(&mut favs, '\u{2}');
            }
            push_str(&mut favs, v.name.as_str());
            push_char(&mut favs, '\u{1}');
            let label = item_label(v, lang);
            push_str(&mut favs, label.as_str());
            proof {
                let old_parts = parts;
                parts = parts.push(favorite_sig(*v, lang));
                assert(parts.drop_last() =~= old_parts);
                if old_parts.len() == 0 {
                    assert(favs@ =~= join(parts, seq!['\u{2}']));
                } else {
                    assert(favs@ =~= join(parts, seq!['\u{2}']));
                }
                let f = favorites_of(views@.subrange(0, i + 1));
                assert(parts =~= Seq::new(f.len(), |j: int| favorite_sig(f[j], lang)));
            }
            first = false;
        } else {
            proof {
                let f = favorites_of(views@.subrange(0, i + 1));
                assert(parts =~= Seq::new(f.len(), |j: int| favorite_sig(f[j], lang)));
            }
        }
        i = i + 1;
    }
    assert(views@.subrange(0, views@.len() as int) =~= views@);
    let mut s = match summary_line(views, lang) {
        Some(line) => line,
        None => String::new(),
    };
    push_char(&mut s, '\u{3}');
    push_str(&mut s, favs.as_str());
    assert(s@ =~= signature_text(views@, lang));
    s
}

// ---------------------------------------------------------------------------
// The menu
// ---------------------------------------------------------------------------

/// Menu id of the "open the window" item.
pub const ID_OPEN: &'static str = "lk:open";

/// Menu id of the "quit" item.
pub const ID_QUIT: &'static str = "lk:quit";

/// Menu id of the counts line at the top: a disabled item, a label rather
/// than a command.
pub const ID_SUMMARY: &'static str = "lk:summary";

/// Prefix of the per-task menu ids; the rest is the task name.
pub const TASK_PREFIX: &'static str = "lk:task:";

/// One entry of the tray menu.
#[derive(Debug, Clone, PartialEq, Eq)]
pub enum MenuEntry {
    /// A disabled item that only shows `text`.
    Label { id: String, text: String },
    /// A clickable item.
    Item { id: String, text: String },
    /// A separator line.
    Separator,
}

/// The mathematical form of a [`MenuEntry`].
pub enum EntryModel {
    Label(Seq<char>, Seq<char>),
    Item(Seq<char>, Seq<char>),
    Separator,
}

/// The form of an entry.
pub open spec fn entry_model(e: MenuEntry) -> EntryModel {
    match e {
        MenuEntry::Label { id, text } => EntryModel::Label(id@, text@),
        MenuEntry::Item { id, text } => EntryModel::Item(id@, text@),
        MenuEntry::Separator => EntryModel::Separator,
    }
}

/// The forms of a list of entries.
pub open spec fn entry_models(es: Seq<MenuEntry>) -> Seq<EntryModel> {
    es.map_values(|e: MenuEntry| entry_model(e))
}

/// The item of one favourite.
pub open spec fn favorite_entry(v: TaskView, lang: Lang) -> EntryModel {
    EntryModel::Item(TASK_PREFIX@ + v.name@, item_text(v, lang))
}

/// The menu, top to bottom: the counts line and a separator when there are
/// tasks; one item per favourite and a separator when there are any; then
/// "open" and "quit".
pub open spec fn menu_of(views: Seq<TaskView>, lang: Lang) -> Seq<EntryModel> {
    let favs = favorites_of(views);
    let head = match summary_text(views, lang) {
        Some(line) => seq![EntryModel::Label(ID_SUMMARY@, line), EntryModel::Separator],
        None => Seq::empty(),
    };
    let items = Seq::new(favs.len(), |i: int| favorite_entry(favs[i], lang));
    let sep = if favs.len() > 0 {
        seq![EntryModel::Separator]
    } else {
        Seq::empty()
    };
    head + items + sep + seq![
        EntryModel::Item(ID_OPEN@, text_of(lang, Key::TrayOpen)),
        EntryModel::Item(ID_QUIT@, text_of(lang, Key::TrayQuit)),
    ]
}

/// [`menu_of`]: what `build_menu` puts in the tray menu.
pub fn menu_entries(views: &[TaskView], lang: Lang) -> (es: Vec<MenuEntry>)
    ensures
        entry_models(es@) == menu_of(views@, lang),
{
    let mut es: Vec<MenuEntry> = Vec::new();
    let line = summary_line(views, lang);
    match line {
        Some(l) => {
            es.push(MenuEntry::Label { id: string_of(ID_SUMMARY), text: l });
            es.push(MenuEntry::Separator);
        },
        None => {},
    }
    let ghost head = entry_models(es@);
    assert(head == match summary_text(views@, lang) {
        Some(line) => seq![EntryModel::Label(ID_SUMMARY@, line), EntryModel::Separator],
        None => Seq::<EntryModel>::empty(),
    }) by {
        assert(entry_models(es@) =~= match summary_text(views@, lang) {
            Some(line) => seq![EntryModel::Label(ID_SUMMARY@, line), EntryModel::Separator],
            None => Seq::<EntryModel>::empty(),
        });
    }
    let ghost mut items: Seq<EntryModel> = Seq::empty();
    let mut any = false;
    let mut i: usize = 0;
    assert(views@.take(0) =~= Seq::<TaskView>::empty());
    while i < views.len()
        invariant
            i <= views@.len(),
            items =~= Seq::new(
                favorites_of(views@.take(i as int)).len(),
                |k: int| favorite_entry(favorites_of(views@.take(i as int))[k], lang),
            ),
            entry_models(es@) == head + items,
            any == (favorites_of(views@.take(i as int)).len() > 0),
        decreases views@.len() - i,
    {
        proof {
            let upto = views@.take(i + 1);
            assert(upto.drop_last() =~= views@.take(i as int));
            assert(upto.last() == views@[i as int]);
        }
        if views[i].favorite {
            let mut id = string_of(TASK_PREFIX);
            push_str(&mut id, views[i].name.as_str());
            let text = item_label(&views[i], lang);
            let ghost before = entry_models(es@);
            es.push(MenuEntry::Item { id, text });
            proof {
                let e = favorite_entry(views@[i as int], lang);
                assert(entry_models(es@) =~= before.push(e));
                items = items.push(e);
                let f = favorites_of(views@.take(i + 1));
                assert(f =~= favorites_of(views@.take(i as int)).push(views@[i as int]));
            }
            any = true;
        }
        i = i + 1;
    }
    assert(views@.take(views@.len() as int) =~= views@);
    if any {
        es.push(MenuEntry::Separator);
    }
    es.push(MenuEntry::Item { id: string_of(ID_OPEN), text: string_of(t(lang, Key::TrayOpen)) });
    es.push(MenuEntry::Item { id: string_of(ID_QUIT), text: string_of(t(lang, Key::TrayQuit)) });
    assert(entry_models(es@) =~= menu_of(views@, lang));
    es
}

/// What a click on a menu item asks for.
#[derive(Debug, Clone, PartialEq, Eq)]
pub enum MenuAction {
    /// Show the main window.
    Open,
    /// Quit the app.
    Quit,
    /// Act on the favourite with this name.
    Favorite(String),
    /// Nothing (the counts line, or an unknown id).
    Ignore,
}

/// The action a click on the item `id` asks for.
pub open spec fn action_for(id: Seq<char>) -> (Option<Seq<char>>, u8) {
    if id == ID_OPEN@ {
        (None, 0)
    } else if id == ID_QUIT@ {
        (None, 1)
    } else if has_prefix(id, TASK_PREFIX@) {
        (Some(id.skip(TASK_PREFIX@.len() as int)), 2)
    } else {
        (None, 3)
    }
}

/// [`action_for`]: `Open`, `Quit`, the favourite named by the rest of a
/// task id, or `Ignore`.
pub fn menu_action(id: &str) -> (a: MenuAction)
    ensures
        match a {
            MenuAction::Open => action_for(id@) == (None::<Seq<char>>, 0u8),
            MenuAction::Quit => action_for(id@) == (None::<Seq<char>>, 1u8),
            MenuAction::Favorite(name) => action_for(id@) == (Some(name@), 2u8),
            MenuAction::Ignore => action_for(id@) == (None::<Seq<char>>, 3u8),
        },
{
    if str_eq(id, ID_OPEN) {
        return MenuAction::Open;
    }
    if str_eq(id, ID_QUIT) {
        return MenuAction::Quit;
    }
    let v = chars_of(id);
    assert(v@.subrange(0, v@.len() as int) =~= v@);
    if starts_with_at(&v, 0, TASK_PREFIX) {
        let n = chars_of(TASK_PREFIX).len();
        let rest = slice_vec(&v, n, v.len());
        assert(rest@ =~= id@.skip(TASK_PREFIX@.len() as int));
        MenuAction::Favorite(string_of_chars(&rest))
    } else {
        MenuAction::Ignore
    }
}

// ---------------------------------------------------------------------------
// What the signature tells apart
// ---------------------------------------------------------------------------

/// None of the three characters the signature separates its parts with.
pub open spec fn free_of_marks(s: Seq<char>) -> bool {
    forall|j: int| 0 <= j < s.len() ==> #[trigger] s[j] != '\u{1}' && s[j] != '\u{2}' && s[j] != '\u{3}'
}

/// Each view's name and display name are free of the separators.
pub open spec fn plain_names(views: Seq<TaskView>) -> bool {
    forall|i: int|
        0 <= i < views.len() ==> free_of_marks((#[trigger] views[i]).name@) && free_of_marks(
            views[i].display_name@,
        )
}

/// Each favourite, in list order, as its name and its menu label.
pub open spec fn favorite_rows(views: Seq<TaskView>, lang: Lang) -> Seq<(Seq<char>, Seq<char>)> {
    let favs = favorites_of(views);
    Seq::new(favs.len(), |i: int| (favs[i].name@, item_text(favs[i], lang)))
}

proof fn lemma_free_concat(a: Seq<char>, b: Seq<char>)
    requires
        free_of_marks(a),
        free_of_marks(b),
    ensures
        free_of_marks(a + b),
{
    assert forall|j: int| 0 <= j < (a + b).len() implies #[trigger] (a + b)[j] != '\u{1}' && (a
        + b)[j] != '\u{2}' && (a + b)[j] != '\u{3}' by {
        if j < a.len() {
            assert((a + b)[j] == a[j]);
        } else {
            assert((a + b)[j] == b[j - a.len()]);
        }
    }
}

proof fn lemma_dec_free(n: nat)
    ensures
        free_of_marks(dec(n)),
    decreases n,
{
    assert((n % 10 + '0' as nat) as char != '\u{1}');
    assert((n % 10 + '0' as nat) as char != '\u{2}');
    assert((n % 10 + '0' as nat) as char != '\u{3}');
    if n >= 10 {
        lemma_dec_free(n / 10);
        lemma_free_concat(dec(n / 10), seq![digit_char(n % 10)]);
        assert(dec(n) =~= dec(n / 10) + seq![digit_char(n % 10)]);
    } else {
        assert(n % 10 == n);
    }
}

proof fn lemma_words_free(lang: Lang, key: Key)
    ensures
        free_of_marks(text_of(lang, key)),
{
    reveal_strlit("打开 Launchkeeper");
    reveal_strlit("Open Launchkeeper");
    reveal_strlit("退出");
    reveal_strlit("Quit");
    reveal_strlit("启动");
    reveal_strlit("Start");
    reveal_strlit("停止");
    reveal_strlit("Stop");
    reveal_strlit("运行中");
    reveal_strlit("running");
    reveal_strlit("失败");
    reveal_strlit("failed");
    reveal_strlit("已停用");
    reveal_strlit("disabled");
    reveal_strlit("服务崩溃，已自动重启");
    reveal_strlit("Service crashed and was restarted");
    reveal_strlit("退出码");
    reveal_strlit("Exit code");
    reveal_strlit("被信号终止");
    reveal_strlit("Killed by a signal");
}

proof fn lemma_summary_free(views: Seq<TaskView>, lang: Lang)
    ensures
        match summary_text(views, lang) {
            Some(s) => free_of_marks(s) && s.len() > 0,
            None => true,
        },
{
    if views.len() > 0 {
        reveal_strlit(" · ");
        let dot = " · "@;
        assert(free_of_marks(dot));
        let keys = seq![Key::TraySummaryRunning, Key::TraySummaryFailed, Key::TraySummaryDisabled];
        let ns = seq![
            count_status(views, TaskStatus::Running),
            count_status(views, TaskStatus::Failed),
            count_status(views, TaskStatus::Disabled),
        ];
        assert forall|k: int| 0 <= k < 3 implies free_of_marks(#[trigger] count_text(lang, keys[k], ns[k])) by {
            lemma_dec_free(ns[k]);
            lemma_words_free(lang, keys[k]);
            lemma_free_concat(text_of(lang, keys[k]), seq![' ']);
            lemma_free_concat(text_of(lang, keys[k]) + seq![' '], dec(ns[k]));
            lemma_free_concat(dec(ns[k]), seq![' ']);
            lemma_free_concat(dec(ns[k]) + seq![' '], text_of(lang, keys[k]));
        }
        let a = count_text(lang, keys[0], ns[0]);
        let b = count_text(lang, keys[1], ns[1]);
        let c = count_text(lang, keys[2], ns[2]);
        lemma_free_concat(a, dot);
        lemma_free_concat(a + dot, b);
        lemma_free_concat(a + dot + b, dot);
        lemma_free_concat(a + dot + b + dot, c);
        assert(summary_text(views, lang) == Some(a + dot + b + dot + c));
    }
}

proof fn lemma_label_free(v: TaskView, lang: Lang)
    requires
        free_of_marks(v.display_name@),
    ensures
        free_of_marks(item_text(v, lang)),
{
    if v.is_service {
        let k = if running_service(v) {
            Key::TrayStop
        } else {
            Key::TrayStart
        };
        lemma_words_free(lang, k);
        lemma_free_concat(text_of(lang, k), seq![' ']);
        lemma_free_concat(text_of(lang, k) + seq![' '], v.display_name@);
    }
}

proof fn lemma_favorites_plain(views: Seq<TaskView>)
    requires
        plain_names(views),
    ensures
        plain_names(favorites_of(views)),
    decreases views.len(),
{
    if views.len() > 0 {
        let d = views.drop_last();
        assert forall|i: int| 0 <= i < d.len() implies free_of_marks((#[trigger] d[i]).name@)
            && free_of_marks(d[i].display_name@) by {
            assert(d[i] == views[i]);
        }
        lemma_favorites_plain(d);
        assert(views.last() == views[views.len() - 1]);
    }
}

/// The pieces the favourites part of the signature is joined from.
spec fn favorite_sigs(views: Seq<TaskView>, lang: Lang) -> Seq<Seq<char>> {
    let favs = favorites_of(views);
    Seq::new(favs.len(), |i: int| favorite_sig(favs[i], lang))
}

proof fn lemma_sigs_split(views: Seq<TaskView>, lang: Lang)
    requires
        plain_names(views),
    ensures
        forall|k: int|
            0 <= k < favorite_sigs(views, lang).len() ==> split_all(
                #[trigger] favorite_sigs(views, lang)[k],
                '\u{1}',
            ) == seq![favorites_of(views)[k].name@, item_text(favorites_of(views)[k], lang)],
        forall|k: int, j: int|
            0 <= k < favorite_sigs(views, lang).len() && 0 <= j < favorite_sigs(views, lang)[k].len()
                ==> #[trigger] favorite_sigs(views, lang)[k][j] != '\u{2}' && favorite_sigs(views, lang)[k][j]
                != '\u{3}',
        forall|k: int|
            0 <= k < favorite_sigs(views, lang).len() ==> (#[trigger] favorite_sigs(views, lang)[k]).len()
                > 0,
{
    let favs = favorites_of(views);
    let sigs = favorite_sigs(views, lang);
    lemma_favorites_plain(views);
    assert forall|k: int| 0 <= k < sigs.len() implies split_all(#[trigger] sigs[k], '\u{1}') == seq![
        favs[k].name@,
        item_text(favs[k], lang),
    ] && free_of_marks(favs[k].name@) && free_of_marks(item_text(favs[k], lang)) by {
        let v = favs[k];
        assert(free_of_marks(v.name@) && free_of_marks(v.display_name@));
        lemma_label_free(v, lang);
        lemma_split_concat(v.name@, item_text(v, lang), '\u{1}');
        lemma_split_one(v.name@, '\u{1}');
        lemma_split_one(item_text(v, lang), '\u{1}');
        assert(sigs[k] == v.name@ + seq!['\u{1}'] + item_text(v, lang));
    }
    assert forall|k: int, j: int| 0 <= k < sigs.len() && 0 <= j < sigs[k].len() implies #[trigger] sigs[k][j]
        != '\u{2}' && sigs[k][j] != '\u{3}' by {
        let v = favs[k];
        assert(split_all(sigs[k], '\u{1}') == seq![v.name@, item_text(v, lang)]);
        assert(sigs[k] == v.name@ + seq!['\u{1}'] + item_text(v, lang));
        if j < v.name@.len() {
            assert(sigs[k][j] == v.name@[j]);
        } else if j > v.name@.len() {
            assert(sigs[k][j] == item_text(v, lang)[j - v.name@.len() - 1]);
        }
    }
    assert forall|k: int| 0 <= k < sigs.len() implies (#[trigger] sigs[k]).len() > 0 by {
        assert(sigs[k] == favs[k].name@ + seq!['\u{1}'] + item_text(favs[k], lang));
    }
}

/// The favourites part of the signature.
spec fn favorites_part(views: Seq<TaskView>, lang: Lang) -> Seq<char> {
    join(favorite_sigs(views, lang), seq!['\u{2}'])
}

proof fn lemma_favorites_part_free(views: Seq<TaskView>, lang: Lang)
    requires
        plain_names(views),
    ensures
        forall|j: int| 0 <= j < favorites_part(views, lang).len() ==> #[trigger] favorites_part(views, lang)[j] != '\u{3}',
{
    lemma_sigs_split(views, lang);
    lemma_join_avoids(favorite_sigs(views, lang));
}

proof fn lemma_join_avoids(ps: Seq<Seq<char>>)
    requires
        forall|k: int, j: int| 0 <= k < ps.len() && 0 <= j < ps[k].len() ==> #[trigger] ps[k][j] != '\u{3}',
    ensures
        forall|j: int| 0 <= j < join(ps, seq!['\u{2}']).len() ==> #[trigger] join(ps, seq!['\u{2}'])[j] != '\u{3}',
    decreases ps.len(),
{
    if ps.len() == 1 {
        assert(join(ps, seq!['\u{2}']) == ps[0]);
        assert forall|j: int| 0 <= j < ps[0].len() implies #[trigger] ps[0][j] != '\u{3}' by {}
    } else if ps.len() > 1 {
        let d = ps.drop_last();
        assert forall|k: int, j: int| 0 <= k < d.len() && 0 <= j < d[k].len() implies #[trigger] d[k][j]
            != '\u{3}' by {
            assert(d[k] == ps[k]);
        }
        lemma_join_avoids(d);
        let a = join(d, seq!['\u{2}']);
        let l = ps.last();
        let whole = a + seq!['\u{2}'] + l;
        assert(join(ps, seq!['\u{2}']) == whole);
        assert forall|j: int| 0 <= j < whole.len() implies #[trigger] whole[j] != '\u{3}' by {
            if j < a.len() {
                assert(whole[j] == a[j]);
            } else if j > a.len() {
                assert(whole[j] == l[j - a.len() - 1]);
                assert(ps[ps.len() - 1][j - a.len() - 1] == l[j - a.len() - 1]);
            }
        }
    }
}

/// The menu signature changes exactly when what the menu shows changes: two
/// lists of views whose names and display names hold none of the three
/// separator characters have the same signature exactly when they have the
/// same counts line and the same favourites, in order, by name and label.
pub proof fn the_signature_changes_exactly_with_the_menu(
    a: Seq<TaskView>,
    b: Seq<TaskView>,
    lang: Lang,
)
    requires
        plain_names(a),
        plain_names(b),
    ensures
        (signature_text(a, lang) == signature_text(b, lang)) <==> (summary_text(a, lang)
            == summary_text(b, lang) && favorite_rows(a, lang) == favorite_rows(b, lang)),
{
    let sa = match summary_text(a, lang) {
        Some(s) => s,
        None => Seq::empty(),
    };
    let sb = match summary_text(b, lang) {
        Some(s) => s,
        None => Seq::empty(),
    };
    let fa = favorites_part(a, lang);
    let fb = favorites_part(b, lang);
    assert(signature_text(a, lang) == sa + seq!['\u{3}'] + fa);
    assert(signature_text(b, lang) == sb + seq!['\u{3}'] + fb);
    lemma_summary_free(a, lang);
    lemma_summary_free(b, lang);
    lemma_favorites_part_free(a, lang);
    lemma_favorites_part_free(b, lang);
    lemma_sigs_split(a, lang);
    lemma_sigs_split(b, lang);
    let pa = favorite_sigs(a, lang);
    let pb = favorite_sigs(b, lang);
    let ra = favorite_rows(a, lang);
    let rb = favorite_rows(b, lang);
    if signature_text(a, lang) == signature_text(b, lang) {
        lemma_split_concat(sa, fa, '\u{3}');
        lemma_split_concat(sb, fb, '\u{3}');
        lemma_split_one(sa, '\u{3}');
        lemma_split_one(sb, '\u{3}');
        lemma_split_one(fa, '\u{3}');
        lemma_split_one(fb, '\u{3}');
        assert(seq![sa, fa] =~= seq![sa] + seq![fa]);
        assert(seq![sb, fb] =~= seq![sb] + seq![fb]);
        assert(seq![sa, fa][0] == seq![sb, fb][0]);
        assert(seq![sa, fa][1] == seq![sb, fb][1]);
        assert(sa == sb);
        assert(fa == fb);
        assert(pa == pb) by {
            if pa.len() > 0 && pb.len() > 0 {
                lemma_split_join(pa, '\u{2}');
                lemma_split_join(pb, '\u{2}');
            } else if pa.len() > 0 {
                lemma_split_join(pa, '\u{2}');
                lemma_split_one(fb, '\u{2}');
                assert(fb == Seq::<char>::empty());
                assert(pa[0].len() > 0);
            } else if pb.len() > 0 {
                lemma_split_join(pb, '\u{2}');
                lemma_split_one(fa, '\u{2}');
                assert(fa == Seq::<char>::empty());
                assert(pb[0].len() > 0);
            } else {
                assert(pa =~= pb);
            }
        }
        assert(ra =~= rb) by {
            assert(ra.len() == pa.len());
            assert forall|k: int| 0 <= k < ra.len() implies ra[k] == rb[k] by {
                assert(split_all(pa[k], '\u{1}') == split_all(pb[k], '\u{1}'));
                let x = seq![favorites_of(a)[k].name@, item_text(favorites_of(a)[k], lang)];
                let y = seq![favorites_of(b)[k].name@, item_text(favorites_of(b)[k], lang)];
                assert(x[0] == y[0] && x[1] == y[1]);
            }
        }
    }
    if summary_text(a, lang) == summary_text(b, lang) && ra == rb {
        assert(sa == sb);
        assert(pa =~= pb) by {
            assert(pa.len() == ra.len());
            assert(pb.len() == rb.len());
            assert forall|k: int| 0 <= k < pa.len() implies pa[k] == pb[k] by {
                assert(ra[k] == rb[k]);
            }
        }
    }
}

} // verus!
