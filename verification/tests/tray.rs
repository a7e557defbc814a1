use launchkeeper::commands::{TaskStatus, TaskView};
use launchkeeper::i18n::Lang;
use launchkeeper::model::Trigger;
use launchkeeper::tray::{
    MenuAction, MenuEntry, TrayState, derive_state, item_label, menu_action, menu_entries,
    menu_signature, summary_line,
};

fn view(name: &str, status: TaskStatus, favorite: bool) -> TaskView {
    TaskView {
        name: name.to_string(),
        display_name: format!("任务 {name}"),
        description: None,
        trigger: Trigger::AtLogin,
        trigger_text: "登录时".to_string(),
        interpreter_label: None,
        is_service: false,
        keep_alive: false,
        enabled: status != TaskStatus::Disabled,
        loaded_pid: None,
        uptime_secs: None,
        last_run: None,
        tags: Vec::new(),
        favorite,
        notify_on_fail: true,
        status,
    }
}

/// A favourite service in the given state.
fn service(name: &str, status: TaskStatus) -> TaskView {
    TaskView {
        trigger: Trigger::Manual,
        trigger_text: "手动启停".to_string(),
        is_service: true,
        keep_alive: true,
        loaded_pid: if status == TaskStatus::Running { Some(4242) } else { None },
        ..view(name, status, true)
    }
}

#[test]
fn empty_is_ok() {
    assert_eq!(derive_state(&[]), TrayState::AllClear);
}

#[test]
fn running_wins_over_failed() {
    let views = vec![
        view("a", TaskStatus::Failed, false),
        view("b", TaskStatus::Running, false),
    ];
    assert_eq!(derive_state(&views), TrayState::Running);
}

#[test]
fn failed_wins_over_ok() {
    let views = vec![
        view("a", TaskStatus::Succeeded, false),
        view("b", TaskStatus::Failed, false),
    ];
    assert_eq!(derive_state(&views), TrayState::Failed);
}

#[test]
fn disabled_never_and_stopped_are_not_failures() {
    let views = vec![
        view("a", TaskStatus::Disabled, false),
        view("b", TaskStatus::Never, false),
        view("c", TaskStatus::Succeeded, false),
        service("d", TaskStatus::Stopped),
    ];
    assert_eq!(derive_state(&views), TrayState::AllClear);
}

#[test]
fn a_running_service_shows_but_does_not_mask_a_failure() {
    // 没有别的问题时，服务在跑 -> 运行中
    assert_eq!(
        derive_state(&[service("bridge", TaskStatus::Running)]),
        TrayState::Running
    );
    // 有任务失败时，长期在跑的服务不该把失败盖掉
    let views = vec![
        service("bridge", TaskStatus::Running),
        view("cron", TaskStatus::Failed, false),
    ];
    assert_eq!(derive_state(&views), TrayState::Failed);
    // 但一次真正的定时运行（几秒钟的事）仍然优先
    let mut views = views;
    views.push(view("now", TaskStatus::Running, false));
    assert_eq!(derive_state(&views), TrayState::Running);
}

#[test]
fn signature_tracks_favorites_and_the_summary_counts() {
    let mut views = vec![
        view("a", TaskStatus::Succeeded, true),
        view("b", TaskStatus::Succeeded, false),
    ];
    let before = menu_signature(&views, Lang::Zh);

    // A status change none of the three counts cares about (and that no
    // favourite's label reflects) must not rebuild the menu.
    views[0].status = TaskStatus::Never;
    views[1].status = TaskStatus::Succeeded;
    assert_eq!(menu_signature(&views, Lang::Zh), before);

    // One that does move a count must, even on a task the menu does not
    // list: the summary line counts every task .
    views[1].status = TaskStatus::Failed;
    assert_ne!(menu_signature(&views, Lang::Zh), before);
    views[1].status = TaskStatus::Succeeded;
    assert_eq!(menu_signature(&views, Lang::Zh), before);

    // Un-favouriting one, or renaming it, must.
    views[1].favorite = true;
    assert_ne!(menu_signature(&views, Lang::Zh), before);
    views[1].favorite = false;
    views[0].display_name = "改名了".to_string();
    assert_ne!(menu_signature(&views, Lang::Zh), before);
}

#[test]
fn the_summary_line_counts_running_failed_and_disabled() {
    let views = vec![
        view("a", TaskStatus::Succeeded, false),
        view("b", TaskStatus::Failed, false),
        view("c", TaskStatus::Failed, false),
        view("d", TaskStatus::Disabled, false),
        view("e", TaskStatus::Never, false),
        service("f", TaskStatus::Running),
    ];
    // 服务型任务算进"运行中"：菜单栏问的是"现在有东西在跑吗"，一个跑着的
    // 常驻服务和一次定时运行一样是在跑。
    assert_eq!(
        summary_line(&views, Lang::Zh).as_deref(),
        Some("运行中 1 · 失败 2 · 已停用 1")
    );
    assert_eq!(
        summary_line(&views, Lang::En).as_deref(),
        Some("1 running · 2 failed · 1 disabled")
    );

    // 一切正常时三个零照样显示：行的形状固定，扫一眼就知道读到哪儿了。
    assert_eq!(
        summary_line(&[view("a", TaskStatus::Succeeded, false)], Lang::Zh).as_deref(),
        Some("运行中 0 · 失败 0 · 已停用 0")
    );
    // 一个任务都没有时干脆不要这一行（菜单里连分隔线也省了）。
    assert_eq!(summary_line(&[], Lang::Zh), None);
    assert_eq!(summary_line(&[], Lang::En), None);
}

#[test]
fn a_service_item_names_the_verb_and_tracks_its_state() {
    let stopped = service("bridge", TaskStatus::Stopped);
    let running = service("bridge", TaskStatus::Running);
    assert_eq!(item_label(&stopped, Lang::Zh), "启动 任务 bridge");
    assert_eq!(item_label(&running, Lang::Zh), "停止 任务 bridge");
    // 同一条在英文下换的是动词，任务名一个字都不动
    assert_eq!(item_label(&stopped, Lang::En), "Start 任务 bridge");
    assert_eq!(item_label(&running, Lang::En), "Stop 任务 bridge");
    // 非服务型任务的菜单项还是纯显示名（点击 = 立即运行），两种语言一样
    assert_eq!(
        item_label(&view("cron", TaskStatus::Succeeded, true), Lang::Zh),
        "任务 cron"
    );
    assert_eq!(
        item_label(&view("cron", TaskStatus::Succeeded, true), Lang::En),
        "任务 cron"
    );

    // 服务起来/停下必须重建菜单，否则菜单会一直说"启动"
    assert_ne!(
        menu_signature(&[stopped.clone()], Lang::Zh),
        menu_signature(&[running.clone()], Lang::Zh),
    );
    // 但服务型任务的其它状态变化（崩溃 vs 停止）在菜单项上都还是"启动"
    // ——那一行本身不变（重建与否现在还要看 汇总行，见
    // `signature_tracks_favorites_and_the_summary_counts`）。
    assert_eq!(
        item_label(&service("bridge", TaskStatus::Failed), Lang::Zh),
        item_label(&stopped, Lang::Zh),
    );
    // 换语言必须重建：签名里带着标签本身
    assert_ne!(
        menu_signature(&[stopped.clone()], Lang::Zh),
        menu_signature(&[stopped.clone()], Lang::En),
    );
}

#[test]
fn the_menu_lists_the_summary_the_favourites_and_the_two_commands() {
    let views = vec![view("a", TaskStatus::Succeeded, true), view("b", TaskStatus::Failed, false)];
    let entries = menu_entries(&views, Lang::En);
    assert_eq!(
        entries,
        vec![
            MenuEntry::Label {
                id: "lk:summary".to_string(),
                text: "0 running · 1 failed · 0 disabled".to_string()
            },
            MenuEntry::Separator,
            MenuEntry::Item { id: "lk:task:a".to_string(), text: "任务 a".to_string() },
            MenuEntry::Separator,
            MenuEntry::Item { id: "lk:open".to_string(), text: "Open Launchkeeper".to_string() },
            MenuEntry::Item { id: "lk:quit".to_string(), text: "Quit".to_string() },
        ]
    );
    // No tasks: no counts line, no favourites, just the two commands.
    assert_eq!(
        menu_entries(&[], Lang::Zh),
        vec![
            MenuEntry::Item { id: "lk:open".to_string(), text: "打开 Launchkeeper".to_string() },
            MenuEntry::Item { id: "lk:quit".to_string(), text: "退出".to_string() },
        ]
    );
}

#[test]
fn a_menu_click_is_routed_by_its_id() {
    assert_eq!(menu_action("lk:open"), MenuAction::Open);
    assert_eq!(menu_action("lk:quit"), MenuAction::Quit);
    assert_eq!(menu_action("lk:task:sync.daily"), MenuAction::Favorite("sync.daily".to_string()));
    assert_eq!(menu_action("lk:summary"), MenuAction::Ignore);
    assert_eq!(menu_action(""), MenuAction::Ignore);
}

#[test]
fn the_signature_ignores_what_the_menu_does_not_show() {
    let a = vec![view("a", TaskStatus::Succeeded, true), view("b", TaskStatus::Failed, false)];
    // Another name and display name on a task the menu does not list
    // change nothing the menu shows.
    let mut b = vec![view("a", TaskStatus::Succeeded, true), view("c", TaskStatus::Failed, false)];
    b[1].display_name = "别的".to_string();
    assert_eq!(menu_signature(&a, Lang::En), menu_signature(&b, Lang::En));
    // A favourite under another name, with the same label, is another menu.
    let mut c = a.clone();
    c[0].name = "a2".to_string();
    c[0].display_name = a[0].display_name.clone();
    assert_ne!(menu_signature(&a, Lang::En), menu_signature(&c, Lang::En));
    assert_eq!(summary_line(&a, Lang::En), summary_line(&c, Lang::En));
    assert_eq!(item_label(&a[0], Lang::En), item_label(&c[0], Lang::En));
}
