use launchkeeper::scan::{ScanAction, ScanState};

#[test]
fn an_idle_visible_scan_does_nothing_but_wait() {
    let mut s = ScanState::new("[]", "sig");
    assert_eq!(
        s.step("[]", "sig", true),
        ScanAction { refresh_tray: false, rebuild_menu: false, emit: false, sleep_secs: 2 }
    );
    assert_eq!(
        s.step("[]", "sig", false),
        ScanAction { refresh_tray: false, rebuild_menu: false, emit: false, sleep_secs: 10 }
    );
}

#[test]
fn a_change_refreshes_the_tray_and_rebuilds_only_when_the_menu_moved() {
    let mut s = ScanState::new("[]", "sig");
    let a = s.step("[1]", "sig", true);
    assert!(a.refresh_tray && !a.rebuild_menu && a.emit);
    let a = s.step("[2]", "sig2", true);
    assert!(a.refresh_tray && a.rebuild_menu && a.emit);
}

#[test]
fn a_hidden_change_is_held_back_until_the_window_is_shown() {
    let mut s = ScanState::new("[]", "sig");
    let a = s.step("[1]", "sig", false);
    assert!(a.refresh_tray && !a.emit);
    assert_eq!(a.sleep_secs, 10);
    // Still hidden, nothing new: still held back.
    assert!(!s.step("[1]", "sig", false).emit);
    // On screen again: delivered once, then quiet.
    assert!(s.step("[1]", "sig", true).emit);
    assert!(!s.step("[1]", "sig", true).emit);
}
