use launchkeeper::state::{RUNNER_NAME, RunnerPlan, is_workspace_build, locate_runner};
use launchkeeper::paths::is_app_bundle_macos_dir;

const DIR: &str = "/tmp/lk-test";

fn target(root: &str, profile: &str) -> String {
    format!("{root}/target/{profile}/{RUNNER_NAME}")
}

#[test]
fn env_override_wins_and_is_not_probed() {
    let ghost = format!("{DIR}/nowhere/launchkeeper-runner");
    assert_eq!(
        locate_runner(Some(&ghost), None, false, Some(DIR), None, None),
        Some(RunnerPlan::Install(ghost))
    );
}

#[test]
fn an_empty_override_is_ignored() {
    let sibling = format!("{DIR}/{RUNNER_NAME}");
    assert_eq!(
        locate_runner(Some(""), Some(DIR), true, None, None, None),
        Some(RunnerPlan::Install(sibling))
    );
}

#[test]
fn the_bundle_sibling_beats_the_target_dir_and_is_used_in_place() {
    let bundle = format!("{DIR}/Launchkeeper.app/Contents/MacOS");
    let sibling = format!("{bundle}/{RUNNER_NAME}");
    assert_eq!(
        locate_runner(None, Some(&bundle), true, Some(DIR), Some(100), None),
        Some(RunnerPlan::UseInPlace(sibling))
    );
}

/// A runner sitting next to a loose executable is still copied into the
/// data directory: only a `.app` gets the in-place treatment.
#[test]
fn a_sibling_outside_a_bundle_is_installed() {
    let bin = format!("{DIR}/bin");
    let sibling = format!("{bin}/{RUNNER_NAME}");
    assert_eq!(
        locate_runner(None, Some(&bin), true, None, None, None),
        Some(RunnerPlan::Install(sibling))
    );
}

#[test]
fn only_a_dot_app_counts_as_a_bundle() {
    assert!(is_app_bundle_macos_dir("/tmp/x/Launchkeeper.app/Contents/MacOS"));
    assert!(!is_app_bundle_macos_dir("/tmp/x/Contents/MacOS"));
    assert!(!is_app_bundle_macos_dir("/tmp/x/Launchkeeper.app/MacOS"));
    assert!(!is_app_bundle_macos_dir("/tmp/x/Launchkeeper.app/Contents/Resources"));
    assert!(is_app_bundle_macos_dir("/tmp/x/Launchkeeper.app/Contents/MacOS/"));
    assert!(!is_app_bundle_macos_dir("/tmp/x/.app/Contents/MacOS"));
}

#[test]
fn the_newest_build_wins() {
    let old = 1_000;
    let new = 2_000;
    assert_eq!(
        locate_runner(None, None, false, Some(DIR), Some(old), Some(new)),
        Some(RunnerPlan::Install(target(DIR, "release")))
    );
    assert_eq!(
        locate_runner(None, None, false, Some(DIR), Some(new), Some(old)),
        Some(RunnerPlan::Install(target(DIR, "debug")))
    );
    // One build alone is used, and a tie goes to the release build.
    assert_eq!(
        locate_runner(None, None, false, Some(DIR), Some(old), None),
        Some(RunnerPlan::Install(target(DIR, "debug")))
    );
    assert_eq!(
        locate_runner(None, None, false, Some(DIR), Some(old), Some(old)),
        Some(RunnerPlan::Install(target(DIR, "release")))
    );
}

#[test]
fn nothing_anywhere_is_none() {
    assert_eq!(locate_runner(None, Some(DIR), false, Some(DIR), None, None), None);
}

#[test]
fn a_build_under_the_workspace_target_is_a_developer_build() {
    assert!(is_workspace_build("/w/target/debug/launchkeeper-runner", Some("/w")));
    assert!(is_workspace_build("/w/target", Some("/w/")));
    assert!(!is_workspace_build("/w/targets/debug/launchkeeper-runner", Some("/w")));
    assert!(!is_workspace_build("/opt/launchkeeper-runner", Some("/w")));
    assert!(!is_workspace_build("/w/target/debug/launchkeeper-runner", None));
}
