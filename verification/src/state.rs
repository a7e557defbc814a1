//! Where the app finds the runner binary, and what it does with it: use a
//! bundled runner in place, or install a loose one first.

use vstd::prelude::*;

use crate::paths::{app_bundle_macos, components, is_app_bundle_macos_dir, join_path, joined,
    path_starts_with, starts_with_path,
};
use crate::text::{chars_of, string_of};

verus! {

/// Environment variable pointing at a runner binary to install, checked
/// before the bundle and build-directory lookups.
pub const RUNNER_ENV: &'static str = "LAUNCHKEEPER_RUNNER";

/// File name of the runner binary, in the bundle and in a build directory.
pub const RUNNER_NAME: &'static str = "launchkeeper-runner";

/// What to do with the runner binary that was found.
#[derive(Debug, Clone, PartialEq, Eq)]
pub enum RunnerPlan {
    /// Point plists straight at this path and copy nothing: the runner
    /// inside a `.app`, signed and updated together with the app.
    UseInPlace(String),
    /// Copy this into the data directory first.
    Install(String),
}

/// The mathematical form of a [`RunnerPlan`]: whether it is used in place,
/// and the path.
pub open spec fn plan_view(p: RunnerPlan) -> (bool, Seq<char>) {
    match p {
        RunnerPlan::UseInPlace(s) => (true, s@),
        RunnerPlan::Install(s) => (false, s@),
    }
}

/// The runner a build profile of the workspace leaves behind.
pub open spec fn build_path(workspace: Seq<char>, profile: Seq<char>) -> Seq<char> {
    joined(joined(joined(workspace, "target"@), profile), RUNNER_NAME@)
}

/// The newer of the debug and release builds, by modification time; the
/// release build on a tie. `None` when neither exists.
pub open spec fn newest_build(workspace: Seq<char>, debug: Option<u128>, release: Option<u128>) -> Option<
    Seq<char>,
> {
    match (debug, release) {
        (Some(d), Some(r)) => if r >= d {
            Some(build_path(workspace, "release"@))
        } else {
            Some(build_path(workspace, "debug"@))
        },
        (Some(_), None) => Some(build_path(workspace, "debug"@)),
        (None, Some(_)) => Some(build_path(workspace, "release"@)),
        (None, None) => None,
    }
}

/// Where the runner comes from, in order: a non-empty
/// `LAUNCHKEEPER_RUNNER` (installed, not probed); the runner next to the
/// executable, when there is one (used in place inside a `.app`, installed
/// otherwise); the newest workspace build. `sibling_present` says whether
/// `exe_dir` holds a runner; `debug` and `release` are the modification
/// times of the two builds that exist.
pub open spec fn runner_plan_of(
    env_override: Option<Seq<char>>,
    exe_dir: Option<Seq<char>>,
    sibling_present: bool,
    workspace: Option<Seq<char>>,
    debug: Option<u128>,
    release: Option<u128>,
) -> Option<(bool, Seq<char>)> {
    if env_override is Some && env_override->0.len() > 0 {
        Some((false, env_override->0))
    } else if exe_dir is Some && sibling_present {
        let d = exe_dir->0;
        Some((app_bundle_macos(components(d)), joined(d, RUNNER_NAME@)))
    } else {
        match workspace {
            Some(w) => match newest_build(w, debug, release) {
                Some(p) => Some((false, p)),
                None => None,
            },
            None => None,
        }
    }
}

/// The text of an optional string.
pub open spec fn opt_view(s: Option<&str>) -> Option<Seq<char>> {
    match s {
        Some(t) => Some(t@),
        None => None,
    }
}

/// The runner of one build profile.
fn build_runner(workspace: &str, profile: &str) -> (r: String)
    ensures
        r@ == build_path(workspace@, profile@),
{
    let t = join_path(workspace, "target");
    let p = join_path(t.as_str(), profile);
    join_path(p.as_str(), RUNNER_NAME)
}

/// [`runner_plan_of`].
pub fn locate_runner(
    env_override: Option<&str>,
    exe_dir: Option<&str>,
    sibling_present: bool,
    workspace: Option<&str>,
    debug: Option<u128>,
    release: Option<u128>,
) -> (r: Option<RunnerPlan>)
    ensures
        match (r, runner_plan_of(
            opt_view(env_override),
            opt_view(exe_dir),
            sibling_present,
            opt_view(workspace),
            debug,
            release,
        )) {
            (Some(p), Some(q)) => plan_view(p) == q,
            (None, None) => true,
            _ => false,
        },
{
    if let Some(p) = env_override {
        if chars_of(p).len() > 0 {
            return Some(RunnerPlan::Install(string_of(p)));
        }
    }
    if let Some(dir) = exe_dir {
        if sibling_present {
            let sibling = join_path(dir, RUNNER_NAME);
            return Some(
                if is_app_bundle_macos_dir(dir) {
                    RunnerPlan::UseInPlace(sibling)
                } else {
                    RunnerPlan::Install(sibling)
                },
            );
        }
    }
    let w = match workspace {
        Some(w) => w,
        None => return None,
    };
    match (debug, release) {
        (Some(d), Some(rel)) => if rel >= d {
            Some(RunnerPlan::Install(build_runner(w, "release")))
        } else {
            Some(RunnerPlan::Install(build_runner(w, "debug")))
        },
        (Some(_), None) => Some(RunnerPlan::Install(build_runner(w, "debug"))),
        (None, Some(_)) => Some(RunnerPlan::Install(build_runner(w, "release"))),
        (None, None) => None,
    }
}

/// A runner under the workspace's `target/`: a developer build.
pub open spec fn workspace_build(source: Seq<char>, workspace: Option<Seq<char>>) -> bool {
    match workspace {
        Some(w) => starts_with_path(source, joined(w, "target"@)),
        None => false,
    }
}

/// Whether `source` is a developer build of the workspace at `workspace`,
/// which must never replace a runner that is already installed.
pub fn is_workspace_build(source: &str, workspace: Option<&str>) -> (b: bool)
    ensures
        b == workspace_build(source@, opt_view(workspace)),
{
    match workspace {
        Some(w) => {
            let t = join_path(w, "target");
            path_starts_with(source, t.as_str())
        },
        None => false,
    }
}

} // verus!
