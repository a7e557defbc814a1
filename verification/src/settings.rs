//! The app's persisted preferences (`<data_dir>/settings.json`): what the
//! settings sheet can change. Reading and writing the file is the app's
//! business; this is the value and its defaults.

use vstd::prelude::*;

verus! {

/// Everything the settings sheet can change.
#[derive(Debug, Clone, PartialEq)]
pub struct AppSettings {
    /// Post a notification when a scheduled task's run ends badly.
    pub notify_on_task_failure: bool,
    /// Same, for a `KeepAlive` service crashing and being restarted.
    pub notify_on_service_crash: bool,
    /// UI language override: `"zh-CN"`, `"en"`, or `"system"` / `None` to
    /// follow the system language. Anything else also follows the system.
    pub language: Option<String>,
    /// How the task list is sorted; only the frontend reads it.
    pub list_sort: Option<String>,
    /// Appearance; only the frontend reads it.
    pub theme: Option<String>,
}

impl Default for AppSettings {
    /// Both notifications on, everything else unset.
    fn default() -> (s: AppSettings)
        ensures
            s.notify_on_task_failure,
            s.notify_on_service_crash,
            s.language is None,
            s.list_sort is None,
            s.theme is None,
    {
        AppSettings {
            notify_on_task_failure: true,
            notify_on_service_crash: true,
            language: None,
            list_sort: None,
            theme: None,
        }
    }
}

} // verus!
