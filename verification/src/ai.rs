//! The AI explanation of a task, as the detail pane shows it.

use vstd::prelude::*;

use crate::commands::{rfc3339_millis, rfc3339_text};
use crate::model::instant_ok;
use crate::text::copy_string;

verus! {

/// One stored explanation, as recorded. `created_at_ms` is milliseconds
/// since the Unix epoch, UTC.
#[derive(Debug, Clone, PartialEq, Eq)]
pub struct Insight {
    /// Task this explains.
    pub task_name: String,
    pub created_at_ms: i64,
    /// Model that produced it.
    pub model: String,
    /// sha256 of the prompt behind `content`.
    pub prompt_hash: String,
    /// The answer, Markdown.
    pub content: String,
}

/// One stored explanation, as the detail pane renders it. `created_at` is
/// an RFC 3339 string so the window can hand it straight to `Date`.
#[derive(Debug, Clone, PartialEq, Eq)]
pub struct InsightView {
    /// Task this explains.
    pub task_name: String,
    /// RFC 3339, UTC, milliseconds.
    pub created_at: String,
    /// Model that produced it.
    pub model: String,
    /// sha256 of the prompt behind `content`.
    pub prompt_hash: String,
    /// The answer, Markdown.
    pub content: String,
}

impl InsightView {
    /// The view of one stored explanation.
    pub fn from_insight(i: &Insight) -> (v: InsightView)
        requires
            instant_ok(i.created_at_ms),
        ensures
            v.task_name@ == i.task_name@,
            v.created_at@ == rfc3339_text(i.created_at_ms as int),
            v.model@ == i.model@,
            v.prompt_hash@ == i.prompt_hash@,
            v.content@ == i.content@,
    {
        InsightView {
            task_name: copy_string(&i.task_name),
            created_at: rfc3339_millis(i.created_at_ms),
            model: copy_string(&i.model),
            prompt_hash: copy_string(&i.prompt_hash),
            content: copy_string(&i.content),
        }
    }
}

} // verus!
