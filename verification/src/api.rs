//! The request and response shapes of the planning and task services, and
//! the validation and conversion steps between them and the core types.
//!
//! Instants travel to callers as preformatted strings; formatting them is
//! the serialization layer's job, so the conversions here take the formatted
//! text as an argument.

use crate::models::{DaySettings, Task, TaskStatus};
use crate::plan::{PlanItem, ScoreBreakdown, UnplannedItem};
use vstd::prelude::*;

verus! {

/// Query parameters of a plan request: the target date (`"YYYY-MM-DD"`) and
/// the minutes the caller can work that day.
#[derive(Debug)]
pub struct PlanQuery {
    pub date: String,
    pub available_min: i64,
}

/// Query parameters of a task-list request: the target date (`"YYYY-MM-DD"`).
#[derive(Debug)]
pub struct TasksQuery {
    pub date: String,
}

/// The tasks relevant on a date, with the echoed date and reference instant.
#[derive(Debug)]
pub struct TasksResponse {
    pub date: String,
    pub now: String,
    pub tasks: Vec<Task>,
}

/// The fields a caller supplies to create a task.
#[derive(Debug)]
pub struct CreateTaskInput {
    pub title: String,
    /// Due instant, RFC 3339.
    pub due_at: String,
    pub duration_min: i64,
    /// Must lie in 1 through 5.
    pub priority: i64,
    pub tags: Option<Vec<String>>,
    pub notes: Option<String>,
}

/// The fields a caller supplies to overwrite a task.
#[derive(Debug)]
pub struct UpdateTaskInput {
    pub title: String,
    /// Due instant, RFC 3339.
    pub due_at: String,
    pub duration_min: i64,
    /// Must lie in 1 through 5.
    pub priority: i64,
    pub status: TaskStatus,
    pub tags: Option<Vec<String>>,
    pub notes: Option<String>,
}

/// A score breakdown as rendered to callers.
#[derive(Clone, Copy, PartialEq, Eq, Structural, Debug)]
pub struct ScoreBreakdownResponse {
    pub urgency: i64,
    pub priority: i64,
    pub duration_score: i64,
    pub total: i64,
}

/// A placed task as rendered to callers: instants as preformatted text.
#[derive(Debug)]
pub struct PlanItemResponse {
    pub task_id: String,
    pub title: String,
    pub start: String,
    pub end: String,
    pub score_breakdown: ScoreBreakdownResponse,
    pub is_overdue: bool,
}

/// An unplanned task as rendered to callers.
#[derive(Debug)]
pub struct UnplannedResponse {
    pub task_id: String,
    pub reason: String,
}

/// A whole plan as rendered to callers.
#[derive(Debug)]
pub struct PlanResponse {
    pub date: String,
    pub now: String,
    pub available_min: i64,
    pub settings: DaySettings,
    pub plan: Vec<PlanItemResponse>,
    pub unplanned: Vec<UnplannedResponse>,
}

/// The character sequence `str::trim` leaves of a given character sequence.
/// The result depends on the characters alone.
pub uninterp spec fn trim_of(s: Seq<char>) -> Seq<char>;

/// Relies on `str::trim`: removal of leading and trailing Unicode
/// whitespace, a pure function of the input characters.
#[verifier::external_body]
fn trim(s: &str) -> (out: &str)
    ensures
        out@ == trim_of(s@),
{
    s.trim()
}

/// A title and priority are acceptable for a created or updated task when
/// the title is not blank and the priority lies in 1 through 5.
pub open spec fn task_fields_ok(title: Seq<char>, priority: int) -> bool {
    &&& trim_of(title).len() > 0
    &&& 1 <= priority <= 5
}

/// Check a caller-supplied title and priority.
pub fn valid_task_fields(title: &str, priority: i64) -> (ok: bool)
    ensures
        ok == task_fields_ok(title@, priority as int),
{
    let trimmed = trim(title);
    !trimmed.is_empty() && 1 <= priority && priority <= 5
}

/// Render a score breakdown.
pub fn breakdown_response(breakdown: &ScoreBreakdown) -> (resp: ScoreBreakdownResponse)
    ensures
        resp.urgency == breakdown.urgency,
        resp.priority == breakdown.priority,
        resp.duration_score == breakdown.duration_score,
        resp.total == breakdown.total,
{
    ScoreBreakdownResponse {
        urgency: breakdown.urgency,
        priority: breakdown.priority,
        duration_score: breakdown.duration_score,
        total: breakdown.total,
    }
}

/// Render a placed task around the preformatted text of its two instants.
pub fn plan_item_response(item: &PlanItem, start: String, end: String) -> (resp: PlanItemResponse)
    ensures
        resp.task_id@ == item.task_id@,
        resp.title@ == item.title@,
        resp.start@ == start@,
        resp.end@ == end@,
        resp.score_breakdown.urgency == item.score_breakdown.urgency,
        resp.score_breakdown.priority == item.score_breakdown.priority,
        resp.score_breakdown.duration_score == item.score_breakdown.duration_score,
        resp.score_breakdown.total == item.score_breakdown.total,
        resp.is_overdue == item.is_overdue,
{
    PlanItemResponse {
        task_id: item.task_id.clone(),
        title: item.title.clone(),
        start,
        end,
        score_breakdown: breakdown_response(&item.score_breakdown),
        is_overdue: item.is_overdue,
    }
}

/// Render every unplanned task, keeping ranking order, ids and reasons.
pub fn unplanned_responses(items: &Vec<UnplannedItem>) -> (resp: Vec<UnplannedResponse>)
    ensures
        resp@.len() == items@.len(),
        forall|i: int|
            0 <= i < items@.len() ==> (#[trigger] resp@[i]).task_id@ == items@[i].task_id@
                && resp@[i].reason@ == items@[i].reason@,
{
    let mut resp: Vec<UnplannedResponse> = Vec::new();
    for i in 0..items.len()
        invariant
            resp@.len() == i,
            forall|j: int|
                0 <= j < i ==> (#[trigger] resp@[j]).task_id@ == items@[j].task_id@
                    && resp@[j].reason@ == items@[j].reason@,
    {
        resp.push(
            UnplannedResponse {
                task_id: items[i].task_id.clone(),
                reason: items[i].reason.clone(),
            },
        );
    }
    resp
}

} // verus!
