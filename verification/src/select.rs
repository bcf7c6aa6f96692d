//! Selecting the tasks that belong in a given day's plan.

use crate::models::{Task, TaskStatus, TaskV};
use crate::time::{Date, Instant};
use vstd::prelude::*;

verus! {

use crate::scoring::task_views;

/// A task belongs in the plan for `date` when it is not done and is either
/// overdue relative to `now` or due on `date` (by the calendar day of its
/// due instant, read in the task's own offset).
pub open spec fn relevant_spec(task: TaskV, date: Date, now: Instant) -> bool {
    &&& !(task.status is Done)
    &&& (now.utc_secs > task.due_at.utc_secs || task.due_at.local_day_spec() == date.day)
}

/// Decide whether one task belongs in the plan for `date`.
pub fn is_relevant(task: &Task, date: Date, now: Instant) -> (relevant: bool)
    requires
        task.due_at.valid(),
    ensures
        relevant == relevant_spec(task@, date, now),
{
    let not_done = match task.status {
        TaskStatus::Done => false,
        _ => true,
    };
    not_done && (now.utc_secs > task.due_at.utc_secs || task.due_at.local_day() == date.day)
}

/// Select the tasks relevant for `date`, keeping their input order.
pub fn relevant_tasks(tasks: &[Task], date: Date, now: Instant) -> (selected: Vec<Task>)
    requires
        forall|i: int| 0 <= i < tasks@.len() ==> (#[trigger] tasks@[i]).due_at.valid(),
    ensures
        task_views(selected@) == task_views(tasks@).filter(
            |t: TaskV| relevant_spec(t, date, now),
        ),
        forall|i: int|
            0 <= i < selected@.len() ==> exists|j: int|
                0 <= j < tasks@.len() && (#[trigger] selected@[i])@ == tasks@[j]@,
{
    let ghost pred = |t: TaskV| relevant_spec(t, date, now);
    let mut out: Vec<Task> = Vec::new();
    proof {
        reveal(Seq::filter);
        assert(task_views(out@) =~= task_views(tasks@.take(0)).filter(pred));
    }
    for i in 0..tasks.len()
        invariant
            forall|k: int| 0 <= k < tasks@.len() ==> (#[trigger] tasks@[k]).due_at.valid(),
            task_views(out@) == task_views(tasks@.take(i as int)).filter(pred),
            pred == (|t: TaskV| relevant_spec(t, date, now)),
            forall|k: int|
                0 <= k < out@.len() ==> exists|j: int|
                    0 <= j < tasks@.len() && (#[trigger] out@[k])@ == tasks@[j]@,
    {
        let task = &tasks[i];
        let keep = is_relevant(task, date, now);
        let ghost old_out = out@;
        if keep {
            out.push(task.clone());
        }
        proof {
            reveal(Seq::filter);
            let prefix = task_views(tasks@.take(i as int));
            let prefix1 = task_views(tasks@.take(i + 1));
            assert(prefix1.drop_last() =~= prefix);
            assert(prefix1.last() == tasks@[i as int]@);
            assert(keep == pred(tasks@[i as int]@));
            if keep {
                assert(task_views(out@) =~= task_views(old_out).push(tasks@[i as int]@));
            } else {
                assert(task_views(out@) =~= task_views(old_out));
            }
        }
    }
    proof {
        assert(tasks@.take(tasks@.len() as int) =~= tasks@);
    }
    out
}

} // verus!
