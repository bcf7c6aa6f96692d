//! The task domain model: tasks, their lifecycle status, the per-day
//! settings, and the database snapshot the planner works on.

use crate::time::Instant;
use vstd::prelude::*;

verus! {

/// Lifecycle state of a task.
#[derive(Clone, Copy, PartialEq, Eq, Structural, Debug)]
pub enum TaskStatus {
    Todo,
    InProgress,
    Done,
}

impl TaskStatus {
    /// The next state in the cycle a status toggle walks through:
    /// to do, in progress, done, and back to to do.
    pub fn toggled(self) -> (next: TaskStatus)
        ensures
            self is Todo ==> next is InProgress,
            self is InProgress ==> next is Done,
            self is Done ==> next is Todo,
    {
        match self {
            TaskStatus::Todo => TaskStatus::InProgress,
            TaskStatus::InProgress => TaskStatus::Done,
            TaskStatus::Done => TaskStatus::Todo,
        }
    }
}

/// Mathematical image of a [`Task`]: text as character sequences, numbers as
/// unbounded integers.
#[verifier::ext_equal]
pub ghost struct TaskV {
    pub id: Seq<char>,
    pub title: Seq<char>,
    pub due_at: Instant,
    pub duration_min: int,
    pub priority: int,
    pub status: TaskStatus,
    pub created_at: Instant,
    pub tags: Option<Seq<String>>,
    pub notes: Option<Seq<char>>,
}

/// A single unit of work. The planner only ever reads tasks; it never
/// mutates them.
#[derive(Debug)]
pub struct Task {
    pub id: String,
    pub title: String,
    pub due_at: Instant,
    pub duration_min: i64,
    /// Caller-validated urgency weight, 1 through 5.
    pub priority: i64,
    pub status: TaskStatus,
    pub created_at: Instant,
    pub tags: Option<Vec<String>>,
    pub notes: Option<String>,
}

/// The sequence of string values a tag list holds, if one is present.
pub open spec fn tags_view(tags: &Option<Vec<String>>) -> Option<Seq<String>> {
    match tags {
        Option::None => Option::None,
        Option::Some(v) => Option::Some(v@),
    }
}

/// The character sequence a note holds, if one is present.
pub open spec fn notes_view(notes: &Option<String>) -> Option<Seq<char>> {
    match notes {
        Option::None => Option::None,
        Option::Some(s) => Option::Some(s@),
    }
}

impl View for Task {
    type V = TaskV;

    open spec fn view(&self) -> TaskV {
        TaskV {
            id: self.id@,
            title: self.title@,
            due_at: self.due_at,
            duration_min: self.duration_min as int,
            priority: self.priority as int,
            status: self.status,
            created_at: self.created_at,
            tags: tags_view(&self.tags),
            notes: notes_view(&self.notes),
        }
    }
}

impl Task {
    /// The task's instants lie within the range the library computes with.
    pub open spec fn valid_times(self) -> bool {
        &&& self.due_at.valid()
        &&& self.created_at.valid()
    }
}

/// Copy an optional tag list, keeping every string value.
fn clone_tags(tags: &Option<Vec<String>>) -> (out: Option<Vec<String>>)
    ensures
        tags_view(&out) == tags_view(tags),
{
    match tags {
        Option::None => Option::None,
        Option::Some(v) => {
            let mut copy: Vec<String> = Vec::new();
            for i in 0..v.len()
                invariant
                    copy@.len() == i,
                    forall|j: int| 0 <= j < i ==> copy@[j] == v@[j],
            {
                copy.push(v[i].clone());
            }
            proof {
                assert(copy@ =~= v@);
            }
            Option::Some(copy)
        },
    }
}

impl Clone for Task {
    /// A clone reads back exactly as the original.
    fn clone(&self) -> (out: Self)
        ensures
            out@ == self@,
    {
        let out = Task {
            id: self.id.clone(),
            title: self.title.clone(),
            due_at: self.due_at,
            duration_min: self.duration_min,
            priority: self.priority,
            status: self.status,
            created_at: self.created_at,
            tags: clone_tags(&self.tags),
            notes: match &self.notes {
                Option::None => Option::None,
                Option::Some(s) => Option::Some(s.clone()),
            },
        };
        proof {
            assert(out@ =~= self@);
        }
        out
    }
}

/// Wall-clock day window and preferred focus-block length shared by all
/// tasks when a day is planned.
#[derive(Debug)]
pub struct DaySettings {
    /// Start of the working day, `"HH:MM"`.
    pub day_start: String,
    /// End of the working day, `"HH:MM"`.
    pub day_end: String,
    /// Preferred focus block length in minutes; carried through unchanged.
    pub focus_block_min: i64,
}

impl Clone for DaySettings {
    /// A clone reads back exactly as the original.
    fn clone(&self) -> (out: Self)
        ensures
            out.day_start@ == self.day_start@,
            out.day_end@ == self.day_end@,
            out.focus_block_min == self.focus_block_min,
    {
        DaySettings {
            day_start: self.day_start.clone(),
            day_end: self.day_end.clone(),
            focus_block_min: self.focus_block_min,
        }
    }
}

/// An in-memory snapshot of the whole task store.
#[derive(Debug)]
pub struct Db {
    pub settings: DaySettings,
    pub tasks: Vec<Task>,
}

/// Find the first task carrying the given id.
pub fn find_task_index(tasks: &Vec<Task>, id: &String) -> (found: Option<usize>)
    ensures
        match found {
            Option::Some(k) => {
                &&& 0 <= k < tasks@.len()
                &&& tasks@[k as int].id@ == id@
                &&& forall|j: int| 0 <= j < k ==> (#[trigger] tasks@[j]).id@ != id@
            },
            Option::None => forall|j: int|
                0 <= j < tasks@.len() ==> (#[trigger] tasks@[j]).id@ != id@,
        },
{
    for i in 0..tasks.len()
        invariant
            forall|j: int| 0 <= j < i ==> (#[trigger] tasks@[j]).id@ != id@,
    {
        if tasks[i].id == *id {
            return Option::Some(i);
        }
    }
    Option::None
}

/// The tasks whose id differs from the given one, in input order.
pub fn tasks_without_id(tasks: &Vec<Task>, id: &String) -> (kept: Vec<Task>)
    ensures
        crate::scoring::task_views(kept@) == crate::scoring::task_views(tasks@).filter(
            |t: TaskV| t.id != id@,
        ),
{
    let ghost pred = |t: TaskV| t.id != id@;
    let mut kept: Vec<Task> = Vec::new();
    proof {
        reveal(Seq::filter);
        assert(crate::scoring::task_views(kept@) =~= crate::scoring::task_views(
            tasks@.take(0),
        ).filter(pred));
    }
    for i in 0..tasks.len()
        invariant
            crate::scoring::task_views(kept@) == crate::scoring::task_views(
                tasks@.take(i as int),
            ).filter(pred),
            pred == (|t: TaskV| t.id != id@),
    {
        let keep = !(tasks[i].id == *id);
        let ghost old_kept = kept@;
        if keep {
            kept.push(tasks[i].clone());
        }
        proof {
            reveal(Seq::filter);
            let prefix = crate::scoring::task_views(tasks@.take(i as int));
            let prefix1 = crate::scoring::task_views(tasks@.take(i + 1));
            assert(prefix1.drop_last() =~= prefix);
            assert(prefix1.last() == tasks@[i as int]@);
            assert(keep == pred(tasks@[i as int]@));
            if keep {
                assert(crate::scoring::task_views(kept@) =~= crate::scoring::task_views(
                    old_kept,
                ).push(tasks@[i as int]@));
            } else {
                assert(crate::scoring::task_views(kept@) =~= crate::scoring::task_views(old_kept));
            }
        }
    }
    proof {
        assert(tasks@.take(tasks@.len() as int) =~= tasks@);
    }
    kept
}

} // verus!
