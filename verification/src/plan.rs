//! Greedy placement of ranked tasks onto a single day's timeline.
//!
//! A movable cursor marks the next free instant; a minute budget caps the
//! total placed work. Tasks are taken in ranking order; a task that does not
//! fit is recorded with a reason and neither moves the cursor nor consumes
//! budget, so a shorter task later in the ranking may still fit in the same
//! slot.

use crate::models::{DaySettings, Task, TaskV};
use crate::scoring::{
    score_all_spec, score_and_sort, score_task_spec, scored_views, sort_scored, task_views,
    ScoredTask, ScoredTaskV,
};
use crate::select::{relevant_spec, relevant_tasks};
use crate::time::{hhmm_instant_spec, parse_hhmm_to_today, Date, Instant};
use crate::time::{MAX_ABS_SECS, MAX_DURATION_MIN};
use vstd::prelude::*;

verus! {

/// Mathematical image of a [`ScoreBreakdown`].
pub ghost struct ScoreBreakdownV {
    pub urgency: int,
    pub priority: int,
    pub duration_score: int,
    pub total: int,
}

/// The scores that justified a placement.
#[derive(Clone, Copy, PartialEq, Eq, Structural, Debug)]
pub struct ScoreBreakdown {
    pub urgency: i64,
    pub priority: i64,
    pub duration_score: i64,
    pub total: i64,
}

impl View for ScoreBreakdown {
    type V = ScoreBreakdownV;

    open spec fn view(&self) -> ScoreBreakdownV {
        ScoreBreakdownV {
            urgency: self.urgency as int,
            priority: self.priority as int,
            duration_score: self.duration_score as int,
            total: self.total as int,
        }
    }
}

/// The breakdown a scored task carries into a placement.
pub open spec fn breakdown_of(st: ScoredTaskV) -> ScoreBreakdownV {
    ScoreBreakdownV {
        urgency: st.urgency,
        priority: st.task.priority,
        duration_score: st.duration_score,
        total: st.total,
    }
}

/// Mathematical image of a [`PlanItem`].
#[verifier::ext_equal]
pub ghost struct PlanItemV {
    pub task_id: Seq<char>,
    pub title: Seq<char>,
    pub start_secs: int,
    pub end_secs: int,
    pub start_offset_secs: int,
    pub end_offset_secs: int,
    pub score_breakdown: ScoreBreakdownV,
    pub is_overdue: bool,
}

/// A task placed on the timeline: the half-open span it occupies and the
/// scores that earned it the slot.
#[derive(Debug)]
pub struct PlanItem {
    pub task_id: String,
    pub title: String,
    pub start: Instant,
    pub end: Instant,
    pub score_breakdown: ScoreBreakdown,
    pub is_overdue: bool,
}

impl View for PlanItem {
    type V = PlanItemV;

    open spec fn view(&self) -> PlanItemV {
        PlanItemV {
            task_id: self.task_id@,
            title: self.title@,
            start_secs: self.start.utc_secs as int,
            end_secs: self.end.utc_secs as int,
            start_offset_secs: self.start.offset_secs as int,
            end_offset_secs: self.end.offset_secs as int,
            score_breakdown: self.score_breakdown@,
            is_overdue: self.is_overdue,
        }
    }
}

/// Mathematical image of an [`UnplannedItem`].
#[verifier::ext_equal]
pub ghost struct UnplannedItemV {
    pub task_id: Seq<char>,
    pub reason: Seq<char>,
}

/// A ranked task that received no slot, with the reason: one of
/// `"insufficient_time"` and `"invalid_duration"`.
#[derive(Debug)]
pub struct UnplannedItem {
    pub task_id: String,
    pub reason: String,
}

impl View for UnplannedItem {
    type V = UnplannedItemV;

    open spec fn view(&self) -> UnplannedItemV {
        UnplannedItemV { task_id: self.task_id@, reason: self.reason@ }
    }
}

/// The views of a sequence of plan items.
pub open spec fn plan_views(items: Seq<PlanItem>) -> Seq<PlanItemV> {
    items.map_values(|p: PlanItem| p@)
}

/// The views of a sequence of unplanned items.
pub open spec fn unplanned_views(items: Seq<UnplannedItem>) -> Seq<UnplannedItemV> {
    items.map_values(|u: UnplannedItem| u@)
}

/// The placement policy, one ranked task at a time. With the cursor at
/// `cursor` (UTC seconds), `remaining` budget minutes, and the day ending at
/// `day_end`: a task is rejected with `insufficient_time` once the budget is
/// spent or when it would overrun the day end or the budget, rejected with
/// `invalid_duration` when its duration is not positive, and otherwise
/// placed at the cursor, which then advances past it.
pub open spec fn place_rec(
    tasks: Seq<ScoredTaskV>,
    cursor: int,
    remaining: int,
    day_end: int,
    offset_secs: int,
) -> (Seq<PlanItemV>, Seq<UnplannedItemV>)
    decreases tasks.len(),
{
    if tasks.len() == 0 {
        (Seq::empty(), Seq::empty())
    } else {
        let st = tasks[0];
        let rest = tasks.skip(1);
        let dur = st.task.duration_min;
        if remaining <= 0 {
            let tail = place_rec(rest, cursor, remaining, day_end, offset_secs);
            (
                tail.0,
                seq![UnplannedItemV { task_id: st.task.id, reason: "insufficient_time"@ }]
                    + tail.1,
            )
        } else if dur <= 0 {
            let tail = place_rec(rest, cursor, remaining, day_end, offset_secs);
            (
                tail.0,
                seq![UnplannedItemV { task_id: st.task.id, reason: "invalid_duration"@ }]
                    + tail.1,
            )
        } else {
            let end = cursor + dur * 60;
            if end > day_end || dur > remaining {
                let tail = place_rec(rest, cursor, remaining, day_end, offset_secs);
                (
                    tail.0,
                    seq![UnplannedItemV { task_id: st.task.id, reason: "insufficient_time"@ }]
                        + tail.1,
                )
            } else {
                let item = PlanItemV {
                    task_id: st.task.id,
                    title: st.task.title,
                    start_secs: cursor,
                    end_secs: end,
                    start_offset_secs: offset_secs,
                    end_offset_secs: offset_secs,
                    score_breakdown: breakdown_of(st),
                    is_overdue: st.is_overdue,
                };
                let tail = place_rec(rest, end, remaining - dur, day_end, offset_secs);
                (seq![item] + tail.0, tail.1)
            }
        }
    }
}

/// Every ranked task is accounted for exactly once: the placed and the
/// unplanned items together number the input tasks.
pub proof fn lemma_place_rec_accounts_all(
    tasks: Seq<ScoredTaskV>,
    cursor: int,
    remaining: int,
    day_end: int,
    offset_secs: int,
)
    ensures
        place_rec(tasks, cursor, remaining, day_end, offset_secs).0.len() + place_rec(
            tasks,
            cursor,
            remaining,
            day_end,
            offset_secs,
        ).1.len() == tasks.len(),
    decreases tasks.len(),
{
    if tasks.len() > 0 {
        let st = tasks[0];
        let rest = tasks.skip(1);
        let dur = st.task.duration_min;
        if remaining <= 0 {
            lemma_place_rec_accounts_all(rest, cursor, remaining, day_end, offset_secs);
        } else if dur <= 0 {
            lemma_place_rec_accounts_all(rest, cursor, remaining, day_end, offset_secs);
        } else {
            let end = cursor + dur * 60;
            if end > day_end || dur > remaining {
                lemma_place_rec_accounts_all(rest, cursor, remaining, day_end, offset_secs);
            } else {
                lemma_place_rec_accounts_all(rest, end, remaining - dur, day_end, offset_secs);
            }
        }
    }
}

/// The task ids of a sequence of plan items.
pub open spec fn plan_ids(items: Seq<PlanItemV>) -> Seq<Seq<char>> {
    items.map_values(|p: PlanItemV| p.task_id)
}

/// The task ids of a sequence of unplanned items.
pub open spec fn unplanned_ids(items: Seq<UnplannedItemV>) -> Seq<Seq<char>> {
    items.map_values(|u: UnplannedItemV| u.task_id)
}

/// The task ids of a sequence of scored tasks.
pub open spec fn scored_ids(tasks: Seq<ScoredTaskV>) -> Seq<Seq<char>> {
    tasks.map_values(|t: ScoredTaskV| t.task.id)
}

/// Placement neither drops, invents nor duplicates a task: the ids of the
/// placed and the unplanned items together are exactly the input ids.
pub proof fn lemma_place_rec_keeps_ids(
    tasks: Seq<ScoredTaskV>,
    cursor: int,
    remaining: int,
    day_end: int,
    offset_secs: int,
)
    ensures
        ({
            let placed = place_rec(tasks, cursor, remaining, day_end, offset_secs);
            plan_ids(placed.0).to_multiset().add(unplanned_ids(placed.1).to_multiset())
                =~= scored_ids(tasks).to_multiset()
        }),
    decreases tasks.len(),
{
    broadcast use vstd::seq_lib::group_seq_properties;
    broadcast use vstd::multiset::group_multiset_axioms;

    if tasks.len() > 0 {
        let st = tasks[0];
        let rest = tasks.skip(1);
        let dur = st.task.duration_min;
        let id = st.task.id;
        assert(scored_ids(tasks) =~= seq![id] + scored_ids(rest));
        vstd::seq_lib::lemma_multiset_commutative(seq![id], scored_ids(rest));
        assert(seq![id] =~= Seq::<Seq<char>>::empty().push(id));
        let end = cursor + dur * 60;
        if remaining <= 0 || dur <= 0 || end > day_end || dur > remaining {
            lemma_place_rec_keeps_ids(rest, cursor, remaining, day_end, offset_secs);
            let tail = place_rec(rest, cursor, remaining, day_end, offset_secs);
            let placed = place_rec(tasks, cursor, remaining, day_end, offset_secs);
            assert(unplanned_ids(placed.1) =~= seq![id] + unplanned_ids(tail.1));
            vstd::seq_lib::lemma_multiset_commutative(seq![id], unplanned_ids(tail.1));
        } else {
            lemma_place_rec_keeps_ids(rest, end, remaining - dur, day_end, offset_secs);
            let tail = place_rec(rest, end, remaining - dur, day_end, offset_secs);
            let placed = place_rec(tasks, cursor, remaining, day_end, offset_secs);
            assert(plan_ids(placed.0) =~= seq![id] + plan_ids(tail.0));
            vstd::seq_lib::lemma_multiset_commutative(seq![id], plan_ids(tail.0));
        }
    }
}

/// Placed items sit at or after the cursor, occupy non-empty spans, and are
/// pairwise non-overlapping in timeline order: each item ends no later than
/// the next begins, so start times are non-decreasing.
pub proof fn lemma_place_rec_nonoverlapping(
    tasks: Seq<ScoredTaskV>,
    cursor: int,
    remaining: int,
    day_end: int,
    offset_secs: int,
)
    ensures
        ({
            let items = place_rec(tasks, cursor, remaining, day_end, offset_secs).0;
            &&& forall|i: int| 0 <= i < items.len() ==> cursor <= #[trigger] items[i].start_secs
            &&& forall|i: int|
                0 <= i < items.len() ==> (#[trigger] items[i]).start_secs < items[i].end_secs
            &&& forall|i: int, j: int|
                0 <= i < j < items.len() ==> #[trigger] items[i].end_secs
                    <= #[trigger] items[j].start_secs
            &&& forall|i: int, j: int|
                0 <= i < j < items.len() ==> (#[trigger] items[i]).start_secs
                    <= (#[trigger] items[j]).start_secs
        }),
    decreases tasks.len(),
{
    if tasks.len() > 0 {
        let st = tasks[0];
        let rest = tasks.skip(1);
        let dur = st.task.duration_min;
        let items = place_rec(tasks, cursor, remaining, day_end, offset_secs).0;
        if remaining <= 0 {
            lemma_place_rec_nonoverlapping(rest, cursor, remaining, day_end, offset_secs);
            assert(items == place_rec(rest, cursor, remaining, day_end, offset_secs).0);
        } else if dur <= 0 {
            lemma_place_rec_nonoverlapping(rest, cursor, remaining, day_end, offset_secs);
            assert(items == place_rec(rest, cursor, remaining, day_end, offset_secs).0);
        } else {
            let end = cursor + dur * 60;
            if end > day_end || dur > remaining {
                lemma_place_rec_nonoverlapping(rest, cursor, remaining, day_end, offset_secs);
                assert(items == place_rec(rest, cursor, remaining, day_end, offset_secs).0);
            } else {
                lemma_place_rec_nonoverlapping(rest, end, remaining - dur, day_end, offset_secs);
                let items = place_rec(tasks, cursor, remaining, day_end, offset_secs).0;
                let tail_items = place_rec(rest, end, remaining - dur, day_end, offset_secs).0;
                assert forall|i: int| 0 <= i < items.len() implies cursor
                    <= #[trigger] items[i].start_secs by {
                    if i > 0 {
                        assert(items[i] == tail_items[i - 1]);
                    }
                }
                assert forall|i: int, j: int| 0 <= i < j < items.len() implies
                    #[trigger] items[i].end_secs <= #[trigger] items[j].start_secs by {
                    assert(items[j] == tail_items[j - 1]);
                    if i > 0 {
                        assert(items[i] == tail_items[i - 1]);
                    }
                }
            }
        }
    }
}

/// Every reason a placement records is drawn from the closed set of
/// `"insufficient_time"` and `"invalid_duration"`.
pub proof fn lemma_place_rec_reasons_closed(
    tasks: Seq<ScoredTaskV>,
    cursor: int,
    remaining: int,
    day_end: int,
    offset_secs: int,
)
    ensures
        ({
            let skipped = place_rec(tasks, cursor, remaining, day_end, offset_secs).1;
            forall|i: int|
                0 <= i < skipped.len() ==> (#[trigger] skipped[i]).reason == "insufficient_time"@
                    || skipped[i].reason == "invalid_duration"@
        }),
    decreases tasks.len(),
{
    if tasks.len() > 0 {
        let st = tasks[0];
        let rest = tasks.skip(1);
        let dur = st.task.duration_min;
        let skipped = place_rec(tasks, cursor, remaining, day_end, offset_secs).1;
        if remaining <= 0 {
            lemma_place_rec_reasons_closed(rest, cursor, remaining, day_end, offset_secs);
            let tail_skipped = place_rec(rest, cursor, remaining, day_end, offset_secs).1;
            assert forall|i: int| 0 <= i < skipped.len() implies (
            #[trigger] skipped[i]).reason == "insufficient_time"@ || skipped[i].reason
                == "invalid_duration"@ by {
                if i > 0 {
                    assert(skipped[i] == tail_skipped[i - 1]);
                }
            }
        } else if dur <= 0 {
            lemma_place_rec_reasons_closed(rest, cursor, remaining, day_end, offset_secs);
            let tail_skipped = place_rec(rest, cursor, remaining, day_end, offset_secs).1;
            assert forall|i: int| 0 <= i < skipped.len() implies (
            #[trigger] skipped[i]).reason == "insufficient_time"@ || skipped[i].reason
                == "invalid_duration"@ by {
                if i > 0 {
                    assert(skipped[i] == tail_skipped[i - 1]);
                }
            }
        } else {
            let end = cursor + dur * 60;
            if end > day_end || dur > remaining {
                lemma_place_rec_reasons_closed(rest, cursor, remaining, day_end, offset_secs);
                let tail_skipped = place_rec(rest, cursor, remaining, day_end, offset_secs).1;
                assert forall|i: int| 0 <= i < skipped.len() implies (
                #[trigger] skipped[i]).reason == "insufficient_time"@ || skipped[i].reason
                    == "invalid_duration"@ by {
                    if i > 0 {
                        assert(skipped[i] == tail_skipped[i - 1]);
                    }
                }
            } else {
                lemma_place_rec_reasons_closed(rest, end, remaining - dur, day_end, offset_secs);
                assert(skipped == place_rec(rest, end, remaining - dur, day_end, offset_secs).1);
            }
        }
    }
}

/// Where the timeline for `date` opens: the parsed day-start instant, or
/// `now` itself when the setting does not parse.
pub open spec fn window_start_secs(date: Date, day_start: Seq<char>, now: Instant) -> int {
    match hhmm_instant_spec(date, day_start, now.offset_secs as int) {
        Option::Some(secs) => secs,
        Option::None => now.utc_secs as int,
    }
}

/// Where the timeline for `date` closes: the parsed day-end instant, or
/// eight hours past `now` when the setting does not parse.
pub open spec fn window_end_secs(date: Date, day_end: Seq<char>, now: Instant) -> int {
    match hhmm_instant_spec(date, day_end, now.offset_secs as int) {
        Option::Some(secs) => secs,
        Option::None => now.utc_secs + 8 * 3600,
    }
}

/// The first free instant: the later of `now` and the day-start instant.
pub open spec fn initial_cursor_secs(date: Date, day_start: Seq<char>, now: Instant) -> int {
    let start = window_start_secs(date, day_start, now);
    if now.utc_secs > start {
        now.utc_secs as int
    } else {
        start
    }
}

/// Place the ranked tasks of `scored_sorted` onto the timeline of `date`,
/// starting no earlier than `now` and the configured day start, ending at
/// the configured day end, spending at most `available_min` minutes.
/// Returns the placed items in timeline order and the unplanned items in
/// ranking order.
pub fn build_today_plan(
    scored_sorted: Vec<ScoredTask>,
    date: Date,
    now: Instant,
    settings: &DaySettings,
    available_min: i64,
) -> (plan: (Vec<PlanItem>, Vec<UnplannedItem>))
    requires
        now.valid(),
        date.valid(),
        forall|i: int|
            0 <= i < scored_sorted@.len() ==> (#[trigger] scored_sorted@[i]).task.duration_min
                <= MAX_DURATION_MIN,
    ensures
        ({
            let placed = place_rec(
                scored_views(scored_sorted@),
                initial_cursor_secs(date, settings.day_start@, now),
                available_min as int,
                window_end_secs(date, settings.day_end@, now),
                now.offset_secs as int,
            );
            plan_views(plan.0@) == placed.0 && unplanned_views(plan.1@) == placed.1
        }),
        plan.0@.len() + plan.1@.len() == scored_sorted@.len(),
        forall|i: int|
            0 <= i < plan.0@.len() ==> (#[trigger] plan.0@[i]).start.utc_secs
                < plan.0@[i].end.utc_secs,
        forall|i: int, j: int|
            0 <= i < j < plan.0@.len() ==> (#[trigger] plan.0@[i]).end.utc_secs <= (
            #[trigger] plan.0@[j]).start.utc_secs,
{
    let offset = now.offset_secs;
    let day_start_dt = match parse_hhmm_to_today(date, settings.day_start.as_str(), offset) {
        Option::Some(dt) => dt,
        Option::None => now,
    };
    let day_end_dt = match parse_hhmm_to_today(date, settings.day_end.as_str(), offset) {
        Option::Some(dt) => dt,
        Option::None => Instant { utc_secs: now.utc_secs + 8 * 3600, offset_secs: offset },
    };
    let mut cursor = if now.utc_secs > day_start_dt.utc_secs {
        now
    } else {
        day_start_dt
    };
    let mut remaining = available_min;
    let mut placed: Vec<PlanItem> = Vec::new();
    let mut unplanned: Vec<UnplannedItem> = Vec::new();

    let ghost all = scored_views(scored_sorted@);
    let ghost cursor0 = initial_cursor_secs(date, settings.day_start@, now);
    let ghost day_end = window_end_secs(date, settings.day_end@, now);
    let ghost goal = place_rec(all, cursor0, available_min as int, day_end, offset as int);
    proof {
        assert(all.skip(0) =~= all);
        assert(plan_views(placed@) =~= Seq::<PlanItemV>::empty());
        assert(unplanned_views(unplanned@) =~= Seq::<UnplannedItemV>::empty());
    }
    let n = scored_sorted.len();
    for i in 0..n
        invariant
            n == scored_sorted@.len(),
            all == scored_views(scored_sorted@),
            forall|k: int|
                0 <= k < scored_sorted@.len() ==> (
                #[trigger] scored_sorted@[k]).task.duration_min <= MAX_DURATION_MIN,
            cursor.offset_secs == offset,
            day_end_dt.utc_secs == day_end,
            -MAX_ABS_SECS <= cursor.utc_secs <= MAX_ABS_SECS + 8 * 3600,
            -MAX_ABS_SECS <= day_end <= MAX_ABS_SECS + 8 * 3600,
            placed@.len() + unplanned@.len() == i,
            goal == place_rec(all, cursor0, available_min as int, day_end, offset as int),
            goal.0 == plan_views(placed@) + place_rec(
                all.skip(i as int),
                cursor.utc_secs as int,
                remaining as int,
                day_end,
                offset as int,
            ).0,
            goal.1 == unplanned_views(unplanned@) + place_rec(
                all.skip(i as int),
                cursor.utc_secs as int,
                remaining as int,
                day_end,
                offset as int,
            ).1,
    {
        let st = &scored_sorted[i];
        proof {
            assert(all.skip(i as int)[0] == all[i as int]);
            assert(all.skip(i as int).skip(1) =~= all.skip(i + 1));
        }
        let ghost tail_state = place_rec(
            all.skip(i as int),
            cursor.utc_secs as int,
            remaining as int,
            day_end,
            offset as int,
        );
        if remaining <= 0 {
            let ghost old_unplanned = unplanned@;
            unplanned.push(
                UnplannedItem {
                    task_id: st.task.id.clone(),
                    reason: "insufficient_time".to_owned(),
                },
            );
            proof {
                assert(unplanned_views(unplanned@) =~= unplanned_views(old_unplanned).push(
                    UnplannedItemV { task_id: all[i as int].task.id, reason: "insufficient_time"@ },
                ));
                assert(unplanned_views(old_unplanned).push(
                    UnplannedItemV { task_id: all[i as int].task.id, reason: "insufficient_time"@ },
                ) + place_rec(
                    all.skip(i + 1),
                    cursor.utc_secs as int,
                    remaining as int,
                    day_end,
                    offset as int,
                ).1 =~= unplanned_views(old_unplanned) + tail_state.1);
            }
        } else {
            let dur = st.task.duration_min;
            if dur <= 0 {
                let ghost old_unplanned = unplanned@;
                unplanned.push(
                    UnplannedItem {
                        task_id: st.task.id.clone(),
                        reason: "invalid_duration".to_owned(),
                    },
                );
                proof {
                    assert(unplanned_views(unplanned@) =~= unplanned_views(old_unplanned).push(
                        UnplannedItemV {
                            task_id: all[i as int].task.id,
                            reason: "invalid_duration"@,
                        },
                    ));
                    assert(unplanned_views(old_unplanned).push(
                        UnplannedItemV {
                            task_id: all[i as int].task.id,
                            reason: "invalid_duration"@,
                        },
                    ) + place_rec(
                        all.skip(i + 1),
                        cursor.utc_secs as int,
                        remaining as int,
                        day_end,
                        offset as int,
                    ).1 =~= unplanned_views(old_unplanned) + tail_state.1);
                }
            } else {
                let end_secs: i64 = cursor.utc_secs + dur * 60;
                if end_secs > day_end_dt.utc_secs || dur > remaining {
                    let ghost old_unplanned = unplanned@;
                    unplanned.push(
                        UnplannedItem {
                            task_id: st.task.id.clone(),
                            reason: "insufficient_time".to_owned(),
                        },
                    );
                    proof {
                        assert(unplanned_views(unplanned@) =~= unplanned_views(old_unplanned).push(
                            UnplannedItemV {
                                task_id: all[i as int].task.id,
                                reason: "insufficient_time"@,
                            },
                        ));
                        assert(unplanned_views(old_unplanned).push(
                            UnplannedItemV {
                                task_id: all[i as int].task.id,
                                reason: "insufficient_time"@,
                            },
                        ) + place_rec(
                            all.skip(i + 1),
                            cursor.utc_secs as int,
                            remaining as int,
                            day_end,
                            offset as int,
                        ).1 =~= unplanned_views(old_unplanned) + tail_state.1);
                    }
                } else {
                    let end = Instant { utc_secs: end_secs, offset_secs: offset };
                    let item = PlanItem {
                        task_id: st.task.id.clone(),
                        title: st.task.title.clone(),
                        start: cursor,
                        end,
                        score_breakdown: ScoreBreakdown {
                            urgency: st.urgency,
                            priority: st.task.priority,
                            duration_score: st.duration_score,
                            total: st.total,
                        },
                        is_overdue: st.is_overdue,
                    };
                    let ghost old_placed = placed@;
                    proof {
                        assert(item@ =~= tail_state.0[0]);
                    }
                    placed.push(item);
                    proof {
                        assert(plan_views(placed@) =~= plan_views(old_placed).push(
                            tail_state.0[0],
                        ));
                        assert(plan_views(old_placed).push(tail_state.0[0]) + place_rec(
                            all.skip(i + 1),
                            end_secs as int,
                            remaining - dur,
                            day_end,
                            offset as int,
                        ).0 =~= plan_views(old_placed) + tail_state.0);
                    }
                    cursor = end;
                    remaining = remaining - dur;
                }
            }
        }
    }
    proof {
        assert(all.skip(n as int) =~= Seq::<ScoredTaskV>::empty());
        assert(plan_views(placed@) + Seq::<PlanItemV>::empty() =~= plan_views(placed@));
        assert(unplanned_views(unplanned@) + Seq::<UnplannedItemV>::empty() =~= unplanned_views(
            unplanned@,
        ));
        lemma_place_rec_nonoverlapping(all, cursor0, available_min as int, day_end, offset as int);
        assert(forall|i: int|
            0 <= i < placed@.len() ==> plan_views(placed@)[i] == (#[trigger] placed@[i])@);
    }
    (placed, unplanned)
}

/// The whole planning pipeline for one request: select the tasks relevant
/// on `date`, score and rank them relative to `now`, and place them onto
/// the day's timeline within `available_min` minutes.
pub fn plan_day(
    tasks: &[Task],
    date: Date,
    now: Instant,
    settings: &DaySettings,
    available_min: i64,
) -> (plan: (Vec<PlanItem>, Vec<UnplannedItem>))
    requires
        now.valid(),
        date.valid(),
        forall|i: int| 0 <= i < tasks@.len() ==> (#[trigger] tasks@[i]).due_at.valid(),
        forall|i: int| 0 <= i < tasks@.len() ==> 1 <= (#[trigger] tasks@[i]).priority <= 5,
        forall|i: int|
            0 <= i < tasks@.len() ==> (#[trigger] tasks@[i]).duration_min <= MAX_DURATION_MIN,
    ensures
        ({
            let relevant = task_views(tasks@).filter(|t: TaskV| relevant_spec(t, date, now));
            let ranked = sort_scored(score_all_spec(relevant, now));
            let placed = place_rec(
                ranked,
                initial_cursor_secs(date, settings.day_start@, now),
                available_min as int,
                window_end_secs(date, settings.day_end@, now),
                now.offset_secs as int,
            );
            plan_views(plan.0@) == placed.0 && unplanned_views(plan.1@) == placed.1
        }),
{
    let relevant = relevant_tasks(tasks, date, now);
    proof {
        assert forall|i: int| 0 <= i < relevant@.len() implies {
            &&& (#[trigger] relevant@[i]).due_at.valid()
            &&& 1 <= relevant@[i].priority <= 5
            &&& relevant@[i].duration_min <= MAX_DURATION_MIN
        } by {
            let j = choose|j: int| 0 <= j < tasks@.len() && relevant@[i]@ == tasks@[j]@;
            assert(relevant@[i]@.due_at == tasks@[j]@.due_at);
            assert(relevant@[i]@.priority == tasks@[j]@.priority);
            assert(relevant@[i]@.duration_min == tasks@[j]@.duration_min);
        }
    }
    let ranked = score_and_sort(relevant, now);
    proof {
        assert forall|i: int| 0 <= i < ranked@.len() implies (
        #[trigger] ranked@[i]).task.duration_min <= MAX_DURATION_MIN by {
            let j = choose|j: int|
                0 <= j < relevant@.len() && ranked@[i]@ == score_task_spec(relevant@[j]@, now);
            assert(ranked@[i]@.task == relevant@[j]@);
            assert(ranked@[i]@.task.duration_min == relevant@[j]@.duration_min);
        }
    }
    build_today_plan(ranked, date, now, settings, available_min)
}

} // verus!
