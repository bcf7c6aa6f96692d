//! Scoring of single tasks and the deterministic ranking over scored tasks.
//!
//! A task's total score is the sum of its urgency (how close or past its due
//! instant is), its caller-supplied priority, and a bonus for short estimated
//! durations. Ranking is by total score descending, ties broken by
//! case-insensitive title, ascending.

use crate::models::{Task, TaskV};
use crate::time::Instant;
use vstd::prelude::*;

verus! {

/// Score favouring shorter tasks: at most an hour scores 5, each further
/// started hour band drops the score by one, down to 1 beyond four hours.
pub open spec fn duration_score_spec(duration_min: int) -> int {
    if duration_min <= 60 {
        5
    } else if duration_min <= 120 {
        4
    } else if duration_min <= 180 {
        3
    } else if duration_min <= 240 {
        2
    } else {
        1
    }
}

/// Compute the duration score of a task estimated at `duration_min` minutes.
pub fn duration_score(duration_min: i64) -> (score: i64)
    ensures
        score == duration_score_spec(duration_min as int),
        1 <= score <= 5,
{
    if duration_min <= 60 {
        5
    } else if duration_min <= 120 {
        4
    } else if duration_min <= 180 {
        3
    } else if duration_min <= 240 {
        2
    } else {
        1
    }
}

/// The duration score never grows as the estimated duration grows.
pub proof fn lemma_duration_score_monotone(shorter_min: int, longer_min: int)
    requires
        shorter_min <= longer_min,
    ensures
        duration_score_spec(longer_min) <= duration_score_spec(shorter_min),
{
}

/// Urgency of a due instant seen from `now`: 5 when already due or overdue,
/// then one point less for each further whole day of slack, down to 0 at
/// five days or more.
pub open spec fn urgency_score_spec(due_at: Instant, now: Instant) -> int {
    let secs = due_at.utc_secs - now.utc_secs;
    if secs < 86400 {
        5
    } else if secs < 2 * 86400 {
        4
    } else if secs < 3 * 86400 {
        3
    } else if secs < 4 * 86400 {
        2
    } else if secs < 5 * 86400 {
        1
    } else {
        0
    }
}

/// Compute the urgency of a task due at `due_at`, as seen from `now`.
pub fn urgency_score(due_at: Instant, now: Instant) -> (score: i64)
    requires
        due_at.valid(),
        now.valid(),
    ensures
        score == urgency_score_spec(due_at, now),
        0 <= score <= 5,
{
    if now.utc_secs > due_at.utc_secs {
        return 5;
    }
    let secs: i64 = due_at.utc_secs - now.utc_secs;
    if secs < 86400 {
        5
    } else if secs < 2 * 86400 {
        4
    } else if secs < 3 * 86400 {
        3
    } else if secs < 4 * 86400 {
        2
    } else if secs < 5 * 86400 {
        1
    } else {
        0
    }
}

/// Every instant strictly past its due instant scores the maximum urgency.
pub proof fn lemma_overdue_max_urgency(due_at: Instant, now: Instant)
    requires
        due_at.utc_secs < now.utc_secs,
    ensures
        urgency_score_spec(due_at, now) == 5,
{
}

/// The character sequence `str::to_lowercase` maps a given character
/// sequence to. The result depends on the characters alone.
pub uninterp spec fn lower_of(s: Seq<char>) -> Seq<char>;

/// Relies on `str::to_lowercase`: Unicode lowercasing, a pure function of
/// the input characters.
#[verifier::external_body]
fn lowercase(s: &str) -> (out: String)
    ensures
        out@ == lower_of(s@),
{
    s.to_lowercase()
}

/// Lexicographic order on character sequences by code point: `a` is less
/// than or equal to `b`.
pub open spec fn lex_le(a: Seq<char>, b: Seq<char>) -> bool
    decreases a.len(),
{
    if a.len() == 0 {
        true
    } else if b.len() == 0 {
        false
    } else if (a[0] as u32) < (b[0] as u32) {
        true
    } else if (b[0] as u32) < (a[0] as u32) {
        false
    } else {
        lex_le(a.skip(1), b.skip(1))
    }
}

/// Any two character sequences are lexicographically comparable.
pub proof fn lemma_lex_le_total(a: Seq<char>, b: Seq<char>)
    ensures
        lex_le(a, b) || lex_le(b, a),
    decreases a.len(),
{
    if a.len() != 0 && b.len() != 0 && a[0] as u32 == b[0] as u32 {
        lemma_lex_le_total(a.skip(1), b.skip(1));
    }
}

/// Lexicographic order is transitive.
pub proof fn lemma_lex_le_trans(a: Seq<char>, b: Seq<char>, c: Seq<char>)
    requires
        lex_le(a, b),
        lex_le(b, c),
    ensures
        lex_le(a, c),
    decreases a.len(),
{
    if a.len() != 0 && b.len() != 0 && c.len() != 0 {
        if a[0] as u32 == b[0] as u32 && b[0] as u32 == c[0] as u32 {
            lemma_lex_le_trans(a.skip(1), b.skip(1), c.skip(1));
        }
    }
}

/// Compare two strings lexicographically by code point.
fn lex_le_exec(a: &str, b: &str) -> (le: bool)
    ensures
        le == lex_le(a@, b@),
{
    let a_len = a.unicode_len();
    let b_len = b.unicode_len();
    let mut i: usize = 0;
    proof {
        assert(a@.skip(0) =~= a@);
        assert(b@.skip(0) =~= b@);
    }
    while i < a_len && i < b_len
        invariant
            a_len == a@.len(),
            b_len == b@.len(),
            0 <= i <= a_len,
            0 <= i <= b_len,
            lex_le(a@, b@) == lex_le(a@.skip(i as int), b@.skip(i as int)),
        decreases a_len - i,
    {
        let ca = a.get_char(i);
        let cb = b.get_char(i);
        if (ca as u32) < (cb as u32) {
            return true;
        }
        if (cb as u32) < (ca as u32) {
            return false;
        }
        proof {
            assert(a@.skip(i as int).skip(1) =~= a@.skip(i + 1));
            assert(b@.skip(i as int).skip(1) =~= b@.skip(i + 1));
        }
        i = i + 1;
    }
    i == a_len
}

/// Mathematical image of a [`ScoredTask`].
#[verifier::ext_equal]
pub ghost struct ScoredTaskV {
    pub task: TaskV,
    pub is_overdue: bool,
    pub urgency: int,
    pub duration_score: int,
    pub total: int,
}

/// A task together with the scores computed for it relative to a reference
/// instant. Created fresh for each planning request, never persisted.
#[derive(Debug)]
pub struct ScoredTask {
    pub task: Task,
    pub is_overdue: bool,
    /// Urgency score, 0 through 5.
    pub urgency: i64,
    /// Duration score, 1 through 5.
    pub duration_score: i64,
    /// Sum of urgency, priority and duration score.
    pub total: i64,
}

impl View for ScoredTask {
    type V = ScoredTaskV;

    open spec fn view(&self) -> ScoredTaskV {
        ScoredTaskV {
            task: self.task@,
            is_overdue: self.is_overdue,
            urgency: self.urgency as int,
            duration_score: self.duration_score as int,
            total: self.total as int,
        }
    }
}

/// The scores a task earns relative to `now`: urgency and duration score as
/// above, and their sum with the task's priority as the total.
pub open spec fn score_task_spec(task: TaskV, now: Instant) -> ScoredTaskV {
    let urgency = urgency_score_spec(task.due_at, now);
    let dur = duration_score_spec(task.duration_min);
    ScoredTaskV {
        task: task,
        is_overdue: now.utc_secs > task.due_at.utc_secs,
        urgency: urgency,
        duration_score: dur,
        total: urgency + task.priority + dur,
    }
}

/// With a caller-validated priority, the total score lies between 2
/// (urgency 0, priority 1, duration score 1) and 15 (5 + 5 + 5).
pub proof fn lemma_total_score_range(task: TaskV, now: Instant)
    requires
        1 <= task.priority <= 5,
    ensures
        2 <= score_task_spec(task, now).total <= 15,
        0 <= score_task_spec(task, now).urgency <= 5,
        1 <= score_task_spec(task, now).duration_score <= 5,
{
}

/// The views of a sequence of tasks.
pub open spec fn task_views(tasks: Seq<Task>) -> Seq<TaskV> {
    tasks.map_values(|t: Task| t@)
}

/// The views of a sequence of scored tasks.
pub open spec fn scored_views(scored: Seq<ScoredTask>) -> Seq<ScoredTaskV> {
    scored.map_values(|st: ScoredTask| st@)
}

/// Every task of a sequence, scored relative to `now`.
pub open spec fn score_all_spec(tasks: Seq<TaskV>, now: Instant) -> Seq<ScoredTaskV> {
    tasks.map_values(|t: TaskV| score_task_spec(t, now))
}

/// Ranking order: higher total score first; on equal totals the
/// case-insensitively smaller title first.
pub open spec fn scored_le(a: ScoredTaskV, b: ScoredTaskV) -> bool {
    ||| a.total > b.total
    ||| (a.total == b.total && lex_le(lower_of(a.task.title), lower_of(b.task.title)))
}

/// Any two scored tasks are comparable in ranking order.
pub proof fn lemma_scored_le_total(a: ScoredTaskV, b: ScoredTaskV)
    ensures
        scored_le(a, b) || scored_le(b, a),
{
    if a.total == b.total {
        lemma_lex_le_total(lower_of(a.task.title), lower_of(b.task.title));
    }
}

/// Ranking order is transitive.
pub proof fn lemma_scored_le_trans(a: ScoredTaskV, b: ScoredTaskV, c: ScoredTaskV)
    requires
        scored_le(a, b),
        scored_le(b, c),
    ensures
        scored_le(a, c),
{
    if a.total == b.total && b.total == c.total {
        lemma_lex_le_trans(
            lower_of(a.task.title),
            lower_of(b.task.title),
            lower_of(c.task.title),
        );
    }
}

/// The sequence is ranked: every earlier element is less than or equal to
/// every later one.
pub open spec fn sorted_scored(s: Seq<ScoredTaskV>) -> bool {
    forall|i: int, j: int| 0 <= i < j < s.len() ==> scored_le(s[i], s[j])
}

/// `x` inserted into `s` after every element less than or equal to it.
/// On a ranked sequence this is a stable insertion.
pub open spec fn insert_sorted(x: ScoredTaskV, s: Seq<ScoredTaskV>) -> Seq<ScoredTaskV>
    decreases s.len(),
{
    if s.len() == 0 {
        seq![x]
    } else if scored_le(s[0], x) {
        seq![s[0]] + insert_sorted(x, s.skip(1))
    } else {
        seq![x] + s
    }
}

/// Stable insertion sort of scored tasks in ranking order: each element in
/// turn is inserted after its equals, so the order of equals is kept.
pub open spec fn sort_scored(s: Seq<ScoredTaskV>) -> Seq<ScoredTaskV>
    decreases s.len(),
{
    if s.len() == 0 {
        Seq::empty()
    } else {
        insert_sorted(s.last(), sort_scored(s.drop_last()))
    }
}

/// Insertion keeps the length and draws every element from the old sequence
/// or the inserted one; on a ranked sequence it ranks the result.
proof fn lemma_insert_sorted_sorted(x: ScoredTaskV, s: Seq<ScoredTaskV>)
    requires
        sorted_scored(s),
    ensures
        insert_sorted(x, s).len() == s.len() + 1,
        forall|j: int|
            0 <= j < insert_sorted(x, s).len() ==> (insert_sorted(x, s)[j] == x || s.contains(
                insert_sorted(x, s)[j],
            )),
        sorted_scored(insert_sorted(x, s)),
    decreases s.len(),
{
    if s.len() == 0 {
    } else if scored_le(s[0], x) {
        let tail = s.skip(1);
        assert forall|i: int, j: int| 0 <= i < j < tail.len() implies scored_le(
            tail[i],
            tail[j],
        ) by {
            assert(scored_le(s[i + 1], s[j + 1]));
        }
        lemma_insert_sorted_sorted(x, tail);
        let res = seq![s[0]] + insert_sorted(x, tail);
        assert forall|j: int| 0 <= j < res.len() implies (res[j] == x || s.contains(res[j])) by {
            if j == 0 {
                assert(s.contains(s[0]));
            } else {
                let r = insert_sorted(x, tail)[j - 1];
                if r != x {
                    let i = choose|i: int| 0 <= i < tail.len() && tail[i] == r;
                    assert(s[i + 1] == r);
                }
            }
        }
        assert forall|i: int, j: int| 0 <= i < j < res.len() implies scored_le(
            res[i],
            res[j],
        ) by {
            if i == 0 {
                let r = res[j];
                if r == x {
                } else {
                    let k = choose|k: int| 0 <= k < tail.len() && tail[k] == r;
                    assert(scored_le(s[0], s[k + 1]));
                }
            }
        }
    } else {
        lemma_scored_le_total(x, s[0]);
        let res = seq![x] + s;
        assert forall|i: int, j: int| 0 <= i < j < res.len() implies scored_le(
            res[i],
            res[j],
        ) by {
            if i == 0 && j > 1 {
                lemma_scored_le_trans(x, s[0], s[j - 1]);
            }
        }
    }
}

/// The sort ranks any sequence and keeps its length.
pub proof fn lemma_sort_scored_sorted(s: Seq<ScoredTaskV>)
    ensures
        sort_scored(s).len() == s.len(),
        sorted_scored(sort_scored(s)),
    decreases s.len(),
{
    if s.len() > 0 {
        lemma_sort_scored_sorted(s.drop_last());
        lemma_insert_sorted_sorted(s.last(), sort_scored(s.drop_last()));
    }
}

/// Inserting at the boundary index: when everything before `k` is less than
/// or equal to `x` and the element at `k` (if any) is not, the insertion
/// splits the sequence exactly there.
proof fn lemma_insert_sorted_split(x: ScoredTaskV, s: Seq<ScoredTaskV>, k: int)
    requires
        0 <= k <= s.len(),
        forall|j: int| 0 <= j < k ==> scored_le(s[j], x),
        k < s.len() ==> !scored_le(s[k], x),
    ensures
        insert_sorted(x, s) =~= s.take(k).push(x) + s.skip(k),
    decreases s.len(),
{
    if s.len() == 0 {
    } else if k == 0 {
    } else {
        let tail = s.skip(1);
        assert(scored_le(s[0], x));
        assert forall|j: int| 0 <= j < k - 1 implies scored_le(tail[j], x) by {
            assert(scored_le(s[j + 1], x));
        }
        lemma_insert_sorted_split(x, tail, k - 1);
        assert(insert_sorted(x, s) =~= seq![s[0]] + (tail.take(k - 1).push(x) + tail.skip(k - 1)));
    }
}

/// Inserting an element not below any existing one appends it, so ranked
/// input is left unchanged by a further sorting pass.
proof fn lemma_insert_sorted_append(x: ScoredTaskV, s: Seq<ScoredTaskV>)
    requires
        forall|j: int| 0 <= j < s.len() ==> scored_le(s[j], x),
    ensures
        insert_sorted(x, s) =~= s.push(x),
    decreases s.len(),
{
    if s.len() > 0 {
        let tail = s.skip(1);
        assert forall|j: int| 0 <= j < tail.len() implies scored_le(tail[j], x) by {
            assert(scored_le(s[j + 1], x));
        }
        lemma_insert_sorted_append(x, tail);
    }
}

/// A ranked sequence is a fixed point of the sort.
pub proof fn lemma_sort_scored_of_sorted(s: Seq<ScoredTaskV>)
    requires
        sorted_scored(s),
    ensures
        sort_scored(s) =~= s,
    decreases s.len(),
{
    if s.len() > 0 {
        let front = s.drop_last();
        assert forall|i: int, j: int| 0 <= i < j < front.len() implies scored_le(
            front[i],
            front[j],
        ) by {
            assert(scored_le(s[i], s[j]));
        }
        lemma_sort_scored_of_sorted(front);
        assert forall|j: int| 0 <= j < front.len() implies scored_le(front[j], s.last()) by {
            assert(scored_le(s[j], s[s.len() - 1]));
        }
        lemma_insert_sorted_append(s.last(), front);
        assert(front.push(s.last()) =~= s);
    }
}

/// Insertion adds exactly the inserted element to the sequence's contents.
proof fn lemma_insert_sorted_multiset(x: ScoredTaskV, s: Seq<ScoredTaskV>)
    ensures
        insert_sorted(x, s).to_multiset() =~= s.to_multiset().insert(x),
    decreases s.len(),
{
    broadcast use vstd::seq_lib::group_seq_properties;
    broadcast use vstd::multiset::group_multiset_axioms;

    if s.len() == 0 {
        assert(seq![x] =~= s.push(x));
    } else if scored_le(s[0], x) {
        let tail = s.skip(1);
        lemma_insert_sorted_multiset(x, tail);
        vstd::seq_lib::lemma_multiset_commutative(seq![s[0]], insert_sorted(x, tail));
        vstd::seq_lib::lemma_multiset_commutative(seq![s[0]], tail);
        assert(s =~= seq![s[0]] + tail);
    } else {
        vstd::seq_lib::lemma_multiset_commutative(seq![x], s);
        assert(seq![x] =~= Seq::<ScoredTaskV>::empty().push(x));
    }
}

/// The sort permutes its input: same scored tasks, same multiplicities.
pub proof fn lemma_sort_scored_permutes(s: Seq<ScoredTaskV>)
    ensures
        sort_scored(s).to_multiset() =~= s.to_multiset(),
    decreases s.len(),
{
    broadcast use vstd::seq_lib::group_seq_properties;

    if s.len() > 0 {
        lemma_sort_scored_permutes(s.drop_last());
        lemma_insert_sorted_multiset(s.last(), sort_scored(s.drop_last()));
        assert(s =~= s.drop_last().push(s.last()));
    }
}

/// Sorting is idempotent: sorting already-sorted output returns it intact.
pub proof fn lemma_sort_scored_idempotent(s: Seq<ScoredTaskV>)
    ensures
        sort_scored(sort_scored(s)) =~= sort_scored(s),
{
    lemma_sort_scored_sorted(s);
    lemma_sort_scored_of_sorted(sort_scored(s));
}

/// Scoring and ranking is idempotent: handing the tasks of a ranked
/// sequence back to the scorer and sorter, with the same reference instant,
/// reproduces that sequence exactly.
pub proof fn lemma_score_and_sort_idempotent(tasks: Seq<TaskV>, now: Instant)
    ensures
        ({
            let ranked = sort_scored(score_all_spec(tasks, now));
            sort_scored(
                score_all_spec(ranked.map_values(|st: ScoredTaskV| st.task), now),
            ) == ranked
        }),
{
    broadcast use vstd::seq_lib::group_to_multiset_ensures;

    let scored = score_all_spec(tasks, now);
    let ranked = sort_scored(scored);
    lemma_sort_scored_permutes(scored);
    assert forall|i: int| 0 <= i < ranked.len() implies score_task_spec(
        (#[trigger] ranked[i]).task,
        now,
    ) == ranked[i] by {
        assert(ranked.to_multiset().count(ranked[i]) > 0);
        assert(scored.contains(ranked[i]));
        let j = choose|j: int| 0 <= j < scored.len() && scored[j] == ranked[i];
        assert(scored[j] == score_task_spec(tasks[j], now));
    }
    assert(score_all_spec(ranked.map_values(|st: ScoredTaskV| st.task), now) =~= ranked);
    lemma_sort_scored_sorted(scored);
    lemma_sort_scored_of_sorted(ranked);
}

/// Compare two scored tasks in ranking order.
fn scored_le_exec(a: &ScoredTask, b: &ScoredTask) -> (le: bool)
    ensures
        le == scored_le(a@, b@),
{
    if a.total > b.total {
        true
    } else if a.total < b.total {
        false
    } else {
        let la = lowercase(a.task.title.as_str());
        let lb = lowercase(b.task.title.as_str());
        lex_le_exec(la.as_str(), lb.as_str())
    }
}

/// Score every task relative to `now` and rank the results: total score
/// descending, exact ties by case-insensitive title ascending, remaining
/// ties kept in input order.
pub fn score_and_sort(tasks: Vec<Task>, now: Instant) -> (scored: Vec<ScoredTask>)
    requires
        now.valid(),
        forall|i: int| 0 <= i < tasks@.len() ==> (#[trigger] tasks@[i]).due_at.valid(),
        forall|i: int| 0 <= i < tasks@.len() ==> 1 <= (#[trigger] tasks@[i]).priority <= 5,
    ensures
        scored_views(scored@) == sort_scored(score_all_spec(task_views(tasks@), now)),
        scored@.len() == tasks@.len(),
        sorted_scored(scored_views(scored@)),
        forall|i: int|
            0 <= i < scored@.len() ==> exists|j: int|
                0 <= j < tasks@.len() && (#[trigger] scored@[i])@ == score_task_spec(
                    tasks@[j]@,
                    now,
                ),
{
    let ghost base = score_all_spec(task_views(tasks@), now);
    let mut out: Vec<ScoredTask> = Vec::new();
    proof {
        assert(scored_views(out@) =~= sort_scored(base.take(0)));
    }
    for i in 0..tasks.len()
        invariant
            base == score_all_spec(task_views(tasks@), now),
            now.valid(),
            forall|k: int| 0 <= k < tasks@.len() ==> (#[trigger] tasks@[k]).due_at.valid(),
            forall|k: int| 0 <= k < tasks@.len() ==> 1 <= (#[trigger] tasks@[k]).priority <= 5,
            out@.len() == i,
            scored_views(out@) == sort_scored(base.take(i as int)),
    {
        let task = tasks[i].clone();
        let urgency = urgency_score(task.due_at, now);
        let dur = duration_score(task.duration_min);
        let is_overdue = now.utc_secs > task.due_at.utc_secs;
        let total = urgency + task.priority + dur;
        let st = ScoredTask { task, is_overdue, urgency, duration_score: dur, total };
        proof {
            assert(st@ =~= base[i as int]);
            lemma_sort_scored_sorted(base.take(i as int));
        }
        let mut k: usize = 0;
        while k < out.len() && scored_le_exec(&out[k], &st)
            invariant
                0 <= k <= out@.len(),
                forall|j: int| 0 <= j < k ==> scored_le(scored_views(out@)[j], st@),
                scored_views(out@) == sort_scored(base.take(i as int)),
                st@ == base[i as int],
            decreases out@.len() - k,
        {
            k = k + 1;
        }
        proof {
            lemma_insert_sorted_split(st@, scored_views(out@), k as int);
        }
        let ghost old_out = out@;
        out.insert(k, st);
        proof {
            assert(scored_views(out@) =~= insert_sorted(st@, scored_views(old_out)));
            assert(base.take(i + 1).drop_last() =~= base.take(i as int));
            assert(base.take(i + 1).last() == base[i as int]);
            assert(scored_views(out@) == sort_scored(base.take(i + 1)));
        }
    }
    proof {
        broadcast use vstd::seq_lib::group_to_multiset_ensures;

        assert(base.take(tasks@.len() as int) =~= base);
        lemma_sort_scored_sorted(base);
        lemma_sort_scored_permutes(base);
        assert forall|i: int| 0 <= i < out@.len() implies exists|j: int|
            0 <= j < tasks@.len() && (#[trigger] out@[i])@ == score_task_spec(
                tasks@[j]@,
                now,
            ) by {
            let ranked = scored_views(out@);
            assert(ranked[i] == out@[i]@);
            assert(ranked.to_multiset().count(ranked[i]) > 0);
            assert(base.contains(ranked[i]));
            let j = choose|j: int| 0 <= j < base.len() && base[j] == ranked[i];
            assert(base[j] == score_task_spec(tasks@[j]@, now));
        }
    }
    out
}

} // verus!
