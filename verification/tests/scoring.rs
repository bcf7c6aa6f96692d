use dayplan::models::{Task, TaskStatus};
use dayplan::scoring::{duration_score, score_and_sort, urgency_score};
use dayplan::time::Instant;

fn instant(utc_secs: i64) -> Instant {
    Instant { utc_secs, offset_secs: 0 }
}

fn task(id: &str, title: &str, due_secs: i64, duration_min: i64, priority: i64) -> Task {
    Task {
        id: id.to_string(),
        title: title.to_string(),
        due_at: instant(due_secs),
        duration_min,
        priority,
        status: TaskStatus::Todo,
        created_at: instant(0),
        tags: None,
        notes: None,
    }
}

#[test]
fn duration_score_boundaries() {
    assert_eq!(duration_score(0), 5);
    assert_eq!(duration_score(1), 5);
    assert_eq!(duration_score(60), 5);
    assert_eq!(duration_score(61), 4);
    assert_eq!(duration_score(120), 4);
    assert_eq!(duration_score(121), 3);
    assert_eq!(duration_score(180), 3);
    assert_eq!(duration_score(181), 2);
    assert_eq!(duration_score(240), 2);
    assert_eq!(duration_score(241), 1);
    assert_eq!(duration_score(100_000), 1);
}

#[test]
fn duration_score_never_increases() {
    let samples = [0, 1, 59, 60, 61, 119, 120, 121, 180, 181, 240, 241, 1000];
    let mut prev = 5;
    for d in samples {
        let s = duration_score(d);
        assert!(s <= prev, "score rose at {} minutes", d);
        prev = s;
    }
}

#[test]
fn urgency_overdue_is_five() {
    let now = instant(1_000_000);
    assert_eq!(urgency_score(instant(999_999), now), 5);
    assert_eq!(urgency_score(instant(0), now), 5);
    assert_eq!(urgency_score(instant(-5_000_000), now), 5);
}

#[test]
fn urgency_band_boundaries() {
    let day = 86_400;
    let now = instant(0);
    assert_eq!(urgency_score(instant(0), now), 5);
    assert_eq!(urgency_score(instant(day - 1), now), 5);
    assert_eq!(urgency_score(instant(day), now), 4);
    assert_eq!(urgency_score(instant(2 * day - 1), now), 4);
    assert_eq!(urgency_score(instant(2 * day), now), 3);
    assert_eq!(urgency_score(instant(3 * day), now), 2);
    assert_eq!(urgency_score(instant(4 * day), now), 1);
    assert_eq!(urgency_score(instant(5 * day - 1), now), 1);
    assert_eq!(urgency_score(instant(5 * day), now), 0);
    assert_eq!(urgency_score(instant(50 * day), now), 0);
}

#[test]
fn urgency_ignores_offsets() {
    // Comparison is by UTC instant; the stored offsets play no role.
    let now = Instant { utc_secs: 1000, offset_secs: -21_600 };
    let due = Instant { utc_secs: 999, offset_secs: 3_600 };
    assert_eq!(urgency_score(due, now), 5);
}

#[test]
fn score_totals_add_up() {
    let now = instant(0);
    // Due in two and a half days (urgency 3), 90 minutes (duration score 4),
    // priority 2: total 9.
    let t = task("t1", "write report", 2 * 86_400 + 43_200, 90, 2);
    let scored = score_and_sort(vec![t], now);
    assert_eq!(scored.len(), 1);
    assert_eq!(scored[0].urgency, 3);
    assert_eq!(scored[0].duration_score, 4);
    assert_eq!(scored[0].total, 9);
    assert!(!scored[0].is_overdue);
}

#[test]
fn score_marks_overdue() {
    let now = instant(500);
    let scored = score_and_sort(vec![task("t1", "a", 499, 30, 1)], now);
    assert!(scored[0].is_overdue);
    // Due exactly at now: due, but not strictly overdue.
    let scored = score_and_sort(vec![task("t1", "a", 500, 30, 1)], now);
    assert!(!scored[0].is_overdue);
    assert_eq!(scored[0].urgency, 5);
}

#[test]
fn sort_orders_by_total_descending() {
    let now = instant(0);
    let tasks = vec![
        task("low", "a", 10 * 86_400, 300, 1),  // urgency 0, duration 1, total 2
        task("high", "b", 0, 30, 5),            // urgency 5, duration 5, total 15
        task("mid", "c", 86_400, 90, 3),        // urgency 4, duration 4, total 11
    ];
    let scored = score_and_sort(tasks, now);
    let ids: Vec<&str> = scored.iter().map(|s| s.task.id.as_str()).collect();
    assert_eq!(ids, ["high", "mid", "low"]);
    assert_eq!(scored[0].total, 15);
    assert_eq!(scored[1].total, 11);
    assert_eq!(scored[2].total, 2);
}

#[test]
fn tie_breaks_case_insensitively() {
    // Identical totals; "apple" must sort before "Zebra" even though 'Z' < 'a'
    // by code point.
    let now = instant(0);
    let tasks = vec![
        task("z", "Zebra", 0, 30, 3),
        task("a", "apple", 0, 30, 3),
    ];
    let scored = score_and_sort(tasks, now);
    assert_eq!(scored[0].task.title, "apple");
    assert_eq!(scored[1].task.title, "Zebra");
    assert_eq!(scored[0].total, scored[1].total);
}

#[test]
fn tie_break_is_ascending() {
    let now = instant(0);
    let tasks = vec![
        task("b", "banana", 0, 30, 3),
        task("a", "Apple", 0, 30, 3),
        task("c", "cherry", 0, 30, 3),
    ];
    let scored = score_and_sort(tasks, now);
    let titles: Vec<&str> = scored.iter().map(|s| s.task.title.as_str()).collect();
    assert_eq!(titles, ["Apple", "banana", "cherry"]);
}

#[test]
fn equal_titles_keep_input_order() {
    // The sort is stable: nothing distinguishes these two but their ids, so
    // the input order must be kept.
    let now = instant(0);
    let tasks = vec![
        task("first", "same", 0, 30, 3),
        task("second", "same", 0, 30, 3),
    ];
    let scored = score_and_sort(tasks, now);
    assert_eq!(scored[0].task.id, "first");
    assert_eq!(scored[1].task.id, "second");
}

#[test]
fn sorting_sorted_output_changes_nothing() {
    let now = instant(0);
    let tasks = vec![
        task("p", "pear", 3 * 86_400, 200, 2),
        task("q", "quince", 0, 45, 5),
        task("r", "Rhubarb", 0, 45, 5),
        task("s", "rhubarb", 0, 45, 5),
        task("t", "apricot", 86_400, 100, 1),
    ];
    let once = score_and_sort(tasks, now);
    let ids_once: Vec<String> = once.iter().map(|s| s.task.id.clone()).collect();
    let again = score_and_sort(once.into_iter().map(|s| s.task).collect(), now);
    let ids_again: Vec<String> = again.iter().map(|s| s.task.id.clone()).collect();
    assert_eq!(ids_once, ids_again);
}
