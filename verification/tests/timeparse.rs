use chrono::{DateTime, NaiveDate, TimeZone};
use dayplan::api::{
    breakdown_response, plan_item_response, unplanned_responses, valid_task_fields,
    CreateTaskInput, PlanQuery, PlanResponse, TasksQuery, TasksResponse, UpdateTaskInput,
};
use dayplan::models::DaySettings;
use dayplan::models::{find_task_index, tasks_without_id, Task, TaskStatus};
use dayplan::plan::{PlanItem, ScoreBreakdown, UnplannedItem};
use dayplan::time::{parse_hhmm_to_today, Date, Instant};

fn parse(day: i64, hhmm: &str, offset_secs: i32) -> Option<Instant> {
    parse_hhmm_to_today(Date { day }, hhmm, offset_secs)
}

#[test]
fn hhmm_parses_plain_times() {
    let i = parse(0, "09:00", 0).unwrap();
    assert_eq!(i.utc_secs, 9 * 3_600);
    assert_eq!(i.offset_secs, 0);
    assert_eq!(parse(0, "00:00", 0).unwrap().utc_secs, 0);
    assert_eq!(parse(0, "23:59", 0).unwrap().utc_secs, 23 * 3_600 + 59 * 60);
}

#[test]
fn hhmm_accepts_loose_numerals() {
    // The numeral grammar is that of unsigned integer parsing: leading
    // zeros, single digits, and a leading plus sign all pass.
    assert_eq!(parse(0, "9:5", 0).unwrap().utc_secs, 9 * 3_600 + 5 * 60);
    assert_eq!(parse(0, "000000009:00", 0).unwrap().utc_secs, 9 * 3_600);
    assert_eq!(parse(0, "+9:+30", 0).unwrap().utc_secs, 9 * 3_600 + 30 * 60);
}

#[test]
fn hhmm_rejects_malformed_strings() {
    for bad in [
        "", ":", "0900", "09:00:00", "24:00", "09:60", "a9:00", "09:0b", "-1:00", "09:",
        ":30", "+:30", "99999999999:00", "09 :00",
    ] {
        assert!(parse(0, bad, 0).is_none(), "{:?} should not parse", bad);
    }
}

#[test]
fn hhmm_applies_day_and_offset() {
    // 09:00 local at -06:00 is 15:00 UTC.
    let i = parse(0, "09:00", -21_600).unwrap();
    assert_eq!(i.utc_secs, 9 * 3_600 + 21_600);
    assert_eq!(i.offset_secs, -21_600);
    let j = parse(20_000, "01:30", 3_600).unwrap();
    assert_eq!(j.utc_secs, 20_000 * 86_400 + 5_400 - 3_600);
}

#[test]
fn hhmm_agrees_with_chrono() {
    // Cross-check the day/offset arithmetic against chrono's.
    let day = 20_037i64;  // a date in 2024
    let epoch = NaiveDate::from_ymd_opt(1970, 1, 1).unwrap();
    let date = epoch + chrono::Duration::days(day);
    let offset = chrono::FixedOffset::west_opt(6 * 3_600).unwrap();
    let expected = offset
        .from_local_datetime(&date.and_hms_opt(14, 45, 0).unwrap())
        .unwrap()
        .timestamp();
    let got = parse(day, "14:45", -6 * 3_600).unwrap();
    assert_eq!(got.utc_secs, expected);
}

#[test]
fn local_day_matches_chrono_date_naive() {
    let epoch = NaiveDate::from_ymd_opt(1970, 1, 1).unwrap();
    for (ts, off) in [
        (1_700_000_000i64, -21_600),
        (1_700_000_000, 7_200),
        (-1_000, 0),
        (0, -1),
        (86_399, 0),
        (86_400, 0),
    ] {
        let dt: DateTime<chrono::FixedOffset> = chrono::FixedOffset::east_opt(off)
            .unwrap()
            .timestamp_opt(ts, 0)
            .unwrap();
        let expected = (dt.date_naive() - epoch).num_days();
        let got = Instant { utc_secs: ts, offset_secs: off }.local_day();
        assert_eq!(got, expected, "timestamp {} at offset {}", ts, off);
    }
}

#[test]
fn from_ymd_matches_chrono_day_counts() {
    let epoch = NaiveDate::from_ymd_opt(1970, 1, 1).unwrap();
    for (y, m, d) in [
        (1970, 1, 1),
        (1969, 12, 31),
        (2000, 2, 29),
        (2024, 2, 29),
        (2025, 1, 15),
        (1600, 3, 1),
        (1, 1, 1),
        (-44, 3, 15),
        (9999, 12, 31),
    ] {
        let expected = (NaiveDate::from_ymd_opt(y, m, d).unwrap() - epoch).num_days();
        let got = Date::from_ymd(y as i64, m as u8, d as u8).unwrap();
        assert_eq!(got.day, expected, "{}-{}-{}", y, m, d);
    }
}

#[test]
fn from_ymd_rejects_invalid_dates() {
    assert!(Date::from_ymd(2023, 2, 29).is_none());
    assert!(Date::from_ymd(1900, 2, 29).is_none()); // century, not a leap year
    assert!(Date::from_ymd(2000, 2, 29).is_some()); // 400-year rule
    assert!(Date::from_ymd(2025, 0, 1).is_none());
    assert!(Date::from_ymd(2025, 13, 1).is_none());
    assert!(Date::from_ymd(2025, 4, 31).is_none());
    assert!(Date::from_ymd(2025, 4, 30).is_some());
    assert!(Date::from_ymd(2025, 1, 0).is_none());
    assert!(Date::from_ymd(2025, 12, 32).is_none());
}

#[test]
fn status_toggle_cycles() {
    assert_eq!(TaskStatus::Todo.toggled(), TaskStatus::InProgress);
    assert_eq!(TaskStatus::InProgress.toggled(), TaskStatus::Done);
    assert_eq!(TaskStatus::Done.toggled(), TaskStatus::Todo);
}

fn sample_task(id: &str) -> Task {
    Task {
        id: id.to_string(),
        title: format!("task {}", id),
        due_at: Instant { utc_secs: 0, offset_secs: 0 },
        duration_min: 30,
        priority: 3,
        status: TaskStatus::Todo,
        created_at: Instant { utc_secs: 0, offset_secs: 0 },
        tags: Some(vec!["home".to_string()]),
        notes: Some("a note".to_string()),
    }
}

#[test]
fn task_clone_copies_everything() {
    let t = sample_task("x");
    let c = t.clone();
    assert_eq!(c.id, t.id);
    assert_eq!(c.title, t.title);
    assert_eq!(c.due_at, t.due_at);
    assert_eq!(c.tags, t.tags);
    assert_eq!(c.notes, t.notes);
}

#[test]
fn find_task_index_finds_first_match() {
    let tasks = vec![sample_task("a"), sample_task("b"), sample_task("c")];
    assert_eq!(find_task_index(&tasks, &"b".to_string()), Some(1));
    assert_eq!(find_task_index(&tasks, &"missing".to_string()), None);
}

#[test]
fn tasks_without_id_removes_all_matches() {
    let tasks = vec![sample_task("a"), sample_task("b"), sample_task("a")];
    let kept = tasks_without_id(&tasks, &"a".to_string());
    let ids: Vec<&str> = kept.iter().map(|t| t.id.as_str()).collect();
    assert_eq!(ids, ["b"]);
    let all = tasks_without_id(&tasks, &"zzz".to_string());
    assert_eq!(all.len(), 3);
}

#[test]
fn task_fields_validation() {
    assert!(valid_task_fields("write tests", 1));
    assert!(valid_task_fields("x", 5));
    assert!(!valid_task_fields("", 3));
    assert!(!valid_task_fields("   ", 3));       // blank after trimming
    assert!(!valid_task_fields("\t\n ", 3));
    assert!(valid_task_fields("  x  ", 3));
    assert!(!valid_task_fields("fine", 0));
    assert!(!valid_task_fields("fine", 6));
}

#[test]
fn request_shapes_validate_like_their_fields() {
    let create = CreateTaskInput {
        title: "  plan the week  ".to_string(),
        due_at: "2025-01-15T09:00:00-06:00".to_string(),
        duration_min: 45,
        priority: 4,
        tags: None,
        notes: None,
    };
    assert!(valid_task_fields(&create.title, create.priority));

    let update = UpdateTaskInput {
        title: "   ".to_string(),
        due_at: create.due_at.clone(),
        duration_min: 45,
        priority: 4,
        status: TaskStatus::InProgress,
        tags: None,
        notes: Some("rework".to_string()),
    };
    assert!(!valid_task_fields(&update.title, update.priority));

    let query = PlanQuery { date: "2025-01-15".to_string(), available_min: 240 };
    let tasks_query = TasksQuery { date: query.date.clone() };
    assert_eq!(query.date, tasks_query.date);
}

#[test]
fn response_shapes_assemble() {
    let settings = DaySettings {
        day_start: "09:00".to_string(),
        day_end: "17:00".to_string(),
        focus_block_min: 50,
    };
    let listing = TasksResponse {
        date: "2025-01-15".to_string(),
        now: "2025-01-15T08:00:00-06:00".to_string(),
        tasks: vec![sample_task("a")],
    };
    assert_eq!(listing.tasks.len(), 1);
    let plan = PlanResponse {
        date: listing.date.clone(),
        now: listing.now.clone(),
        available_min: 240,
        settings,
        plan: Vec::new(),
        unplanned: Vec::new(),
    };
    assert_eq!(plan.settings.day_start, "09:00");
    assert!(plan.plan.is_empty());
}

#[test]
fn response_conversions_copy_fields() {
    let item = PlanItem {
        task_id: "t1".to_string(),
        title: "Title".to_string(),
        start: Instant { utc_secs: 100, offset_secs: 0 },
        end: Instant { utc_secs: 200, offset_secs: 0 },
        score_breakdown: ScoreBreakdown { urgency: 5, priority: 3, duration_score: 4, total: 12 },
        is_overdue: false,
    };
    let resp = plan_item_response(&item, "START".to_string(), "END".to_string());
    assert_eq!(resp.task_id, "t1");
    assert_eq!(resp.title, "Title");
    assert_eq!(resp.start, "START");
    assert_eq!(resp.end, "END");
    assert_eq!(resp.score_breakdown.total, 12);

    let b = breakdown_response(&item.score_breakdown);
    assert_eq!((b.urgency, b.priority, b.duration_score, b.total), (5, 3, 4, 12));

    let unplanned = vec![
        UnplannedItem { task_id: "u1".to_string(), reason: "insufficient_time".to_string() },
        UnplannedItem { task_id: "u2".to_string(), reason: "invalid_duration".to_string() },
    ];
    let resp = unplanned_responses(&unplanned);
    assert_eq!(resp.len(), 2);
    assert_eq!(resp[0].task_id, "u1");
    assert_eq!(resp[0].reason, "insufficient_time");
    assert_eq!(resp[1].reason, "invalid_duration");
}
