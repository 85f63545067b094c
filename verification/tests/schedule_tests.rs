use chrono::{Datelike, Days, Local, TimeZone, Timelike};
use volume_scheduler::config::ScheduleItem;
use volume_scheduler::schedule::time::{next_occurrence_local, pick_instant, select_occurrence};
use volume_scheduler::schedule::{LocalInstant, ResolvedLocal, Schedule, ScheduleError, TimeOfDay};

/// Helper to create a schedule from a simple list of "HH:MM" strings.
fn schedule_from_str(times: &[&str], ramp_duration_seconds: u64) -> Schedule {
    let items = times
        .iter()
        .map(|s| ScheduleItem {
            time: s.to_string(),
            volume: 50, // Volume doesn't matter for these tests
        })
        .collect();
    Schedule::from_schedule_items(items, ramp_duration_seconds).unwrap()
}

/// Helper to view a chrono local datetime as the library's plain values.
fn local_instant_of(dt: chrono::DateTime<Local>) -> LocalInstant {
    LocalInstant {
        day: dt.date_naive().num_days_from_ce(),
        utc_ms: dt.timestamp_millis(),
    }
}

fn tod(hour: u8, minute: u8) -> TimeOfDay {
    TimeOfDay::from_hms(hour, minute).unwrap()
}

#[test]
fn test_from_schedule_items_sorts_targets() {
    // Arrange: targets are intentionally out of order
    let items = vec![
        ScheduleItem {
            time: "14:00".to_string(),
            volume: 50,
        },
        ScheduleItem {
            time: "08:00".to_string(),
            volume: 20,
        },
        ScheduleItem {
            time: "09:30".to_string(),
            volume: 30,
        },
    ];

    // Act
    let schedule = Schedule::from_schedule_items(items, 60).unwrap();

    // Assert
    assert_eq!(schedule.targets()[0].time, tod(8, 0));
    assert_eq!(schedule.targets()[1].time, tod(9, 30));
    assert_eq!(schedule.targets()[2].time, tod(14, 0));
}

#[test]
fn test_from_schedule_items_fails_on_bad_time() {
    // Arrange
    let items = vec![ScheduleItem {
        time: "25:00".to_string(),
        volume: 50,
    }];

    // Act
    let result = Schedule::from_schedule_items(items, 60);

    // Assert
    assert!(matches!(result, Err(ScheduleError::UnparsedTime(_))));
}

#[test]
fn test_from_schedule_items_fails_on_bad_volume() {
    // Arrange
    let items = vec![ScheduleItem {
        time: "08:00".to_string(),
        volume: 101,
    }];

    // Act
    let result = Schedule::from_schedule_items(items, 60);

    // Assert
    assert!(matches!(result, Err(ScheduleError::UnparsedVolume(_))));
}

#[test]
fn get_next_finds_upcoming_event_today() {
    // Arrange
    let schedule = schedule_from_str(&["08:00", "17:00"], 60);
    // Simulate "now" being 10:00 AM
    let now = Local::now()
        .with_hour(10)
        .unwrap()
        .with_minute(0)
        .unwrap()
        .with_second(0)
        .unwrap()
        .with_nanosecond(0)
        .unwrap();

    // Act
    let next_invocation = schedule.get_next_at(&local_instant_of(now), 0).unwrap();

    // Assert: The next event should be at 17:00 today
    let expected_time = now.with_hour(17).unwrap().with_minute(0).unwrap();
    let expected_delta = (expected_time - now).num_milliseconds();
    let actual_delta = next_invocation.time as i64;

    // We check that the deltas are very close, allowing for a small margin.
    assert!((expected_delta - actual_delta).abs() < 100);
    assert_eq!(next_invocation.desired_sound.value(), 50);
}

#[test]
fn get_next_wraps_around_to_tomorrow() {
    // Arrange
    let schedule = schedule_from_str(&["08:00", "17:00"], 60);
    // Simulate "now" being 18:00 PM
    let now = Local::now()
        .with_hour(18)
        .unwrap()
        .with_minute(0)
        .unwrap()
        .with_second(0)
        .unwrap()
        .with_nanosecond(0)
        .unwrap();

    // Act
    let next_invocation = schedule.get_next_at(&local_instant_of(now), 0).unwrap();

    // Assert: The next event should be at 08:00 tomorrow
    let tomorrow = now.checked_add_days(Days::new(1)).unwrap();
    let expected_time = tomorrow.with_hour(8).unwrap().with_minute(0).unwrap();
    let expected_delta = (expected_time - now).num_milliseconds(); // roughly 14 hours
    let actual_delta = next_invocation.time as i64;

    assert!((expected_delta - actual_delta).abs() < 100);
}

#[test]
fn get_next_returns_none_for_empty_schedule() {
    // Arrange
    let schedule = Schedule::new();

    // Act
    let next_invocation = schedule.get_next_at(&local_instant_of(Local::now()), 0);

    // Assert
    assert!(next_invocation.is_none());
}

#[test]
fn next_occurrence_is_later_today() {
    let now = Local::now().with_hour(10).unwrap();
    let target_time = tod(14, 0);
    let next_ms = next_occurrence_local(target_time, &local_instant_of(now));
    let next = Local.timestamp_millis_opt(next_ms).unwrap();

    assert_eq!(next.date_naive(), now.date_naive());
    assert_eq!(next.hour(), 14);
}

#[test]
fn next_occurrence_is_tomorrow() {
    let now = Local::now().with_hour(10).unwrap();
    let target_time = tod(8, 0);
    let next_ms = next_occurrence_local(target_time, &local_instant_of(now));
    let next = Local.timestamp_millis_opt(next_ms).unwrap();

    let tomorrow = now.date_naive().checked_add_days(Days::new(1)).unwrap();
    assert_eq!(next.date_naive(), tomorrow);
    assert_eq!(next.hour(), 8);
}

#[test]
fn next_occurrence_handles_exact_time_as_tomorrow() {
    // An exact match is pushed to the next day. This test documents that
    // behavior.
    let now = Local::now()
        .with_hour(10)
        .unwrap()
        .with_minute(0)
        .unwrap()
        .with_second(0)
        .unwrap()
        .with_nanosecond(0)
        .unwrap();
    let target_time = tod(10, 0);
    let next_ms = next_occurrence_local(target_time, &local_instant_of(now));
    let next = Local.timestamp_millis_opt(next_ms).unwrap();

    let tomorrow = now.date_naive().checked_add_days(Days::new(1)).unwrap();
    assert_eq!(next.date_naive(), tomorrow);
    assert_eq!(next.hour(), 10);
}

#[test]
fn select_occurrence_prefers_future_today() {
    assert_eq!(select_occurrence(1_000, 5_000, 500), 1_000);
}

#[test]
fn select_occurrence_pushes_exact_match_to_tomorrow() {
    assert_eq!(select_occurrence(1_000, 5_000, 1_000), 5_000);
}

#[test]
fn select_occurrence_pushes_past_to_tomorrow() {
    assert_eq!(select_occurrence(1_000, 5_000, 2_000), 5_000);
}

#[test]
fn ambiguous_time_resolves_to_the_earlier_instant() {
    // A "fall back" fold: the wall-clock time maps to two instants, and
    // the resolver deterministically keeps the earlier one, whichever
    // order the zone reported the pair in.
    let r = pick_instant(&ResolvedLocal::Twice {
        first_ms: 1_000,
        second_ms: 4_600_000,
    });
    assert_eq!(r, Some(1_000));
    let r = pick_instant(&ResolvedLocal::Twice {
        first_ms: 4_600_000,
        second_ms: 1_000,
    });
    assert_eq!(r, Some(1_000));
    assert_eq!(pick_instant(&ResolvedLocal::Unique { utc_ms: 7 }), Some(7));
    assert_eq!(pick_instant(&ResolvedLocal::Skipped), None);
}

#[test]
fn empty_schedule_stays_empty() {
    let schedule = Schedule::new();
    let now = local_instant_of(Local::now());
    assert!(schedule.get_next_at(&now, 0).is_none());
    assert!(schedule.get_next_at(&now, 0).is_none());
    assert!(schedule.get_next_at(&now, 1_000).is_none());
}

#[test]
fn duplicate_times_are_legal() {
    let schedule = schedule_from_str(&["09:00", "09:00"], 60);
    assert_eq!(schedule.targets().len(), 2);
    let now = local_instant_of(Local::now());
    assert!(schedule.get_next_at(&now, 0).is_some());
}

#[test]
fn parse_hhmm_is_strict() {
    assert_eq!(TimeOfDay::parse_hhmm("08:00"), Some(tod(8, 0)));
    assert_eq!(TimeOfDay::parse_hhmm("23:59"), Some(tod(23, 59)));
    assert_eq!(TimeOfDay::parse_hhmm("00:00"), Some(tod(0, 0)));
    assert_eq!(TimeOfDay::parse_hhmm("24:00"), None);
    assert_eq!(TimeOfDay::parse_hhmm("08:60"), None);
    assert_eq!(TimeOfDay::parse_hhmm("8:00"), None);
    assert_eq!(TimeOfDay::parse_hhmm("08:00:00"), None);
    assert_eq!(TimeOfDay::parse_hhmm("0800"), None);
    assert_eq!(TimeOfDay::parse_hhmm(""), None);
}

#[test]
fn default_config_builds_a_valid_schedule() {
    let config = volume_scheduler::config::default_config();
    assert_eq!(config.ramp_duration_seconds, 60);
    let schedule = Schedule::from_schedule_items(config.schedule, config.ramp_duration_seconds)
        .unwrap();
    assert_eq!(schedule.targets().len(), 2);
    assert_eq!(schedule.targets()[0].time, tod(8, 0));
    assert_eq!(schedule.targets()[0].desired_sound.value(), 54);
    assert_eq!(schedule.targets()[1].time, tod(9, 0));
    assert_eq!(schedule.targets()[1].desired_sound.value(), 23);
}

#[test]
fn invocation_start_precedes_deadline_by_ramp() {
    let schedule = schedule_from_str(&["08:00", "17:00"], 60);
    let now = local_instant_of(Local::now());
    let invocation = schedule.get_next_at(&now, 10_000_000).unwrap();
    assert_eq!(invocation.ramp_duration, 60_000);
    assert_eq!(invocation.get_start(), invocation.time - 60_000);
}
