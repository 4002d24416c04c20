use chrono::{Duration, Local, TimeZone};
use nost::annotation::Annotation;
use nost::events::NotEvent;
use nost::report::compose_work_stats;
use nost::timestamp::{parse_timestamp, CalendarDay};
use nost::work::{
    compute_work_stats, compute_work_time, parse_day, sort_annotations_by_time, PeriodWorkStats,
    WeekId, WorkStats, WorkStatsByWeek,
};

fn make_annotation(event: NotEvent, datetime: chrono::DateTime<Local>) -> Annotation {
    Annotation {
        uid: uuid::Uuid::new_v4().as_u128(),
        event,
        datetime: parse_timestamp(&datetime.to_rfc3339()).unwrap(),
        workday: None,
    }
}

fn at(event: NotEvent, text: &str) -> Annotation {
    Annotation {
        uid: 7,
        event,
        datetime: parse_timestamp(text).unwrap(),
        workday: None,
    }
}

fn day(year: i32, month: u32, day: u32) -> CalendarDay {
    CalendarDay { year, month, day }
}

#[test]
fn test_compute_work_time() {
    let start = Local::now();
    let stop = start + Duration::hours(1);
    let start_annotation = make_annotation(NotEvent::StartWork, start);
    let stop_annotation = make_annotation(NotEvent::StopWork, stop);
    let annotations = vec![start_annotation, stop_annotation];
    assert_eq!(compute_work_time(&annotations), 60);
}

#[test]
fn test_compute_work_stats_single_day() {
    let start = Local.with_ymd_and_hms(2025, 9, 1, 9, 0, 0).unwrap();
    let stop = start + Duration::hours(1);
    let annotations = vec![
        make_annotation(NotEvent::StartWork, start),
        make_annotation(NotEvent::StopWork, stop),
    ];
    let stats = compute_work_stats(&annotations);
    assert_eq!(stats.total_duration_in_minutes, 60);
    assert_eq!(stats.total_work_days, 1);
    assert_eq!(stats.work_stats_by_week.len(), 1);
    let week_stats = stats.work_stats_by_week.first().unwrap();
    assert_eq!(week_stats.work_stats.len(), 1);
    assert_eq!(week_stats.work_stats[0].length, 60);
}

#[test]
fn test_compute_work_stats_multiple_days() {
    let start1 = Local.with_ymd_and_hms(2025, 9, 1, 9, 0, 0).unwrap();
    let stop1 = start1 + Duration::hours(1);
    let start2 = Local.with_ymd_and_hms(2025, 9, 2, 10, 0, 0).unwrap();
    let stop2 = start2 + Duration::hours(2);
    let annotations = vec![
        make_annotation(NotEvent::StartWork, start1),
        make_annotation(NotEvent::StopWork, stop1),
        make_annotation(NotEvent::StartWork, start2),
        make_annotation(NotEvent::StopWork, stop2),
    ];
    let stats = compute_work_stats(&annotations);
    assert_eq!(stats.total_duration_in_minutes, 180);
    assert_eq!(stats.total_work_days, 2);
    assert_eq!(stats.work_stats_by_week.len(), 1);
    let week_stats = stats.work_stats_by_week.first().unwrap();
    assert_eq!(week_stats.work_stats.len(), 2);
    let lengths: Vec<u64> = week_stats.work_stats.iter().map(|ws| ws.length).collect();
    assert!(lengths.contains(&60));
    assert!(lengths.contains(&120));
}

#[test]
fn test_compute_work_stats_multiple_weeks() {
    let start1 = Local.with_ymd_and_hms(2025, 8, 31, 9, 0, 0).unwrap(); // week 35
    let stop1 = start1 + Duration::hours(1);
    let start2 = Local.with_ymd_and_hms(2025, 9, 1, 10, 0, 0).unwrap(); // week 36
    let stop2 = start2 + Duration::hours(2);
    let annotations = vec![
        make_annotation(NotEvent::StartWork, start1),
        make_annotation(NotEvent::StopWork, stop1),
        make_annotation(NotEvent::StartWork, start2),
        make_annotation(NotEvent::StopWork, stop2),
    ];
    let stats = compute_work_stats(&annotations);
    assert_eq!(stats.total_duration_in_minutes, 180);
    assert_eq!(stats.total_work_days, 2);
    assert_eq!(stats.work_stats_by_week.len(), 2);
}

#[test]
fn one_session_of_an_hour() {
    let annotations = vec![
        at(NotEvent::StartWork, "2025-09-03T09:00:00+02:00"),
        at(NotEvent::StopWork, "2025-09-03T10:00:00+02:00"),
    ];
    let stats = compute_work_stats(&annotations);
    assert_eq!(stats.total_duration_in_minutes, 60);
    assert_eq!(stats.total_work_days, 1);
    let week = &stats.work_stats_by_week[0];
    assert_eq!(week.week, WeekId { year: 2025, week: 36 });
    assert_eq!(week.work_stats, vec![WorkStats { day: day(2025, 9, 3), length: 60 }]);
}

#[test]
fn sessions_in_consecutive_weeks() {
    let annotations = vec![
        at(NotEvent::StartWork, "2025-09-01T09:00:00Z"),
        at(NotEvent::StopWork, "2025-09-01T10:30:00Z"),
        at(NotEvent::StartWork, "2025-08-29T14:00:00Z"),
        at(NotEvent::StopWork, "2025-08-29T14:45:30Z"),
    ];
    let stats = compute_work_stats(&annotations);
    assert_eq!(stats.work_stats_by_week.len(), 2);
    let w35 = &stats.work_stats_by_week[0];
    let w36 = &stats.work_stats_by_week[1];
    assert_eq!(w35.week, WeekId { year: 2025, week: 35 });
    assert_eq!(w35.total_duration_in_minutes, 45);
    assert_eq!(w36.week, WeekId { year: 2025, week: 36 });
    assert_eq!(w36.total_duration_in_minutes, 90);
    assert_eq!(stats.total_duration_in_minutes, 135);
    assert_eq!(stats.total_work_days, 2);
}

#[test]
fn lone_start_counts_nothing() {
    let annotations = vec![at(NotEvent::StartWork, "2025-09-03T09:00:00Z")];
    let stats = compute_work_stats(&annotations);
    assert_eq!(stats.total_duration_in_minutes, 0);
    assert_eq!(stats.total_work_days, 0);
    assert!(stats.work_stats_by_week.is_empty());
}

#[test]
fn last_start_wins() {
    let annotations = vec![
        at(NotEvent::StartWork, "2025-09-03T08:00:00Z"),
        at(NotEvent::StartWork, "2025-09-03T09:00:00Z"),
        at(NotEvent::StopWork, "2025-09-03T09:20:00Z"),
    ];
    assert_eq!(compute_work_time(&annotations), 20);
    let stats = compute_work_stats(&annotations);
    assert_eq!(stats.total_work_days, 1);
}

#[test]
fn stop_without_start_is_ignored() {
    let annotations = vec![
        at(NotEvent::StopWork, "2025-09-03T08:00:00Z"),
        at(NotEvent::StopWork, "2025-09-03T09:00:00Z"),
        at(NotEvent::CreateNot, "2025-09-03T09:10:00Z"),
    ];
    let stats = compute_work_stats(&annotations);
    assert_eq!(stats.total_duration_in_minutes, 0);
    assert_eq!(stats.total_work_days, 0);
    assert_eq!(compute_work_time(&Vec::new()), 0);
}

#[test]
fn events_are_ordered_by_time_first() {
    let annotations = vec![
        at(NotEvent::StopWork, "2025-09-03T10:00:00Z"),
        at(NotEvent::StartWork, "2025-09-03T09:00:00Z"),
    ];
    assert_eq!(compute_work_time(&annotations), 60);
    let sorted = sort_annotations_by_time(&annotations);
    assert_eq!(sorted[0].event, NotEvent::StartWork);
}

#[test]
fn equal_instants_keep_their_order() {
    let annotations = vec![
        at(NotEvent::StartWork, "2025-09-03T09:00:00Z"),
        at(NotEvent::StopWork, "2025-09-03T09:30:00Z"),
        at(NotEvent::StartWork, "2025-09-03T09:30:00Z"),
        at(NotEvent::StopWork, "2025-09-03T10:00:00Z"),
    ];
    assert_eq!(compute_work_time(&annotations), 60);
}

#[test]
fn minutes_are_truncated_and_offsets_compared_as_instants() {
    let annotations = vec![
        at(NotEvent::StartWork, "2025-09-03T09:00:00+02:00"),
        at(NotEvent::StopWork, "2025-09-03T07:10:59.999Z"),
    ];
    assert_eq!(compute_work_time(&annotations), 10);
}

#[test]
fn work_day_label_decides_the_day() {
    let mut start = at(NotEvent::StartWork, "2025-09-03T23:30:00Z");
    start.workday = Some("2025-09-02".to_string());
    let stop = at(NotEvent::StopWork, "2025-09-04T00:30:00Z");
    let stats = compute_work_stats(&vec![start, stop]);
    assert_eq!(stats.work_stats_by_week[0].work_stats[0].day, day(2025, 9, 2));
    assert_eq!(stats.work_stats_by_week[0].work_stats[0].length, 60);

    let mut start = at(NotEvent::StartWork, "2025-09-03T23:30:00Z");
    start.workday = Some("not a day".to_string());
    let stop = at(NotEvent::StopWork, "2025-09-04T00:30:00Z");
    let stats = compute_work_stats(&vec![start, stop]);
    assert_eq!(stats.work_stats_by_week[0].work_stats[0].day, day(2025, 9, 3));
}

#[test]
fn two_sessions_same_day_are_summed() {
    let annotations = vec![
        at(NotEvent::StartWork, "2025-09-03T09:00:00Z"),
        at(NotEvent::StopWork, "2025-09-03T10:00:00Z"),
        at(NotEvent::StartWork, "2025-09-03T13:00:00Z"),
        at(NotEvent::StopWork, "2025-09-03T13:15:00Z"),
    ];
    let stats = compute_work_stats(&annotations);
    assert_eq!(stats.total_work_days, 1);
    assert_eq!(stats.work_stats_by_week[0].work_stats[0].length, 75);
}

#[test]
fn day_labels_are_read_strictly() {
    assert_eq!(parse_day("2024-02-29"), Some(day(2024, 2, 29)));
    assert_eq!(parse_day("2025-02-29"), None);
    assert_eq!(parse_day("2025-13-01"), None);
    assert_eq!(parse_day("2025-9-1"), None);
    assert_eq!(day(2025, 9, 1).label(), "2025-09-01");
}

#[test]
fn report_totals_and_salary() {
    let stats = PeriodWorkStats {
        total_duration_in_minutes: 120,
        total_work_days: 2,
        work_stats_by_week: vec![WorkStatsByWeek {
            week: WeekId { year: 2025, week: 36 },
            total_duration_in_minutes: 120,
            work_stats: vec![
                WorkStats { day: day(2025, 9, 1), length: 60 },
                WorkStats { day: day(2025, 9, 2), length: 60 },
            ],
        }],
    };
    let report = compose_work_stats(&stats, 50000, "EUR");
    assert!(report.contains("| Total     | 2.00 |"));
    assert!(report.contains("| Work Days | 2     |"));
    assert!(report.contains("| Salary    | 1000.00 EUR |"));
    let expected = "\n| Day | Date       | Hours | Acc |\n|-----|------------|-------|-----|\n\
| Mon | 2025-09-01 | 1.00 | 1.00 |\n\
| Tue | 2025-09-02 | 1.00 | 2.00 |\n\
\n| Work Days | 2     |\n\
| Total     | 2.00 |\n\
| Salary    | 1000.00 EUR |\n";
    assert_eq!(report, expected);
}

#[test]
fn report_rounds_hours() {
    let stats = PeriodWorkStats {
        total_duration_in_minutes: 50,
        total_work_days: 1,
        work_stats_by_week: vec![WorkStatsByWeek {
            week: WeekId { year: 2025, week: 36 },
            total_duration_in_minutes: 50,
            work_stats: vec![WorkStats { day: day(2025, 9, 7), length: 50 }],
        }],
    };
    let report = compose_work_stats(&stats, 12345, "USD");
    assert!(report.contains("| Sun | 2025-09-07 | 0.83 | 0.83 |"));
    assert!(report.contains("| Salary    | 123.45 USD |"));
    let empty = PeriodWorkStats {
        total_duration_in_minutes: 0,
        total_work_days: 0,
        work_stats_by_week: vec![],
    };
    assert_eq!(
        compose_work_stats(&empty, 0, "EUR"),
        "\n| Work Days | 0     |\n| Total     | 0.00 |\n| Salary    | 0.00 EUR |\n"
    );
}

#[test]
fn report_sorts_weeks_and_days() {
    let stats = PeriodWorkStats {
        total_duration_in_minutes: 150,
        total_work_days: 3,
        work_stats_by_week: vec![
            WorkStatsByWeek {
                week: WeekId { year: 2025, week: 36 },
                total_duration_in_minutes: 90,
                work_stats: vec![
                    WorkStats { day: day(2025, 9, 2), length: 30 },
                    WorkStats { day: day(2025, 9, 1), length: 60 },
                ],
            },
            WorkStatsByWeek {
                week: WeekId { year: 2025, week: 35 },
                total_duration_in_minutes: 60,
                work_stats: vec![WorkStats { day: day(2025, 8, 29), length: 60 }],
            },
        ],
    };
    let header = "\n| Day | Date       | Hours | Acc |\n|-----|------------|-------|-----|\n";
    let expected = format!(
        "{h}| Fri | 2025-08-29 | 1.00 | 1.00 |\n{h}| Mon | 2025-09-01 | 1.00 | 1.00 |\n| Tue | 2025-09-02 | 0.50 | 1.50 |\n\n| Work Days | 3     |\n| Total     | 2.50 |\n| Salary    | 0.00 EUR |\n",
        h = header
    );
    assert_eq!(compose_work_stats(&stats, 0, "EUR"), expected);
}
