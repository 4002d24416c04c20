use nost::commands::{plan_stop_work, NoteTarget};
use nost::events::NotEvent;
use nost::config::{get_value_from_config, is_valid_year_month, Config, ConfigError};
use nost::dates::{
    build_file_path_for_day, build_file_path_for_month, get_date_as_text_en, get_date_as_text_fr,
    get_day_suffix, get_week_of_month, name_file,
};
use nost::timestamp::CalendarDay;

fn config() -> Config {
    Config {
        not_path: "/notes".to_string(),
        language: "fr".to_string(),
        log_level: "info".to_string(),
    }
}

#[test]
fn config_values_by_key() {
    let c = config();
    assert_eq!(Config::keys(), vec!["not_path", "language", "log_level"]);
    assert_eq!(c.get_value("language"), Some("fr".to_string()));
    assert_eq!(c.get_value("colour"), None);
    assert_eq!(get_value_from_config(&c, "not_path"), Ok("/notes".to_string()));
    assert_eq!(get_value_from_config(&c, ""), Err(ConfigError::EmptyKey));
    assert_eq!(get_value_from_config(&c, "theme"), Err(ConfigError::UnknownKey));
}

#[test]
fn year_month_validation() {
    assert!(is_valid_year_month("2025-09"));
    assert!(is_valid_year_month("2025-12"));
    assert!(!is_valid_year_month("2025-13"));
    assert!(!is_valid_year_month("2025-00"));
    assert!(!is_valid_year_month("2025/09"));
    assert!(!is_valid_year_month("25-09"));
    assert!(!is_valid_year_month("2a25-09"));
}

#[test]
fn day_suffixes() {
    assert_eq!(get_day_suffix(1), "st");
    assert_eq!(get_day_suffix(2), "nd");
    assert_eq!(get_day_suffix(3), "rd");
    assert_eq!(get_day_suffix(4), "th");
    assert_eq!(get_day_suffix(11), "th");
    assert_eq!(get_day_suffix(12), "th");
    assert_eq!(get_day_suffix(13), "th");
    assert_eq!(get_day_suffix(21), "st");
    assert_eq!(get_day_suffix(22), "nd");
    assert_eq!(get_day_suffix(31), "st");
}

#[test]
fn paths_and_names() {
    let d = CalendarDay { year: 2025, month: 9, day: 8 };
    assert_eq!(name_file(8), "08.md");
    assert_eq!(name_file(21), "21.md");
    assert_eq!(build_file_path_for_month("/notes", &d), "/notes/2025/09/");
    // September 2025 starts on a Monday: the 8th is in the second week.
    assert_eq!(build_file_path_for_day("/notes", &d), "/notes/2025/09/2/");
    assert_eq!(get_week_of_month(1, 0), 1);
    assert_eq!(get_week_of_month(7, 0), 1);
    assert_eq!(get_week_of_month(8, 0), 2);
    assert_eq!(get_week_of_month(1, 6), 1);
    assert_eq!(get_week_of_month(2, 6), 2);
}

#[test]
fn date_headings() {
    let d = CalendarDay { year: 2025, month: 8, day: 7 };
    assert_eq!(get_date_as_text_en(&d), "# Thursday, August 7th, 2025\n");
    assert_eq!(get_date_as_text_fr(&d), "# Jeudi 7 ao\u{fb}t 2025\n");
    let d = CalendarDay { year: 2025, month: 2, day: 22 };
    assert_eq!(get_date_as_text_en(&d), "# Saturday, February 22nd, 2025\n");
    assert_eq!(get_date_as_text_fr(&d), "# Samedi 22 f\u{e9}vrier 2025\n");
}

#[test]
fn stopping_a_running_session_closes_and_reopens_it() {
    let plan = plan_stop_work(
        Some(NotEvent::StartWork),
        Some("2025-09-01"),
        None,
        "2025-09-02",
        "+02:00",
    );
    assert_eq!(plan.len(), 3);
    assert_eq!(plan[0].date.as_deref(), Some("2025-09-01T23:59:59.999999999+02:00"));
    assert_eq!(plan[0].event, NotEvent::StopWork);
    assert_eq!(plan[0].target, NoteTarget::LastWorkNote);
    assert_eq!(plan[0].workday.as_deref(), Some("2025-09-01"));
    assert_eq!(plan[1].date.as_deref(), Some("2025-09-02T00:00:00.000000000+02:00"));
    assert_eq!(plan[1].event, NotEvent::StartWork);
    assert_eq!(plan[1].workday.as_deref(), Some("2025-09-02"));
    assert_eq!(plan[2].date, None);
    assert_eq!(plan[2].target, NoteTarget::CurrentNote);
}

#[test]
fn stopping_without_a_running_session() {
    let plan = plan_stop_work(Some(NotEvent::StopWork), None, Some("2025-08-30"), "2025-09-02", "Z");
    assert_eq!(plan.len(), 1);
    assert_eq!(plan[0].event, NotEvent::StopWork);
    assert_eq!(plan[0].target, NoteTarget::CurrentNote);
    assert_eq!(plan[0].workday.as_deref(), Some("2025-08-30"));
    let plan = plan_stop_work(None, None, None, "2025-09-02", "Z");
    assert_eq!(plan[0].workday.as_deref(), Some("2025-09-02"));
}
