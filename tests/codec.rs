use nost::annotation::{
    annotate, extract_field_from_annotation, filter_annotation_by_events, parse_annotation,
    Annotation, DecodeError,
};
use nost::events::NotEvent;
use nost::scan::{annotation_lines, decode_annotation_lines};
use nost::timestamp::parse_timestamp;
use nost::uid::parse_uid;

const SAMPLE: &str = "not:{uid:'b86bc6ed-50a5-4ef2-bdd3-e17baef11eff',created_at:'2025-09-29T00:00:43.245684903+02:00',event:'START_WORK'}";

fn rfc3339_of(a: &Annotation) -> String {
    let offset = chrono::FixedOffset::east_opt(a.datetime.offset_seconds).unwrap();
    chrono::DateTime::from_timestamp(a.datetime.unix_seconds, a.datetime.nanos)
        .unwrap()
        .with_timezone(&offset)
        .to_rfc3339()
}

#[test]
fn annotation_extract_uid_from_annotation() {
    let annotation = SAMPLE.to_string();
    let uid = extract_field_from_annotation(&annotation, "uid");
    assert_eq!(uid.unwrap().to_string(), "b86bc6ed-50a5-4ef2-bdd3-e17baef11eff");
}

#[test]
fn annotation_extract_datetime_from_annotation() {
    let annotation = SAMPLE.to_string();
    let datetime = extract_field_from_annotation(&annotation, "created_at");
    assert_eq!(datetime.unwrap().to_string(), "2025-09-29T00:00:43.245684903+02:00");
}

#[test]
fn annotation_extract_event_from_annotation() {
    let annotation = SAMPLE.to_string();
    let event = extract_field_from_annotation(&annotation, "event");
    assert_eq!(event.unwrap().to_string(), "START_WORK");
}

#[test]
fn extract_extract_uid_from_annotation() {
    let annotation = SAMPLE.to_string();
    let uid = extract_field_from_annotation(&annotation, "uid");
    assert_eq!(uid.unwrap().to_string(), "b86bc6ed-50a5-4ef2-bdd3-e17baef11eff");
}

#[test]
fn extract_extract_datetime_from_annotation() {
    let annotation = SAMPLE.to_string();
    let datetime = extract_field_from_annotation(&annotation, "created_at");
    assert_eq!(datetime.unwrap().to_string(), "2025-09-29T00:00:43.245684903+02:00");
}

#[test]
fn extract_extract_event_from_annotation() {
    let annotation = SAMPLE.to_string();
    let event = extract_field_from_annotation(&annotation, "event");
    assert_eq!(event.unwrap().to_string(), "START_WORK");
}

#[test]
fn test_parse_annotation() {
    let raw_annotation = "not:{date:'2025-09-29T00:00:43.245684903+02:00',event:'START_WORK',uid:'b86bc6ed-50a5-4ef2-bdd3-e17baef11eff'}";
    let annotation = parse_annotation(raw_annotation).unwrap();
    assert_eq!(rfc3339_of(&annotation), "2025-09-29T00:00:43.245684903+02:00");
    assert_eq!(annotation.event, NotEvent::StartWork);
    assert_eq!(annotation.uid_string(), "b86bc6ed-50a5-4ef2-bdd3-e17baef11eff");
}

#[test]
fn extract_field_missing_or_empty_value() {
    assert!(extract_field_from_annotation("not:{uid:''}", "uid").is_none());
    assert!(extract_field_from_annotation("not:{uid:'abc}", "uid").is_none());
    assert!(extract_field_from_annotation("not:{event:'X'}", "uid").is_none());
    assert_eq!(
        extract_field_from_annotation("a:'1',a:'2'", "a").unwrap(),
        "1".to_string()
    );
}

#[test]
fn parsed_fields_hold_expected_values() {
    let raw = "not:{date:'2025-09-29T00:00:43.245684903+02:00',event:'STOP_WORK',uid:'b86bc6ed-50a5-4ef2-bdd3-e17baef11eff',workday:'2025-09-28'}";
    let a = parse_annotation(raw).unwrap();
    assert_eq!(a.event, NotEvent::StopWork);
    assert_eq!(a.datetime.offset_seconds, 7200);
    assert_eq!(a.datetime.nanos, 245_684_903);
    assert_eq!(a.datetime.unix_seconds, 1_759_096_843);
    assert_eq!(a.datetime.date.year, 2025);
    assert_eq!(a.datetime.date.month, 9);
    assert_eq!(a.datetime.date.day, 29);
    assert_eq!(a.uid, 0xb86bc6ed_50a5_4ef2_bdd3_e17baef11eff_u128);
    assert_eq!(a.workday.as_deref(), Some("2025-09-28"));
}

#[test]
fn decode_reports_missing_date() {
    let raw = "not:{event:'START_WORK',uid:'b86bc6ed-50a5-4ef2-bdd3-e17baef11eff'}";
    assert_eq!(parse_annotation(raw).unwrap_err(), DecodeError::MissingOrInvalidDate);
    let bad = "not:{date:'yesterday',event:'START_WORK',uid:'b86bc6ed-50a5-4ef2-bdd3-e17baef11eff'}";
    assert_eq!(parse_annotation(bad).unwrap_err(), DecodeError::MissingOrInvalidDate);
}

#[test]
fn decode_reports_missing_event() {
    let raw = "not:{date:'2025-09-29T00:00:43+02:00',uid:'b86bc6ed-50a5-4ef2-bdd3-e17baef11eff'}";
    assert_eq!(parse_annotation(raw).unwrap_err(), DecodeError::MissingOrInvalidEvent);
    let bad = "not:{date:'2025-09-29T00:00:43+02:00',event:'LUNCH',uid:'b86bc6ed-50a5-4ef2-bdd3-e17baef11eff'}";
    assert_eq!(parse_annotation(bad).unwrap_err(), DecodeError::MissingOrInvalidEvent);
}

#[test]
fn decode_reports_missing_uid() {
    let raw = "not:{date:'2025-09-29T00:00:43+02:00',event:'CREATE_NOT'}";
    assert_eq!(parse_annotation(raw).unwrap_err(), DecodeError::MissingOrInvalidUid);
    let bad = "not:{date:'2025-09-29T00:00:43+02:00',event:'CREATE_NOT',uid:'1234'}";
    assert_eq!(parse_annotation(bad).unwrap_err(), DecodeError::MissingOrInvalidUid);
    assert_eq!(DecodeError::MissingOrInvalidUid.message(), "Missing or invalid uid");
}

#[test]
fn encode_then_decode_gives_the_event_back() {
    let uid = 0x0123_4567_89ab_cdef_0123_4567_89ab_cdef_u128;
    let line = annotate(
        Some("2025-09-01T09:00:00+02:00"),
        NotEvent::StartWork,
        Some(uid),
        Some("2025-09-01"),
    );
    assert_eq!(
        line,
        "[//]: # \"not:{date:'2025-09-01T09:00:00+02:00',event:'START_WORK',uid:'01234567-89ab-cdef-0123-456789abcdef',workday:'2025-09-01'}\""
    );
    let a = parse_annotation(&line).unwrap();
    assert_eq!(a.uid, uid);
    assert_eq!(a.event, NotEvent::StartWork);
    assert_eq!(a.datetime, parse_timestamp("2025-09-01T09:00:00+02:00").unwrap());
    assert_eq!(a.workday.as_deref(), Some("2025-09-01"));
}

#[test]
fn encode_without_date_or_uid_still_decodes() {
    let line = annotate(None, NotEvent::CreateNot, None, None);
    assert!(line.starts_with("[//]: # \"not:{date:'"));
    assert!(line.ends_with("'}\""));
    let a = parse_annotation(&line).unwrap();
    assert_eq!(a.event, NotEvent::CreateNot);
    assert!(a.workday.is_none());
}

#[test]
fn uid_text_round_trips() {
    let u = parse_uid("b86bc6ed-50a5-4ef2-bdd3-e17baef11eff").unwrap();
    assert_eq!(u, 0xb86bc6ed_50a5_4ef2_bdd3_e17baef11eff_u128);
    assert!(parse_uid("not-a-uid").is_none());
}

#[test]
fn event_codes_are_stable() {
    assert_eq!(NotEvent::StartWork.code(), "START_WORK");
    assert_eq!(NotEvent::StopWork.code(), "STOP_WORK");
    assert_eq!(NotEvent::CreateNot.code(), "CREATE_NOT");
    assert_eq!(NotEvent::from_code(&['S', 'T', 'O', 'P', '_', 'W', 'O', 'R', 'K']), Ok(NotEvent::StopWork));
    assert_eq!(NotEvent::from_code(&['s', 't', 'o', 'p']), Err(()));
}

#[test]
fn annotation_lines_are_selected() {
    let content = "# Monday\n[//]: # \"not:{date:'x'}\"  \r\nsome text\n[//]: # \"note\"\n[//]: # \"not\n";
    let lines = annotation_lines(content);
    assert_eq!(lines.len(), 2);
    assert_eq!(lines[0], "[//]: # \"not:{date:'x'}\"  ");
    assert_eq!(lines[1], "[//]: # \"note\"");
    assert!(annotation_lines("").is_empty());
    let unicode_blank = "[//]: # \"not:{date:'x'}\"\u{a0}\u{3000}\nx";
    assert_eq!(annotation_lines(unicode_blank).len(), 1);
}

#[test]
fn batch_with_one_good_and_one_bad_line() {
    let good = "[//]: # \"not:{date:'2025-09-01T09:00:00+02:00',event:'START_WORK',uid:'b86bc6ed-50a5-4ef2-bdd3-e17baef11eff'}\"";
    let bad = "[//]: # \"not:{date:'2025-09-01T10:00:00+02:00',event:'START_WORK'}\"";
    let content = format!("{}\n{}\n", good, bad);
    let lines = annotation_lines(&content);
    let report = decode_annotation_lines(&lines);
    assert_eq!(report.annotations.len(), 1);
    assert_eq!(report.failures.len(), 1);
    assert_eq!(report.failures[0].error, DecodeError::MissingOrInvalidUid);
    assert_eq!(
        report.failures[0].text,
        "{date:'2025-09-01T10:00:00+02:00',event:'START_WORK'}"
    );
}

#[test]
fn line_without_payload_is_passed_over() {
    let lines = vec!["[//]: # \"note\"".to_string()];
    let report = decode_annotation_lines(&lines);
    assert!(report.annotations.is_empty());
    assert!(report.failures.is_empty());
}

#[test]
fn filter_keeps_order_and_kinds() {
    let mk = |event: NotEvent, uid: u128| Annotation {
        uid,
        event,
        datetime: parse_timestamp("2025-09-01T09:00:00Z").unwrap(),
        workday: None,
    };
    let all = vec![
        mk(NotEvent::CreateNot, 1),
        mk(NotEvent::StartWork, 2),
        mk(NotEvent::StopWork, 3),
        mk(NotEvent::CreateNot, 4),
    ];
    let kept = filter_annotation_by_events(all, vec![NotEvent::StartWork, NotEvent::StopWork]);
    let uids: Vec<u128> = kept.iter().map(|a| a.uid).collect();
    assert_eq!(uids, vec![2, 3]);
    let none = filter_annotation_by_events(vec![mk(NotEvent::StartWork, 5)], vec![]);
    assert!(none.is_empty());
}
