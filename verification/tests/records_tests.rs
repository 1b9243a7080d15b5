use forecasts::date::Weekday;
use forecasts::issue::IssueStatus;
use forecasts::records::{
    calendar_from_record, issues_from_records, parse_status, parse_weekday, CalendarRecord,
    EstimateRecord, IssueRecord, ProjectYamlError, TeamCalendarError,
};

fn record(id: &str) -> IssueRecord {
    IssueRecord {
        id: id.to_string(),
        summary: None,
        description: None,
        estimate: None,
        status: None,
        created_date: None,
        start_date: None,
        done_date: None,
        dependencies: None,
        subgraph: None,
    }
}

#[test]
fn deserialize_project_rejects_invalid_date() {
    let mut bad = record("ABC-3");
    bad.start_date = Some("2026-99-01".to_string());
    let error = issues_from_records(vec![bad]).unwrap_err();
    assert!(matches!(error, ProjectYamlError::InvalidDate(_)));
}

#[test]
fn deserialize_project_rejects_invalid_status() {
    let mut bad = record("ABC-4");
    bad.status = Some("Blocked".to_string());
    let error = issues_from_records(vec![bad]).unwrap_err();
    assert!(matches!(error, ProjectYamlError::InvalidStatus(_)));
}

#[test]
fn deserialize_project_rejects_missing_id() {
    let error = issues_from_records(vec![record("")]).unwrap_err();
    assert!(matches!(error, ProjectYamlError::MissingIssueId));
}

#[test]
fn deserialize_project_uses_previous_issue_for_empty_dependencies() {
    let mut first = record("ABC-1");
    first.dependencies = None;
    let mut second = record("ABC-2");
    second.dependencies = Some(vec![]);

    let issues = issues_from_records(vec![first, second]).unwrap();
    let issue = &issues[1];
    assert_eq!(issue.dependencies.as_ref().unwrap().len(), 1);
    assert_eq!(issue.dependencies.as_ref().unwrap()[0].id, "ABC-1");
}

#[test]
fn deserialize_project_rejects_empty_dependencies_for_first_issue() {
    let mut first = record("ABC-1");
    first.dependencies = Some(vec![]);
    let error = issues_from_records(vec![first]).unwrap_err();
    assert!(matches!(error, ProjectYamlError::MissingPreviousDependency));
}

#[test]
fn deserialize_project_with_story_points() {
    let mut rec = record("ABC-1");
    rec.summary = Some("First".to_string());
    rec.estimate = Some(EstimateRecord::StoryPoints { value: 5000 });
    rec.status = Some("Done".to_string());
    rec.start_date = Some("2026-01-02".to_string());
    rec.done_date = Some("2026-01-05".to_string());
    rec.dependencies = Some(vec!["ABC-0".to_string()]);

    let issues = issues_from_records(vec![rec]).unwrap();
    let issue = &issues[0];
    assert_eq!(issue.issue_id.as_ref().unwrap().id, "ABC-1");
    assert!(matches!(issue.status, Some(IssueStatus::Done)));
    assert_eq!(issue.dependencies.as_ref().unwrap().len(), 1);
    assert_eq!(issue.story_point_value(), Some(5000));
}

#[test]
fn parse_status_folds_capitals() {
    assert!(matches!(
        parse_status(Some(&"TODO".to_string())),
        Ok(Some(IssueStatus::ToDo))
    ));
    assert!(matches!(
        parse_status(Some(&"in progress".to_string())),
        Ok(Some(IssueStatus::InProgress))
    ));
    assert!(matches!(
        parse_status(Some(&"Done".to_string())),
        Ok(Some(IssueStatus::Done))
    ));
    assert!(matches!(parse_status(None), Ok(None)));
    assert!(parse_status(Some(&"Blocked".to_string())).is_err());
}

#[test]
fn returns_error_on_invalid_weekday_value() {
    let record = CalendarRecord {
        free_weekdays: vec!["Funday".to_string()],
        free_date_ranges: vec![],
    };
    let err = calendar_from_record(&record).unwrap_err();
    assert!(matches!(err, TeamCalendarError::InvalidWeekday { .. }));
}

#[test]
fn returns_error_on_invalid_date_format() {
    let record = CalendarRecord {
        free_weekdays: vec![],
        free_date_ranges: vec![("2026-02-xx".to_string(), "2026-02-20".to_string())],
    };
    let err = calendar_from_record(&record).unwrap_err();
    assert!(matches!(err, TeamCalendarError::InvalidDate { .. }));
}

#[test]
fn returns_error_on_invalid_date_range_when_start_after_end() {
    let record = CalendarRecord {
        free_weekdays: vec![],
        free_date_ranges: vec![("2026-02-21".to_string(), "2026-02-20".to_string())],
    };
    let err = calendar_from_record(&record).unwrap_err();
    assert!(matches!(err, TeamCalendarError::InvalidDateRange));
}

#[test]
fn weekday_names_fold_and_accept_short_forms() {
    assert!(matches!(parse_weekday("Mon"), Some(Weekday::Mon)));
    assert!(matches!(parse_weekday("tuesday"), Some(Weekday::Tue)));
    assert!(matches!(parse_weekday("THURS"), Some(Weekday::Thu)));
    assert!(matches!(parse_weekday("sun"), Some(Weekday::Sun)));
    assert!(parse_weekday("Funday").is_none());
}
