use forecasts::data_converter::throughput_from_issues;
use forecasts::estimate::{Estimate, StoryPointEstimate, ThreePointEstimate};
use forecasts::date::Date;
use forecasts::epic::Epic;
use forecasts::issue::Issue;
use forecasts::throughput::Throughput;

fn on_date(year: i32, month: u32, day: u32) -> Date {
    Date::from_ymd(year, month, day).unwrap()
}

#[test]
fn default_issue_has_none_fields() {
    let issue = Issue::new();
    assert_eq!(issue.issue_id, None);
    assert_eq!(issue.summary, None);
    assert_eq!(issue.description, None);
    assert_eq!(issue.estimate, None);
    assert_eq!(issue.dependencies, Some(Vec::new()));
    assert_eq!(issue.subgraph, None);
    assert_eq!(issue.status, None);
    assert_eq!(issue.created_date, None);
    assert_eq!(issue.start_date, None);
    assert_eq!(issue.done_date, None);
}

#[test]
fn default_epic_has_none_fields_and_empty_issues() {
    let epic = Epic::new();
    assert_eq!(epic.issue_id, None);
    assert_eq!(epic.summary, None);
    assert_eq!(epic.description, None);
    assert_eq!(epic.status, None);
    assert!(epic.issues.is_empty());
    assert_eq!(epic.start_date, None);
    assert_eq!(epic.due_date, None);
}

#[test]
fn construct_throughput_from_issue_vector() {
    let done_dates = vec![
        on_date(2026, 1, 1), // Thursday
        on_date(2026, 1, 1),
        on_date(2026, 1, 5), // Monday
        on_date(2026, 1, 5),
        on_date(2026, 1, 5),
        on_date(2026, 1, 7), // Wednesday
    ];

    let done_issues: Vec<Issue> = done_dates
        .iter()
        .map(|&date| {
            let mut issue = Issue::new();
            issue.done_date = Some(date);
            issue
        })
        .collect();

    let result = throughput_from_issues(&done_issues).unwrap();

    let expected: Vec<Throughput> = vec![
        (on_date(2026, 1, 1), 2), // Thursday
        (on_date(2026, 1, 2), 0),
        // the weekend is skipped
        (on_date(2026, 1, 5), 3), // Monday
        (on_date(2026, 1, 6), 0),
        (on_date(2026, 1, 7), 1),
    ]
    .into_iter()
    .map(|(date, completed_issues)| Throughput {
        date,
        completed_issues,
    })
    .collect();
    assert_eq!(result, expected);
}

#[test]
fn dates_parse_and_format_as_ymd_text() {
    let date = Date::parse("2026-02-16").unwrap();
    assert_eq!(date.format(), "2026-02-16");
    assert_eq!(date, on_date(2026, 2, 16));
    assert!(Date::parse("2026-99-01").is_none());
    assert!(Date::from_ymd(2026, 2, 30).is_none());
    assert!(Date::from_ymd(2024, 2, 29).is_some());
}

#[test]
fn issues_report_zero_durations() {
    let mut issue = Issue::new();
    assert!(issue.has_zero_duration().is_err());
    issue.estimate = Some(Estimate::StoryPoint(StoryPointEstimate { estimate: Some(0) }));
    assert_eq!(issue.has_zero_duration().unwrap(), true);
    issue.estimate = Some(Estimate::ThreePoint(ThreePointEstimate {
        optimistic: Some(0),
        most_likely: Some(0),
        pessimistic: Some(1000),
    }));
    assert_eq!(issue.has_zero_duration().unwrap(), false);
}
