use forecasts::calendar::{create_calendar_without_any_free_days, Calendar, FreeDateRange, TeamCalendar};
use forecasts::date::{Date, Weekday};
use forecasts::estimate::{Estimate, StoryPointEstimate};
use forecasts::issue::{Issue, IssueId, IssueStatus};
use forecasts::project::Project;
use forecasts::velocity_calculation::calculate_project_velocity;

fn on_date(year: i32, month: u32, day: u32) -> Date {
    Date::from_ymd(year, month, day).unwrap()
}

fn build_done_issue(id: &str, points_millis: u32, start: Date, done: Date) -> Issue {
    let mut issue = Issue::new();
    issue.issue_id = Some(IssueId { id: id.to_string() });
    issue.status = Some(IssueStatus::Done);
    issue.start_date = Some(start);
    issue.done_date = Some(done);
    issue.estimate = Some(Estimate::StoryPoint(StoryPointEstimate {
        estimate: Some(points_millis),
    }));
    issue
}

#[test]
fn calculate_velocity_from_done_story_points() {
    let base = on_date(2026, 1, 1);
    let mut issues = Vec::new();
    for idx in 0..30u32 {
        let start = base.add_days(idx).unwrap();
        let done = start.add_days(1).unwrap();
        issues.push(build_done_issue(&format!("ABC-{idx}"), 2000, start, done));
    }
    let project = Project {
        name: "Demo".to_string(),
        work_packages: issues,
    };
    let no_free_days_calendar = TeamCalendar {
        calendars: vec![Calendar {
            free_weekdays: vec![],
            free_date_ranges: vec![],
        }],
    };

    let velocity = calculate_project_velocity(&project, &no_free_days_calendar).unwrap();
    // 60 points over an inclusive span of 31 days: 60/31 of a point per
    // day, in thousandths rounded to nearest.
    assert_eq!(velocity, 1935);
}

#[test]
fn calculate_velocity_uses_last_thirty_issues() {
    let base = on_date(2026, 1, 1);
    let mut issues = Vec::new();
    for idx in 0..31u32 {
        let start = base.add_days(idx).unwrap();
        let done = start.add_days(1).unwrap();
        issues.push(build_done_issue(&format!("ABC-{idx}"), 1000, start, done));
    }
    let project = Project {
        name: "Demo".to_string(),
        work_packages: issues,
    };
    let no_free_days_calendar = TeamCalendar {
        calendars: vec![Calendar {
            free_weekdays: vec![],
            free_date_ranges: vec![],
        }],
    };

    let velocity = calculate_project_velocity(&project, &no_free_days_calendar).unwrap();
    // The 30 selected issues span an inclusive period of 31 days: 30/31.
    assert_eq!(velocity, 968);
}

#[test]
fn calculate_velocity_takes_fee_days_into_account() {
    let issues = vec![
        // The period runs from 2026-02-13 to 2026-02-23: two weekends and
        // seven working days.
        build_done_issue("ABC-0", 2000, on_date(2026, 2, 13), on_date(2026, 2, 16)),
        build_done_issue("ABC-1", 2000, on_date(2026, 2, 13), on_date(2026, 2, 17)),
        build_done_issue("ABC-2", 2000, on_date(2026, 2, 13), on_date(2026, 2, 18)),
        build_done_issue("ABC-3", 2000, on_date(2026, 2, 13), on_date(2026, 2, 19)),
        build_done_issue("ABC-4", 2000, on_date(2026, 2, 13), on_date(2026, 2, 20)),
        build_done_issue("ABC-5", 2000, on_date(2026, 2, 13), on_date(2026, 2, 23)),
    ];

    let half_capacity_calendar = TeamCalendar {
        calendars: vec![
            Calendar {
                free_weekdays: vec![Weekday::Sat, Weekday::Sun],
                free_date_ranges: vec![],
            },
            Calendar {
                free_weekdays: vec![Weekday::Sat, Weekday::Sun],
                free_date_ranges: vec![FreeDateRange {
                    start_date: on_date(2026, 2, 13),
                    end_date: on_date(2026, 2, 23),
                }],
            },
        ],
    };

    let project = Project {
        name: "Demo".to_string(),
        work_packages: issues,
    };

    let velocity = calculate_project_velocity(&project, &half_capacity_calendar).unwrap();
    // 12 points over 7 half-capacity working days: 24/7 points per day.
    assert_eq!(velocity, 3429);
}

#[test]
fn velocity_fails_without_completed_story_points() {
    let project = Project {
        name: "Demo".to_string(),
        work_packages: vec![Issue::new()],
    };
    let calendar = TeamCalendar::new();
    assert!(calculate_project_velocity(&project, &calendar).is_err());
}

#[test]
fn velocity_is_positive_and_repeatable() {
    let base = on_date(2026, 3, 2);
    let project = Project {
        name: "Demo".to_string(),
        work_packages: vec![build_done_issue(
            "ABC-1",
            1500,
            base,
            base.add_days(2).unwrap(),
        )],
    };
    let calendar = create_calendar_without_any_free_days();
    let first = calculate_project_velocity(&project, &calendar).unwrap();
    let second = calculate_project_velocity(&project, &calendar).unwrap();
    assert_eq!(first, second);
    assert!(first > 0);
    assert_eq!(first, 500);
}

#[test]
fn velocity_period_starts_at_the_earliest_selected_start() {
    // The item completed first started later; the capacity period still
    // opens at the earliest start date among the selected items.
    let base = on_date(2026, 3, 2);
    let project = Project {
        name: "Demo".to_string(),
        work_packages: vec![
            build_done_issue(
                "ABC-1",
                2000,
                base.add_days(7).unwrap(),
                base.add_days(9).unwrap(),
            ),
            build_done_issue(
                "ABC-2",
                2000,
                base.add_days(4).unwrap(),
                base.add_days(10).unwrap(),
            ),
        ],
    };
    let calendar = create_calendar_without_any_free_days();
    let velocity = calculate_project_velocity(&project, &calendar).unwrap();
    // four points over the seven days from the earliest start to the latest
    // done date: 4/7 of a point per day.
    assert_eq!(velocity, 571);
}
