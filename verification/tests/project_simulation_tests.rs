use forecasts::calendar::{Calendar, FreeDateRange, TeamCalendar};
use forecasts::date::Weekday;
use forecasts::date::Date;
use forecasts::estimate::{Estimate, StoryPointEstimate, ThreePointEstimate};
use forecasts::issue::{Issue, IssueId, IssueStatus};
use forecasts::project::Project;
use forecasts::project_simulation::{
    calculate_project_velocity, fibonacci_bounds, run_simulation, simulate_project,
    topological_sort, ProjectSimulationError,
};
use forecasts::sampler::{MockSampler, ThreePointSampler};

fn on_date(year: i32, month: u32, day: u32) -> Date {
    Date::from_ymd(year, month, day).unwrap()
}

fn build_done_issue(id: &str, points_millis: u32, start: Date, done: Date) -> Issue {
    let mut issue = Issue::new();
    issue.issue_id = Some(IssueId { id: id.to_string() });
    issue.status = Some(IssueStatus::Done);
    issue.start_date = Some(start);
    issue.done_date = Some(done);
    issue.estimate = Some(Estimate::StoryPoint(StoryPointEstimate {
        estimate: Some(points_millis),
    }));
    issue
}

fn build_three_point_issue(id: &str, days_millis: u32, deps: &[&str]) -> Issue {
    let mut issue = Issue::new();
    issue.issue_id = Some(IssueId { id: id.to_string() });
    issue.estimate = Some(Estimate::ThreePoint(ThreePointEstimate {
        optimistic: Some(days_millis),
        most_likely: Some(days_millis),
        pessimistic: Some(days_millis),
    }));
    issue.dependencies = if deps.is_empty() {
        None
    } else {
        Some(
            deps.iter()
                .map(|dep| IssueId {
                    id: (*dep).to_string(),
                })
                .collect(),
        )
    };
    issue
}

fn build_story_point_issue(id: &str, points_millis: u32, deps: &[&str]) -> Issue {
    let mut issue = Issue::new();
    issue.issue_id = Some(IssueId { id: id.to_string() });
    issue.status = Some(IssueStatus::ToDo);
    issue.estimate = Some(Estimate::StoryPoint(StoryPointEstimate {
        estimate: Some(points_millis),
    }));
    issue.dependencies = if deps.is_empty() {
        None
    } else {
        Some(
            deps.iter()
                .map(|dep| IssueId {
                    id: (*dep).to_string(),
                })
                .collect(),
        )
    };
    issue
}

/// The Beta-PERT sampler over the library's thousandths units, drawing from
/// a random generator.
struct BetaPertSampler<R: rand::Rng> {
    rng: R,
}

impl<R: rand::Rng> ThreePointSampler for BetaPertSampler<R> {
    fn sample(&mut self, optimistic: u32, most_likely: u32, pessimistic: u32) -> Result<u32, ()> {
        let o = optimistic as f32 / 1000.0;
        let ml = most_likely as f32 / 1000.0;
        let p = pessimistic as f32 / 1000.0;
        if p < o {
            return Err(());
        }
        if (p - o).abs() < f32::EPSILON {
            return Ok(optimistic);
        }
        if ml < o || ml > p {
            return Err(());
        }
        let range = (p - o) as f64;
        let alpha = 1.0 + 4.0 * ((ml - o) as f64 / range);
        let beta = 1.0 + 4.0 * ((p - ml) as f64 / range);
        let beta_dist = rand_distr::Beta::new(alpha, beta).map_err(|_| ())?;
        let sample = rand_distr::Distribution::sample(&beta_dist, &mut self.rng) as f32;
        Ok(((o + sample * (p - o)) * 1000.0).round() as u32)
    }
}

#[test]
fn simulate_rejects_cyclic_dependencies() {
    let base = on_date(2026, 1, 1);
    let mut issue_a = build_done_issue("A", 1000, base, base.add_days(1).unwrap());
    let mut issue_b = build_done_issue("B", 1000, base, base.add_days(2).unwrap());
    issue_a
        .dependencies
        .get_or_insert_with(Vec::new)
        .push(IssueId {
            id: "B".to_string(),
        });
    issue_b
        .dependencies
        .get_or_insert_with(Vec::new)
        .push(IssueId {
            id: "A".to_string(),
        });

    let project = Project {
        name: "Demo".to_string(),
        work_packages: vec![issue_a, issue_b],
    };
    let calendar = TeamCalendar::new();

    let mut sampler = MockSampler;
    let error = simulate_project(&project, 10, "2026-01-01", calendar, &mut sampler).unwrap_err();
    assert!(matches!(error, ProjectSimulationError::CyclicDependencies));
}

#[test]
fn simulate_project_with_dependencies_matches_critical_path() {
    let base = on_date(2026, 1, 1);
    let done_issue = build_done_issue("DONE-1", 100_000, base, base.add_days(1).unwrap());
    // Simulate from a Monday so that no item's working time crosses a
    // weekend: the totals then equal the critical-path sums directly.
    let start = on_date(2026, 1, 5);

    // WP0, WP1, WP2, WP3, expected duration (all in thousandths of a day)
    let test_cases: Vec<(u32, u32, u32, u32, u64)> = vec![
        (1000, 1000, 1000, 1000, 2000), // critical path: WP0 -> WP2 -> FIN
        (6000, 1000, 0, 1000, 6000),    // critical path: WP0 -> FIN
        (2000, 1000, 4000, 1000, 6000), // critical path: WP0 -> WP2 -> FIN
        (1000, 5000, 2000, 1000, 7000), // critical path: WP1 -> WP2 -> FIN
        (1000, 5000, 1000, 4000, 9000), // critical path: WP1 -> WP3 -> FIN
    ];

    for (idx, (wp0, wp1, wp2, wp3, expected)) in test_cases.into_iter().enumerate() {
        let rng = <rand::rngs::StdRng as rand::SeedableRng>::seed_from_u64(42 + idx as u64);
        let mut sampler = BetaPertSampler { rng };
        let project = Project {
            name: "Dependent Project".to_string(),
            work_packages: vec![
                done_issue.clone(),
                build_story_point_issue("SP-1", 1000, &[]),
                build_story_point_issue("SP-2", 1000, &[]),
                build_three_point_issue("WP0", wp0, &[]),
                build_three_point_issue("WP1", wp1, &[]),
                build_three_point_issue("WP2", wp2, &["WP0", "WP1"]),
                build_three_point_issue("WP3", wp3, &["WP1"]),
                build_three_point_issue("FIN", 0, &["WP0", "WP2", "WP3"]),
            ],
        };
        let calendar = TeamCalendar::new();

        let order = topological_sort(&project).unwrap();
        let velocity = calculate_project_velocity(&project, &calendar).unwrap();
        let output = run_simulation(
            &project,
            &order,
            Some(velocity),
            25,
            start,
            &mut sampler,
            &calendar,
        )
        .unwrap();

        let p50 = output.report.p50.days;
        assert!(
            p50 >= expected && p50 <= expected + 250,
            "expected ~{expected} thousandths of a day, got {p50}"
        );
        assert_eq!(output.report.iterations, 25);
        assert!(output.report.velocity.is_some());
    }
}

#[test]
fn story_point_chain_stretches_across_the_weekend() {
    // One completed two-point item gives two points per day; six two-point
    // items in a chain are six working days, but starting Monday the chain
    // crosses one weekend, so the elapsed total is eight days.
    let done = build_done_issue("DONE-1", 2000, on_date(2026, 2, 13), on_date(2026, 2, 13));
    let project = Project {
        name: "Demo".to_string(),
        work_packages: vec![
            done,
            build_story_point_issue("SP-1", 2000, &[]),
            build_story_point_issue("SP-2", 2000, &["SP-1"]),
            build_story_point_issue("SP-3", 2000, &["SP-2"]),
            build_story_point_issue("SP-4", 2000, &["SP-3"]),
            build_story_point_issue("SP-5", 2000, &["SP-4"]),
            build_story_point_issue("SP-6", 2000, &["SP-5"]),
        ],
    };
    let calendar = TeamCalendar::new();
    let mut sampler = MockSampler;
    let output = simulate_project(&project, 1, "2026-02-16", calendar, &mut sampler).unwrap();
    assert_eq!(output.report.velocity, Some(2000));
    assert_eq!(output.report.p50.days, 8000);
    assert_eq!(output.report.p50.date, "2026-02-24");
}

#[test]
fn three_point_chain_takes_the_longest_path_not_the_sum() {
    let project = Project {
        name: "Demo".to_string(),
        work_packages: vec![
            build_three_point_issue("WP0", 1000, &[]),
            build_three_point_issue("WP1", 1000, &[]),
            build_three_point_issue("WP2", 2000, &["WP0", "WP1"]),
        ],
    };
    let calendar = TeamCalendar::new();
    let mut sampler = MockSampler;
    let output = simulate_project(&project, 3, "2026-01-01", calendar, &mut sampler).unwrap();
    assert_eq!(output.report.p50.days, 3000);
    assert_eq!(output.report.p0.days, 3000);
    assert_eq!(output.report.p100.days, 3000);
}

#[test]
fn mock_sampler_runs_are_reproducible() {
    let project = Project {
        name: "Demo".to_string(),
        work_packages: vec![
            build_three_point_issue("WP0", 1000, &[]),
            build_three_point_issue("WP1", 3000, &["WP0"]),
        ],
    };
    let mut sampler = MockSampler;
    let first = simulate_project(
        &project,
        7,
        "2026-01-01",
        TeamCalendar::new(),
        &mut sampler,
    )
    .unwrap();
    let second = simulate_project(
        &project,
        7,
        "2026-01-01",
        TeamCalendar::new(),
        &mut sampler,
    )
    .unwrap();
    assert_eq!(first.results, second.results);
    assert_eq!(first.report.p0.days, first.report.p50.days);
    assert_eq!(first.report.p50.days, first.report.p85.days);
    assert_eq!(first.report.p85.days, first.report.p100.days);
    let wps = first.work_packages.unwrap();
    for wp in wps {
        assert_eq!(wp.percentiles.p0, wp.percentiles.p50);
        assert_eq!(wp.percentiles.p50, wp.percentiles.p85);
        assert_eq!(wp.percentiles.p85, wp.percentiles.p100);
    }
}

#[test]
fn simulate_rejects_zero_iterations_and_empty_projects() {
    let project = Project {
        name: "Demo".to_string(),
        work_packages: vec![build_three_point_issue("WP0", 1000, &[])],
    };
    let mut sampler = MockSampler;
    let error =
        simulate_project(&project, 0, "2026-01-01", TeamCalendar::new(), &mut sampler).unwrap_err();
    assert!(matches!(error, ProjectSimulationError::InvalidIterations));

    let empty = Project {
        name: "Demo".to_string(),
        work_packages: vec![],
    };
    let error =
        simulate_project(&empty, 5, "2026-01-01", TeamCalendar::new(), &mut sampler).unwrap_err();
    assert!(matches!(error, ProjectSimulationError::EmptyProject));
}

#[test]
fn simulate_rejects_an_unknown_dependency_and_a_bad_start_date() {
    let project = Project {
        name: "Demo".to_string(),
        work_packages: vec![build_three_point_issue("WP0", 1000, &["GHOST"])],
    };
    let mut sampler = MockSampler;
    let error =
        simulate_project(&project, 5, "2026-01-01", TeamCalendar::new(), &mut sampler).unwrap_err();
    assert!(matches!(
        error,
        ProjectSimulationError::UnknownDependency { .. }
    ));

    let fine = Project {
        name: "Demo".to_string(),
        work_packages: vec![build_three_point_issue("WP0", 1000, &[])],
    };
    let error =
        simulate_project(&fine, 5, "2026-99-01", TeamCalendar::new(), &mut sampler).unwrap_err();
    assert!(matches!(error, ProjectSimulationError::InvalidStartDate(_)));
}

#[test]
fn fibonacci_bounds_take_the_surrounding_terms() {
    assert_eq!(fibonacci_bounds(0), (0, 1000));
    assert_eq!(fibonacci_bounds(1000), (0, 1000));
    assert_eq!(fibonacci_bounds(1500), (1000, 2000));
    assert_eq!(fibonacci_bounds(5000), (3000, 5000));
    assert_eq!(fibonacci_bounds(6000), (5000, 8000));
    assert_eq!(fibonacci_bounds(987000), (610000, 987000));
    assert_eq!(fibonacci_bounds(988000), (987000, 987000));
}

#[test]
fn project_simulation_calculate_velocity_from_done_story_points() {
    let base = on_date(2026, 1, 1);
    let mut issues = Vec::new();
    for idx in 0..30u32 {
        let start = base.add_days(idx).unwrap();
        let done = start.add_days(1).unwrap();
        issues.push(build_done_issue(&format!("ABC-{idx}"), 2000, start, done));
    }
    let project = Project {
        name: "Demo".to_string(),
        work_packages: issues,
    };
    let no_free_days_calendar = TeamCalendar {
        calendars: vec![Calendar {
            free_weekdays: vec![],
            free_date_ranges: vec![],
        }],
    };

    let velocity = calculate_project_velocity(&project, &no_free_days_calendar).unwrap();
    assert_eq!(velocity, 1935);
}

#[test]
fn project_simulation_calculate_velocity_uses_last_thirty_issues() {
    let base = on_date(2026, 1, 1);
    let mut issues = Vec::new();
    for idx in 0..31u32 {
        let start = base.add_days(idx).unwrap();
        let done = start.add_days(1).unwrap();
        issues.push(build_done_issue(&format!("ABC-{idx}"), 1000, start, done));
    }
    let project = Project {
        name: "Demo".to_string(),
        work_packages: issues,
    };
    let no_free_days_calendar = TeamCalendar {
        calendars: vec![Calendar {
            free_weekdays: vec![],
            free_date_ranges: vec![],
        }],
    };

    let velocity = calculate_project_velocity(&project, &no_free_days_calendar).unwrap();
    assert_eq!(velocity, 968);
}

#[test]
fn project_simulation_calculate_velocity_takes_fee_days_into_account() {
    let issues = vec![
        build_done_issue("ABC-0", 2000, on_date(2026, 2, 13), on_date(2026, 2, 16)),
        build_done_issue("ABC-1", 2000, on_date(2026, 2, 13), on_date(2026, 2, 17)),
        build_done_issue("ABC-2", 2000, on_date(2026, 2, 13), on_date(2026, 2, 18)),
        build_done_issue("ABC-3", 2000, on_date(2026, 2, 13), on_date(2026, 2, 19)),
        build_done_issue("ABC-4", 2000, on_date(2026, 2, 13), on_date(2026, 2, 20)),
        build_done_issue("ABC-5", 2000, on_date(2026, 2, 13), on_date(2026, 2, 23)),
    ];

    let half_capacity_calendar = TeamCalendar {
        calendars: vec![
            Calendar {
                free_weekdays: vec![Weekday::Sat, Weekday::Sun],
                free_date_ranges: vec![],
            },
            Calendar {
                free_weekdays: vec![Weekday::Sat, Weekday::Sun],
                free_date_ranges: vec![FreeDateRange {
                    start_date: on_date(2026, 2, 13),
                    end_date: on_date(2026, 2, 23),
                }],
            },
        ],
    };

    let project = Project {
        name: "Demo".to_string(),
        work_packages: issues,
    };

    let velocity = calculate_project_velocity(&project, &half_capacity_calendar).unwrap();
    assert_eq!(velocity, 3429);
}

#[test]
fn topological_order_puts_dependencies_first() {
    let project = Project {
        name: "Demo".to_string(),
        work_packages: vec![
            build_three_point_issue("LAST", 1000, &["MID"]),
            build_three_point_issue("MID", 1000, &["FIRST"]),
            build_three_point_issue("FIRST", 1000, &[]),
        ],
    };
    let order = topological_sort(&project).unwrap();
    let pos = |id: &str| order.iter().position(|x| x == id).unwrap();
    assert_eq!(order.len(), 3);
    assert!(pos("FIRST") < pos("MID"));
    assert!(pos("MID") < pos("LAST"));
}

#[test]
fn duplicate_identifiers_are_rejected() {
    let project = Project {
        name: "Demo".to_string(),
        work_packages: vec![
            build_three_point_issue("SAME", 1000, &[]),
            build_three_point_issue("SAME", 2000, &[]),
        ],
    };
    let error = topological_sort(&project).unwrap_err();
    assert!(matches!(error, ProjectSimulationError::DuplicateIssueId(_)));
}
