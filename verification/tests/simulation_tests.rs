use forecasts::calendar::{Calendar, TeamCalendar};
use forecasts::date::{Date, Weekday};
use forecasts::simulation::{run_simulation_with_rng, std_rng_from_seed, SimulationError};
use forecasts::throughput::Throughput;

fn on_date(year: i32, month: u32, day: u32) -> Date {
    Date::from_ymd(year, month, day).unwrap()
}

#[test]
fn run_simulation_with_rng_uses_workdays_for_dates() {
    let throughput = vec![Throughput {
        date: on_date(2026, 1, 30),
        completed_issues: 1,
    }];
    let start_date = on_date(2026, 1, 30);
    let mut rng = std_rng_from_seed(42);
    let calendar = TeamCalendar::new();
    let simulation =
        run_simulation_with_rng(&throughput, 3, 2, start_date, &calendar, &mut rng).unwrap();

    assert_eq!(simulation.results, vec![2000, 2000, 2000]);
    assert_eq!(simulation.report.p0.days, 2000);
    assert_eq!(simulation.report.p100.days, 2000);
    assert_eq!(simulation.report.p50.days, 2000);
    assert_eq!(simulation.report.p85.days, 2000);
    assert_eq!(simulation.report.p0.date, "2026-02-02");
    assert_eq!(simulation.report.p100.date, "2026-02-02");
    assert_eq!(simulation.report.iterations, 3);
    assert_eq!(simulation.report.velocity, None);
    assert_eq!(simulation.report.data_source, "");
}

#[test]
fn run_simulation_with_rng_applies_calendar_capacity_to_throughput() {
    let throughput = vec![Throughput {
        date: on_date(2026, 2, 16),
        completed_issues: 2,
    }];
    let start_date = on_date(2026, 2, 16); // Monday

    // Capacity on Monday is a half, by averaging two calendars.
    let calendar = TeamCalendar {
        calendars: vec![
            Calendar {
                free_weekdays: vec![],
                free_date_ranges: vec![],
            },
            Calendar {
                free_weekdays: vec![Weekday::Mon],
                free_date_ranges: vec![],
            },
        ],
    };

    let mut rng = std_rng_from_seed(123);
    let simulation =
        run_simulation_with_rng(&throughput, 1, 2, start_date, &calendar, &mut rng).unwrap();

    // Day one: two issues at half capacity make one (not done).
    // Day two: Tuesday at full capacity makes two more (done).
    assert_eq!(simulation.results, vec![2000]);
    assert_eq!(simulation.report.p50.days, 2000);
    assert_eq!(simulation.report.p50.date, "2026-02-17");
}

#[test]
fn run_simulation_rejects_bad_inputs() {
    let start = on_date(2026, 1, 1);
    let calendar = TeamCalendar::new();
    let one = vec![Throughput {
        date: start,
        completed_issues: 1,
    }];
    let zeros = vec![Throughput {
        date: start,
        completed_issues: 0,
    }];
    let empty: Vec<Throughput> = vec![];

    let mut rng = std_rng_from_seed(7);
    assert!(matches!(
        run_simulation_with_rng(&one, 0, 1, start, &calendar, &mut rng),
        Err(SimulationError::InvalidIterations)
    ));
    assert!(matches!(
        run_simulation_with_rng(&one, 1, 0, start, &calendar, &mut rng),
        Err(SimulationError::InvalidIssueCount)
    ));
    assert!(matches!(
        run_simulation_with_rng(&empty, 1, 1, start, &calendar, &mut rng),
        Err(SimulationError::EmptyThroughput)
    ));
    assert!(matches!(
        run_simulation_with_rng(&zeros, 1, 1, start, &calendar, &mut rng),
        Err(SimulationError::ZeroThroughput)
    ));
}
