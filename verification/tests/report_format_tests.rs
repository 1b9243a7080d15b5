use forecasts::report_format::{format_percentile_row, format_simulation_report, u64_to_string};
use forecasts::simulation_types::{SimulationPercentile, SimulationReport};

fn build_report() -> SimulationReport {
    SimulationReport {
        data_source: "input.yaml".to_string(),
        start_date: "2026-02-01".to_string(),
        velocity: Some(2500),
        iterations: 100,
        simulated_items: 12,
        p0: SimulationPercentile {
            days: 1000,
            date: "2026-02-02".to_string(),
        },
        p50: SimulationPercentile {
            days: 5500,
            date: "2026-02-06".to_string(),
        },
        p85: SimulationPercentile {
            days: 10000,
            date: "2026-02-11".to_string(),
        },
        p100: SimulationPercentile {
            days: 15250,
            date: "2026-02-16".to_string(),
        },
    }
}

#[test]
fn format_simulation_report_includes_header_and_table() {
    let report = build_report();
    let output = format_simulation_report(&report);

    assert!(output.contains("Simulation Report"));
    assert!(output.contains("Data source: input.yaml"));
    assert!(output.contains("Start date: 2026-02-01"));
    assert!(output.contains("Iterations: 100"));
    assert!(output.contains("Simulated items: 12"));
    assert!(output.contains("Velocity: 2.50"));
    assert!(output.contains("Percentile | Days | Date"));
    assert!(output.contains("P0 | 1.00 | 2026-02-02"));
    assert!(output.contains("P50 | 5.50 | 2026-02-06"));
    assert!(output.contains("P85 | 10.00 | 2026-02-11"));
    assert!(output.contains("P100 | 15.25 | 2026-02-16"));
}

#[test]
fn format_simulation_report_uses_na_for_missing_velocity() {
    let mut report = build_report();
    report.velocity = None;

    let output = format_simulation_report(&report);
    assert!(output.contains("Velocity: n/a"));
}

#[test]
fn format_percentile_row_rounds_to_two_decimals() {
    let row = format_percentile_row(
        "P50",
        &SimulationPercentile {
            days: 1935,
            date: "2026-02-06".to_string(),
        },
    );
    assert_eq!(row, "P50 | 1.94 | 2026-02-06");
}

#[test]
fn numbers_print_in_decimal() {
    assert_eq!(u64_to_string(0), "0");
    assert_eq!(u64_to_string(10), "10");
    assert_eq!(u64_to_string(987654), "987654");
}
