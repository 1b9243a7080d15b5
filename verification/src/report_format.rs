//! Rendering a simulation report as plain text.
//!
//! Day counts are printed with two decimals (their thousandths rounded to
//! hundredths, halves up), as in `P50 | 5.50 | 2026-02-06`.

use vstd::prelude::*;

use crate::simulation_types::{SimulationPercentile, SimulationReport};

verus! {

/// The decimal digits of a number, most significant first.
pub open spec fn spec_digits(n: nat) -> Seq<char>
    decreases n,
{
    if n < 10 {
        seq![spec_digit(n as int)]
    } else {
        spec_digits(n / 10).push(spec_digit((n % 10) as int))
    }
}

/// The digit character of a value below ten.
pub open spec fn spec_digit(d: int) -> char {
    ((48 + d) as u8) as char
}

/// One digit as text.
fn digit_str(d: u64) -> (r: &'static str)
    requires
        d < 10,
    ensures
        r@ == seq![spec_digit(d as int)],
{
    proof {
        reveal_strlit("0");
        reveal_strlit("1");
        reveal_strlit("2");
        reveal_strlit("3");
        reveal_strlit("4");
        reveal_strlit("5");
        reveal_strlit("6");
        reveal_strlit("7");
        reveal_strlit("8");
        reveal_strlit("9");
    }
    if d == 0 {
        proof {
            assert("0"@ =~= seq![spec_digit(0)]);
        }
        "0"
    } else if d == 1 {
        proof {
            assert("1"@ =~= seq![spec_digit(1)]);
        }
        "1"
    } else if d == 2 {
        proof {
            assert("2"@ =~= seq![spec_digit(2)]);
        }
        "2"
    } else if d == 3 {
        proof {
            assert("3"@ =~= seq![spec_digit(3)]);
        }
        "3"
    } else if d == 4 {
        proof {
            assert("4"@ =~= seq![spec_digit(4)]);
        }
        "4"
    } else if d == 5 {
        proof {
            assert("5"@ =~= seq![spec_digit(5)]);
        }
        "5"
    } else if d == 6 {
        proof {
            assert("6"@ =~= seq![spec_digit(6)]);
        }
        "6"
    } else if d == 7 {
        proof {
            assert("7"@ =~= seq![spec_digit(7)]);
        }
        "7"
    } else if d == 8 {
        proof {
            assert("8"@ =~= seq![spec_digit(8)]);
        }
        "8"
    } else {
        proof {
            assert("9"@ =~= seq![spec_digit(9)]);
        }
        "9"
    }
}

/// A number as decimal text.
pub fn u64_to_string(n: u64) -> (r: String)
    ensures
        r@ == spec_digits(n as nat),
    decreases n,
{
    if n < 10 {
        digit_str(n).to_owned()
    } else {
        let mut s = u64_to_string(n / 10);
        s.append(digit_str(n % 10));
        proof {
            assert(s@ =~= spec_digits(n as nat));
        }
        s
    }
}

/// A thousandths count as days with two decimals: the hundredths (rounded
/// to nearest, halves up), written as whole days, a point, and two digits.
pub open spec fn spec_days_text(millis: nat) -> Seq<char> {
    let centi = (millis + 5) / 10;
    spec_digits(centi / 100) + seq!['.'] + seq![spec_digit(((centi / 10) % 10) as int)] + seq![
        spec_digit((centi % 10) as int),
    ]
}

/// Writes a thousandths day count with two decimals.
pub fn days_to_string(millis: u64) -> (r: String)
    requires
        millis <= u64::MAX - 5,
    ensures
        r@ == spec_days_text(millis as nat),
{
    let centi: u64 = (millis + 5) / 10;
    let mut s = u64_to_string(centi / 100);
    proof {
        reveal_strlit(".");
    }
    s.append(".");
    s.append(digit_str((centi / 10) % 10));
    s.append(digit_str(centi % 10));
    proof {
        assert(s@ =~= spec_days_text(millis as nat));
    }
    s
}

/// One table row of the report: label, days and date, pipe-separated.
pub open spec fn spec_percentile_row(label: Seq<char>, p: SimulationPercentile) -> Seq<char> {
    label + " | "@ + spec_days_text(p.days as nat) + " | "@ + p.date@
}

/// Writes one table row: `P50 | 5.50 | 2026-02-06`.
pub fn format_percentile_row(label: &str, percentile: &SimulationPercentile) -> (r: String)
    requires
        percentile.days <= u64::MAX - 5,
    ensures
        r@ == spec_percentile_row(label@, *percentile),
{
    let mut s = label.to_owned();
    s.append(" | ");
    let days = days_to_string(percentile.days);
    s.append(days.as_str());
    s.append(" | ");
    s.append(percentile.date.as_str());
    proof {
        assert(s@ =~= spec_percentile_row(label@, *percentile));
    }
    s
}

/// The whole report as text: a header of its fields, then the percentile
/// table.
pub open spec fn spec_report_text(report: SimulationReport) -> Seq<char> {
    "Simulation Report\nData source: "@ + report.data_source@ + "\nStart date: "@
        + report.start_date@ + "\nIterations: "@ + spec_digits(report.iterations as nat)
        + "\nSimulated items: "@ + spec_digits(report.simulated_items as nat) + "\nVelocity: "@ + (
    match report.velocity {
        Some(v) => spec_days_text(v as nat),
        None => "n/a"@,
    }) + "\n\nPercentiles:\nPercentile | Days | Date\n-----------|------|-----\n"@
        + spec_percentile_row("P0"@, report.p0) + "\n"@ + spec_percentile_row("P50"@, report.p50)
        + "\n"@ + spec_percentile_row("P85"@, report.p85) + "\n"@ + spec_percentile_row(
        "P100"@,
        report.p100,
    )
}

/// Writes the report: a header naming source, start date, iterations, item
/// count and velocity (`n/a` where none), then the percentile table.
pub fn format_simulation_report(report: &SimulationReport) -> (r: String)
    requires
        report.p0.days <= u64::MAX - 5,
        report.p50.days <= u64::MAX - 5,
        report.p85.days <= u64::MAX - 5,
        report.p100.days <= u64::MAX - 5,
        report.velocity matches Some(v) ==> v <= u64::MAX - 5,
    ensures
        r@ == spec_report_text(*report),
{
    let mut s = "Simulation Report\nData source: ".to_owned();
    s.append(report.data_source.as_str());
    s.append("\nStart date: ");
    s.append(report.start_date.as_str());
    s.append("\nIterations: ");
    let iterations_text = u64_to_string(report.iterations as u64);
    s.append(iterations_text.as_str());
    s.append("\nSimulated items: ");
    let items_text = u64_to_string(report.simulated_items as u64);
    s.append(items_text.as_str());
    s.append("\nVelocity: ");
    match report.velocity {
        Some(v) => {
            let velocity_text = days_to_string(v);
            s.append(velocity_text.as_str());
        },
        None => {
            s.append("n/a");
        },
    }
    s.append("\n\nPercentiles:\nPercentile | Days | Date\n-----------|------|-----\n");
    let row0 = format_percentile_row("P0", &report.p0);
    s.append(row0.as_str());
    s.append("\n");
    let row50 = format_percentile_row("P50", &report.p50);
    s.append(row50.as_str());
    s.append("\n");
    let row85 = format_percentile_row("P85", &report.p85);
    s.append(row85.as_str());
    s.append("\n");
    let row100 = format_percentile_row("P100", &report.p100);
    s.append(row100.as_str());
    proof {
        assert(s@ =~= spec_report_text(*report));
    }
    s
}

} // verus!
