//! The shapes a simulation run produces.
//!
//! Day counts are in thousandths of a day; dates are `YYYY-MM-DD` texts.

use vstd::prelude::*;

verus! {

/// One percentile of the completion forecast: days from the start date, and
/// the calendar date those days land on.
#[derive(Debug, Clone)]
pub struct SimulationPercentile {
    pub days: u64,
    pub date: String,
}

/// The persisted outcome of a simulation.
#[derive(Debug, Clone)]
pub struct SimulationReport {
    pub data_source: String,
    pub start_date: String,
    pub velocity: Option<u64>,
    pub iterations: usize,
    pub simulated_items: usize,
    pub p0: SimulationPercentile,
    pub p50: SimulationPercentile,
    pub p85: SimulationPercentile,
    pub p100: SimulationPercentile,
}

/// Per-item percentiles, in thousandths of a day from the start.
#[derive(Debug, Clone, Copy, PartialEq, Eq, Structural)]
pub struct WorkPackagePercentiles {
    pub p0: u64,
    pub p50: u64,
    pub p85: u64,
    pub p100: u64,
}

/// One simulated work package and its percentiles.
#[derive(Debug, Clone)]
pub struct WorkPackageSimulation {
    pub id: String,
    pub percentiles: WorkPackagePercentiles,
}

/// Everything a simulation run yields: the report, the sorted per-trial
/// totals, and the per-item percentiles where a dependency graph was
/// simulated.
#[derive(Debug, Clone)]
pub struct SimulationOutput {
    pub report: SimulationReport,
    pub results: Vec<u64>,
    pub work_packages: Option<Vec<WorkPackageSimulation>>,
}

} // verus!
