//! Dependency-aware Monte Carlo delivery forecasts.
//!
//! A project is a set of work items with uncertain durations and declared
//! dependencies. The library orders the items topologically, calibrates the
//! team's velocity against a capacity calendar, samples per-item durations
//! from three-point estimates, propagates earliest-finish times along the
//! dependency graph over many trials, and reduces the totals to percentile
//! estimates with calendar dates. A simpler sibling engine replays recorded
//! daily throughput instead of a graph.
//!
//! Quantities are held in thousandths of their unit (days or story points),
//! and dates as proleptic Gregorian day numbers, so that the arithmetic the
//! contracts speak of is exact. Reading and writing files, drawing charts
//! and talking to an issue tracker stand outside the library; the record
//! types under `records` are the boundary they hand values across.

pub mod calendar;
pub mod data_converter;
pub mod data_source;
pub mod date;
pub mod epic;
pub mod estimate;
pub mod graph;
pub mod issue;
pub mod jira;
pub mod percentiles;
pub mod project;
pub mod project_simulation;
pub mod records;
pub mod report_format;
pub mod sampler;
pub mod simulation;
pub mod simulation_types;
pub mod throughput;
pub mod velocity_calculation;
