//! Work-item estimates.
//!
//! Durations and story points are held in thousandths of their unit (days
//! or points), so that capacity and velocity arithmetic stays exact where
//! the inputs are whole-valued.

use vstd::prelude::*;

verus! {

/// An estimate in story points, in thousandths of a point.
#[derive(Debug, Clone, PartialEq)]
pub struct StoryPointEstimate {
    pub estimate: Option<u32>,
}

/// An (optimistic, most likely, pessimistic) duration estimate, each value
/// in thousandths of a day.
#[derive(Debug, Clone, PartialEq)]
pub struct ThreePointEstimate {
    pub optimistic: Option<u32>,
    pub most_likely: Option<u32>,
    pub pessimistic: Option<u32>,
}

/// Links to a simulation report file whose 0, 50 and 100 percentiles should
/// be used as the estimate.
#[derive(Debug, Clone, PartialEq)]
pub struct ReferenceEstimate {
    pub report_file_path: String,
    pub cached_estimate: Option<ThreePointEstimate>,
}

/// The estimate attached to a work item.
#[derive(Debug, Clone, PartialEq)]
pub enum Estimate {
    StoryPoint(StoryPointEstimate),
    ThreePoint(ThreePointEstimate),
    Reference(ReferenceEstimate),
}

} // verus!
