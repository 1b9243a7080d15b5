//! Historical daily throughput.

use vstd::prelude::*;

use crate::date::Date;

verus! {

/// How many issues were completed on a date.
#[derive(Debug, Clone, Copy, PartialEq, Eq, Structural)]
pub struct Throughput {
    pub date: Date,
    pub completed_issues: usize,
}

} // verus!
