//! Work items and their identifiers.

use vstd::prelude::*;

use crate::date::Date;
use crate::estimate::{Estimate, StoryPointEstimate};

verus! {

/// The workflow state of an issue.
#[derive(Debug, Clone, PartialEq, Eq, Structural)]
pub enum IssueStatus {
    ToDo,
    InProgress,
    Done,
}

/// The identifier of an issue.
#[derive(Debug, Clone, PartialEq, Eq)]
pub struct IssueId {
    pub id: String,
}

/// A work item: identifier, free-text fields, estimate, dependencies,
/// status and dates.
#[derive(Debug, Clone, PartialEq)]
pub struct Issue {
    pub issue_id: Option<IssueId>,
    pub summary: Option<String>,
    pub description: Option<String>,
    pub estimate: Option<Estimate>,
    pub dependencies: Option<Vec<IssueId>>,
    pub subgraph: Option<String>,
    pub status: Option<IssueStatus>,
    pub created_date: Option<Date>,
    pub start_date: Option<Date>,
    pub done_date: Option<Date>,
}

/// Failures of issue-level queries.
#[derive(Debug, Clone, PartialEq, Eq, Structural)]
pub enum IssueError {
    NoEstimate,
}

/// The story-point value of an estimate, when it is a story-point estimate
/// that carries one.
pub open spec fn spec_story_point_value(estimate: Option<Estimate>) -> Option<u32> {
    match estimate {
        Some(Estimate::StoryPoint(sp)) => sp.estimate,
        _ => None,
    }
}

impl Issue {
    /// A fresh issue: every field unset, except for an empty dependency
    /// list.
    pub fn new() -> (r: Issue)
        ensures
            r.issue_id is None,
            r.summary is None,
            r.description is None,
            r.estimate is None,
            r.dependencies matches Some(deps) && deps@.len() == 0,
            r.subgraph is None,
            r.status is None,
            r.created_date is None,
            r.start_date is None,
            r.done_date is None,
    {
        Issue {
            issue_id: None,
            summary: None,
            description: None,
            estimate: None,
            dependencies: Some(Vec::new()),
            subgraph: None,
            status: None,
            created_date: None,
            start_date: None,
            done_date: None,
        }
    }

    /// The issue's story-point value, when its estimate is a story-point
    /// estimate that carries one.
    pub fn story_point_value(&self) -> (r: Option<u32>)
        ensures
            r == spec_story_point_value(self.estimate),
    {
        match &self.estimate {
            Some(Estimate::StoryPoint(StoryPointEstimate { estimate })) => *estimate,
            Some(Estimate::ThreePoint(_)) => None,
            Some(Estimate::Reference(_)) => None,
            None => None,
        }
    }

    /// Whether the estimate promises zero duration: a story-point estimate
    /// of zero points, or a three-point estimate of three zeros. Fails when
    /// the issue has no estimate.
    pub fn has_zero_duration(&self) -> (r: Result<bool, IssueError>)
        ensures
            match r {
                Ok(zero) => self.estimate matches Some(est) && zero == match est {
                    Estimate::StoryPoint(sp) => sp.estimate == Some(0u32),
                    Estimate::ThreePoint(tp) => tp.optimistic == Some(0u32)
                        && tp.most_likely == Some(0u32) && tp.pessimistic == Some(0u32),
                    Estimate::Reference(_) => false,
                },
                Err(e) => self.estimate is None && e == IssueError::NoEstimate,
            },
    {
        let estimate = match &self.estimate {
            Some(est) => est,
            None => {
                return Err(IssueError::NoEstimate);
            },
        };
        let result = match estimate {
            Estimate::StoryPoint(StoryPointEstimate { estimate }) => match estimate {
                Some(points) => *points == 0,
                None => false,
            },
            Estimate::ThreePoint(three_point) => {
                let o_zero = match three_point.optimistic {
                    Some(v) => v == 0,
                    None => false,
                };
                let m_zero = match three_point.most_likely {
                    Some(v) => v == 0,
                    None => false,
                };
                let p_zero = match three_point.pessimistic {
                    Some(v) => v == 0,
                    None => false,
                };
                o_zero && m_zero && p_zero
            },
            Estimate::Reference(_) => false,
        };
        Ok(result)
    }
}

} // verus!
