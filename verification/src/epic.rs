//! Epics: a parent item grouping issues.

use vstd::prelude::*;

use crate::date::Date;
use crate::issue::{Issue, IssueId, IssueStatus};

verus! {

/// An epic and the issues it groups.
#[derive(Debug, Clone, PartialEq)]
pub struct Epic {
    pub issue_id: Option<IssueId>,
    pub summary: Option<String>,
    pub description: Option<String>,
    pub status: Option<IssueStatus>,
    pub issues: Vec<Issue>,
    pub start_date: Option<Date>,
    pub due_date: Option<Date>,
}

impl Epic {
    /// A fresh epic: every field unset and no issues.
    pub fn new() -> (r: Epic)
        ensures
            r.issue_id is None,
            r.summary is None,
            r.description is None,
            r.status is None,
            r.issues@.len() == 0,
            r.start_date is None,
            r.due_date is None,
    {
        Epic {
            issue_id: None,
            summary: None,
            description: None,
            status: None,
            issues: Vec::new(),
            start_date: None,
            due_date: None,
        }
    }
}

} // verus!
