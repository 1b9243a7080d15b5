//! The issue-tracker connection settings.
//!
//! Reading them from a file and talking to the tracker happen outside the
//! library; these are the plain settings the callers hand around.

use vstd::prelude::*;

verus! {

/// The tracker connection settings: where to ask and which fields carry the
/// estimates and dates.
#[derive(Debug, Clone, PartialEq)]
pub struct JiraProjectMetaData {
    pub base_url: String,
    pub project_key: String,
    pub throughput_query: String,
    pub project_query: String,
    pub estimation_field_id: String,
    pub start_date_field_id: String,
    pub actual_start_date_field_id: String,
    pub actual_end_date_field_id: String,
}

impl Default for JiraProjectMetaData {
    /// Every setting starts empty.
    fn default() -> (r: JiraProjectMetaData)
        ensures
            r.base_url@ == Seq::<char>::empty(),
            r.project_key@ == Seq::<char>::empty(),
            r.throughput_query@ == Seq::<char>::empty(),
            r.project_query@ == Seq::<char>::empty(),
            r.estimation_field_id@ == Seq::<char>::empty(),
            r.start_date_field_id@ == Seq::<char>::empty(),
            r.actual_start_date_field_id@ == Seq::<char>::empty(),
            r.actual_end_date_field_id@ == Seq::<char>::empty(),
    {
        JiraProjectMetaData {
            base_url: String::new(),
            project_key: String::new(),
            throughput_query: String::new(),
            project_query: String::new(),
            estimation_field_id: String::new(),
            start_date_field_id: String::new(),
            actual_start_date_field_id: String::new(),
            actual_end_date_field_id: String::new(),
        }
    }
}

/// Reads tracker settings from their file (the reading itself stands
/// outside the library).
pub struct JiraConfigParser;

/// The tracker credentials.
#[derive(Debug, Clone, PartialEq)]
pub struct AuthData {
    pub username: String,
    pub api_token: String,
}

} // verus!
