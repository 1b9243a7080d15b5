//! Queries and failures of the issue data sources.

use vstd::prelude::*;

verus! {

/// Failures of a data source.
#[derive(Debug, Clone, PartialEq)]
pub enum DataSourceError {
    NotFound,
    Connection,
    Parse,
    Unauthorized,
    Other(String),
}

/// A query against a data source.
#[derive(Debug, Clone, PartialEq)]
pub enum DataQuery {
    StringQuery(String),
}

} // verus!
