//! A project: a named collection of work items.

use vstd::prelude::*;

use crate::issue::Issue;

verus! {

/// A project and its work packages.
#[derive(Debug, Clone, PartialEq)]
pub struct Project {
    pub name: String,
    pub work_packages: Vec<Issue>,
}

} // verus!
