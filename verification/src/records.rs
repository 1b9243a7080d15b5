//! Validating the file records into domain values.
//!
//! The files hold records of plain text and numbers; the functions here
//! carry them into the domain types, rejecting invalid dates and statuses,
//! and resolving the dependency shorthand: an absent list means no
//! dependencies, an empty one means "depends on the record before this
//! one".

use vstd::prelude::*;

use crate::date::Date;
use crate::estimate::{Estimate, ReferenceEstimate, StoryPointEstimate, ThreePointEstimate};
use crate::issue::{Issue, IssueId, IssueStatus};
use crate::project::Project;

verus! {

/// Failures of the record validation.
#[derive(Debug, Clone, PartialEq)]
pub enum ProjectYamlError {
    /// A record's identifier is empty or blank.
    MissingIssueId,
    /// A date text does not parse as `YYYY-MM-DD`.
    InvalidDate(String),
    /// A status text names no known status.
    InvalidStatus(String),
    /// The first record cannot borrow a previous record as dependency.
    MissingPreviousDependency,
}

/// One work package as a project file holds it.
#[derive(Debug, Clone, PartialEq)]
pub struct IssueRecord {
    pub id: String,
    pub summary: Option<String>,
    pub description: Option<String>,
    pub estimate: Option<EstimateRecord>,
    pub status: Option<String>,
    pub created_date: Option<String>,
    pub start_date: Option<String>,
    pub done_date: Option<String>,
    pub dependencies: Option<Vec<String>>,
    pub subgraph: Option<String>,
}

/// One estimate as a project file holds it, values in thousandths. A
/// reference estimate carries the triplet its report file resolved to, when
/// that file could be read.
#[derive(Debug, Clone, PartialEq)]
pub enum EstimateRecord {
    StoryPoints { value: u32 },
    ThreePoint { optimistic: u32, most_likely: u32, pessimistic: u32 },
    Reference { report_file_path: String, resolved: Option<(u32, u32, u32)> },
}

/// An ASCII capital letter folded to its small form; anything else kept.
pub open spec fn lower_char(c: char) -> char {
    if 'A' <= c && c <= 'Z' {
        ((c as u8) + 32) as char
    } else {
        c
    }
}

/// The text with its ASCII capitals folded to small letters.
pub open spec fn lower_text(s: Seq<char>) -> Seq<char> {
    s.map_values(|c: char| lower_char(c))
}

/// Whether the text names a status, and which: `todo` and `to do`, or
/// `inprogress` and `in progress`, or `done`, capitals folded.
pub open spec fn spec_parse_status(s: Seq<char>) -> Option<IssueStatus> {
    let l = lower_text(s);
    if l == "todo"@ || l == "to do"@ {
        Some(IssueStatus::ToDo)
    } else if l == "inprogress"@ || l == "in progress"@ {
        Some(IssueStatus::InProgress)
    } else if l == "done"@ {
        Some(IssueStatus::Done)
    } else {
        None
    }
}

/// Whether the folded text equals the target (the target given folded).
fn eq_folded(s: &str, target: &str) -> (r: bool)
    ensures
        r == (lower_text(s@) == target@),
{
    let n: usize = s.unicode_len();
    let m: usize = target.unicode_len();
    if n != m {
        proof {
            assert(lower_text(s@).len() == s@.len());
        }
        return false;
    }
    let mut i: usize = 0;
    while i < n
        invariant
            i <= n,
            n == s@.len(),
            n == target@.len(),
            forall|k: int| 0 <= k < i ==> lower_char(s@[k]) == target@[k],
        decreases n - i,
    {
        let c: char = s.get_char(i);
        let folded: char = if 'A' <= c && c <= 'Z' {
            ((c as u8) + 32) as char
        } else {
            c
        };
        let t: char = target.get_char(i);
        if folded != t {
            proof {
                assert(lower_text(s@)[i as int] != target@[i as int]);
            }
            return false;
        }
        i = i + 1;
    }
    proof {
        assert(lower_text(s@) =~= target@);
    }
    true
}

/// Reads a status text: `ToDo`, `InProgress` or `Done` in any
/// capitalisation, with `to do` and `in progress` accepted too. An absent
/// text is no status; an unknown one is the error, carrying the text.
pub fn parse_status(value: Option<&String>) -> (r: Result<
    Option<IssueStatus>,
    ProjectYamlError,
>)
    ensures
        match value {
            None => r == Ok::<Option<IssueStatus>, ProjectYamlError>(None),
            Some(text) => match spec_parse_status(text@) {
                Some(status) => r == Ok::<Option<IssueStatus>, ProjectYamlError>(Some(status)),
                None => r matches Err(ProjectYamlError::InvalidStatus(t)) && t@ == text@,
            },
        },
{
    let text: &String = match value {
        Some(text) => text,
        None => {
            return Ok(None);
        },
    };
    if eq_folded(text.as_str(), "todo") || eq_folded(text.as_str(), "to do") {
        Ok(Some(IssueStatus::ToDo))
    } else if eq_folded(text.as_str(), "inprogress") || eq_folded(text.as_str(), "in progress") {
        Ok(Some(IssueStatus::InProgress))
    } else if eq_folded(text.as_str(), "done") {
        Ok(Some(IssueStatus::Done))
    } else {
        Err(ProjectYamlError::InvalidStatus(text.clone()))
    }
}

/// The text a status is written as.
pub open spec fn spec_status_text(status: IssueStatus) -> Seq<char> {
    match status {
        IssueStatus::ToDo => "ToDo"@,
        IssueStatus::InProgress => "InProgress"@,
        IssueStatus::Done => "Done"@,
    }
}

/// Writes a status as its text: `ToDo`, `InProgress` or `Done`.
pub fn status_to_string(status: &IssueStatus) -> (r: String)
    ensures
        r@ == spec_status_text(*status),
{
    match status {
        IssueStatus::ToDo => "ToDo".to_owned(),
        IssueStatus::InProgress => "InProgress".to_owned(),
        IssueStatus::Done => "Done".to_owned(),
    }
}

/// Whether the text holds nothing but spaces, tabs and line breaks (such an
/// identifier counts as missing).
pub open spec fn spec_blank(s: Seq<char>) -> bool {
    forall|i: int|
        0 <= i < s.len() ==> ((#[trigger] s[i]) == ' ' || s[i] == '\t' || s[i] == '\n' || s[i]
            == '\r')
}

/// Whether the text holds only spaces, tabs and line breaks.
pub fn is_blank(s: &str) -> (r: bool)
    ensures
        r == spec_blank(s@),
{
    let n: usize = s.unicode_len();
    let mut i: usize = 0;
    while i < n
        invariant
            i <= n,
            n == s@.len(),
            forall|k: int|
                0 <= k < i ==> ((#[trigger] s@[k]) == ' ' || s@[k] == '\t' || s@[k] == '\n'
                    || s@[k] == '\r'),
        decreases n - i,
    {
        let c: char = s.get_char(i);
        if !(c == ' ' || c == '\t' || c == '\n' || c == '\r') {
            return false;
        }
        i = i + 1;
    }
    true
}

/// Reads an optional `YYYY-MM-DD` text into a date; an unreadable one is
/// the error, carrying the text.
pub fn parse_date_opt(value: Option<&String>) -> (r: Result<Option<Date>, ProjectYamlError>)
    ensures
        match value {
            None => r == Ok::<Option<Date>, ProjectYamlError>(None),
            Some(text) => {
                if crate::date::day_number_of_text(text@) matches Some(n) && 1 <= n
                    <= crate::date::MAX_DAY_NUMBER {
                    r matches Ok(d) && d matches Some(date) && crate::date::day_number_of_text(
                        text@,
                    ) == Some(date.day as i64) && date.valid()
                } else {
                    r matches Err(ProjectYamlError::InvalidDate(t)) && t@ == text@
                }
            },
        },
{
    let text: &String = match value {
        Some(text) => text,
        None => {
            return Ok(None);
        },
    };
    match Date::parse(text.as_str()) {
        Some(date) => Ok(Some(date)),
        None => Err(ProjectYamlError::InvalidDate(text.clone())),
    }
}

/// The estimate a record stands for.
pub open spec fn spec_estimate_of_record(record: EstimateRecord) -> Estimate {
    match record {
        EstimateRecord::StoryPoints { value } => Estimate::StoryPoint(
            StoryPointEstimate { estimate: Some(value) },
        ),
        EstimateRecord::ThreePoint { optimistic, most_likely, pessimistic } => Estimate::ThreePoint(
            ThreePointEstimate {
                optimistic: Some(optimistic),
                most_likely: Some(most_likely),
                pessimistic: Some(pessimistic),
            },
        ),
        EstimateRecord::Reference { report_file_path, resolved } => Estimate::Reference(
            ReferenceEstimate {
                report_file_path,
                cached_estimate: match resolved {
                    Some((o, ml, p)) => Some(
                        ThreePointEstimate {
                            optimistic: Some(o),
                            most_likely: Some(ml),
                            pessimistic: Some(p),
                        },
                    ),
                    None => None,
                },
            },
        ),
    }
}

/// Turns an estimate record into the estimate it stands for; a reference
/// record keeps its triplet as resolved by its report file, or none.
pub fn estimate_from_record(record: EstimateRecord) -> (r: Estimate)
    ensures
        r == spec_estimate_of_record(record),
{
    match record {
        EstimateRecord::StoryPoints { value } => Estimate::StoryPoint(
            StoryPointEstimate { estimate: Some(value) },
        ),
        EstimateRecord::ThreePoint { optimistic, most_likely, pessimistic } => Estimate::ThreePoint(
            ThreePointEstimate {
                optimistic: Some(optimistic),
                most_likely: Some(most_likely),
                pessimistic: Some(pessimistic),
            },
        ),
        EstimateRecord::Reference { report_file_path, resolved } => {
            let cached_estimate: Option<ThreePointEstimate> = match resolved {
                Some((o, ml, p)) => Some(
                    ThreePointEstimate {
                        optimistic: Some(o),
                        most_likely: Some(ml),
                        pessimistic: Some(p),
                    },
                ),
                None => None,
            };
            Estimate::Reference(ReferenceEstimate { report_file_path, cached_estimate })
        },
    }
}

/// Whether a date text parses into the supported range.
pub open spec fn date_text_ok(t: Seq<char>) -> bool {
    crate::date::day_number_of_text(t) matches Some(n) && 1 <= n
        <= crate::date::MAX_DAY_NUMBER
}

/// Whether an optional date text is absent or readable.
pub open spec fn date_opt_ok(t: Option<String>) -> bool {
    match t {
        Some(text) => date_text_ok(text@),
        None => true,
    }
}

/// Whether one record passes validation: a non-blank identifier, readable
/// dates, a known status, and no empty dependency list on the first record.
pub open spec fn record_ok(record: IssueRecord, first: bool) -> bool {
    &&& !spec_blank(record.id@)
    &&& date_opt_ok(record.created_date)
    &&& date_opt_ok(record.start_date)
    &&& date_opt_ok(record.done_date)
    &&& match record.status {
        Some(text) => spec_parse_status(text@) is Some,
        None => true,
    }
    &&& !(first && (record.dependencies matches Some(vs) && vs@.len() == 0))
}

/// Whether every record passes validation.
pub open spec fn records_ok(records: Seq<IssueRecord>) -> bool {
    forall|k: int| 0 <= k < records.len() ==> record_ok(#[trigger] records[k], k == 0)
}

/// What the issue built from a record must look like, given the previous
/// record's identifier.
pub open spec fn issue_matches_record(
    issue: Issue,
    record: IssueRecord,
    prev_id: Option<Seq<char>>,
) -> bool {
    &&& issue.issue_id matches Some(id) && id.id@ == record.id@
    &&& issue.summary == record.summary
    &&& issue.description == record.description
    &&& issue.subgraph == record.subgraph
    &&& match record.estimate {
        Some(er) => issue.estimate == Some(spec_estimate_of_record(er)),
        None => issue.estimate is None,
    }
    &&& match record.status {
        Some(text) => issue.status == spec_parse_status(text@),
        None => issue.status is None,
    }
    &&& match record.created_date {
        Some(text) => issue.created_date matches Some(d) && crate::date::day_number_of_text(text@)
            == Some(d.day as i64),
        None => issue.created_date is None,
    }
    &&& match record.start_date {
        Some(text) => issue.start_date matches Some(d) && crate::date::day_number_of_text(text@)
            == Some(d.day as i64),
        None => issue.start_date is None,
    }
    &&& match record.done_date {
        Some(text) => issue.done_date matches Some(d) && crate::date::day_number_of_text(text@)
            == Some(d.day as i64),
        None => issue.done_date is None,
    }
    &&& match record.dependencies {
        None => issue.dependencies is None,
        Some(vs) => {
            if vs@.len() == 0 {
                &&& issue.dependencies matches Some(ds) && ds@.len() == 1
                && (prev_id matches Some(p) && (ds matches ds2 && ds2@[0].id@ == p))
            } else {
                issue.dependencies matches Some(ds) && ds@.len() == vs@.len() && (forall|i: int|
                    0 <= i < ds@.len() ==> (#[trigger] ds@[i]).id@ == vs@[i]@)
            }
        },
    }
}

/// One of the record's date texts equals the given text and does not read
/// as a supported date.
pub open spec fn record_has_bad_date(record: IssueRecord, t: Seq<char>) -> bool {
    ||| record.created_date matches Some(x) && x@ == t && !date_text_ok(x@)
    ||| record.start_date matches Some(x) && x@ == t && !date_text_ok(x@)
    ||| record.done_date matches Some(x) && x@ == t && !date_text_ok(x@)
}

/// Builds the work packages from the file records, in order: blank
/// identifiers, unreadable dates and unknown statuses are rejected, and an
/// empty dependency list borrows the record before as the one dependency.
/// Succeeds exactly when every record passes validation.
#[verifier::loop_isolation(false)]
#[verifier::rlimit(60)]
pub fn issues_from_records(records: Vec<IssueRecord>) -> (r: Result<Vec<Issue>, ProjectYamlError>)
    ensures
        r is Ok <==> records_ok(records@),
        r matches Ok(issues) ==> {
            &&& issues@.len() == records@.len()
            &&& forall|k: int|
                0 <= k < issues@.len() ==> issue_matches_record(
                    #[trigger] issues@[k],
                    records@[k],
                    if k == 0 {
                        None
                    } else {
                        Some(records@[k - 1].id@)
                    },
                )
        },
        r == Err::<Vec<Issue>, _>(ProjectYamlError::MissingIssueId) ==> exists|k: int|
            0 <= k < records@.len() && spec_blank((#[trigger] records@[k]).id@),
        r matches Err(e) ==> ((e is MissingPreviousDependency) ==> (records@.len() > 0
            && (records@[0].dependencies matches Some(vs) && vs@.len() == 0))),
        r matches Err(e) ==> (e matches ProjectYamlError::InvalidDate(t) ==> exists|k: int|
            0 <= k < records@.len() && record_has_bad_date(#[trigger] records@[k], t@)),
        r matches Err(e) ==> (e matches ProjectYamlError::InvalidStatus(t) ==> exists|k: int|
            0 <= k < records@.len() && ((#[trigger] records@[k]).status matches Some(x) && x@
                == t@ && spec_parse_status(x@) is None)),
{
    let n: usize = records.len();
    let mut issues: Vec<Issue> = Vec::new();
    let mut i: usize = 0;
    while i < n
        invariant
            i <= n,
            n == records@.len(),
            issues@.len() == i,
            forall|k: int|
                0 <= k < i ==> issue_matches_record(
                    #[trigger] issues@[k],
                    records@[k],
                    if k == 0 {
                        None
                    } else {
                        Some(records@[k - 1].id@)
                    },
                ),
            forall|k: int| 0 <= k < i ==> record_ok(#[trigger] records@[k], k == 0),
        decreases n - i,
    {
        let record = &records[i];
        if is_blank(record.id.as_str()) {
            proof {
                assert(!record_ok(records@[i as int], i == 0));
            }
            return Err(ProjectYamlError::MissingIssueId);
        }
        let estimate: Option<Estimate> = match &record.estimate {
            None => None,
            Some(EstimateRecord::StoryPoints { value }) => Some(
                Estimate::StoryPoint(StoryPointEstimate { estimate: Some(*value) }),
            ),
            Some(EstimateRecord::ThreePoint { optimistic, most_likely, pessimistic }) => Some(
                Estimate::ThreePoint(
                    ThreePointEstimate {
                        optimistic: Some(*optimistic),
                        most_likely: Some(*most_likely),
                        pessimistic: Some(*pessimistic),
                    },
                ),
            ),
            Some(EstimateRecord::Reference { report_file_path, resolved }) => {
                let cached_estimate: Option<ThreePointEstimate> = match resolved {
                    Some((o, ml, p)) => Some(
                        ThreePointEstimate {
                            optimistic: Some(*o),
                            most_likely: Some(*ml),
                            pessimistic: Some(*p),
                        },
                    ),
                    None => None,
                };
                Some(
                    Estimate::Reference(
                        ReferenceEstimate {
                            report_file_path: report_file_path.clone(),
                            cached_estimate,
                        },
                    ),
                )
            },
        };
        let status = match parse_status(record.status.as_ref()) {
            Ok(s) => s,
            Err(e) => {
                proof {
                    assert(!record_ok(records@[i as int], i == 0));
                }
                return Err(e);
            },
        };
        let created_date = match parse_date_opt(record.created_date.as_ref()) {
            Ok(d) => d,
            Err(e) => {
                proof {
                    assert(!record_ok(records@[i as int], i == 0));
                    assert(records@[i as int].created_date matches Some(x)
                        && record_has_bad_date(records@[i as int], x@));
                }
                return Err(e);
            },
        };
        let start_date = match parse_date_opt(record.start_date.as_ref()) {
            Ok(d) => d,
            Err(e) => {
                proof {
                    assert(!record_ok(records@[i as int], i == 0));
                    assert(records@[i as int].start_date matches Some(x)
                        && record_has_bad_date(records@[i as int], x@));
                }
                return Err(e);
            },
        };
        let done_date = match parse_date_opt(record.done_date.as_ref()) {
            Ok(d) => d,
            Err(e) => {
                proof {
                    assert(!record_ok(records@[i as int], i == 0));
                    assert(records@[i as int].done_date matches Some(x)
                        && record_has_bad_date(records@[i as int], x@));
                }
                return Err(e);
            },
        };
        let dependencies: Option<Vec<IssueId>> = match &record.dependencies {
            None => None,
            Some(vs) => {
                if vs.len() == 0 {
                    if i == 0 {
                        proof {
                            assert(!record_ok(records@[0], true));
                        }
                        return Err(ProjectYamlError::MissingPreviousDependency);
                    }
                    let previous: String = records[i - 1].id.clone();
                    let mut ds: Vec<IssueId> = Vec::new();
                    ds.push(IssueId { id: previous });
                    Some(ds)
                } else {
                    let m: usize = vs.len();
                    let mut ds: Vec<IssueId> = Vec::new();
                    let mut d: usize = 0;
                    while d < m
                        invariant
                            d <= m,
                            m == vs@.len(),
                            ds@.len() == d,
                            forall|k: int|
                                0 <= k < d ==> (#[trigger] ds@[k]).id@ == vs@[k]@,
                        decreases m - d,
                    {
                        ds.push(IssueId { id: vs[d].clone() });
                        d = d + 1;
                    }
                    Some(ds)
                }
            },
        };
        let summary: Option<String> = match &record.summary {
            Some(text) => Some(text.clone()),
            None => None,
        };
        let description: Option<String> = match &record.description {
            Some(text) => Some(text.clone()),
            None => None,
        };
        let subgraph: Option<String> = match &record.subgraph {
            Some(text) => Some(text.clone()),
            None => None,
        };
        let issue = Issue {
            issue_id: Some(IssueId { id: record.id.clone() }),
            summary,
            description,
            estimate,
            dependencies,
            subgraph,
            status,
            created_date,
            start_date,
            done_date,
        };
        proof {
            assert(issue_matches_record(
                issue,
                records@[i as int],
                if i == 0 {
                    None
                } else {
                    Some(records@[i - 1].id@)
                },
            ));
            assert(record_ok(records@[i as int], i == 0));
        }
        issues.push(issue);
        i = i + 1;
    }
    Ok(issues)
}

/// Builds a project from its file records.
pub fn project_from_records(name: String, records: Vec<IssueRecord>) -> (r: Result<
    Project,
    ProjectYamlError,
>)
    ensures
        r is Ok <==> records_ok(records@),
        r matches Ok(project) ==> project.name@ == name@ && issues_match_records(
            project.work_packages@,
            records@,
        ),
        r matches Err(e) ==> ((e is MissingPreviousDependency) ==> (records@.len() > 0
            && (records@[0].dependencies matches Some(vs) && vs@.len() == 0))),
{
    match issues_from_records(records) {
        Ok(work_packages) => Ok(Project { name, work_packages }),
        Err(e) => Err(e),
    }
}

/// The issues mirror the records, each with its predecessor as the implicit
/// dependency source.
pub open spec fn issues_match_records(issues: Seq<Issue>, records: Seq<IssueRecord>) -> bool {
    &&& issues.len() == records.len()
    &&& forall|k: int|
        0 <= k < issues.len() ==> issue_matches_record(
            #[trigger] issues[k],
            records[k],
            if k == 0 {
                None
            } else {
                Some(records[k - 1].id@)
            },
        )
}

} // verus!
// Calendar file records.

verus! {

/// Failures of the calendar record validation.
#[derive(Debug, Clone, PartialEq)]
pub enum TeamCalendarError {
    /// A weekday text names no weekday.
    InvalidWeekday(String),
    /// A date text does not parse as `YYYY-MM-DD`.
    InvalidDate(String),
    /// A range's start date comes after its end date.
    InvalidDateRange,
}

/// One member calendar as its file holds it: free weekday names and free
/// date ranges as `YYYY-MM-DD` pairs.
#[derive(Debug, Clone, PartialEq)]
pub struct CalendarRecord {
    pub free_weekdays: Vec<String>,
    pub free_date_ranges: Vec<(String, String)>,
}

/// The weekday a text names, short or written out, capitals folded.
pub open spec fn spec_parse_weekday(s: Seq<char>) -> Option<crate::date::Weekday> {
    let l = lower_text(s);
    if l == "mon"@ || l == "monday"@ {
        Some(crate::date::Weekday::Mon)
    } else if l == "tue"@ || l == "tues"@ || l == "tuesday"@ {
        Some(crate::date::Weekday::Tue)
    } else if l == "wed"@ || l == "wednesday"@ {
        Some(crate::date::Weekday::Wed)
    } else if l == "thu"@ || l == "thur"@ || l == "thurs"@ || l == "thursday"@ {
        Some(crate::date::Weekday::Thu)
    } else if l == "fri"@ || l == "friday"@ {
        Some(crate::date::Weekday::Fri)
    } else if l == "sat"@ || l == "saturday"@ {
        Some(crate::date::Weekday::Sat)
    } else if l == "sun"@ || l == "sunday"@ {
        Some(crate::date::Weekday::Sun)
    } else {
        None
    }
}

/// Reads a weekday name, short (`Mon`) or written out (`Monday`), in any
/// capitalisation.
pub fn parse_weekday(value: &str) -> (r: Option<crate::date::Weekday>)
    ensures
        r == spec_parse_weekday(value@),
{
    if eq_folded(value, "mon") || eq_folded(value, "monday") {
        Some(crate::date::Weekday::Mon)
    } else if eq_folded(value, "tue") || eq_folded(value, "tues") || eq_folded(value, "tuesday") {
        Some(crate::date::Weekday::Tue)
    } else if eq_folded(value, "wed") || eq_folded(value, "wednesday") {
        Some(crate::date::Weekday::Wed)
    } else if eq_folded(value, "thu") || eq_folded(value, "thur") || eq_folded(value, "thurs")
        || eq_folded(value, "thursday") {
        Some(crate::date::Weekday::Thu)
    } else if eq_folded(value, "fri") || eq_folded(value, "friday") {
        Some(crate::date::Weekday::Fri)
    } else if eq_folded(value, "sat") || eq_folded(value, "saturday") {
        Some(crate::date::Weekday::Sat)
    } else if eq_folded(value, "sun") || eq_folded(value, "sunday") {
        Some(crate::date::Weekday::Sun)
    } else {
        None
    }
}

/// Whether a range record's two texts read as dates that stand in order.
pub open spec fn range_record_ok(start_text: Seq<char>, end_text: Seq<char>) -> bool {
    &&& date_text_ok(start_text)
    &&& date_text_ok(end_text)
    &&& crate::date::day_number_of_text(start_text) matches Some(sn) && (
    crate::date::day_number_of_text(end_text) matches Some(en) && sn <= en)
}

/// Whether a calendar record passes validation: every weekday name known,
/// every range readable and in order.
pub open spec fn calendar_record_ok(record: CalendarRecord) -> bool {
    &&& forall|k: int|
        0 <= k < record.free_weekdays@.len() ==> spec_parse_weekday(
            (#[trigger] record.free_weekdays@[k])@,
        ) is Some
    &&& forall|j: int|
        0 <= j < record.free_date_ranges@.len() ==> range_record_ok(
            ((#[trigger] record.free_date_ranges@[j]).0)@,
            (record.free_date_ranges@[j].1)@,
        )
}

/// Reads a free date range: both ends must parse and stand in order.
/// Succeeds exactly when they do.
pub fn free_date_range_from_record(start_text: &String, end_text: &String) -> (r: Result<
    crate::calendar::FreeDateRange,
    TeamCalendarError,
>)
    ensures
        r matches Ok(range) ==> crate::date::day_number_of_text(start_text@) == Some(
            range.start_date.day as i64,
        ) && crate::date::day_number_of_text(end_text@) == Some(range.end_date.day as i64)
            && range.start_date.day <= range.end_date.day,
        r is Ok <==> range_record_ok(start_text@, end_text@),
        r matches Err(e) ==> (e is InvalidDate || e is InvalidDateRange),
        r matches Err(e) ==> (e matches TeamCalendarError::InvalidDate(t) ==> ((t@ == start_text@
            && !date_text_ok(start_text@)) || (t@ == end_text@ && !date_text_ok(end_text@)))),
        r == Err::<crate::calendar::FreeDateRange, _>(TeamCalendarError::InvalidDateRange) ==> (
        crate::date::day_number_of_text(start_text@) matches Some(s) && (
        crate::date::day_number_of_text(end_text@) matches Some(e) && s > e)),
{
    let start_date = match Date::parse(start_text.as_str()) {
        Some(d) => d,
        None => {
            return Err(TeamCalendarError::InvalidDate(start_text.clone()));
        },
    };
    let end_date = match Date::parse(end_text.as_str()) {
        Some(d) => d,
        None => {
            return Err(TeamCalendarError::InvalidDate(end_text.clone()));
        },
    };
    if start_date.day > end_date.day {
        return Err(TeamCalendarError::InvalidDateRange);
    }
    Ok(crate::calendar::FreeDateRange { start_date, end_date })
}

/// Builds one member calendar from its record: every weekday name must be
/// known, every range readable and in order. Succeeds exactly when every
/// part does.
pub fn calendar_from_record(record: &CalendarRecord) -> (r: Result<
    crate::calendar::Calendar,
    TeamCalendarError,
>)
    ensures
        r is Ok <==> calendar_record_ok(*record),
        r matches Ok(cal) ==> {
            &&& cal.free_weekdays@.len() == record.free_weekdays@.len()
            &&& forall|k: int|
                0 <= k < cal.free_weekdays@.len() ==> Some(#[trigger] cal.free_weekdays@[k])
                    == spec_parse_weekday(record.free_weekdays@[k]@)
            &&& cal.free_date_ranges@.len() == record.free_date_ranges@.len()
            &&& forall|j: int|
                0 <= j < cal.free_date_ranges@.len() ==> {
                    let range = #[trigger] cal.free_date_ranges@[j];
                    &&& crate::date::day_number_of_text((record.free_date_ranges@[j].0)@)
                        == Some(range.start_date.day as i64)
                    &&& crate::date::day_number_of_text((record.free_date_ranges@[j].1)@)
                        == Some(range.end_date.day as i64)
                    &&& range.start_date.day <= range.end_date.day
                }
        },
        r matches Err(e) ==> (e is InvalidWeekday || e is InvalidDate || e is InvalidDateRange),
        r matches Err(e) ==> (e matches TeamCalendarError::InvalidWeekday(t) ==> exists|k: int|
            0 <= k < record.free_weekdays@.len() && (#[trigger] record.free_weekdays@[k])@ == t@
                && spec_parse_weekday(t@) is None),
        r matches Err(e) ==> (e matches TeamCalendarError::InvalidDate(t) ==> exists|j: int|
            0 <= j < record.free_date_ranges@.len() && (((t@ == ((
            #[trigger] record.free_date_ranges@[j]).0)@) && !date_text_ok(t@)) || ((t@ == (
            record.free_date_ranges@[j].1)@) && !date_text_ok(t@)))),
{
    let n: usize = record.free_weekdays.len();
    let mut free_weekdays: Vec<crate::date::Weekday> = Vec::new();
    let mut i: usize = 0;
    while i < n
        invariant
            i <= n,
            n == record.free_weekdays@.len(),
            free_weekdays@.len() == i,
            forall|k: int|
                0 <= k < i ==> Some(#[trigger] free_weekdays@[k]) == spec_parse_weekday(
                    record.free_weekdays@[k]@,
                ),
        decreases n - i,
    {
        match parse_weekday(record.free_weekdays[i].as_str()) {
            Some(w) => {
                free_weekdays.push(w);
            },
            None => {
                proof {
                    assert(!calendar_record_ok(*record));
                }
                return Err(TeamCalendarError::InvalidWeekday(record.free_weekdays[i].clone()));
            },
        }
        i = i + 1;
    }

    let m: usize = record.free_date_ranges.len();
    let mut free_date_ranges: Vec<crate::calendar::FreeDateRange> = Vec::new();
    let mut j: usize = 0;
    while j < m
        invariant
            j <= m,
            m == record.free_date_ranges@.len(),
            free_date_ranges@.len() == j,
            forall|jj: int|
                0 <= jj < j ==> {
                    let range = #[trigger] free_date_ranges@[jj];
                    &&& crate::date::day_number_of_text((record.free_date_ranges@[jj].0)@)
                        == Some(range.start_date.day as i64)
                    &&& crate::date::day_number_of_text((record.free_date_ranges@[jj].1)@)
                        == Some(range.end_date.day as i64)
                    &&& range.start_date.day <= range.end_date.day
                },
            forall|jj: int|
                0 <= jj < j ==> range_record_ok(
                    ((#[trigger] record.free_date_ranges@[jj]).0)@,
                    (record.free_date_ranges@[jj].1)@,
                ),
        decreases m - j,
    {
        let range = match free_date_range_from_record(
            &record.free_date_ranges[j].0,
            &record.free_date_ranges[j].1,
        ) {
            Ok(range) => range,
            Err(e) => {
                proof {
                    assert(!range_record_ok(
                        ((record.free_date_ranges@[j as int]).0)@,
                        (record.free_date_ranges@[j as int].1)@,
                    ));
                    assert(!calendar_record_ok(*record));
                }
                return Err(e);
            },
        };
        free_date_ranges.push(range);
        j = j + 1;
    }
    proof {
        assert forall|k: int|
            0 <= k < record.free_weekdays@.len() implies spec_parse_weekday(
            (#[trigger] record.free_weekdays@[k])@,
        ) is Some by {
            assert(Some(free_weekdays@[k]) == spec_parse_weekday(record.free_weekdays@[k]@));
        }
        assert(calendar_record_ok(*record));
    }
    Ok(crate::calendar::Calendar { free_weekdays, free_date_ranges })
}

} // verus!
