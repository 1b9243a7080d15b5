//! Reducing completed issues to a daily throughput history.
//!
//! The history runs from the earliest to the latest completion date,
//! weekends left out, with each day carrying the number of issues completed
//! on it.

use vstd::prelude::*;

use crate::data_source::DataSourceError;
use crate::date::{weekday_of_day, Date, Weekday};
use crate::issue::Issue;
use crate::throughput::Throughput;

verus! {

/// Whether a day falls on Saturday or Sunday.
pub open spec fn spec_weekend(day: int) -> bool {
    weekday_of_day(day) == Weekday::Sat || weekday_of_day(day) == Weekday::Sun
}

/// Whether any issue carries a completion date.
pub open spec fn spec_any_done(issues: Seq<Issue>) -> bool {
    exists|i: int| 0 <= i < issues.len() && (#[trigger] issues[i]).done_date is Some
}

/// How many issues were completed on a day.
pub open spec fn count_done_on(issues: Seq<Issue>, day: int) -> int
    decreases issues.len(),
{
    if issues.len() == 0 {
        0
    } else {
        count_done_on(issues.drop_last(), day) + (
        if issues.last().done_date matches Some(d) && d.day == day {
            1int
        } else {
            0int
        })
    }
}

/// `lo` is the earliest completion day among the issues.
pub open spec fn is_done_min(issues: Seq<Issue>, lo: int) -> bool {
    &&& exists|i: int|
        0 <= i < issues.len() && ((#[trigger] issues[i]).done_date matches Some(d) && d.day
            == lo)
    &&& forall|i: int|
        0 <= i < issues.len() ==> ((#[trigger] issues[i]).done_date matches Some(d) ==> d.day
            >= lo)
}

/// `hi` is the latest completion day among the issues.
pub open spec fn is_done_max(issues: Seq<Issue>, hi: int) -> bool {
    &&& exists|i: int|
        0 <= i < issues.len() && ((#[trigger] issues[i]).done_date matches Some(d) && d.day
            == hi)
    &&& forall|i: int|
        0 <= i < issues.len() ==> ((#[trigger] issues[i]).done_date matches Some(d) ==> d.day
            <= hi)
}

/// The expected history over the inclusive day range: one entry per
/// non-weekend day, counting the completions of that day.
pub open spec fn expected_throughput(issues: Seq<Issue>, from: int, to: int) -> Seq<Throughput>
    decreases to - from + 1,
{
    if from > to {
        Seq::empty()
    } else {
        let rest = expected_throughput(issues, from, to - 1);
        if spec_weekend(to) {
            rest
        } else {
            rest.push(
                Throughput {
                    date: Date { day: to as u32 },
                    completed_issues: count_done_on(issues, to) as usize,
                },
            )
        }
    }
}

/// How many issues were completed on a date.
fn count_completed_on(issues: &Vec<Issue>, day: u32) -> (r: usize)
    ensures
        r as int == count_done_on(issues@, day as int),
{
    let n: usize = issues.len();
    let mut count: usize = 0;
    let mut i: usize = 0;
    while i < n
        invariant
            i <= n,
            n == issues@.len(),
            count as int == count_done_on(issues@.take(i as int), day as int),
            count <= i,
        decreases n - i,
    {
        proof {
            assert(issues@.take(i + 1).drop_last() =~= issues@.take(i as int));
            assert(issues@.take(i + 1).last() == issues@[i as int]);
        }
        let hit: bool = match &issues[i].done_date {
            Some(d) => d.day == day,
            None => false,
        };
        if hit {
            count = count + 1;
        }
        i = i + 1;
    }
    proof {
        assert(issues@.take(n as int) =~= issues@);
    }
    count
}

/// Builds the daily throughput history from the issues' completion dates:
/// one entry per non-weekend day from the earliest to the latest completion
/// date, each counting that day's completions. Fails when no issue carries
/// a completion date.
#[verifier::loop_isolation(false)]
pub fn throughput_from_issues(issues: &Vec<Issue>) -> (r: Result<Vec<Throughput>, DataSourceError>)
    ensures
        r is Ok <==> spec_any_done(issues@),
        r matches Ok(data) ==> exists|lo: int, hi: int|
            is_done_min(issues@, lo) && is_done_max(issues@, hi) && data@
                == #[trigger] expected_throughput(issues@, lo, hi),
        r is Err ==> r == Err::<Vec<Throughput>, _>(DataSourceError::NotFound),
{
    let n: usize = issues.len();
    let mut min_day: u32 = 0;
    let mut max_day: u32 = 0;
    let mut any: bool = false;
    let mut i: usize = 0;
    while i < n
        invariant
            i <= n,
            n == issues@.len(),
            any <==> spec_any_done(issues@.take(i as int)),
            any ==> is_done_min(issues@.take(i as int), min_day as int) && is_done_max(
                issues@.take(i as int),
                max_day as int,
            ),
        decreases n - i,
    {
        proof {
            assert(issues@.take(i + 1).drop_last() =~= issues@.take(i as int));
            assert(issues@.take(i + 1).last() == issues@[i as int]);
            assert forall|k: int| 0 <= k < i implies issues@.take(i + 1)[k] == issues@.take(
                i as int,
            )[k] by {}
        }
        match &issues[i].done_date {
            Some(d) => {
                if !any {
                    min_day = d.day;
                    max_day = d.day;
                    any = true;
                } else {
                    if d.day < min_day {
                        min_day = d.day;
                    }
                    if d.day > max_day {
                        max_day = d.day;
                    }
                }
            },
            None => {},
        }
        i = i + 1;
    }
    proof {
        assert(issues@.take(n as int) =~= issues@);
    }
    if !any {
        return Err(DataSourceError::NotFound);
    }

    let mut data: Vec<Throughput> = Vec::new();
    let mut day: u64 = min_day as u64;
    while day <= max_day as u64
        invariant
            min_day as u64 <= day <= max_day as u64 + 1,
            data@ == expected_throughput(issues@, min_day as int, day as int - 1),
        decreases max_day as u64 + 1 - day,
    {
        let d: u32 = day as u32;
        if !is_weekend_day(d) {
            let completed = count_completed_on(issues, d);
            data.push(Throughput { date: Date { day: d }, completed_issues: completed });
        }
        day = day + 1;
    }
    Ok(data)
}

/// Whether a day number falls on Saturday or Sunday.
fn is_weekend_day(day: u32) -> (r: bool)
    ensures
        r == spec_weekend(day as int),
{
    let w = Date { day }.weekday();
    matches!(w, Weekday::Sat) || matches!(w, Weekday::Sun)
}

} // verus!
