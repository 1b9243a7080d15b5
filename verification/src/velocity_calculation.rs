//! Team velocity from completed story-point items.
//!
//! The velocity is the story points of the most recently completed items
//! divided by the calendar capacity of the period they span: select the
//! Done items that carry a story-point value and both dates, order them by
//! done date (keeping file order among equal dates), take at most the most
//! recent thirty, and divide their summed points by the summed capacity of
//! every calendar day from the earliest selected start date through the
//! latest selected done date. The result is in thousandths of a point per
//! day, rounded to nearest with halves up.

use vstd::prelude::*;

use crate::calendar::TeamCalendar;
use crate::date::Date;
use crate::issue::{spec_story_point_value, Issue, IssueStatus};
use crate::project::Project;

verus! {

/// Failures of the velocity calculation.
#[derive(Debug, Clone, PartialEq, Eq, Structural)]
pub enum VelocityCalculationError {
    /// No completed issue carries a story-point value and both dates.
    MissingVelocityData,
    /// A selected issue lost a date between selection and use.
    MissingVelocityDates,
    /// The selected period has no capacity.
    InvalidVelocityDuration,
    /// The computed velocity is zero or beyond what this library holds.
    InvalidVelocityValue,
}

/// How many completed items at most enter the calculation.
pub const VELOCITY_WINDOW: usize = 30;

/// One completed item as the calculation sees it.
#[derive(Debug, Clone, Copy, PartialEq, Eq, Structural)]
pub struct CompletedItem {
    pub start_day: u32,
    pub done_day: u32,
    pub points: u32,
}

/// Whether an issue enters the velocity calculation: Done, with a
/// story-point value and both a start and a done date.
pub open spec fn spec_eligible(issue: Issue) -> bool {
    &&& issue.status == Some(IssueStatus::Done)
    &&& spec_story_point_value(issue.estimate) is Some
    &&& issue.start_date is Some
    &&& issue.done_date is Some
}

/// The completed-item record of an eligible issue.
pub open spec fn spec_completed_item(issue: Issue) -> CompletedItem {
    CompletedItem {
        start_day: match issue.start_date {
            Some(d) => d.day,
            None => 0,
        },
        done_day: match issue.done_date {
            Some(d) => d.day,
            None => 0,
        },
        points: match spec_story_point_value(issue.estimate) {
            Some(p) => p,
            None => 0,
        },
    }
}

/// The eligible issues of a sequence, in order, as completed items.
pub open spec fn completed_of(issues: Seq<Issue>) -> Seq<CompletedItem>
    decreases issues.len(),
{
    if issues.len() == 0 {
        Seq::empty()
    } else {
        let rest = completed_of(issues.drop_last());
        if spec_eligible(issues.last()) {
            rest.push(spec_completed_item(issues.last()))
        } else {
            rest
        }
    }
}

/// Inserts an item into a sequence sorted by done day, after every item
/// with the same or an earlier done day (the stable position).
pub open spec fn insert_by_done(s: Seq<CompletedItem>, x: CompletedItem) -> Seq<CompletedItem>
    decreases s.len(),
{
    if s.len() == 0 {
        seq![x]
    } else if x.done_day < s.last().done_day {
        insert_by_done(s.drop_last(), x).push(s.last())
    } else {
        s.push(x)
    }
}

/// Sorts by done day, keeping the original order among equal done days.
pub open spec fn sort_by_done(s: Seq<CompletedItem>) -> Seq<CompletedItem>
    decreases s.len(),
{
    if s.len() == 0 {
        Seq::empty()
    } else {
        insert_by_done(sort_by_done(s.drop_last()), s.last())
    }
}

/// Ascending by done day.
pub open spec fn sorted_by_done(s: Seq<CompletedItem>) -> bool {
    forall|i: int, j: int|
        0 <= i <= j < s.len() ==> (#[trigger] s[i]).done_day <= (#[trigger] s[j]).done_day
}

proof fn lemma_insert_by_done_sorted(s: Seq<CompletedItem>, x: CompletedItem)
    requires
        sorted_by_done(s),
    ensures
        sorted_by_done(insert_by_done(s, x)),
        insert_by_done(s, x).len() == s.len() + 1,
        insert_by_done(s, x).to_multiset() == s.to_multiset().insert(x),
    decreases s.len(),
{
    s.to_multiset_ensures();
    insert_by_done(s, x).to_multiset_ensures();
    if s.len() == 0 {
        assert(insert_by_done(s, x) =~= seq![x]);
        assert(seq![x] =~= Seq::<CompletedItem>::empty().push(x));
        Seq::<CompletedItem>::empty().to_multiset_ensures();
        assert(s =~= Seq::<CompletedItem>::empty());
    } else if x.done_day < s.last().done_day {
        assert(sorted_by_done(s.drop_last()));
        lemma_insert_by_done_sorted(s.drop_last(), x);
        let inner = insert_by_done(s.drop_last(), x);
        inner.to_multiset_ensures();
        s.drop_last().to_multiset_ensures();
        assert(s =~= s.drop_last().push(s.last()));
        // every element of the inner insertion is bounded by the last element
        assert forall|i: int| 0 <= i < inner.len() implies (#[trigger] inner[i]).done_day
            <= s.last().done_day by {
            assert(inner.to_multiset().contains(inner[i]));
            if inner[i] != x {
                assert(s.drop_last().to_multiset().contains(inner[i]));
                let k = choose|k: int|
                    0 <= k < s.drop_last().len() && s.drop_last()[k] == inner[i];
                assert(s[k] == s.drop_last()[k]);
                assert(s[k].done_day <= s.last().done_day);
            }
        }
        assert(sorted_by_done(inner.push(s.last())));
        assert(s.to_multiset() == s.drop_last().to_multiset().insert(s.last()));
        assert(insert_by_done(s, x).to_multiset() =~= s.to_multiset().insert(x));
    } else {
        assert(insert_by_done(s, x) == s.push(x));
        assert forall|i: int, j: int|
            0 <= i <= j < s.push(x).len() implies (#[trigger] s.push(x)[i]).done_day
            <= (#[trigger] s.push(x)[j]).done_day by {
            if j < s.len() {
            } else {
                if i < s.len() {
                    assert(s[i].done_day <= s.last().done_day);
                }
            }
        }
    }
}

/// The stable sort is sorted, keeps the length, and keeps the contents.
pub proof fn lemma_sort_by_done_sorted(s: Seq<CompletedItem>)
    ensures
        sorted_by_done(sort_by_done(s)),
        sort_by_done(s).len() == s.len(),
        sort_by_done(s).to_multiset() == s.to_multiset(),
    decreases s.len(),
{
    s.to_multiset_ensures();
    if s.len() == 0 {
        assert(s =~= Seq::<CompletedItem>::empty());
        assert(sort_by_done(s) =~= Seq::<CompletedItem>::empty());
    } else {
        lemma_sort_by_done_sorted(s.drop_last());
        lemma_insert_by_done_sorted(sort_by_done(s.drop_last()), s.last());
        s.drop_last().to_multiset_ensures();
        assert(s =~= s.drop_last().push(s.last()));
        assert(s.drop_last().push(s.last()).to_multiset() =~= s.drop_last().to_multiset().insert(
            s.last(),
        ));
        assert(s.to_multiset() == s.drop_last().to_multiset().insert(s.last()));
        assert(sort_by_done(s).to_multiset() =~= s.to_multiset());
    }
}

/// Splits a stable insertion at the found position: with everything before
/// `pos` at or before the new done day and everything from `pos` on after
/// it, the insertion is exactly the sequence with `x` placed at `pos`.
proof fn lemma_insert_by_done_split(s: Seq<CompletedItem>, x: CompletedItem, pos: int)
    requires
        0 <= pos <= s.len(),
        forall|i: int| 0 <= i < pos ==> (#[trigger] s[i]).done_day <= x.done_day,
        forall|i: int| pos <= i < s.len() ==> x.done_day < (#[trigger] s[i]).done_day,
    ensures
        insert_by_done(s, x) == s.take(pos).push(x) + s.skip(pos),
    decreases s.len(),
{
    if s.len() == 0 {
        assert(insert_by_done(s, x) =~= s.take(pos).push(x) + s.skip(pos));
    } else if pos == s.len() {
        assert(s.last().done_day <= x.done_day);
        assert(s.take(pos) =~= s);
        assert(s.skip(pos) =~= Seq::<CompletedItem>::empty());
        assert(insert_by_done(s, x) =~= s.take(pos).push(x) + s.skip(pos));
    } else {
        assert(x.done_day < s.last().done_day);
        lemma_insert_by_done_split(s.drop_last(), x, pos);
        assert(insert_by_done(s, x) == insert_by_done(s.drop_last(), x).push(s.last()));
        assert(s.drop_last().take(pos) =~= s.take(pos));
        assert(s.drop_last().skip(pos).push(s.last()) =~= s.skip(pos));
        assert((s.take(pos).push(x) + s.drop_last().skip(pos)).push(s.last()) =~= s.take(
            pos,
        ).push(x) + s.skip(pos));
    }
}

/// The summed capacity numerator over `n_days` days starting at
/// `start_day`, with the team's common denominator.
pub open spec fn capacity_num_sum(team: TeamCalendar, start_day: int, n_days: nat) -> int
    decreases n_days,
{
    if n_days == 0 {
        0
    } else {
        capacity_num_sum(team, start_day, (n_days - 1) as nat) + team.spec_capacity(
            start_day + n_days - 1,
        ).num
    }
}

/// The common capacity denominator of a team calendar.
pub open spec fn spec_cap_den(team: TeamCalendar) -> int {
    if team.calendars@.len() == 0 {
        1
    } else {
        (team.calendars@.len() as u64) as int
    }
}

/// The summed story points of a sequence of completed items.
pub open spec fn points_sum(s: Seq<CompletedItem>) -> int
    decreases s.len(),
{
    if s.len() == 0 {
        0
    } else {
        points_sum(s.drop_last()) + s.last().points
    }
}

/// The earliest start day among the items (zero on an empty selection).
pub open spec fn min_start_day(s: Seq<CompletedItem>) -> int
    decreases s.len(),
{
    if s.len() == 0 {
        0
    } else if s.len() == 1 {
        s[0].start_day as int
    } else {
        let rest = min_start_day(s.drop_last());
        if (s.last().start_day as int) < rest {
            s.last().start_day as int
        } else {
            rest
        }
    }
}

/// The items the calculation selects: the eligible items ordered by done
/// day, reduced to the most recent thirty.
pub open spec fn spec_selected(project: Project) -> Seq<CompletedItem> {
    let sorted = sort_by_done(completed_of(project.work_packages@));
    if sorted.len() > VELOCITY_WINDOW {
        sorted.skip(sorted.len() - VELOCITY_WINDOW)
    } else {
        sorted
    }
}

/// The outcome of the velocity calculation, as a function of the project
/// and the calendar alone.
pub open spec fn spec_velocity(project: Project, calendar: TeamCalendar) -> Result<
    u64,
    VelocityCalculationError,
> {
    let selected = spec_selected(project);
    if selected.len() == 0 {
        Err(VelocityCalculationError::MissingVelocityData)
    } else {
        let start = min_start_day(selected);
        let end = selected.last().done_day as int;
        let n_days = if end >= start {
            (end - start + 1) as nat
        } else {
            0
        };
        let s_num = capacity_num_sum(calendar, start, n_days);
        if s_num <= 0 {
            Err(VelocityCalculationError::InvalidVelocityDuration)
        } else {
            let p = points_sum(selected);
            let den = spec_cap_den(calendar);
            let v = (2 * p * den + s_num) / (2 * s_num);
            if v < 1 || v > u64::MAX {
                Err(VelocityCalculationError::InvalidVelocityValue)
            } else {
                Ok(v as u64)
            }
        }
    }
}

/// The velocity is a function of the project and calendar alone — two
/// calculations on the same pair agree — and is strictly positive whenever
/// it is computable.
pub proof fn lemma_velocity_functional_and_positive(
    project: Project,
    calendar: TeamCalendar,
    r1: Result<u64, VelocityCalculationError>,
    r2: Result<u64, VelocityCalculationError>,
)
    requires
        r1 == spec_velocity(project, calendar),
        r2 == spec_velocity(project, calendar),
    ensures
        r1 == r2,
        r1 matches Ok(v) ==> v >= 1,
{
    let selected = spec_selected(project);
    if selected.len() > 0 {
        let start = min_start_day(selected);
        let end = selected.last().done_day as int;
        let n_days = if end >= start {
            (end - start + 1) as nat
        } else {
            0
        };
        let s_num = capacity_num_sum(calendar, start, n_days);
        if s_num > 0 {
            let p = points_sum(selected);
            let den = spec_cap_den(calendar);
            let v = (2 * p * den + s_num) / (2 * s_num);
            if v < 1 || v > u64::MAX {
                assert(r1 is Err);
            } else {
                assert(r1 == Ok::<u64, VelocityCalculationError>(v as u64));
                assert(v as u64 >= 1);
            }
        }
    }
}

/// The summed capacity numerator of every day from `start` through `end`
/// inclusive (an empty period when `start > end`).
fn summed_capacity_in_period(calendar: &TeamCalendar, start: u32, end: u32) -> (sum: u128)
    ensures
        sum == capacity_num_sum(
            *calendar,
            start as int,
            if end >= start {
                (end - start + 1) as nat
            } else {
                0
            },
        ),
        sum <= (if end >= start {
            (end - start + 1) as int
        } else {
            0
        }) * spec_cap_den(*calendar),
{
    if end < start {
        return 0;
    }
    let n_days: u64 = (end - start) as u64 + 1;
    let mut sum: u128 = 0;
    let mut d: u64 = 0;
    proof {
        assert(0 * spec_cap_den(*calendar) == 0) by (nonlinear_arith);
    }
    while d < n_days
        invariant
            d <= n_days,
            n_days == end - start + 1,
            end <= u32::MAX,
            start + n_days - 1 == end,
            sum == capacity_num_sum(*calendar, start as int, d as nat),
            sum <= d * spec_cap_den(*calendar),
        decreases n_days - d,
    {
        let day: u32 = start + (d as u32);
        let c = calendar.get_capacity(Date { day });
        proof {
            assert(c.num <= c.den);
            assert(c.den as int == spec_cap_den(*calendar));
            assert((d + 1) * spec_cap_den(*calendar) == d * spec_cap_den(*calendar)
                + spec_cap_den(*calendar)) by (nonlinear_arith);
            assert(d * spec_cap_den(*calendar) <= 0x1_0000_0000 * (u64::MAX as int))
                by (nonlinear_arith)
                requires
                    0 <= d <= 0x1_0000_0000,
                    0 <= spec_cap_den(*calendar) <= u64::MAX,
            ;
        }
        sum = sum + c.num as u128;
        d = d + 1;
    }
    sum
}

/// Derives the team's velocity from the project's completed story-point
/// items and the capacity calendar. The result is exactly the outcome of
/// `spec_velocity`: thousandths of a point per capacity day, or the error
/// that names what was missing.
pub fn calculate_project_velocity(project: &Project, calendar: &TeamCalendar) -> (r: Result<
    u64,
    VelocityCalculationError,
>)
    ensures
        r == spec_velocity(*project, *calendar),
{
    let issues = &project.work_packages;
    let n: usize = issues.len();

    // Select the Done items with a story-point value and both dates.
    let mut completed: Vec<CompletedItem> = Vec::new();
    let mut i: usize = 0;
    while i < n
        invariant
            i <= n,
            n == issues@.len(),
            completed@ == completed_of(issues@.take(i as int)),
        decreases n - i,
    {
        proof {
            assert(issues@.take(i + 1).drop_last() =~= issues@.take(i as int));
            assert(issues@.take(i + 1).last() == issues@[i as int]);
        }
        let issue = &issues[i];
        let is_done: bool = match &issue.status {
            Some(IssueStatus::Done) => true,
            _ => false,
        };
        if is_done && issue.start_date.is_some() && issue.done_date.is_some() {
            match issue.story_point_value() {
                Some(points) => {
                    let start_day: u32 = match &issue.start_date {
                        Some(d) => d.day,
                        None => 0,
                    };
                    let done_day: u32 = match &issue.done_date {
                        Some(d) => d.day,
                        None => 0,
                    };
                    let item = CompletedItem { start_day, done_day, points };
                    proof {
                        assert(spec_eligible(issues@[i as int]));
                        assert(item == spec_completed_item(issues@[i as int]));
                    }
                    completed.push(item);
                },
                None => {},
            }
        }
        i = i + 1;
    }
    proof {
        assert(issues@.take(n as int) =~= issues@);
    }

    // Order by done day, keeping input order among equal days.
    let mut sorted: Vec<CompletedItem> = Vec::new();
    let mut i: usize = 0;
    while i < completed.len()
        invariant
            i <= completed@.len(),
            sorted@ == sort_by_done(completed@.take(i as int)),
            sorted@.len() == i,
            sorted_by_done(sorted@),
        decreases completed@.len() - i,
    {
        let x = completed[i];
        let mut pos: usize = sorted.len();
        while pos > 0 && sorted[pos - 1].done_day > x.done_day
            invariant
                pos <= sorted@.len(),
                sorted_by_done(sorted@),
                forall|j: int|
                    pos <= j < sorted@.len() ==> x.done_day < (#[trigger] sorted@[j]).done_day,
            decreases pos,
        {
            pos = pos - 1;
        }
        proof {
            assert forall|j: int| 0 <= j < pos implies (#[trigger] sorted@[j]).done_day
                <= x.done_day by {
                assert(sorted@[j].done_day <= sorted@[pos - 1].done_day);
            }
            lemma_insert_by_done_split(sorted@, x, pos as int);
            lemma_insert_by_done_sorted(sorted@, x);
            assert(completed@.take(i + 1).drop_last() =~= completed@.take(i as int));
            assert(completed@.take(i + 1).last() == completed@[i as int]);
        }
        sorted.insert(pos, x);
        proof {
            assert(sorted@ =~= sort_by_done(completed@.take(i + 1)));
        }
        i = i + 1;
    }
    proof {
        assert(completed@.take(completed@.len() as int) =~= completed@);
        lemma_sort_by_done_sorted(completed@);
    }

    if sorted.len() == 0 {
        proof {
            assert(spec_selected(*project) =~= sorted@);
        }
        return Err(VelocityCalculationError::MissingVelocityData);
    }

    // Keep at most the most recent thirty items.
    let base: usize = if sorted.len() > VELOCITY_WINDOW {
        sorted.len() - VELOCITY_WINDOW
    } else {
        0
    };
    proof {
        if sorted@.len() > VELOCITY_WINDOW {
            assert(spec_selected(*project) =~= sorted@.skip(base as int));
        } else {
            assert(spec_selected(*project) =~= sorted@.skip(0));
            assert(sorted@.skip(0) =~= sorted@);
        }
    }
    let selected_len: usize = sorted.len() - base;

    // the capacity period starts at the earliest start date among the
    // selected items
    let mut start: u32 = sorted[base].start_day;
    let mut j: usize = 1;
    while j < selected_len
        invariant
            1 <= j <= selected_len,
            selected_len == sorted@.len() - base,
            base + selected_len == sorted@.len(),
            base + selected_len <= usize::MAX,
            start as int == min_start_day(sorted@.skip(base as int).take(j as int)),
        decreases selected_len - j,
    {
        proof {
            let sel = sorted@.skip(base as int);
            assert(sel.take(j + 1).drop_last() =~= sel.take(j as int));
            assert(sel.take(j + 1).last() == sel[j as int]);
            assert(sel[j as int] == sorted@[base + j]);
        }
        let candidate: u32 = sorted[base + j].start_day;
        if candidate < start {
            start = candidate;
        }
        j = j + 1;
    }
    proof {
        assert(sorted@.skip(base as int).take(selected_len as int) =~= sorted@.skip(
            base as int,
        ));
    }
    let end: u32 = sorted[sorted.len() - 1].done_day;

    let s_num: u128 = summed_capacity_in_period(calendar, start, end);
    if s_num == 0 {
        return Err(VelocityCalculationError::InvalidVelocityDuration);
    }

    // Sum the selected story points.
    let mut p: u64 = 0;
    let mut k: usize = 0;
    while k < selected_len
        invariant
            k <= selected_len,
            selected_len == sorted@.len() - base,
            base + selected_len == sorted@.len(),
            selected_len <= VELOCITY_WINDOW,
            p == points_sum(sorted@.skip(base as int).take(k as int)),
            p <= k * (u32::MAX as int),
        decreases selected_len - k,
    {
        proof {
            let sel = sorted@.skip(base as int);
            assert(sel.take(k + 1).drop_last() =~= sel.take(k as int));
            assert(sel.take(k + 1).last() == sel[k as int]);
            assert(sel[k as int] == sorted@[base + k]);
            assert((k + 1) * (u32::MAX as int) == k * (u32::MAX as int) + u32::MAX)
                by (nonlinear_arith);
        }
        p = p + sorted[base + k].points as u64;
        k = k + 1;
    }
    proof {
        assert(sorted@.skip(base as int).take(selected_len as int) =~= sorted@.skip(
            base as int,
        ));
    }

    // velocity = points / capacity, rounded to nearest (halves up).
    let den: u64 = if calendar.calendars.len() == 0 {
        1
    } else {
        calendar.calendars.len() as u64
    };
    proof {
        assert(den as int == spec_cap_den(*calendar));
        assert(2 * (p as int) * (den as int) <= 2 * 30 * (u32::MAX as int) * (u64::MAX as int))
            by (nonlinear_arith)
            requires
                0 <= p <= 30 * (u32::MAX as int),
                0 <= den <= u64::MAX,
        ;
        let days_bound = if end >= start {
            (end - start + 1) as int
        } else {
            0
        };
        assert(days_bound * spec_cap_den(*calendar) <= 0x1_0000_0000 * (u64::MAX as int))
            by (nonlinear_arith)
            requires
                0 <= days_bound <= 0x1_0000_0000,
                0 <= spec_cap_den(*calendar) <= u64::MAX,
        ;
    }
    let v: u128 = (2 * (p as u128) * (den as u128) + s_num) / (2 * s_num);
    if v == 0 {
        return Err(VelocityCalculationError::InvalidVelocityValue);
    }
    if v > u64::MAX as u128 {
        return Err(VelocityCalculationError::InvalidVelocityValue);
    }
    Ok(v as u64)
}

} // verus!
