//! Team capacity calendars.
//!
//! A single calendar marks weekdays and date ranges as free; on any other
//! day it offers one full day of capacity. A team calendar composes member
//! calendars: its capacity on a day is the arithmetic mean of the members'
//! zero-or-one capacities, kept here as an exact fraction. A team calendar
//! without members falls back to the default policy: full capacity on
//! weekdays, none on Saturday and Sunday.

use vstd::prelude::*;

use crate::date::{weekday_of_day, Date, Weekday};

verus! {

/// An inclusive range of free dates.
#[derive(Debug, Clone)]
pub struct FreeDateRange {
    pub start_date: Date,
    pub end_date: Date,
}

/// One member calendar: free weekdays and free date ranges.
#[derive(Debug, Clone)]
pub struct Calendar {
    pub free_weekdays: Vec<Weekday>,
    pub free_date_ranges: Vec<FreeDateRange>,
}

/// A team calendar composed of zero or more member calendars.
#[derive(Debug, Clone)]
pub struct TeamCalendar {
    pub calendars: Vec<Calendar>,
}

/// A capacity as an exact fraction `num / den` with `0 <= num <= den`.
#[derive(Debug, Clone, Copy, PartialEq, Eq, Structural)]
pub struct Capacity {
    pub num: u64,
    pub den: u64,
}

impl Calendar {
    /// Whether this calendar takes the given day off.
    pub open spec fn spec_free_on(self, day: int) -> bool {
        ||| exists|i: int|
            0 <= i < self.free_weekdays@.len() && #[trigger] self.free_weekdays@[i]
                == weekday_of_day(day)
        ||| exists|i: int|
            0 <= i < self.free_date_ranges@.len()
                && (#[trigger] self.free_date_ranges@[i]).start_date.day <= day
                && day <= self.free_date_ranges@[i].end_date.day
    }

    /// This calendar's capacity on a day: one free day of work, or none.
    pub open spec fn spec_capacity_num(self, day: int) -> int {
        if self.spec_free_on(day) {
            0
        } else {
            1
        }
    }

    /// A calendar with no free weekdays and no free ranges.
    pub fn new() -> (r: Calendar)
        ensures
            r.free_weekdays@.len() == 0,
            r.free_date_ranges@.len() == 0,
            forall|day: int| r.spec_capacity_num(day) == 1,
    {
        Calendar { free_weekdays: Vec::new(), free_date_ranges: Vec::new() }
    }

    /// Zero when the date's weekday is free or the date falls in a free
    /// range, one otherwise.
    pub fn get_capacity(&self, date: Date) -> (r: u64)
        ensures
            r == self.spec_capacity_num(date.day as int),
    {
        let w = date.weekday();
        let n: usize = self.free_weekdays.len();
        let mut i: usize = 0;
        while i < n
            invariant
                i <= n,
                n == self.free_weekdays@.len(),
                w == weekday_of_day(date.day as int),
                forall|j: int| 0 <= j < i ==> self.free_weekdays@[j] != weekday_of_day(
                    date.day as int,
                ),
            decreases n - i,
        {
            if self.free_weekdays[i] == w {
                return 0;
            }
            i = i + 1;
        }

        let m: usize = self.free_date_ranges.len();
        let mut k: usize = 0;
        while k < m
            invariant
                k <= m,
                m == self.free_date_ranges@.len(),
                forall|j: int|
                    0 <= j < k ==> !((#[trigger] self.free_date_ranges@[j]).start_date.day
                        <= date.day && date.day <= self.free_date_ranges@[j].end_date.day),
            decreases m - k,
        {
            let range = &self.free_date_ranges[k];
            if range.start_date.day <= date.day && date.day <= range.end_date.day {
                return 0;
            }
            k = k + 1;
        }

        1
    }
}

/// How many of the member calendars offer capacity on a day.
pub open spec fn available_count(cals: Seq<Calendar>, day: int) -> int
    decreases cals.len(),
{
    if cals.len() == 0 {
        0
    } else {
        available_count(cals.drop_last(), day) + cals.last().spec_capacity_num(day)
    }
}

/// How many of the member calendars take a day off.
pub open spec fn free_count(cals: Seq<Calendar>, day: int) -> int {
    cals.len() - available_count(cals, day)
}

/// The available count lies between zero and the number of calendars.
pub proof fn lemma_available_count_bounds(cals: Seq<Calendar>, day: int)
    ensures
        0 <= available_count(cals, day) <= cals.len(),
    decreases cals.len(),
{
    if cals.len() > 0 {
        lemma_available_count_bounds(cals.drop_last(), day);
    }
}

impl TeamCalendar {
    /// The default policy used when no member calendar exists: a full day
    /// on Monday through Friday, nothing on Saturday and Sunday.
    pub open spec fn spec_default_capacity(day: int) -> Capacity {
        if weekday_of_day(day) == Weekday::Sat || weekday_of_day(day) == Weekday::Sun {
            Capacity { num: 0, den: 1 }
        } else {
            Capacity { num: 1, den: 1 }
        }
    }

    /// The team's capacity on a day as an exact fraction: the mean of the
    /// member calendars' capacities, or the default policy when there are
    /// no members.
    pub open spec fn spec_capacity(self, day: int) -> Capacity {
        if self.calendars@.len() == 0 {
            TeamCalendar::spec_default_capacity(day)
        } else {
            Capacity {
                num: available_count(self.calendars@, day) as u64,
                den: self.calendars@.len() as u64,
            }
        }
    }

    /// A team calendar with no member calendars.
    pub fn new() -> (r: TeamCalendar)
        ensures
            r.calendars@.len() == 0,
    {
        TeamCalendar { calendars: Vec::new() }
    }

    /// The default policy: full capacity on weekdays, none on weekends.
    pub fn get_default_capacity(&self, date: Date) -> (r: Capacity)
        ensures
            r == TeamCalendar::spec_default_capacity(date.day as int),
    {
        let w = date.weekday();
        if matches!(w, Weekday::Sat) || matches!(w, Weekday::Sun) {
            Capacity { num: 0, den: 1 }
        } else {
            Capacity { num: 1, den: 1 }
        }
    }

    /// The team's capacity on a date, as the exact fraction
    /// `available members / members` (or the default policy without
    /// members).
    pub fn get_capacity(&self, date: Date) -> (r: Capacity)
        ensures
            r == self.spec_capacity(date.day as int),
            r.num <= r.den,
            1 <= r.den,
    {
        proof {
            lemma_available_count_bounds(self.calendars@, date.day as int);
        }
        let n: usize = self.calendars.len();
        if n == 0 {
            let r = self.get_default_capacity(date);
            return r;
        }

        let mut sum: u64 = 0;
        let mut i: usize = 0;
        while i < n
            invariant
                i <= n,
                n == self.calendars@.len(),
                sum == available_count(self.calendars@.take(i as int), date.day as int),
                sum <= i,
            decreases n - i,
        {
            proof {
                lemma_available_count_bounds(
                    self.calendars@.take(i as int),
                    date.day as int,
                );
                assert(self.calendars@.take(i + 1).drop_last() =~= self.calendars@.take(
                    i as int,
                ));
                assert(self.calendars@.take(i + 1).last() == self.calendars@[i as int]);
            }
            let c = self.calendars[i].get_capacity(date);
            sum = sum + c;
            i = i + 1;
        }
        proof {
            assert(self.calendars@.take(n as int) =~= self.calendars@);
        }
        Capacity { num: sum, den: n as u64 }
    }
}

/// A day's capacity under a composite calendar is the member count less the
/// number of members that take the day free, over the member count; with no
/// members the default weekday policy stands.
pub proof fn lemma_team_capacity_law(team: TeamCalendar, day: int)
    requires
        team.calendars@.len() <= u64::MAX,
    ensures
        team.calendars@.len() == 0 ==> team.spec_capacity(day)
            == TeamCalendar::spec_default_capacity(day),
        team.calendars@.len() > 0 ==> {
            &&& team.spec_capacity(day).den == team.calendars@.len()
            &&& team.spec_capacity(day).num == team.calendars@.len() - free_count(
                team.calendars@,
                day,
            )
            &&& 0 <= free_count(team.calendars@, day) <= team.calendars@.len()
        },
{
    lemma_available_count_bounds(team.calendars@, day);
}

/// A team calendar of one member calendar that takes no day free: full
/// capacity on every day.
pub fn create_calendar_without_any_free_days() -> (r: TeamCalendar)
    ensures
        r.calendars@.len() == 1,
        forall|day: int| r.spec_capacity(day) == (Capacity { num: 1u64, den: 1u64 }),
{
    let no_free_days = Calendar::new();
    let ghost member = no_free_days;
    let mut calendars: Vec<Calendar> = Vec::new();
    calendars.push(no_free_days);
    let r = TeamCalendar { calendars };
    proof {
        assert forall|day: int|
            r.spec_capacity(day) == (Capacity { num: 1u64, den: 1u64 }) by {
            let cals = r.calendars@;
            assert(cals.drop_last() =~= Seq::<Calendar>::empty());
            assert(cals.last() == member);
            assert(member.free_weekdays@.len() == 0);
            assert(member.free_date_ranges@.len() == 0);
            assert(!member.spec_free_on(day));
            assert(member.spec_capacity_num(day) == 1);
            assert(available_count(Seq::<Calendar>::empty(), day) == 0);
            assert(available_count(cals, day) == 1);
        }
    }
    r
}

} // verus!
