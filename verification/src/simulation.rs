//! The throughput-replay simulator.
//!
//! Instead of a dependency graph, this simpler engine replays history: each
//! simulated day it draws one of the recorded daily throughputs at random,
//! scales it by the calendar capacity of that day, and counts the days
//! until the requested number of issues is reached. Simulated days skip
//! weekends; capacities come from the team calendar.

use vstd::prelude::*;

use crate::calendar::TeamCalendar;
use crate::date::{weekday_of_day, Date, Weekday};
use crate::percentiles;
use crate::throughput::Throughput;
use crate::velocity_calculation::spec_cap_den;

verus! {

broadcast use vstd::seq_lib::group_seq_properties;

/// Failures of the throughput simulation.
#[derive(Debug, Clone, PartialEq)]
pub enum SimulationError {
    /// The start date does not parse as `YYYY-MM-DD`.
    InvalidStartDate(String),
    /// Zero iterations were requested.
    InvalidIterations,
    /// Zero issues were requested.
    InvalidIssueCount,
    /// The throughput history is empty.
    EmptyThroughput,
    /// Every recorded throughput is zero.
    ZeroThroughput,
    /// No finish was reached within the supported horizon.
    InsufficientCapacity,
    /// A percentile lands beyond the last representable date.
    DateOutOfRange,
}

/// How many days one trial will simulate at most.
pub const MAX_SIMULATED_DAYS: u64 = 4_000_000;

/// The random generator the simulator draws from, kept behind a trusted
/// surface.
#[verifier::external_type_specification]
#[verifier::external_body]
pub struct ExStdRng(rand::rngs::StdRng);

/// Relies on rand's `SeedableRng::seed_from_u64`: a generator from a seed
/// (nothing is promised of the values it will yield).
#[verifier::external_body]
pub fn std_rng_from_seed(seed: u64) -> rand::rngs::StdRng {
    <rand::rngs::StdRng as rand::SeedableRng>::seed_from_u64(seed)
}

/// Relies on rand's `SeedableRng::from_entropy`: a generator seeded from
/// the system (nothing is promised of the values it will yield).
#[verifier::external_body]
pub fn std_rng_from_entropy() -> rand::rngs::StdRng {
    <rand::rngs::StdRng as rand::SeedableRng>::from_entropy()
}

/// Relies on rand's `Rng::gen_range`, which yields a value of the given
/// non-empty range: some index below `len`, whichever the generator gives.
#[verifier::external_body]
fn choose_index(rng: &mut rand::rngs::StdRng, len: usize) -> (r: usize)
    requires
        len >= 1,
    ensures
        r < len,
{
    rand::Rng::gen_range(rng, 0..len)
}

/// The next weekday on or after a day: Saturday moves two days, Sunday one.
pub open spec fn spec_next_workday(day: int) -> int {
    if weekday_of_day(day) == Weekday::Sat {
        day + 2
    } else if weekday_of_day(day) == Weekday::Sun {
        day + 1
    } else {
        day
    }
}

/// Whether a day falls on Saturday or Sunday.
pub fn is_weekend(date: Date) -> (r: bool)
    ensures
        r == (weekday_of_day(date.day as int) == Weekday::Sat || weekday_of_day(
            date.day as int,
        ) == Weekday::Sun),
{
    let w = date.weekday();
    matches!(w, Weekday::Sat) || matches!(w, Weekday::Sun)
}

/// The next weekday on or after a date; `None` past the supported range.
pub fn next_workday(date: Date) -> (r: Option<Date>)
    ensures
        date.day <= u32::MAX - 2 ==> (r matches Some(d) && d.day as int == spec_next_workday(
            date.day as int,
        ) && d.day <= date.day + 2 && d.day >= date.day),
{
    let w = date.weekday();
    let step: u32 = if matches!(w, Weekday::Sat) {
        2
    } else if matches!(w, Weekday::Sun) {
        1
    } else {
        0
    };
    if date.day > u32::MAX - 2 {
        return None;
    }
    Some(Date { day: date.day + step })
}

/// The next workday never falls on a weekend.
proof fn lemma_next_workday_not_weekend(day: int)
    ensures
        weekday_of_day(spec_next_workday(day)) != Weekday::Sat,
        weekday_of_day(spec_next_workday(day)) != Weekday::Sun,
{
    assert((day + 2) % 7 == (day % 7 + 2) % 7) by (nonlinear_arith);
    assert((day + 1) % 7 == (day % 7 + 1) % 7) by (nonlinear_arith);
}

/// Every entry of the sorted results is bounded by a bound on the totals.
proof fn lemma_sorted_elements_bounded(totals: Seq<u64>, results: Seq<u64>, bound: u64)
    requires
        results == percentiles::sort_spec(totals),
        forall|t: int| 0 <= t < totals.len() ==> #[trigger] totals[t] <= bound,
    ensures
        forall|i: int| 0 <= i < results.len() ==> #[trigger] results[i] <= bound,
{
    percentiles::lemma_sort_spec_properties(totals);
    totals.to_multiset_ensures();
    results.to_multiset_ensures();
    assert forall|i: int| 0 <= i < results.len() implies #[trigger] results[i] <= bound by {
        assert(results.contains(results[i]));
        assert(results.to_multiset().count(results[i]) > 0);
        assert(totals.to_multiset().count(results[i]) > 0);
        assert(totals.contains(results[i]));
        let j = choose|j: int| 0 <= j < totals.len() && totals[j] == results[i];
        assert(totals[j] <= bound);
    }
}

/// The calendar date of simulated day `k` (counting from one): the first
/// simulated day is the next workday on or after the start, and each later
/// one is the next workday after its predecessor.
pub open spec fn spec_sim_day(start_day: int, k: nat) -> int
    decreases k,
{
    if k <= 1 {
        spec_next_workday(start_day)
    } else {
        spec_next_workday(spec_sim_day(start_day, (k - 1) as nat) + 1)
    }
}

/// The capacity-weighted work done by a sequence of sampled throughputs,
/// scaled by the team's capacity denominator: sample `i` lands on simulated
/// day `i + 1` and counts at that day's capacity.
pub open spec fn sim_progress(
    team: TeamCalendar,
    start_day: int,
    samples: Seq<usize>,
) -> int
    decreases samples.len(),
{
    if samples.len() == 0 {
        0
    } else {
        sim_progress(team, start_day, samples.drop_last()) + samples.last() * team.spec_capacity(
            spec_sim_day(start_day, samples.len()),
        ).num
    }
}

/// What justifies one trial's day count: a sequence of that many samples,
/// each drawn from the recorded values, whose capacity-weighted progress
/// reaches the requested issue count on the last day and not before.
pub open spec fn trial_evidence(
    team: TeamCalendar,
    start_day: int,
    values: Seq<usize>,
    number_of_issues: int,
    days: int,
) -> bool {
    exists|samples: Seq<usize>|
        {
            &&& samples.len() == days
            &&& (forall|i: int| 0 <= i < samples.len() ==> values.contains(#[trigger] samples[i]))
            &&& sim_progress(team, start_day, samples) >= number_of_issues * spec_cap_den(team)
            &&& forall|k: int|
                0 <= k < days ==> sim_progress(team, start_day, #[trigger] samples.take(k))
                    < number_of_issues * spec_cap_den(team)
        }
}

/// Inputs on which no random draw can fail a throughput trial: the default
/// calendar, every recorded value at least one, an issue count within the
/// horizon, and workdays that stay in the date range.
pub open spec fn replay_guaranteed(
    team: TeamCalendar,
    values: Seq<usize>,
    number_of_issues: int,
    start: Date,
) -> bool {
    &&& team.calendars@.len() == 0
    &&& values.len() >= 1
    &&& forall|i: int| 0 <= i < values.len() ==> #[trigger] values[i] >= 1
    &&& 1 <= number_of_issues <= MAX_SIMULATED_DAYS
    &&& start.day + 3 * (number_of_issues + 1) <= crate::date::MAX_DAY_NUMBER
}

/// Runs one trial: counts simulated days (weekends skipped) until the
/// randomly replayed, capacity-scaled throughput reaches the requested
/// issue count. On inputs no draw can fail, it succeeds within the
/// requested issue count.
#[verifier::loop_isolation(false)]
#[verifier::rlimit(60)]
fn simulate_single_run(
    throughput_values: &Vec<usize>,
    number_of_issues: usize,
    start_date: Date,
    calendar: &TeamCalendar,
    rng: &mut rand::rngs::StdRng,
) -> (r: Result<u64, SimulationError>)
    requires
        throughput_values@.len() >= 1,
        number_of_issues >= 1,
        start_date.valid(),
    ensures
        r matches Ok(days) ==> 1 <= days <= MAX_SIMULATED_DAYS && trial_evidence(
            *calendar,
            start_date.day as int,
            throughput_values@,
            number_of_issues as int,
            days as int,
        ),
        r matches Err(e) ==> (e is InsufficientCapacity || e is DateOutOfRange),
        replay_guaranteed(*calendar, throughput_values@, number_of_issues as int, start_date)
            ==> (r matches Ok(d2) && d2 <= number_of_issues),
{
    let ghost team = *calendar;
    let ghost sunny = replay_guaranteed(
        *calendar,
        throughput_values@,
        number_of_issues as int,
        start_date,
    );
    let ghost start_day = start_date.day as int;
    let ghost target = number_of_issues as int * spec_cap_den(team);
    let den: u64 = if calendar.calendars.len() == 0 {
        1
    } else {
        calendar.calendars.len() as u64
    };
    proof {
        assert((number_of_issues as u128) * (den as u128) <= (u64::MAX as u128) * (
        u64::MAX as u128)) by (nonlinear_arith)
            requires
                number_of_issues <= u64::MAX,
                den <= u64::MAX,
        ;
    }
    let target_scaled: u128 = (number_of_issues as u128) * (den as u128);
    proof {
        assert(target_scaled >= 1) by (nonlinear_arith)
            requires
                target_scaled == (number_of_issues as u128) * (den as u128),
                number_of_issues >= 1,
                den >= 1,
        ;
        assert(target == target_scaled as int) by (nonlinear_arith)
            requires
                target == number_of_issues as int * spec_cap_den(team),
                den as int == spec_cap_den(team),
                target_scaled == (number_of_issues as u128) * (den as u128),
        ;
    }

    let mut completed: u128 = 0;
    let mut days: u64 = 0;
    let mut date: Date = match next_workday(start_date) {
        Some(d) => d,
        None => {
            return Err(SimulationError::DateOutOfRange);
        },
    };
    let ghost mut samples: Seq<usize> = Seq::empty();
    while days < MAX_SIMULATED_DAYS
        invariant
            days <= MAX_SIMULATED_DAYS,
            samples.len() == days,
            forall|i: int|
                0 <= i < samples.len() ==> throughput_values@.contains(#[trigger] samples[i]),
            completed as int == sim_progress(team, start_day, samples),
            completed < target_scaled,
            forall|k: int|
                0 <= k < days ==> sim_progress(team, start_day, #[trigger] samples.take(k))
                    < target,
            target == target_scaled as int,
            den as int == spec_cap_den(team),
            date.day as int == spec_sim_day(start_day, (days + 1) as nat),
            sunny == replay_guaranteed(
                *calendar,
                throughput_values@,
                number_of_issues as int,
                start_date,
            ),
            sunny ==> completed as int >= days as int,
            sunny ==> date.day as int <= start_date.day + 3 * (days as int + 1),
        decreases MAX_SIMULATED_DAYS - days,
    {
        let sampled: usize = throughput_values[choose_index(rng, throughput_values.len())];
        let cap = calendar.get_capacity(date);
        proof {
            if sunny {
                // simulated days are workdays, which the default calendar
                // fills completely
                if days == 0 {
                    lemma_next_workday_not_weekend(start_day);
                } else {
                    lemma_next_workday_not_weekend(
                        spec_sim_day(start_day, days as nat) + 1,
                    );
                }
                assert(cap.num == 1 && cap.den == 1);
                assert(sampled >= 1);
            }
        }
        proof {
            assert((sampled as u128) * (cap.num as u128) <= (u64::MAX as u128) * (
            u64::MAX as u128)) by (nonlinear_arith)
                requires
                    sampled <= u64::MAX,
                    cap.num <= u64::MAX,
            ;
            let samples2 = samples.push(sampled);
            assert(samples2.drop_last() =~= samples);
            assert(samples2.take(days as int) =~= samples);
            assert(sim_progress(team, start_day, samples2) == sim_progress(team, start_day, samples)
                + sampled * team.spec_capacity(spec_sim_day(start_day, samples2.len())).num);
        }
        let contribution: u128 = (sampled as u128) * (cap.num as u128);
        proof {
            samples = samples.push(sampled);
            assert forall|k: int|
                0 <= k < days + 1 implies sim_progress(
                team,
                start_day,
                #[trigger] samples.take(k),
            ) < target by {
                if k < days {
                    assert(samples.take(k) =~= samples.drop_last().take(k));
                } else {
                    assert(samples.take(k) =~= samples.drop_last());
                }
            }
        }
        days = days + 1;
        if contribution >= target_scaled - completed {
            proof {
                assert(sim_progress(team, start_day, samples) >= target);
                assert(trial_evidence(
                    team,
                    start_day,
                    throughput_values@,
                    number_of_issues as int,
                    days as int,
                ));
                if sunny {
                    assert(days <= number_of_issues);
                }
            }
            return Ok(days);
        }
        completed = completed + contribution;
        proof {
            if sunny {
                assert(completed >= contribution);
                assert(completed as int >= days as int);
                assert(days < number_of_issues);
                assert(date.day + 1 <= crate::date::MAX_DAY_NUMBER);
            }
        }
        let next = match date.add_days(1) {
            Some(d) => Some(d),
            None => None,
        };
        let stepped = match next {
            Some(d) => next_workday(d),
            None => None,
        };
        date = match stepped {
            Some(d) => d,
            None => {
                proof {
                    assert(!sunny);
                }
                return Err(SimulationError::DateOutOfRange);
            },
        };
        proof {
            assert(date.day as int == spec_sim_day(start_day, (days + 1) as nat));
        }
    }
    proof {
        assert(!sunny);
    }
    Err(SimulationError::InsufficientCapacity)
}

} // verus!
// The trial loop and the report.

verus! {

/// The recorded daily throughput values.
pub open spec fn spec_values(throughput: Seq<Throughput>) -> Seq<usize> {
    throughput.map_values(|t: Throughput| t.completed_issues)
}

/// The day a days figure maps to: the figure rounded up to whole days (at
/// least one), walked along workdays from the start.
pub open spec fn spec_report_day(start_day: int, millis: int) -> int {
    let whole = (millis + 999) / 1000;
    if whole < 1 {
        spec_sim_day(start_day, 1)
    } else {
        spec_sim_day(start_day, whole as nat)
    }
}

/// What the throughput report promises about its percentiles: the days
/// figures follow the nearest-rank rule on the sorted results, and each
/// date is the days figure walked along workdays from the start.
pub open spec fn throughput_report_ok(
    report: crate::simulation_types::SimulationReport,
    results: Seq<u64>,
    start: Date,
) -> bool {
    &&& report.p0.days as int == crate::project_simulation::spec_percentile_days(results, 0)
    &&& report.p50.days as int == crate::project_simulation::spec_percentile_days(results, 50)
    &&& report.p85.days as int == crate::project_simulation::spec_percentile_days(results, 85)
    &&& report.p100.days as int == crate::project_simulation::spec_percentile_days(results, 100)
    &&& report.p0.date@ == crate::date::ymd_text_of_day(
        spec_report_day(
            start.day as int,
            crate::project_simulation::spec_percentile_days(results, 0),
        ),
    )
    &&& report.p50.date@ == crate::date::ymd_text_of_day(
        spec_report_day(
            start.day as int,
            crate::project_simulation::spec_percentile_days(results, 50),
        ),
    )
    &&& report.p85.date@ == crate::date::ymd_text_of_day(
        spec_report_day(
            start.day as int,
            crate::project_simulation::spec_percentile_days(results, 85),
        ),
    )
    &&& report.p100.date@ == crate::date::ymd_text_of_day(
        spec_report_day(
            start.day as int,
            crate::project_simulation::spec_percentile_days(results, 100),
        ),
    )
}

/// Whether a days figure maps to a date without leaving the supported
/// range: its whole-day count stays within the horizon and the workday walk
/// stays below the last representable date.
pub open spec fn report_day_fits(start_day: int, millis: int) -> bool {
    let whole = (millis + 999) / 1000;
    let steps: int = if whole < 1 {
        1
    } else {
        whole
    };
    steps <= MAX_SIMULATED_DAYS && start_day + 3 * steps <= crate::date::MAX_DAY_NUMBER
}

/// The calendar date a days figure lands on: rounded up to whole days (at
/// least one) and walked along workdays from the start; succeeds whenever
/// the walk fits the supported range.
#[verifier::loop_isolation(false)]
fn end_date_from_days(start_date: Date, days: u64) -> (r: Result<Date, SimulationError>)
    requires
        start_date.valid(),
    ensures
        r matches Ok(d) ==> d.day as int == spec_report_day(start_date.day as int, days as int)
            && d.valid(),
        r matches Err(e) ==> e is DateOutOfRange,
        report_day_fits(start_date.day as int, days as int) ==> r is Ok,
{
    let ghost fits = report_day_fits(start_date.day as int, days as int);
    if days > u64::MAX - 999 {
        proof {
            assert((days as int + 999) / 1000 > MAX_SIMULATED_DAYS) by (nonlinear_arith)
                requires
                    days > u64::MAX - 999,
            ;
        }
        return Err(SimulationError::DateOutOfRange);
    }
    let whole: u64 = (days + 999) / 1000;
    let steps: u64 = if whole < 1 {
        1
    } else {
        whole
    };
    if steps > MAX_SIMULATED_DAYS {
        return Err(SimulationError::DateOutOfRange);
    }
    let mut date: Date = match next_workday(start_date) {
        Some(d) => d,
        None => {
            return Err(SimulationError::DateOutOfRange);
        },
    };
    let mut k: u64 = 1;
    while k < steps
        invariant
            1 <= k <= steps,
            steps <= MAX_SIMULATED_DAYS,
            date.day as int == spec_sim_day(start_date.day as int, k as nat),
            date.day as int <= start_date.day + 3 * k,
            date.day >= 1,
            start_date.valid(),
            fits == report_day_fits(start_date.day as int, days as int),
            fits ==> start_date.day + 3 * (steps as int) <= crate::date::MAX_DAY_NUMBER,
        decreases steps - k,
    {
        let next = match date.add_days(1) {
            Some(d) => d,
            None => {
                proof {
                    assert(!fits);
                }
                return Err(SimulationError::DateOutOfRange);
            },
        };
        date = match next_workday(next) {
            Some(d) => d,
            None => {
                proof {
                    assert(!fits);
                }
                return Err(SimulationError::DateOutOfRange);
            },
        };
        k = k + 1;
    }
    if date.day > crate::date::MAX_DAY_NUMBER {
        proof {
            assert(!fits);
        }
        return Err(SimulationError::DateOutOfRange);
    }
    Ok(date)
}

/// Replays the recorded throughput `iterations` times and reduces the day
/// counts (in thousandths of a day) to a report. The inputs are rejected
/// exactly when no iterations or no issues are requested, the history is
/// empty, or every recorded value is zero.
#[verifier::loop_isolation(false)]
#[verifier::rlimit(60)]
pub fn run_simulation_with_rng(
    throughput: &Vec<Throughput>,
    iterations: usize,
    number_of_issues: usize,
    start_date: Date,
    calendar: &TeamCalendar,
    rng: &mut rand::rngs::StdRng,
) -> (r: Result<crate::simulation_types::SimulationOutput, SimulationError>)
    requires
        start_date.valid(),
    ensures
        r == Err::<crate::simulation_types::SimulationOutput, _>(SimulationError::InvalidIterations)
            <==> iterations == 0,
        iterations > 0 ==> (r == Err::<crate::simulation_types::SimulationOutput, _>(
            SimulationError::InvalidIssueCount,
        ) <==> number_of_issues == 0),
        iterations > 0 && number_of_issues > 0 ==> (r == Err::<
            crate::simulation_types::SimulationOutput,
            _,
        >(SimulationError::EmptyThroughput) <==> throughput@.len() == 0),
        iterations > 0 && number_of_issues > 0 && throughput@.len() > 0 ==> (r == Err::<
            crate::simulation_types::SimulationOutput,
            _,
        >(SimulationError::ZeroThroughput) <==> (forall|i: int|
            0 <= i < throughput@.len() ==> (#[trigger] throughput@[i]).completed_issues == 0)),
        r matches Err(e) ==> (e is InvalidIterations || e is InvalidIssueCount
            || e is EmptyThroughput || e is ZeroThroughput || e is InsufficientCapacity
            || e is DateOutOfRange),
        (iterations >= 1 && replay_guaranteed(
            *calendar,
            spec_values(throughput@),
            number_of_issues as int,
            start_date,
        )) ==> r is Ok,
        r matches Ok(out) ==> {
            &&& out.results@.len() == iterations
            &&& percentiles::sorted_u64(out.results@)
            &&& out.report.iterations == iterations
            &&& out.report.simulated_items == number_of_issues
            &&& out.report.velocity is None
            &&& out.report.start_date@ == crate::date::ymd_text_of_day(start_date.day as int)
            &&& out.report.data_source@ == Seq::<char>::empty()
            &&& out.work_packages is None
            &&& throughput_report_ok(out.report, out.results@, start_date)
            &&& exists|totals: Seq<u64>|
                {
                    &&& totals.len() == iterations
                    &&& out.results@ == percentiles::sort_spec(totals)
                    &&& forall|t: int|
                        0 <= t < totals.len() ==> (#[trigger] totals[t]) % 1000 == 0 && 1000
                            <= totals[t] && totals[t] <= MAX_SIMULATED_DAYS * 1000
                            && trial_evidence(
                            *calendar,
                            start_date.day as int,
                            spec_values(throughput@),
                            number_of_issues as int,
                            totals[t] as int / 1000,
                        )
                }
        },
{
    if iterations == 0 {
        return Err(SimulationError::InvalidIterations);
    }
    if number_of_issues == 0 {
        return Err(SimulationError::InvalidIssueCount);
    }
    let m: usize = throughput.len();
    if m == 0 {
        return Err(SimulationError::EmptyThroughput);
    }

    let mut values: Vec<usize> = Vec::new();
    let mut all_zero: bool = true;
    let mut i: usize = 0;
    while i < m
        invariant
            i <= m,
            m == throughput@.len(),
            values@.len() == i,
            forall|k: int|
                0 <= k < i ==> (#[trigger] values@[k]) == throughput@[k].completed_issues,
            all_zero <==> (forall|k: int|
                0 <= k < i ==> (#[trigger] throughput@[k]).completed_issues == 0),
        decreases m - i,
    {
        let v: usize = throughput[i].completed_issues;
        if v != 0 {
            all_zero = false;
        }
        values.push(v);
        i = i + 1;
    }
    if all_zero {
        proof {
            if replay_guaranteed(
                *calendar,
                spec_values(throughput@),
                number_of_issues as int,
                start_date,
            ) {
                assert(spec_values(throughput@)[0] == throughput@[0].completed_issues);
                assert(false);
            }
        }
        return Err(SimulationError::ZeroThroughput);
    }
    proof {
        assert(values@ =~= spec_values(throughput@));
    }
    let ghost sunny = replay_guaranteed(
        *calendar,
        spec_values(throughput@),
        number_of_issues as int,
        start_date,
    );

    let mut totals: Vec<u64> = Vec::new();
    let mut t: usize = 0;
    while t < iterations
        invariant
            t <= iterations,
            totals@.len() == t,
            values@.len() == m,
            m >= 1,
            number_of_issues >= 1,
            start_date.valid(),
            sunny == replay_guaranteed(
                *calendar,
                spec_values(throughput@),
                number_of_issues as int,
                start_date,
            ),
            forall|tt: int|
                0 <= tt < t ==> (#[trigger] totals@[tt]) % 1000 == 0 && 1000 <= totals@[tt]
                    && totals@[tt] <= MAX_SIMULATED_DAYS * 1000 && trial_evidence(
                    *calendar,
                    start_date.day as int,
                    values@,
                    number_of_issues as int,
                    totals@[tt] as int / 1000,
                ),
            sunny ==> forall|tt: int|
                0 <= tt < t ==> (#[trigger] totals@[tt]) <= number_of_issues * 1000,
        decreases iterations - t,
    {
        let days: u64 = match simulate_single_run(
            &values,
            number_of_issues,
            start_date,
            calendar,
            rng,
        ) {
            Ok(days) => days,
            Err(e) => {
                proof {
                    assert(!sunny);
                }
                return Err(e);
            },
        };
        let total: u64 = days * 1000;
        proof {
            assert(total as int / 1000 == days as int);
            if sunny {
                assert(days <= number_of_issues);
                assert(total <= number_of_issues * 1000);
            }
        }
        totals.push(total);
        t = t + 1;
    }

    let results = percentiles::sort_u64s(&totals);
    proof {
        percentiles::lemma_sort_spec_properties(totals@);
        if sunny {
            lemma_sorted_elements_bounded(
                totals@,
                results@,
                (number_of_issues * 1000) as u64,
            );
        }
    }

    let p0_days: u64 = match percentiles::value_sorted(&results, 0) {
        Some(v) => v,
        None => 0,
    };
    let p50_days: u64 = match percentiles::value_sorted(&results, 50) {
        Some(v) => v,
        None => 0,
    };
    let p85_days: u64 = match percentiles::value_sorted(&results, 85) {
        Some(v) => v,
        None => 0,
    };
    let p100_days: u64 = match percentiles::value_sorted(&results, 100) {
        Some(v) => v,
        None => 0,
    };
    proof {
        if sunny {
            if results@.len() > 0 {
                percentiles::lemma_percentile_index_in_bounds(results@.len() as int, 0);
                percentiles::lemma_percentile_index_in_bounds(results@.len() as int, 50);
                percentiles::lemma_percentile_index_in_bounds(results@.len() as int, 85);
                percentiles::lemma_percentile_index_in_bounds(results@.len() as int, 100);
            }
            assert(p0_days <= number_of_issues * 1000);
            assert(p50_days <= number_of_issues * 1000);
            assert(p85_days <= number_of_issues * 1000);
            assert(p100_days <= number_of_issues * 1000);
            assert forall|millis: u64|
                millis <= number_of_issues * 1000 implies #[trigger] report_day_fits(
                start_date.day as int,
                millis as int,
            ) by {
                assert((millis as int + 999) / 1000 <= number_of_issues as int)
                    by (nonlinear_arith)
                    requires
                        millis <= number_of_issues * 1000,
                ;
            }
        }
    }
    let p0_date = match end_date_from_days(start_date, p0_days) {
        Ok(d) => d,
        Err(e) => {
            proof {
                assert(!sunny);
            }
            return Err(e);
        },
    };
    let p50_date = match end_date_from_days(start_date, p50_days) {
        Ok(d) => d,
        Err(e) => {
            proof {
                assert(!sunny);
            }
            return Err(e);
        },
    };
    let p85_date = match end_date_from_days(start_date, p85_days) {
        Ok(d) => d,
        Err(e) => {
            proof {
                assert(!sunny);
            }
            return Err(e);
        },
    };
    let p100_date = match end_date_from_days(start_date, p100_days) {
        Ok(d) => d,
        Err(e) => {
            proof {
                assert(!sunny);
            }
            return Err(e);
        },
    };
    let report = crate::simulation_types::SimulationReport {
        data_source: String::new(),
        start_date: start_date.format(),
        velocity: None,
        iterations,
        simulated_items: number_of_issues,
        p0: crate::simulation_types::SimulationPercentile {
            days: p0_days,
            date: p0_date.format(),
        },
        p50: crate::simulation_types::SimulationPercentile {
            days: p50_days,
            date: p50_date.format(),
        },
        p85: crate::simulation_types::SimulationPercentile {
            days: p85_days,
            date: p85_date.format(),
        },
        p100: crate::simulation_types::SimulationPercentile {
            days: p100_days,
            date: p100_date.format(),
        },
    };
    Ok(
        crate::simulation_types::SimulationOutput {
            report,
            results,
            work_packages: None,
        },
    )
}

} // verus!
