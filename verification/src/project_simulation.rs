//! The dependency-aware Monte Carlo simulator.
//!
//! A project's items form a directed acyclic graph; the simulator orders
//! them topologically, samples a duration for each item per trial,
//! propagates earliest-finish times along the dependencies, and reduces the
//! per-trial totals to percentile estimates.

use vstd::multiset::Multiset;
use vstd::prelude::*;

use crate::calendar::TeamCalendar;
use crate::date::Date;
use crate::estimate::{Estimate, ThreePointEstimate};
use crate::graph::{
    graph_add_edge, graph_add_node, graph_edges, graph_new, graph_nodes, graph_toposort,
    has_cycle, is_topological_order,
};
use crate::issue::Issue;
use crate::project::Project;
use crate::velocity_calculation;
use crate::velocity_calculation::VelocityCalculationError;

verus! {

broadcast use {vstd::multiset::group_multiset_axioms, vstd::seq_lib::group_seq_properties};

/// Failures of the dependency-aware simulation.
#[derive(Debug, Clone, PartialEq)]
pub enum ProjectSimulationError {
    /// Zero iterations were requested.
    InvalidIterations,
    /// The project has no work packages.
    EmptyProject,
    /// A work package has no identifier.
    MissingIssueId,
    /// Two work packages share an identifier.
    DuplicateIssueId(String),
    /// A work package has no estimate.
    MissingEstimate(String),
    /// No completed issue carries a story-point value and both dates.
    MissingVelocityData,
    /// A selected issue lost a date between selection and use.
    MissingVelocityDates,
    /// The velocity period has no capacity.
    InvalidVelocityDuration,
    /// The computed velocity is zero or beyond what this library holds.
    InvalidVelocityValue,
    /// The start date does not parse as `YYYY-MM-DD`.
    InvalidStartDate(String),
    /// A story-point estimate exists but no velocity is available.
    MissingVelocity,
    /// A declared dependency names no known work package.
    UnknownDependency { issue: String, dependency: String },
    /// The dependency relation has a cycle.
    CyclicDependencies,
    /// An estimate is missing a value or its triplet is inconsistent.
    InvalidEstimate(String),
    /// The item count or dependency count exceeds the graph's index space.
    CapacityExceeded,
    /// A finish time grew beyond what this library holds.
    DurationOverflow,
    /// No finish could be reached within the supported horizon.
    InsufficientCapacity,
    /// A percentile lands beyond the last representable date.
    DateOutOfRange,
}

/// The identifier text of an issue (empty when it has none).
pub open spec fn spec_id(issue: Issue) -> Seq<char> {
    match issue.issue_id {
        Some(id) => id.id@,
        None => Seq::empty(),
    }
}

/// The declared dependency identifiers of an issue.
pub open spec fn spec_deps(issue: Issue) -> Seq<Seq<char>> {
    match issue.dependencies {
        Some(ds) => ds@.map_values(|d: crate::issue::IssueId| d.id@),
        None => Seq::empty(),
    }
}

/// Every issue carries an identifier.
pub open spec fn all_ids_present(issues: Seq<Issue>) -> bool {
    forall|i: int| 0 <= i < issues.len() ==> (#[trigger] issues[i]).issue_id is Some
}

/// No two issues share an identifier.
pub open spec fn ids_unique(issues: Seq<Issue>) -> bool {
    forall|i: int, j: int|
        0 <= i < j < issues.len() ==> spec_id(#[trigger] issues[i]) != spec_id(
            #[trigger] issues[j],
        )
}

/// Issue `j` is a declared dependency of issue `i`.
pub open spec fn dep_edge(issues: Seq<Issue>, j: int, i: int) -> bool {
    &&& 0 <= j < issues.len()
    &&& 0 <= i < issues.len()
    &&& spec_deps(issues[i]).contains(spec_id(issues[j]))
}

/// Every declared dependency names some issue of the project.
pub open spec fn deps_resolve(issues: Seq<Issue>) -> bool {
    forall|i: int, d: int|
        0 <= i < issues.len() && 0 <= d < spec_deps(issues[i]).len() ==> exists|j: int|
            0 <= j < issues.len() && spec_id(issues[j]) == #[trigger] spec_deps(
                #[trigger] issues[i],
            )[d]
}

/// The dependency relation has a cycle: some index path steps only along
/// declared dependencies and returns to its first issue.
pub open spec fn spec_dep_cycle(issues: Seq<Issue>) -> bool {
    exists|path: Seq<int>|
        {
            &&& path.len() >= 2
            &&& path.first() == path.last()
            &&& forall|k: int| 0 <= k < path.len() - 1 ==> dep_edge(issues, #[trigger] path[k], path[k + 1])
        }
}

/// How many dependency declarations the project holds in total.
pub open spec fn total_deps(issues: Seq<Issue>) -> int
    decreases issues.len(),
{
    if issues.len() == 0 {
        0
    } else {
        total_deps(issues.drop_last()) + spec_deps(issues.last()).len()
    }
}

/// Largest item count and dependency count the graph's index space takes.
pub const GRAPH_INDEX_LIMIT: u32 = 0xFFFF_FFFE;

/// Everything the topological sort needs: identifiers present and unique,
/// dependencies resolving, an acyclic relation, and counts within the
/// graph's index space.
pub open spec fn topo_ok(issues: Seq<Issue>) -> bool {
    &&& all_ids_present(issues)
    &&& ids_unique(issues)
    &&& deps_resolve(issues)
    &&& !spec_dep_cycle(issues)
    &&& issues.len() < GRAPH_INDEX_LIMIT
    &&& total_deps(issues) <= GRAPH_INDEX_LIMIT
}

/// The order lists every issue's identifier somewhere.
pub open spec fn order_covers(issues: Seq<Issue>, order: Seq<Seq<char>>) -> bool {
    forall|i: int| 0 <= i < issues.len() ==> order.contains(spec_id(#[trigger] issues[i]))
}

/// No identifier repeats in the order.
pub open spec fn order_distinct(order: Seq<Seq<char>>) -> bool {
    forall|k1: int, k2: int| 0 <= k1 < k2 < order.len() ==> order[k1] != order[k2]
}

/// The position of an identifier in an order (meaningful when present).
pub open spec fn order_position(order: Seq<Seq<char>>, id: Seq<char>) -> int {
    choose|k: int| 0 <= k < order.len() && order[k] == id
}

/// Every declared dependency stands before its dependent in the order.
pub open spec fn order_respects_dependencies(issues: Seq<Issue>, order: Seq<Seq<char>>) -> bool {
    forall|j: int, i: int|
        #[trigger] dep_edge(issues, j, i) ==> order_position(order, spec_id(issues[j]))
            < order_position(order, spec_id(issues[i]))
}

/// The views of an order's identifiers.
pub open spec fn order_views(order: Seq<String>) -> Seq<Seq<char>> {
    order.map_values(|s: String| s@)
}

/// A cycle among graph edges that mirror the dependency relation is a cycle
/// of the dependency relation, and the other way round.
proof fn lemma_cycle_bridge(issues: Seq<Issue>, edges: Multiset<(int, int)>)
    requires
        forall|a: int, b: int| edges.contains((a, b)) <==> dep_edge(issues, a, b),
    ensures
        has_cycle(edges) <==> spec_dep_cycle(issues),
{
    if has_cycle(edges) {
        let path = choose|path: Seq<int>| crate::graph::is_cycle(edges, path);
        assert forall|k: int| 0 <= k < path.len() - 1 implies dep_edge(
            issues,
            #[trigger] path[k],
            path[k + 1],
        ) by {
            assert(edges.contains((path[k], path[k + 1])));
        }
        assert(spec_dep_cycle(issues));
    }
    if spec_dep_cycle(issues) {
        let path = choose|path: Seq<int>|
            {
                &&& path.len() >= 2
                &&& path.first() == path.last()
                &&& forall|k: int|
                    0 <= k < path.len() - 1 ==> dep_edge(issues, #[trigger] path[k], path[k + 1])
            };
        assert forall|k: int| 0 <= k < path.len() - 1 implies edges.contains(
            ((#[trigger] path[k]), path[k + 1]),
        ) by {
            assert(dep_edge(issues, path[k], path[k + 1]));
        }
        assert(crate::graph::is_cycle(edges, path));
        assert(has_cycle(edges));
    }
}

/// Lifts a topological order of node indices to the identifier order.
proof fn lemma_order_respects(
    issues: Seq<Issue>,
    ids: Seq<Seq<char>>,
    edges: Multiset<(int, int)>,
    order_idx: Seq<u32>,
    out: Seq<Seq<char>>,
)
    requires
        issues.len() < 0x1_0000_0000,
        is_topological_order(issues.len() as int, edges, order_idx),
        ids.len() == issues.len(),
        forall|a: int| 0 <= a < ids.len() ==> ids[a] == spec_id(#[trigger] issues[a]),
        ids_unique(issues),
        forall|a: int, b: int| edges.contains((a, b)) <==> dep_edge(issues, a, b),
        out.len() == order_idx.len(),
        forall|k: int| 0 <= k < out.len() ==> out[k] == ids[(#[trigger] order_idx[k]) as int],
    ensures
        order_respects_dependencies(issues, out),
        order_covers(issues, out),
        order_distinct(out),
{
    let n = issues.len() as int;
    // the order lists every issue's identifier
    assert forall|i: int| 0 <= i < issues.len() implies out.contains(
        spec_id(#[trigger] issues[i]),
    ) by {
        assert(order_idx.contains(i as u32));
        let k = choose|k: int| 0 <= k < order_idx.len() && order_idx[k] == i as u32;
        assert(out[k] == ids[i]);
        assert(0 <= k < out.len() && out[k] == spec_id(issues[i]));
    }
    assert(order_covers(issues, out));
    // distinct entries
    assert forall|k1: int, k2: int| 0 <= k1 < k2 < out.len() implies out[k1] != out[k2] by {
        assert(order_idx[k1] != order_idx[k2]);
        let a = order_idx[k1] as int;
        let b = order_idx[k2] as int;
        assert(out[k1] == ids[a] && out[k2] == ids[b]);
        if a < b {
            assert(spec_id(issues[a]) != spec_id(issues[b]));
        } else {
            assert(spec_id(issues[b]) != spec_id(issues[a]));
        }
    }
    assert(order_distinct(out));
    // dependencies come first
    assert forall|j: int, i: int| #[trigger] dep_edge(issues, j, i) implies order_position(
        out,
        spec_id(issues[j]),
    ) < order_position(out, spec_id(issues[i])) by {
        assert(edges.contains((j, i)));
        assert(order_idx.contains(j as u32));
        assert(order_idx.contains(i as u32));
        let kj0 = choose|k: int| 0 <= k < order_idx.len() && order_idx[k] == j as u32;
        assert(out[kj0] == ids[j]);
        assert(0 <= kj0 < out.len() && out[kj0] == spec_id(issues[j]));
        let pj = order_position(out, spec_id(issues[j]));
        assert(0 <= pj < out.len() && out[pj] == spec_id(issues[j]));
        let ki0 = choose|k: int| 0 <= k < order_idx.len() && order_idx[k] == i as u32;
        assert(out[ki0] == ids[i]);
        assert(0 <= ki0 < out.len() && out[ki0] == spec_id(issues[i]));
        let pi = order_position(out, spec_id(issues[i]));
        assert(0 <= pi < out.len() && out[pi] == spec_id(issues[i]));
        // the entries at the chosen positions are the right node indices
        let a = order_idx[pj] as int;
        assert(out[pj] == ids[a]);
        assert(0 <= a < n);
        if a != j {
            if a < j {
                assert(spec_id(issues[a]) != spec_id(issues[j]));
            } else {
                assert(spec_id(issues[j]) != spec_id(issues[a]));
            }
            assert(false);
        }
        let b = order_idx[pi] as int;
        assert(out[pi] == ids[b]);
        assert(0 <= b < n);
        if b != i {
            if b < i {
                assert(spec_id(issues[b]) != spec_id(issues[i]));
            } else {
                assert(spec_id(issues[i]) != spec_id(issues[b]));
            }
            assert(false);
        }
        assert(edges.contains(((order_idx[pj]) as int, (order_idx[pi]) as int)));
        assert(pj < pi);
    }
}

/// Finds the index of an identifier in the list, scanning from the front.
fn find_index(ids: &Vec<String>, target: &String) -> (r: Option<usize>)
    ensures
        r matches Some(j) ==> j < ids@.len() && ids@[j as int]@ == target@,
        r is None ==> forall|j: int| 0 <= j < ids@.len() ==> (#[trigger] ids@[j])@ != target@,
{
    let mut j: usize = 0;
    while j < ids.len()
        invariant
            j <= ids@.len(),
            forall|k: int| 0 <= k < j ==> (#[trigger] ids@[k])@ != target@,
        decreases ids@.len() - j,
    {
        if ids[j] == *target {
            return Some(j);
        }
        j = j + 1;
    }
    None
}

/// Lists the work packages in an order that puts every declared dependency
/// before its dependents. Succeeds exactly when every item has a unique
/// identifier, every dependency resolves, the relation is acyclic, and the
/// counts fit the graph's index space; each error names what failed.
#[verifier::loop_isolation(false)]
pub fn topological_sort(project: &Project) -> (r: Result<Vec<String>, ProjectSimulationError>)
    ensures
        r is Ok <==> topo_ok(project.work_packages@),
        r matches Ok(order) ==> {
            &&& order@.len() == project.work_packages@.len()
            &&& order_covers(project.work_packages@, order_views(order@))
            &&& order_distinct(order_views(order@))
            &&& order_respects_dependencies(project.work_packages@, order_views(order@))
            &&& forall|k: int|
                0 <= k < order@.len() ==> exists|i: int|
                    0 <= i < project.work_packages@.len() && (#[trigger] order@[k])@ == spec_id(
                        project.work_packages@[i],
                    )
        },
        r == Err::<Vec<String>, _>(ProjectSimulationError::MissingIssueId) ==> exists|i: int|
            0 <= i < project.work_packages@.len() && (#[trigger] project.work_packages@[i]).issue_id is None,
        r matches Err(ProjectSimulationError::DuplicateIssueId(dup)) ==> !ids_unique(
            project.work_packages@,
        ) && exists|i: int|
            0 <= i < project.work_packages@.len() && dup@ == spec_id(
                #[trigger] project.work_packages@[i],
            ),
        r matches Err(ProjectSimulationError::UnknownDependency { issue, dependency })
            ==> !deps_resolve(project.work_packages@) && (exists|i: int, d: int|
            0 <= i < project.work_packages@.len() && 0 <= d < spec_deps(
                project.work_packages@[i],
            ).len() && issue@ == spec_id(project.work_packages@[i]) && dependency@
                == #[trigger] spec_deps(#[trigger] project.work_packages@[i])[d]) && (forall|
            j: int,
        |
            0 <= j < project.work_packages@.len() ==> spec_id(#[trigger] project.work_packages@[j])
                != dependency@),
        r == Err::<Vec<String>, _>(ProjectSimulationError::CyclicDependencies) ==> spec_dep_cycle(
            project.work_packages@,
        ),
        r == Err::<Vec<String>, _>(ProjectSimulationError::CapacityExceeded) ==> (
        project.work_packages@.len() >= GRAPH_INDEX_LIMIT || total_deps(project.work_packages@)
            > GRAPH_INDEX_LIMIT),
        r matches Err(e) ==> (e is MissingIssueId || e is DuplicateIssueId
            || e is UnknownDependency || e is CyclicDependencies || e is CapacityExceeded),
{
    let issues = &project.work_packages;
    let n: usize = issues.len();

    // Collect the identifiers, rejecting missing and duplicate ones.
    let mut ids: Vec<String> = Vec::new();
    let mut i: usize = 0;
    while i < n
        invariant
            i <= n,
            n == issues@.len(),
            ids@.len() == i,
            forall|k: int| 0 <= k < i ==> (#[trigger] issues@[k]).issue_id is Some,
            forall|k: int| 0 <= k < i ==> (#[trigger] ids@[k])@ == spec_id(issues@[k]),
            forall|k1: int, k2: int|
                0 <= k1 < k2 < i ==> spec_id(#[trigger] issues@[k1]) != spec_id(
                    #[trigger] issues@[k2],
                ),
        decreases n - i,
    {
        let id: String = match &issues[i].issue_id {
            Some(iid) => iid.id.clone(),
            None => {
                return Err(ProjectSimulationError::MissingIssueId);
            },
        };
        match find_index(&ids, &id) {
            Some(j) => {
                proof {
                    assert(spec_id(issues@[j as int]) == spec_id(issues@[i as int]));
                    assert(!ids_unique(issues@));
                }
                return Err(ProjectSimulationError::DuplicateIssueId(id));
            },
            None => {},
        }
        proof {
            assert(id@ == spec_id(issues@[i as int]));
            assert forall|k1: int| 0 <= k1 < i implies spec_id(issues@[k1]) != spec_id(
                issues@[i as int],
            ) by {
                assert(ids@[k1]@ != id@);
            }
        }
        ids.push(id);
        i = i + 1;
    }

    if n >= GRAPH_INDEX_LIMIT as usize {
        return Err(ProjectSimulationError::CapacityExceeded);
    }

    // One graph node per issue, numbered in issue order.
    let mut g = graph_new();
    let mut i: usize = 0;
    while i < n
        invariant
            i <= n,
            n < GRAPH_INDEX_LIMIT,
            graph_nodes(g) == i,
            graph_edges(g) == Multiset::<(int, int)>::empty(),
        decreases n - i,
    {
        let _ = graph_add_node(&mut g);
        i = i + 1;
    }

    // One edge per declared dependency, from the dependency to the
    // dependent.
    let mut edge_count: u64 = 0;
    let mut i: usize = 0;
    while i < n
        invariant
            i <= n,
            n == issues@.len(),
            n < GRAPH_INDEX_LIMIT,
            ids@.len() == n,
            forall|k: int| 0 <= k < n ==> (#[trigger] ids@[k])@ == spec_id(issues@[k]),
            ids_unique(issues@),
            all_ids_present(issues@),
            graph_nodes(g) == n,
            edge_count == graph_edges(g).len(),
            edge_count == total_deps(issues@.take(i as int)),
            edge_count <= GRAPH_INDEX_LIMIT,
            forall|a: int, b: int|
                #[trigger] graph_edges(g).contains((a, b)) ==> dep_edge(issues@, a, b) && b
                    < i,
            forall|a: int, b: int|
                #[trigger] dep_edge(issues@, a, b) && b < i ==> graph_edges(g).contains(
                    (a, b),
                ),
            forall|bb: int, dd: int|
                0 <= bb < i && 0 <= dd < spec_deps(issues@[bb]).len() ==> exists|j: int|
                    0 <= j < n && spec_id(issues@[j]) == #[trigger] spec_deps(
                        #[trigger] issues@[bb],
                    )[dd],
        decreases n - i,
    {
        let deps_opt = &issues[i].dependencies;
        match deps_opt {
            None => {
                proof {
                    assert(spec_deps(issues@[i as int]) =~= Seq::<Seq<char>>::empty());
                    assert(issues@.take(i + 1).drop_last() =~= issues@.take(i as int));
                    assert(issues@.take(i + 1).last() == issues@[i as int]);
                    assert(total_deps(issues@.take(i + 1)) == total_deps(issues@.take(i as int))
                        + spec_deps(issues@[i as int]).len());
                }
            },
            Some(deps) => {
                let m: usize = deps.len();
                let mut d: usize = 0;
                while d < m
                    invariant
                        d <= m,
                        0 <= i < n,
                        n == issues@.len(),
                        n < GRAPH_INDEX_LIMIT,
                        ids@.len() == n,
                        forall|k: int| 0 <= k < n ==> (#[trigger] ids@[k])@ == spec_id(issues@[k]),
                        ids_unique(issues@),
                        all_ids_present(issues@),
                        issues@[i as int].dependencies matches Some(dd) && dd@ == deps@,
                        m == deps@.len(),
                        spec_deps(issues@[i as int]).len() == m,
                        forall|k: int|
                            0 <= k < m ==> spec_deps(issues@[i as int])[k] == (
                            #[trigger] deps@[k]).id@,
                        graph_nodes(g) == n,
                        edge_count == graph_edges(g).len(),
                        edge_count == total_deps(issues@.take(i as int)) + d,
                        edge_count <= GRAPH_INDEX_LIMIT,
                        forall|a: int, b: int|
                            #[trigger] graph_edges(g).contains((a, b)) ==> dep_edge(
                                issues@,
                                a,
                                b,
                            ) && b <= i,
                        forall|a: int, b: int|
                            #[trigger] dep_edge(issues@, a, b) && b < i ==> graph_edges(
                                g,
                            ).contains((a, b)),
                        forall|bb: int, dd: int|
                            0 <= bb < i && 0 <= dd < spec_deps(issues@[bb]).len() ==> exists|j: int|
                                0 <= j < n && spec_id(issues@[j]) == #[trigger] spec_deps(
                                    #[trigger] issues@[bb],
                                )[dd],
                        forall|k: int|
                            0 <= k < d ==> exists|jj: int|
                                0 <= jj < n && spec_id(issues@[jj]) == (#[trigger] deps@[k]).id@
                                    && graph_edges(g).contains((jj, i as int)),
                    decreases m - d,
                {
                    let dep_id = &deps[d].id;
                    match find_index(&ids, dep_id) {
                        None => {
                            proof {
                                assert(spec_deps(issues@[i as int])[d as int] == deps@[
                                d as int].id@);
                                assert forall|j: int| 0 <= j < n implies spec_id(
                                    #[trigger] issues@[j],
                                ) != deps@[d as int].id@ by {
                                    assert(ids@[j]@ != deps@[d as int].id@);
                                }
                                assert(!deps_resolve(issues@));
                                assert(ids@[i as int]@ == spec_id(issues@[i as int]));
                            }
                            return Err(
                                ProjectSimulationError::UnknownDependency {
                                    issue: ids[i].clone(),
                                    dependency: dep_id.clone(),
                                },
                            );
                        },
                        Some(j) => {
                            if edge_count >= GRAPH_INDEX_LIMIT as u64 {
                                proof {
                                    lemma_total_deps_prefix(issues@, i as int, d + 1);
                                }
                                return Err(ProjectSimulationError::CapacityExceeded);
                            }
                            proof {
                                assert(ids@[j as int]@ == spec_id(issues@[j as int]));
                                assert(spec_deps(issues@[i as int]).contains(
                                    spec_id(issues@[j as int]),
                                )) by {
                                    assert(spec_deps(issues@[i as int])[d as int] == deps@[
                                    d as int].id@);
                                }
                                assert(dep_edge(issues@, j as int, i as int));
                            }
                            let ghost g_prev = g;
                            graph_add_edge(&mut g, j as u32, i as u32);
                            edge_count = edge_count + 1;
                            proof {
                                let pair = (j as int, i as int);
                                assert forall|a: int, b: int|
                                    #[trigger] graph_edges(g).contains((a, b)) implies (
                                graph_edges(g_prev).contains((a, b)) || (a == j as int && b
                                    == i as int)) by {
                                    if (a, b) != pair {
                                        assert(graph_edges(g).count((a, b)) == graph_edges(
                                            g_prev,
                                        ).count((a, b)));
                                    }
                                }
                                assert forall|a: int, b: int|
                                    #[trigger] graph_edges(g_prev).contains((a, b)) implies
                                    graph_edges(g).contains((a, b)) by {
                                    assert(graph_edges(g).count((a, b)) >= graph_edges(
                                        g_prev,
                                    ).count((a, b)));
                                }
                                assert(graph_edges(g).contains(pair));
                            }
                        },
                    }
                    d = d + 1;
                }
                proof {
                    assert(issues@.take(i + 1).drop_last() =~= issues@.take(i as int));
                    assert(issues@.take(i + 1).last() == issues@[i as int]);
                    assert(total_deps(issues@.take(i + 1)) == total_deps(issues@.take(i as int))
                        + spec_deps(issues@[i as int]).len());
                    // every dependency edge into issue i is now present
                    assert forall|a: int, b: int|
                        dep_edge(issues@, a, b) && b < i + 1 implies graph_edges(g).contains(
                        (a, b),
                    ) by {
                        if b == i {
                            let dd = choose|dd: int|
                                0 <= dd < spec_deps(issues@[b]).len() && spec_deps(issues@[b])[dd]
                                    == spec_id(issues@[a]);
                            assert(exists|jj: int|
                                0 <= jj < n && spec_id(issues@[jj]) == (#[trigger] deps@[dd]).id@
                                    && graph_edges(g).contains((jj, i as int)));
                            let jj = choose|jj: int|
                                0 <= jj < n && spec_id(issues@[jj]) == deps@[dd].id@ && graph_edges(
                                    g,
                                ).contains((jj, i as int));
                            if jj != a {
                                if jj < a {
                                    assert(spec_id(issues@[jj]) != spec_id(issues@[a]));
                                } else {
                                    assert(spec_id(issues@[a]) != spec_id(issues@[jj]));
                                }
                                assert(false);
                            }
                        }
                    }
                }
            },
        }
        proof {
            assert forall|a: int, b: int| graph_edges(g).contains((a, b)) implies dep_edge(
                issues@,
                a,
                b,
            ) && b < i + 1 by {
                assert(dep_edge(issues@, a, b));
                assert(b <= i);
            }
        }
        i = i + 1;
    }
    proof {
        assert(issues@.take(n as int) =~= issues@);
        assert forall|a: int, b: int| graph_edges(g).contains((a, b)) <==> dep_edge(
            issues@,
            a,
            b,
        ) by {}
        lemma_cycle_bridge(issues@, graph_edges(g));
        assert(deps_resolve(issues@));
    }

    let order_idx = match graph_toposort(&g) {
        Ok(order_idx) => order_idx,
        Err(_) => {
            return Err(ProjectSimulationError::CyclicDependencies);
        },
    };

    let mut out: Vec<String> = Vec::new();
    let mut k: usize = 0;
    while k < order_idx.len()
        invariant
            k <= order_idx@.len(),
            is_topological_order(n as int, graph_edges(g), order_idx@),
            n == issues@.len(),
            ids@.len() == n,
            out@.len() == k,
            forall|kk: int|
                0 <= kk < k ==> (#[trigger] out@[kk])@ == ids@[(order_idx@[kk]) as int]@,
        decreases order_idx@.len() - k,
    {
        let idx = order_idx[k];
        out.push(ids[idx as usize].clone());
        k = k + 1;
    }

    proof {
        let views = order_views(out@);
        assert(views.len() == out@.len());
        assert forall|kk: int| 0 <= kk < views.len() implies views[kk] == Seq::new(
            ids@.len() as nat,
            |a: int| ids@[a]@,
        )[(order_idx@[kk]) as int] by {
            assert(views[kk] == out@[kk]@);
        }
        lemma_order_respects(
            issues@,
            Seq::new(ids@.len() as nat, |a: int| ids@[a]@),
            graph_edges(g),
            order_idx@,
            views,
        );
        assert forall|kk: int|
            0 <= kk < out@.len() implies exists|i2: int|
            0 <= i2 < issues@.len() && (#[trigger] out@[kk])@ == spec_id(issues@[i2]) by {
            let a = order_idx@[kk] as int;
            assert(0 <= a < n);
            assert(out@[kk]@ == ids@[a]@);
            assert(ids@[a]@ == spec_id(issues@[a]));
        }
    }
    Ok(out)
}

/// How many dependency declarations stand before dependency `d` of issue
/// `i` in iteration order.
pub open spec fn total_deps_at(issues: Seq<Issue>, i: int, d: int) -> int {
    total_deps(issues.take(i)) + d
}

/// A mid-iteration dependency count bounds the total from below.
proof fn lemma_total_deps_prefix(issues: Seq<Issue>, i: int, d: int)
    requires
        0 <= i < issues.len(),
        0 <= d <= spec_deps(issues[i]).len(),
    ensures
        total_deps_at(issues, i, d) <= total_deps(issues),
    decreases issues.len() - i,
{
    if i + 1 == issues.len() {
        assert(issues.take(issues.len() as int) =~= issues);
        assert(issues.take(i).push(issues[i]) =~= issues);
        assert(total_deps(issues) == total_deps(issues.take(i)) + spec_deps(issues[i]).len())
            by {
            assert(issues.drop_last() =~= issues.take(i));
            assert(issues.last() == issues[i]);
        }
    } else {
        lemma_total_deps_prefix(issues, i + 1, 0);
        assert(issues.take(i + 1).drop_last() =~= issues.take(i));
        assert(issues.take(i + 1).last() == issues[i]);
        assert(total_deps(issues.take(i + 1)) == total_deps(issues.take(i)) + spec_deps(
            issues[i],
        ).len());
    }
}

} // verus!
// The simulation core: triplet resolution, duration sampling, and
// earliest-finish propagation.

verus! {

/// How many calendar days the simulator will walk past an item's ready time
/// to place its work.
pub const ADVANCE_HORIZON_DAYS: u64 = 4_000_000;

/// The largest ready time the calendar walk takes: headroom for the whole
/// horizon must remain below the largest representable time.
pub const ADVANCE_READY_BOUND: u64 = u64::MAX - 4_000_002_000;

/// The lower neighbour of a story-point value in the Fibonacci-like series
/// 0, 1, 2, 3, 5, 8, 13, 21, 34, 55, 89, 144, 233, 377, 610, 987 (held in
/// thousandths): the largest term below the value's bucket.
pub open spec fn spec_fib_lower(v: int) -> int {
    if v <= 1000 {
        0
    } else if v <= 2000 {
        1000
    } else if v <= 3000 {
        2000
    } else if v <= 5000 {
        3000
    } else if v <= 8000 {
        5000
    } else if v <= 13000 {
        8000
    } else if v <= 21000 {
        13000
    } else if v <= 34000 {
        21000
    } else if v <= 55000 {
        34000
    } else if v <= 89000 {
        55000
    } else if v <= 144000 {
        89000
    } else if v <= 233000 {
        144000
    } else if v <= 377000 {
        233000
    } else if v <= 610000 {
        377000
    } else if v <= 987000 {
        610000
    } else {
        987000
    }
}

/// The upper neighbour of a story-point value in the same series.
pub open spec fn spec_fib_upper(v: int) -> int {
    if v <= 1000 {
        1000
    } else if v <= 2000 {
        2000
    } else if v <= 3000 {
        3000
    } else if v <= 5000 {
        5000
    } else if v <= 8000 {
        8000
    } else if v <= 13000 {
        13000
    } else if v <= 21000 {
        21000
    } else if v <= 34000 {
        34000
    } else if v <= 55000 {
        55000
    } else if v <= 89000 {
        89000
    } else if v <= 144000 {
        144000
    } else if v <= 233000 {
        233000
    } else if v <= 377000 {
        377000
    } else if v <= 610000 {
        610000
    } else {
        987000
    }
}

/// The nearest surrounding terms of the Fibonacci-like series around a
/// story-point value: a value within a bucket takes the bucket's two ends;
/// one beyond the last term takes the last term twice.
pub fn fibonacci_bounds(value: u32) -> (r: (u32, u32))
    ensures
        r.0 == spec_fib_lower(value as int),
        r.1 == spec_fib_upper(value as int),
{
    if value <= 1000 {
        (0, 1000)
    } else if value <= 2000 {
        (1000, 2000)
    } else if value <= 3000 {
        (2000, 3000)
    } else if value <= 5000 {
        (3000, 5000)
    } else if value <= 8000 {
        (5000, 8000)
    } else if value <= 13000 {
        (8000, 13000)
    } else if value <= 21000 {
        (13000, 21000)
    } else if value <= 34000 {
        (21000, 34000)
    } else if value <= 55000 {
        (34000, 55000)
    } else if value <= 89000 {
        (55000, 89000)
    } else if value <= 144000 {
        (89000, 144000)
    } else if value <= 233000 {
        (144000, 233000)
    } else if value <= 377000 {
        (233000, 377000)
    } else if value <= 610000 {
        (377000, 610000)
    } else if value <= 987000 {
        (610000, 987000)
    } else {
        (987000, 987000)
    }
}

/// The three-point triplet of a resolvable estimate, with whether its
/// values are story points that the velocity must scale. `None` when a
/// value is missing or an unresolved reference stands in the way.
pub open spec fn spec_issue_triplet(estimate: Option<Estimate>) -> Option<(u32, u32, u32, bool)> {
    match estimate {
        None => None,
        Some(Estimate::StoryPoint(sp)) => match sp.estimate {
            Some(v) => Some(
                (spec_fib_lower(v as int) as u32, v, spec_fib_upper(v as int) as u32, true),
            ),
            None => None,
        },
        Some(Estimate::ThreePoint(tp)) => spec_tp_triplet(tp),
        Some(Estimate::Reference(re)) => match re.cached_estimate {
            Some(tp) => spec_tp_triplet(tp),
            None => None,
        },
    }
}

/// The triplet of a three-point estimate whose three values are all set.
pub open spec fn spec_tp_triplet(tp: ThreePointEstimate) -> Option<(u32, u32, u32, bool)> {
    match (tp.optimistic, tp.most_likely, tp.pessimistic) {
        (Some(o), Some(ml), Some(p)) => Some((o, ml, p, false)),
        _ => None,
    }
}

/// One work package as the simulator holds it: its triplet, whether the
/// velocity scales it, and its dependencies as node indices.
pub struct SimulationNode {
    pub id: String,
    pub optimistic: u32,
    pub most_likely: u32,
    pub pessimistic: u32,
    pub apply_velocity: bool,
    pub dependencies: Vec<usize>,
}

/// The index of the first issue carrying `id`, from position `from` on;
/// -1 when none does.
pub open spec fn first_issue_index(issues: Seq<Issue>, id: Seq<char>, from: int) -> int
    decreases issues.len() - from,
{
    if from < 0 || from >= issues.len() {
        -1
    } else if spec_id(issues[from]) == id {
        from
    } else {
        first_issue_index(issues, id, from + 1)
    }
}

/// The dependency identifiers of an issue resolved to the first matching
/// issue indices, unresolvable ones skipped.
pub open spec fn resolved_dep_indices(issues: Seq<Issue>, deps: Seq<Seq<char>>) -> Seq<usize>
    decreases deps.len(),
{
    if deps.len() == 0 {
        Seq::empty()
    } else {
        let rest = resolved_dep_indices(issues, deps.drop_last());
        let j = first_issue_index(issues, deps.last(), 0);
        if j >= 0 {
            rest.push(j as usize)
        } else {
            rest
        }
    }
}

/// The nodes mirror the issues: same identifiers, the resolved triplets
/// (all valid), and dependencies as first-match indices.
pub open spec fn nodes_model(issues: Seq<Issue>, nodes: Seq<SimulationNode>) -> bool {
    &&& nodes.len() == issues.len()
    &&& nodes_triplets_ok(issues, nodes, issues.len() as int)
    &&& nodes_resolved_ok(issues, nodes, issues.len() as int)
}

/// Every issue has an identifier, an estimate, and a valid resolvable
/// triplet.
pub open spec fn simulation_inputs_ok(issues: Seq<Issue>) -> bool {
    forall|k: int|
        0 <= k < issues.len() ==> {
            let issue = #[trigger] issues[k];
            &&& issue.issue_id is Some
            &&& issue.estimate is Some
            &&& spec_issue_triplet(issue.estimate) matches Some((o, ml, p, _)) && o <= ml <= p
        }
}

/// Whether the velocity suffices for the project: present and positive
/// when any item is estimated in story points.
pub open spec fn velocity_ok(issues: Seq<Issue>, velocity: Option<u64>) -> bool {
    spec_has_story_points(issues) ==> (velocity matches Some(v) && v >= 1)
}

/// Whether any issue carries a set story-point estimate.
pub open spec fn spec_has_story_points(issues: Seq<Issue>) -> bool {
    exists|k: int|
        0 <= k < issues.len() && crate::issue::spec_story_point_value(
            (#[trigger] issues[k]).estimate,
        ) is Some
}

/// Whether the project has at least one work package with a set
/// story-point estimate (those need a velocity before simulation).
#[verifier::loop_isolation(false)]
pub fn project_has_story_points(project: &Project) -> (r: bool)
    ensures
        r == spec_has_story_points(project.work_packages@),
{
    let issues = &project.work_packages;
    let n: usize = issues.len();
    let mut i: usize = 0;
    while i < n
        invariant
            i <= n,
            n == issues@.len(),
            forall|k: int|
                0 <= k < i ==> crate::issue::spec_story_point_value(
                    (#[trigger] issues@[k]).estimate,
                ) is None,
        decreases n - i,
    {
        if issues[i].story_point_value().is_some() {
            proof {
                assert(crate::issue::spec_story_point_value(
                    project.work_packages@[i as int].estimate,
                ) is Some);
            }
            return true;
        }
        i = i + 1;
    }
    false
}

/// The work duration of a sampled story-point quantity at a velocity:
/// `1000 * sample / velocity`, rounded to nearest with halves up.
pub open spec fn spec_work_millis(sample: u32, velocity: int) -> int {
    (2000 * sample + velocity) / (2 * velocity)
}

/// Walks the calendar from an elapsed position until the given amount of
/// work (scaled by the capacity denominator) is done: a day contributes
/// work at its capacity's rate, and the finish is the first thousandth of a
/// day at which the work fits. `None` when `fuel` days pass without the
/// work completing.
pub open spec fn spec_advance(
    team: TeamCalendar,
    start_day: int,
    t: int,
    rem_scaled: int,
    fuel: nat,
) -> Option<int>
    decreases fuel,
{
    if rem_scaled <= 0 {
        Some(t)
    } else {
        let day = t / 1000;
        let fr = t % 1000;
        if start_day + day > u32::MAX {
            None
        } else {
            let cap = team.spec_capacity(start_day + day).num as int;
            let avail = cap * (1000 - fr);
            if cap > 0 && avail >= rem_scaled {
                Some(t + (rem_scaled + cap - 1) / cap)
            } else if fuel == 0 {
                None
            } else {
                spec_advance(
                    team,
                    start_day,
                    (day + 1) * 1000,
                    rem_scaled - avail,
                    (fuel - 1) as nat,
                )
            }
        }
    }
}

/// Advances an item's elapsed position by `work` thousandths of a working
/// day, walking the capacity calendar: exactly `spec_advance`, succeeding
/// whenever the walk does and the ready time leaves headroom.
#[verifier::loop_isolation(false)]
fn advance_through_calendar(calendar: &TeamCalendar, start_date: Date, ready: u64, work: u128) -> (r:
    Result<u64, ProjectSimulationError>)
    requires
        work <= u64::MAX as u128,
    ensures
        r matches Ok(t) ==> ready <= ADVANCE_READY_BOUND && spec_advance(
            *calendar,
            start_date.day as int,
            ready as int,
            work as int * crate::velocity_calculation::spec_cap_den(*calendar),
            ADVANCE_HORIZON_DAYS as nat,
        ) == Some(t as int) && t >= ready,
        r is Err ==> (ready > ADVANCE_READY_BOUND || spec_advance(
            *calendar,
            start_date.day as int,
            ready as int,
            work as int * crate::velocity_calculation::spec_cap_den(*calendar),
            ADVANCE_HORIZON_DAYS as nat,
        ) is None),
        ready <= ADVANCE_READY_BOUND ==> (spec_advance(
            *calendar,
            start_date.day as int,
            ready as int,
            work as int * crate::velocity_calculation::spec_cap_den(*calendar),
            ADVANCE_HORIZON_DAYS as nat,
        ) matches Some(tv) ==> (r matches Ok(t2) && t2 as int == tv)),
        r matches Err(e) ==> (e == ProjectSimulationError::InsufficientCapacity || e
            == ProjectSimulationError::DurationOverflow),
{
    let ghost den_spec = crate::velocity_calculation::spec_cap_den(*calendar);
    let den: u64 = if calendar.calendars.len() == 0 {
        1
    } else {
        calendar.calendars.len() as u64
    };
    if ready > ADVANCE_READY_BOUND {
        return Err(ProjectSimulationError::DurationOverflow);
    }
    proof {
        assert(work * (den as u128) <= (u64::MAX as u128) * (u64::MAX as u128))
            by (nonlinear_arith)
            requires
                work <= u64::MAX as u128,
                den <= u64::MAX,
        ;
    }
    let mut rem: u128 = work * (den as u128);
    let mut t: u64 = ready;
    let mut fuel: u64 = ADVANCE_HORIZON_DAYS;
    proof {
        assert((ADVANCE_HORIZON_DAYS - fuel) * 1000 == 0) by (nonlinear_arith)
            requires
                fuel == ADVANCE_HORIZON_DAYS,
        ;
    }
    while rem > 0
        invariant
            den as int == den_spec,
            1 <= den,
            fuel <= ADVANCE_HORIZON_DAYS,
            ready <= ADVANCE_READY_BOUND,
            rem <= (u64::MAX as u128) * (u64::MAX as u128),
            t as int <= ready + (ADVANCE_HORIZON_DAYS - fuel) * 1000,
            spec_advance(
                *calendar,
                start_date.day as int,
                ready as int,
                work as int * den_spec,
                ADVANCE_HORIZON_DAYS as nat,
            ) == spec_advance(
                *calendar,
                start_date.day as int,
                t as int,
                rem as int,
                fuel as nat,
            ),
            t >= ready,
        decreases fuel,
    {
        let day: u64 = t / 1000;
        let fr: u64 = t % 1000;
        let day_number: u64 = start_date.day as u64 + day;
        if day_number > u32::MAX as u64 {
            return Err(ProjectSimulationError::DurationOverflow);
        }
        let cap: u64 = calendar.get_capacity(Date { day: day_number as u32 }).num;
        proof {
            assert((cap as u128) * ((1000 - fr) as u128) <= (u64::MAX as u128) * 1000)
                by (nonlinear_arith)
                requires
                    cap <= u64::MAX,
                    fr < 1000,
            ;
            assert((u64::MAX as u128) * (u64::MAX as u128) <= u128::MAX - (u64::MAX as u128)
                - 1000) by (nonlinear_arith);
        }
        let avail: u128 = (cap as u128) * ((1000 - fr) as u128);
        if cap > 0 && avail >= rem {
            let need: u128 = (rem + cap as u128 - 1) / (cap as u128);
            proof {
                assert(need <= 1000 - fr) by (nonlinear_arith)
                    requires
                        cap >= 1,
                        fr < 1000,
                        need as int == (rem as int + cap as int - 1) / (cap as int),
                        rem as int <= cap as int * (1000 - fr as int),
                ;
                assert((ADVANCE_HORIZON_DAYS - fuel) * 1000 <= ADVANCE_HORIZON_DAYS * 1000)
                    by (nonlinear_arith)
                    requires
                        fuel <= ADVANCE_HORIZON_DAYS,
                ;
            }
            let finish: u64 = t + need as u64;
            proof {
                assert(spec_advance(
                    *calendar,
                    start_date.day as int,
                    t as int,
                    rem as int,
                    fuel as nat,
                ) == Some(finish as int));
            }
            return Ok(finish);
        }
        rem = rem - avail;
        if fuel == 0 {
            return Err(ProjectSimulationError::InsufficientCapacity);
        }
        fuel = fuel - 1;
        proof {
            assert((ADVANCE_HORIZON_DAYS - fuel) * 1000 == (ADVANCE_HORIZON_DAYS - (fuel + 1))
                * 1000 + 1000) by (nonlinear_arith)
                requires
                    fuel < ADVANCE_HORIZON_DAYS,
            ;
            assert((ADVANCE_HORIZON_DAYS - fuel) * 1000 <= ADVANCE_HORIZON_DAYS * 1000)
                by (nonlinear_arith)
                requires
                    fuel <= ADVANCE_HORIZON_DAYS,
            ;
        }
        t = (day + 1) * 1000;
    }
    Ok(t)
}

} // verus!
// Per-trial propagation and the Monte Carlo loop.

verus! {

/// The resolved triplet of each issue, with whether the velocity scales it
/// (a placeholder for issues whose estimate does not resolve).
pub open spec fn spec_triplets_of(issues: Seq<Issue>) -> Seq<(u32, u32, u32, bool)> {
    Seq::new(
        issues.len(),
        |k: int|
            match spec_issue_triplet(issues[k].estimate) {
                Some(t) => t,
                None => (0u32, 0u32, 0u32, false),
            },
    )
}

/// The resolved dependency indices of each issue.
pub open spec fn spec_depss_of(issues: Seq<Issue>) -> Seq<Seq<usize>> {
    Seq::new(issues.len(), |k: int| resolved_dep_indices(issues, spec_deps(issues[k])))
}

/// The first-match issue index of each order entry (-1 when unknown).
pub open spec fn spec_order_indices(issues: Seq<Issue>, order: Seq<Seq<char>>) -> Seq<int> {
    Seq::new(order.len(), |k: int| first_issue_index(issues, order[k], 0))
}

/// Every order entry names some issue.
pub open spec fn order_ids_known(issues: Seq<Issue>, order: Seq<Seq<char>>) -> bool {
    forall|k: int|
        0 <= k < order.len() ==> #[trigger] first_issue_index(issues, order[k], 0) >= 0
}

/// The readiness of an item: the largest earliest finish among its
/// dependencies, zero without any.
pub open spec fn ready_time(fins: Seq<int>, deps: Seq<usize>) -> int
    decreases deps.len(),
{
    if deps.len() == 0 {
        0
    } else {
        let rest = ready_time(fins, deps.drop_last());
        let d = deps.last() as int;
        let f = if 0 <= d < fins.len() {
            fins[d]
        } else {
            0
        };
        if f > rest {
            f
        } else {
            rest
        }
    }
}

/// The duration a sampled value stands for: story points are scaled by the
/// velocity into working days (rounded to nearest, halves up), three-point
/// values are days already.
pub open spec fn spec_sample_duration(sample: u32, scaled: bool, velocity: int) -> int {
    if scaled {
        spec_work_millis(sample, velocity)
    } else {
        sample as int
    }
}

/// One item's earliest finish: its readiness plus its duration, the
/// duration of a story-point item walked through the capacity calendar
/// (with no walk left when the readiness is already at the time horizon).
pub open spec fn spec_step(
    team: TeamCalendar,
    start_day: int,
    triplet: (u32, u32, u32, bool),
    deps: Seq<usize>,
    velocity: int,
    sample: u32,
    fins: Seq<int>,
) -> Option<int> {
    let ready = ready_time(fins, deps);
    if triplet.3 {
        if ready > ADVANCE_READY_BOUND {
            None
        } else {
            spec_advance(
                team,
                start_day,
                ready,
                spec_work_millis(sample, velocity) * velocity_calculation::spec_cap_den(team),
                ADVANCE_HORIZON_DAYS as nat,
            )
        }
    } else {
        Some(ready + sample)
    }
}

/// The earliest finishes after the first `k` visits of one trial, starting
/// from all zeroes; `None` when a visit leaves the supported range or names
/// no item.
pub open spec fn spec_run_trial(
    team: TeamCalendar,
    start_day: int,
    triplets: Seq<(u32, u32, u32, bool)>,
    depss: Seq<Seq<usize>>,
    order_idx: Seq<int>,
    velocity: int,
    samples: Seq<u32>,
    k: int,
) -> Option<Seq<int>>
    decreases k,
{
    if k <= 0 {
        Some(Seq::new(triplets.len(), |x: int| 0))
    } else {
        match spec_run_trial(team, start_day, triplets, depss, order_idx, velocity, samples, k - 1) {
            None => None,
            Some(fins) => {
                let idx = order_idx[k - 1];
                if 0 <= idx < triplets.len() && 0 <= idx < depss.len() && k - 1 < samples.len() {
                    match spec_step(
                        team,
                        start_day,
                        triplets[idx],
                        depss[idx],
                        velocity,
                        samples[k - 1],
                        fins,
                    ) {
                        Some(f) => if 0 <= f <= u64::MAX {
                            Some(fins.update(idx, f))
                        } else {
                            None
                        },
                        None => None,
                    }
                } else {
                    None
                }
            },
        }
    }
}

/// A trial's outcome depends only on the samples its visits read.
proof fn lemma_run_trial_same_prefix(
    team: TeamCalendar,
    start_day: int,
    triplets: Seq<(u32, u32, u32, bool)>,
    depss: Seq<Seq<usize>>,
    order_idx: Seq<int>,
    velocity: int,
    s1: Seq<u32>,
    s2: Seq<u32>,
    k: int,
)
    requires
        forall|i: int| 0 <= i < k ==> s1[i] == s2[i],
        s1.len() >= k,
        s2.len() >= k,
    ensures
        spec_run_trial(team, start_day, triplets, depss, order_idx, velocity, s1, k)
            == spec_run_trial(team, start_day, triplets, depss, order_idx, velocity, s2, k),
    decreases k,
{
    if k > 0 {
        lemma_run_trial_same_prefix(
            team,
            start_day,
            triplets,
            depss,
            order_idx,
            velocity,
            s1,
            s2,
            k - 1,
        );
    }
}

/// The largest value of a sequence, zero when empty.
pub open spec fn seq_max_int(s: Seq<int>) -> int
    decreases s.len(),
{
    if s.len() == 0 {
        0
    } else {
        let rest = seq_max_int(s.drop_last());
        if s.last() > rest {
            s.last()
        } else {
            rest
        }
    }
}

/// A whole trial's total project duration: the largest earliest finish.
pub open spec fn spec_trial_total(
    team: TeamCalendar,
    start_day: int,
    triplets: Seq<(u32, u32, u32, bool)>,
    depss: Seq<Seq<usize>>,
    order_idx: Seq<int>,
    velocity: int,
    samples: Seq<u32>,
) -> Option<int> {
    match spec_run_trial(
        team,
        start_day,
        triplets,
        depss,
        order_idx,
        velocity,
        samples,
        order_idx.len() as int,
    ) {
        Some(fins) => Some(seq_max_int(fins)),
        None => None,
    }
}

/// The samples a most-likely sampler draws: each visited item's most likely
/// value.
pub open spec fn spec_ml_samples(
    triplets: Seq<(u32, u32, u32, bool)>,
    order_idx: Seq<int>,
) -> Seq<u32> {
    Seq::new(
        order_idx.len(),
        |k: int|
            if 0 <= order_idx[k] < triplets.len() {
                triplets[order_idx[k]].1
            } else {
                0u32
            },
    )
}

/// The calendar day a day count from the start lands on: the count rounded
/// up to whole days past the start.
pub open spec fn spec_end_day(start_day: int, millis: int) -> int {
    start_day + (millis + 999) / 1000
}

/// The days figure a report shows for a percentile: the nearest-rank value
/// of the sorted results, zero when no trial ran.
pub open spec fn spec_percentile_days(results: Seq<u64>, p: int) -> int {
    if results.len() == 0 {
        0
    } else {
        crate::percentiles::percentile_of(results, p) as int
    }
}

/// What a report promises about its four percentiles: the days figures
/// follow the nearest-rank rule on the sorted results, and each date is the
/// start date moved by the days figure rounded up to whole days.
pub open spec fn report_percentiles_ok(
    report: crate::simulation_types::SimulationReport,
    results: Seq<u64>,
    start: Date,
) -> bool {
    &&& report.p0.days as int == spec_percentile_days(results, 0)
    &&& report.p50.days as int == spec_percentile_days(results, 50)
    &&& report.p85.days as int == spec_percentile_days(results, 85)
    &&& report.p100.days as int == spec_percentile_days(results, 100)
    &&& report.p0.date@ == crate::date::ymd_text_of_day(
        spec_end_day(start.day as int, spec_percentile_days(results, 0)),
    )
    &&& report.p50.date@ == crate::date::ymd_text_of_day(
        spec_end_day(start.day as int, spec_percentile_days(results, 50)),
    )
    &&& report.p85.date@ == crate::date::ymd_text_of_day(
        spec_end_day(start.day as int, spec_percentile_days(results, 85)),
    )
    &&& report.p100.date@ == crate::date::ymd_text_of_day(
        spec_end_day(start.day as int, spec_percentile_days(results, 100)),
    )
}

/// The index of the first issue carrying `id` equals a found position whose
/// earlier positions all differ.
proof fn lemma_first_index_found(issues: Seq<Issue>, id: Seq<char>, from: int, j: int)
    requires
        0 <= from <= j < issues.len(),
        spec_id(issues[j]) == id,
        forall|k: int| from <= k < j ==> spec_id(#[trigger] issues[k]) != id,
    ensures
        first_issue_index(issues, id, from) == j,
    decreases j - from,
{
    if from < j {
        lemma_first_index_found(issues, id, from + 1, j);
    }
}

/// When no issue from `from` on carries `id`, the first index is -1.
proof fn lemma_first_index_missing(issues: Seq<Issue>, id: Seq<char>, from: int)
    requires
        0 <= from <= issues.len(),
        forall|k: int| from <= k < issues.len() ==> spec_id(#[trigger] issues[k]) != id,
    ensures
        first_issue_index(issues, id, from) == -1,
    decreases issues.len() - from,
{
    if from < issues.len() {
        lemma_first_index_missing(issues, id, from + 1);
    }
}

} // verus!
// Building the simulation nodes and sampling durations.

verus! {

/// The triplet of a three-point estimate; fails naming the missing value
/// when one of the three is unset.
pub fn to_three_point_triplet(estimate: &ThreePointEstimate) -> (r: Result<
    (u32, u32, u32, bool),
    ProjectSimulationError,
>)
    ensures
        r matches Ok(t) ==> spec_tp_triplet(*estimate) == Some(t),
        r is Err ==> spec_tp_triplet(*estimate) is None && r matches Err(
            ProjectSimulationError::InvalidEstimate(_),
        ),
        r matches Err(e) ==> (e matches ProjectSimulationError::InvalidEstimate(t) ==> (t@
            == "missing optimistic value"@ || t@ == "missing most likely value"@ || t@
            == "missing pessimistic value"@)),
{
    let optimistic: u32 = match estimate.optimistic {
        Some(v) => v,
        None => {
            return Err(
                ProjectSimulationError::InvalidEstimate("missing optimistic value".to_owned()),
            );
        },
    };
    let most_likely: u32 = match estimate.most_likely {
        Some(v) => v,
        None => {
            return Err(
                ProjectSimulationError::InvalidEstimate("missing most likely value".to_owned()),
            );
        },
    };
    let pessimistic: u32 = match estimate.pessimistic {
        Some(v) => v,
        None => {
            return Err(
                ProjectSimulationError::InvalidEstimate("missing pessimistic value".to_owned()),
            );
        },
    };
    Ok((optimistic, most_likely, pessimistic, false))
}

/// Finds the node whose identifier matches, scanning from the front.
fn find_node_index(nodes: &Vec<SimulationNode>, target: &String) -> (r: Option<usize>)
    ensures
        r matches Some(j) ==> j < nodes@.len() && nodes@[j as int].id@ == target@ && forall|
            k: int,
        |
            0 <= k < j ==> (#[trigger] nodes@[k]).id@ != target@,
        r is None ==> forall|k: int| 0 <= k < nodes@.len() ==> (#[trigger] nodes@[k]).id@
            != target@,
{
    let mut j: usize = 0;
    while j < nodes.len()
        invariant
            j <= nodes@.len(),
            forall|k: int| 0 <= k < j ==> (#[trigger] nodes@[k]).id@ != target@,
        decreases nodes@.len() - j,
    {
        if nodes[j].id == *target {
            return Some(j);
        }
        j = j + 1;
    }
    None
}

/// The first `upto` nodes carry their issues' identifiers and validated
/// triplets, with empty dependency lists.
pub open spec fn nodes_triplets_ok(
    issues: Seq<Issue>,
    nodes: Seq<SimulationNode>,
    upto: int,
) -> bool {
    forall|k: int|
        0 <= k < upto ==> {
            let node = #[trigger] nodes[k];
            &&& node.id@ == spec_id(issues[k])
            &&& issues[k].issue_id is Some
            &&& spec_issue_triplet(issues[k].estimate) == Some(
                (node.optimistic, node.most_likely, node.pessimistic, node.apply_velocity),
            )
            &&& crate::sampler::valid_triplet(node.optimistic, node.most_likely, node.pessimistic)
        }
}

/// The first `upto` nodes additionally carry their resolved dependency
/// indices.
pub open spec fn nodes_resolved_ok(
    issues: Seq<Issue>,
    nodes: Seq<SimulationNode>,
    upto: int,
) -> bool {
    forall|k: int|
        0 <= k < upto ==> (#[trigger] nodes[k]).dependencies@ == resolved_dep_indices(
            issues,
            spec_deps(issues[k]),
        )
}

/// Turns the work packages into simulation nodes: identifier, resolved and
/// validated triplet, and dependencies as first-match node indices
/// (declared dependencies that name no item are dropped, as the propagation
/// treats them as always ready).
#[verifier::loop_isolation(false)]
pub fn build_simulation_nodes(project: &Project) -> (r: Result<
    Vec<SimulationNode>,
    ProjectSimulationError,
>)
    ensures
        r matches Ok(nodes) ==> nodes_model(project.work_packages@, nodes@),
        r == Err::<Vec<SimulationNode>, _>(ProjectSimulationError::MissingIssueId) ==> !all_ids_present(
            project.work_packages@,
        ),
        r matches Err(e) ==> (e matches ProjectSimulationError::MissingEstimate(mid)
            ==> exists|k: int|
            0 <= k < project.work_packages@.len() && (#[trigger] project.work_packages@[k]).estimate is None
                && mid@ == spec_id(project.work_packages@[k])),
        r matches Err(e) ==> ((e is InvalidEstimate) ==> exists|k: int|
            0 <= k < project.work_packages@.len() && (#[trigger] project.work_packages@[k]).estimate is Some
                && (spec_issue_triplet(project.work_packages@[k].estimate) is None || (
            spec_issue_triplet(project.work_packages@[k].estimate) matches Some((o, ml, p, _))
                && !(o <= ml <= p)))),
        r matches Err(e) ==> (e matches ProjectSimulationError::InvalidEstimate(t) ==> ((exists|
            k: int,
        |
            0 <= k < project.work_packages@.len() && t@ == spec_id(
                #[trigger] project.work_packages@[k],
            )) || t@ == "missing optimistic value"@ || t@ == "missing most likely value"@ || t@
            == "missing pessimistic value"@)),
        r matches Err(e) ==> (e is MissingIssueId || e is MissingEstimate
            || e is InvalidEstimate),
{
    let issues = &project.work_packages;
    let n: usize = issues.len();
    let mut nodes: Vec<SimulationNode> = Vec::new();

    let mut i: usize = 0;
    while i < n
        invariant
            i <= n,
            nodes@.len() == i,
            nodes_triplets_ok(issues@, nodes@, i as int),
        decreases n - i,
    {
        let issue = &issues[i];
        let id: String = match &issue.issue_id {
            Some(iid) => iid.id.clone(),
            None => {
                return Err(ProjectSimulationError::MissingIssueId);
            },
        };
        let estimate = match &issue.estimate {
            Some(est) => est,
            None => {
                return Err(ProjectSimulationError::MissingEstimate(id));
            },
        };
        let (optimistic, most_likely, pessimistic, apply_velocity): (u32, u32, u32, bool) =
            match estimate {
            Estimate::StoryPoint(sp) => match sp.estimate {
                Some(v) => {
                    let (lower, upper) = fibonacci_bounds(v);
                    (lower, v, upper, true)
                },
                None => {
                    return Err(ProjectSimulationError::InvalidEstimate(id));
                },
            },
            Estimate::ThreePoint(tp) => match to_three_point_triplet(tp) {
                Ok(t) => t,
                Err(e) => {
                    return Err(e);
                },
            },
            Estimate::Reference(re) => match &re.cached_estimate {
                Some(tp) => match to_three_point_triplet(tp) {
                    Ok(t) => t,
                    Err(e) => {
                        return Err(e);
                    },
                },
                None => {
                    return Err(ProjectSimulationError::InvalidEstimate(id));
                },
            },
        };
        if !(optimistic <= most_likely && most_likely <= pessimistic) {
            return Err(ProjectSimulationError::InvalidEstimate(id));
        }
        nodes.push(
            SimulationNode {
                id,
                optimistic,
                most_likely,
                pessimistic,
                apply_velocity,
                dependencies: Vec::new(),
            },
        );
        i = i + 1;
    }

    // Resolve the declared dependencies to node indices.
    let mut out: Vec<SimulationNode> = Vec::new();
    let mut i: usize = 0;
    while i < n
        invariant
            i <= n,
            nodes@.len() == n,
            out@.len() == i,
            nodes_triplets_ok(issues@, nodes@, n as int),
            nodes_triplets_ok(issues@, out@, i as int),
            nodes_resolved_ok(issues@, out@, i as int),
            forall|k: int|
                0 <= k < i ==> {
                    let node = #[trigger] out@[k];
                    &&& node.id@ == spec_id(issues@[k])
                    &&& spec_issue_triplet(issues@[k].estimate) == Some(
                        (node.optimistic, node.most_likely, node.pessimistic, node.apply_velocity),
                    )
                    &&& crate::sampler::valid_triplet(
                        node.optimistic,
                        node.most_likely,
                        node.pessimistic,
                    )
                    &&& node.dependencies@ == resolved_dep_indices(
                        issues@,
                        spec_deps(issues@[k]),
                    )
                },
        decreases n - i,
    {
        let mut dep_idxs: Vec<usize> = Vec::new();
        match &issues[i].dependencies {
            None => {
                proof {
                    assert(spec_deps(issues@[i as int]) =~= Seq::<Seq<char>>::empty());
                    assert(dep_idxs@ =~= resolved_dep_indices(
                        issues@,
                        spec_deps(issues@[i as int]),
                    ));
                }
            },
            Some(deps) => {
                let m: usize = deps.len();
                let mut d: usize = 0;
                while d < m
                    invariant
                        d <= m,
                        0 <= i < n,
                        issues@[i as int].dependencies matches Some(dd) && dd@ == deps@,
                        m == deps@.len(),
                        spec_deps(issues@[i as int]).len() == m,
                        forall|k: int|
                            0 <= k < m ==> spec_deps(issues@[i as int])[k] == (
                            #[trigger] deps@[k]).id@,
                        dep_idxs@ == resolved_dep_indices(
                            issues@,
                            spec_deps(issues@[i as int]).take(d as int),
                        ),
                    decreases m - d,
                {
                    proof {
                        let sd = spec_deps(issues@[i as int]);
                        assert(sd.take(d + 1).drop_last() =~= sd.take(d as int));
                        assert(sd.take(d + 1).last() == sd[d as int]);
                    }
                    match find_node_index(&nodes, &deps[d].id) {
                        Some(j) => {
                            proof {
                                assert forall|k: int| 0 <= k < j implies spec_id(
                                    #[trigger] issues@[k],
                                ) != deps@[d as int].id@ by {
                                    assert(nodes@[k].id@ != deps@[d as int].id@);
                                }
                                assert(spec_id(issues@[j as int]) == deps@[d as int].id@);
                                lemma_first_index_found(
                                    issues@,
                                    deps@[d as int].id@,
                                    0,
                                    j as int,
                                );
                            }
                            dep_idxs.push(j);
                        },
                        None => {
                            proof {
                                assert forall|k: int| 0 <= k < n implies spec_id(
                                    #[trigger] issues@[k],
                                ) != deps@[d as int].id@ by {
                                    assert(nodes@[k].id@ != deps@[d as int].id@);
                                }
                                lemma_first_index_missing(issues@, deps@[d as int].id@, 0);
                            }
                        },
                    }
                    d = d + 1;
                }
                proof {
                    assert(spec_deps(issues@[i as int]).take(m as int) =~= spec_deps(
                        issues@[i as int],
                    ));
                }
            },
        }
        let node = &nodes[i];
        let ghost out_prev = out@;
        out.push(
            SimulationNode {
                id: node.id.clone(),
                optimistic: node.optimistic,
                most_likely: node.most_likely,
                pessimistic: node.pessimistic,
                apply_velocity: node.apply_velocity,
                dependencies: dep_idxs,
            },
        );
        proof {
            assert forall|k: int| 0 <= k < i + 1 implies {
                let pushed = #[trigger] out@[k];
                &&& pushed.id@ == spec_id(issues@[k])
                &&& issues@[k].issue_id is Some
                &&& spec_issue_triplet(issues@[k].estimate) == Some(
                    (
                        pushed.optimistic,
                        pushed.most_likely,
                        pushed.pessimistic,
                        pushed.apply_velocity,
                    ),
                )
                &&& crate::sampler::valid_triplet(
                    pushed.optimistic,
                    pushed.most_likely,
                    pushed.pessimistic,
                )
                &&& pushed.dependencies@ == resolved_dep_indices(issues@, spec_deps(issues@[k]))
            } by {
                if k < i {
                    assert(out@[k] == out_prev[k]);
                } else {
                    assert(out@[k] == out@.last());
                }
            }
            assert(nodes_triplets_ok(issues@, out@, i + 1));
            assert(nodes_resolved_ok(issues@, out@, i + 1));
        }
        i = i + 1;
    }
    Ok(out)
}

/// Draws one sample for a node and turns it into a duration: the sampled
/// value itself for a three-point item, or the velocity-scaled working
/// duration for a story-point item. Returns the duration and the sample.
pub fn sample_duration<S: crate::sampler::ThreePointSampler>(
    node: &SimulationNode,
    velocity: u64,
    sampler: &mut S,
) -> (r: (u64, u32))
    requires
        crate::sampler::valid_triplet(node.optimistic, node.most_likely, node.pessimistic),
        node.apply_velocity ==> velocity >= 1,
    ensures
        node.optimistic <= r.1 <= node.pessimistic,
        r.0 as int == spec_sample_duration(r.1, node.apply_velocity, velocity as int),
        old(sampler).always_most_likely() ==> final (sampler).always_most_likely() && r.1
            == node.most_likely,
{
    let sampled: u32 = match sampler.sample(node.optimistic, node.most_likely, node.pessimistic) {
        Ok(v) => v,
        Err(_) => {
            proof {
                assert(false);
            }
            node.most_likely
        },
    };
    if node.apply_velocity {
        let numerator: u128 = 2000 * (sampled as u128) + (velocity as u128);
        let w: u128 = numerator / (2 * (velocity as u128));
        proof {
            assert(w <= 1000 * (sampled as u128) + 1) by (nonlinear_arith)
                requires
                    velocity >= 1,
                    w == (2000 * (sampled as u128) + (velocity as u128)) / (2 * (
                    velocity as u128)),
            ;
        }
        (w as u64, sampled)
    } else {
        (sampled as u64, sampled)
    }
}

/// The calendar date a day count lands on: the start date moved by the
/// count rounded up to whole days; fails when that leaves the supported
/// date range.
pub fn end_date_from_days(start_date: Date, days: u64) -> (r: Result<
    Date,
    ProjectSimulationError,
>)
    requires
        start_date.valid(),
    ensures
        r matches Ok(d) ==> d.day as int == spec_end_day(start_date.day as int, days as int)
            && d.valid(),
        r is Err ==> spec_end_day(start_date.day as int, days as int)
            > crate::date::MAX_DAY_NUMBER && r == Err::<Date, _>(
            ProjectSimulationError::DateOutOfRange,
        ),
{
    if days > u64::MAX - 999 {
        proof {
            assert((days as int + 999) / 1000 > crate::date::MAX_DAY_NUMBER);
        }
        return Err(ProjectSimulationError::DateOutOfRange);
    }
    let whole: u64 = (days + 999) / 1000;
    if whole > (crate::date::MAX_DAY_NUMBER - start_date.day) as u64 {
        return Err(ProjectSimulationError::DateOutOfRange);
    }
    Ok(Date { day: start_date.day + whole as u32 })
}

} // verus!
// The Monte Carlo loop and the report.

verus! {

/// The velocity value trials divide by: the given one, or one where none
/// is given (story-point items then reject the run beforehand).
pub open spec fn spec_velocity_value(velocity: Option<u64>) -> int {
    match velocity {
        Some(v) => v as int,
        None => 1,
    }
}

/// Whether the most-likely trial computation is defined and its total stays
/// within the supported date range from the given start.
pub open spec fn ml_total_fits(
    issues: Seq<Issue>,
    order: Seq<Seq<char>>,
    velocity: Option<u64>,
    start: Date,
    team: TeamCalendar,
) -> bool {
    spec_trial_total(
        team,
        start.day as int,
        spec_triplets_of(issues),
        spec_depss_of(issues),
        spec_order_indices(issues, order),
        spec_velocity_value(velocity),
        spec_ml_samples(spec_triplets_of(issues), spec_order_indices(issues, order)),
    ) matches Some(tot) && spec_end_day(start.day as int, tot) <= crate::date::MAX_DAY_NUMBER
}

/// No two order entries visit the same item.
pub open spec fn indices_distinct(order_idx: Seq<int>) -> bool {
    forall|k1: int, k2: int|
        0 <= k1 < k2 < order_idx.len() ==> order_idx[k1] != order_idx[k2]
}

/// The one position at which the order visits an item (meaningful when the
/// order is duplicate-free and visits it).
pub open spec fn visit_position(order_idx: Seq<int>, idx: int) -> int {
    choose|k0: int| 0 <= k0 < order_idx.len() && order_idx[k0] == idx
}

/// The finish a most-likely trial records at visit `k`.
pub open spec fn ml_visit_value(
    team: TeamCalendar,
    start_day: int,
    triplets: Seq<(u32, u32, u32, bool)>,
    depss: Seq<Seq<usize>>,
    order_idx: Seq<int>,
    velocity: int,
    k: int,
) -> int {
    match spec_run_trial(
        team,
        start_day,
        triplets,
        depss,
        order_idx,
        velocity,
        spec_ml_samples(triplets, order_idx),
        k + 1,
    ) {
        Some(fins) => if 0 <= order_idx[k] < fins.len() {
            fins[order_idx[k]]
        } else {
            0
        },
        None => 0,
    }
}

/// The sample matrix a most-likely sampler produces: the same most-likely
/// row in every trial.
pub open spec fn ml_matrix(
    triplets: Seq<(u32, u32, u32, bool)>,
    order_idx: Seq<int>,
    iterations: int,
) -> Seq<Seq<u32>> {
    Seq::new(iterations as nat, |t: int| spec_ml_samples(triplets, order_idx))
}

/// Every sample of a trial row lies within the visited item's triplet.
pub open spec fn samples_in_range(
    triplets: Seq<(u32, u32, u32, bool)>,
    order_idx: Seq<int>,
    row: Seq<u32>,
) -> bool {
    &&& row.len() == order_idx.len()
    &&& forall|k: int|
        0 <= k < row.len() ==> {
            let idx = order_idx[k];
            (0 <= idx < triplets.len()) ==> (triplets[idx].0 <= #[trigger] row[k] && row[k]
                <= triplets[idx].2)
        }
}

/// The views of the per-item sample rows.
pub open spec fn rows_of(node_samples: Seq<Vec<u64>>) -> Seq<Seq<u64>> {
    node_samples.map_values(|v: Vec<u64>| v@)
}

/// The row a most-likely run records for one item: its pinned finish once
/// per trial when the order visits it, nothing otherwise.
pub open spec fn ml_row(
    team: TeamCalendar,
    start_day: int,
    triplets: Seq<(u32, u32, u32, bool)>,
    depss: Seq<Seq<usize>>,
    order_idx: Seq<int>,
    velocity: int,
    idx: int,
    count: int,
) -> Seq<u64> {
    if exists|k0: int| 0 <= k0 < order_idx.len() && order_idx[k0] == idx {
        Seq::new(
            count as nat,
            |x: int|
                ml_visit_value(
                    team,
                    start_day,
                    triplets,
                    depss,
                    order_idx,
                    velocity,
                    visit_position(order_idx, idx),
                ) as u64,
        )
    } else {
        Seq::empty()
    }
}

/// Under a most-likely sampler and a duplicate-free order, every item's
/// sample row gains exactly one pinned value per trial (and none when the
/// order never visits it).
pub open spec fn ml_node_rows_ok(
    team: TeamCalendar,
    start_day: int,
    triplets: Seq<(u32, u32, u32, bool)>,
    depss: Seq<Seq<usize>>,
    order_idx: Seq<int>,
    velocity: int,
    iterations: int,
    rows: Seq<Seq<u64>>,
) -> bool {
    &&& rows.len() == triplets.len()
    &&& forall|idx: int|
        0 <= idx < rows.len() ==> #[trigger] rows[idx] == ml_row(
            team,
            start_day,
            triplets,
            depss,
            order_idx,
            velocity,
            idx,
            iterations,
        )
}

/// A row of one repeated value (or none) has all four percentiles equal.
proof fn lemma_uniform_percentiles(vals: Seq<u64>)
    requires
        forall|i: int, j: int|
            0 <= i < vals.len() && 0 <= j < vals.len() ==> vals[i] == vals[j],
    ensures
        vals.len() > 0 ==> {
            let sorted = crate::percentiles::sort_spec(vals);
            &&& crate::percentiles::percentile_of(sorted, 0) == crate::percentiles::percentile_of(
                sorted,
                50,
            )
            &&& crate::percentiles::percentile_of(sorted, 50) == crate::percentiles::percentile_of(
                sorted,
                85,
            )
            &&& crate::percentiles::percentile_of(sorted, 85) == crate::percentiles::percentile_of(
                sorted,
                100,
            )
        },
{
    if vals.len() > 0 {
        let sorted = crate::percentiles::sort_spec(vals);
        crate::percentiles::lemma_sort_spec_properties(vals);
        vals.to_multiset_ensures();
        sorted.to_multiset_ensures();
        assert forall|i: int| 0 <= i < sorted.len() implies #[trigger] sorted[i] == vals[0] by {
            assert(sorted.contains(sorted[i]));
            assert(sorted.to_multiset().count(sorted[i]) > 0);
            assert(vals.to_multiset().count(sorted[i]) > 0);
            assert(vals.contains(sorted[i]));
            let j = choose|j: int| 0 <= j < vals.len() && vals[j] == sorted[i];
            assert(vals[j] == vals[0]);
        }
        crate::percentiles::lemma_percentile_index_in_bounds(sorted.len() as int, 0);
        crate::percentiles::lemma_percentile_index_in_bounds(sorted.len() as int, 50);
        crate::percentiles::lemma_percentile_index_in_bounds(sorted.len() as int, 85);
        crate::percentiles::lemma_percentile_index_in_bounds(sorted.len() as int, 100);
    }
}

/// The per-trial evidence behind a simulation output: each trial's total
/// follows by earliest-finish propagation from samples that lie within the
/// items' triplets, and the results are the sorted totals.
pub open spec fn trials_justified(
    team: TeamCalendar,
    start_day: int,
    triplets: Seq<(u32, u32, u32, bool)>,
    depss: Seq<Seq<usize>>,
    order_idx: Seq<int>,
    velocity: int,
    iterations: int,
    samples: Seq<Seq<u32>>,
    totals: Seq<u64>,
    results: Seq<u64>,
) -> bool {
    &&& samples.len() == iterations
    &&& totals.len() == iterations
    &&& forall|t: int|
        0 <= t < iterations ==> spec_trial_total(
            team,
            start_day,
            triplets,
            depss,
            order_idx,
            velocity,
            #[trigger] samples[t],
        ) == Some(totals[t] as int)
    &&& forall|t: int|
        0 <= t < iterations ==> samples_in_range(triplets, order_idx, #[trigger] samples[t])
    &&& results == crate::percentiles::sort_spec(totals)
}

/// What a successful simulation output promises, given the visiting order:
/// results of one total per trial, sorted ascending; report fields that
/// restate the inputs; percentiles that follow the nearest-rank rule; one
/// work package per item; and a sample matrix within the items' triplets
/// that justifies every total.
pub open spec fn simulation_output_ok(
    out: crate::simulation_types::SimulationOutput,
    issues: Seq<Issue>,
    order: Seq<Seq<char>>,
    velocity: Option<u64>,
    iterations: int,
    start_date: Date,
    team: TeamCalendar,
) -> bool {
    &&& out.results@.len() == iterations
    &&& crate::percentiles::sorted_u64(out.results@)
    &&& out.report.iterations == iterations
    &&& out.report.simulated_items == issues.len()
    &&& out.report.velocity == velocity
    &&& out.report.start_date@ == crate::date::ymd_text_of_day(start_date.day as int)
    &&& out.report.data_source@ == Seq::<char>::empty()
    &&& report_percentiles_ok(out.report, out.results@, start_date)
    &&& out.work_packages matches Some(wps) && wps@.len() == issues.len() && (forall|k: int|
        0 <= k < issues.len() ==> (#[trigger] wps@[k]).id@ == spec_id(issues[k]))
    &&& exists|samples: Seq<Seq<u32>>, totals: Seq<u64>|
        trials_justified(
            team,
            start_date.day as int,
            spec_triplets_of(issues),
            spec_depss_of(issues),
            spec_order_indices(issues, order),
            spec_velocity_value(velocity),
            iterations,
            samples,
            totals,
            out.results@,
        )
}

/// Assembles the success contract from its pieces.
proof fn lemma_assemble_output(
    output: crate::simulation_types::SimulationOutput,
    issues: Seq<Issue>,
    order: Seq<Seq<char>>,
    velocity: Option<u64>,
    iterations: int,
    start_date: Date,
    team: TeamCalendar,
    samples: Seq<Seq<u32>>,
    totals: Seq<u64>,
)
    requires
        output.results@.len() == iterations,
        crate::percentiles::sorted_u64(output.results@),
        output.report.iterations == iterations,
        output.report.simulated_items == issues.len(),
        output.report.velocity == velocity,
        output.report.start_date@ == crate::date::ymd_text_of_day(start_date.day as int),
        output.report.data_source@ == Seq::<char>::empty(),
        report_percentiles_ok(output.report, output.results@, start_date),
        output.work_packages matches Some(wps) && wps@.len() == issues.len() && (forall|k: int|
            0 <= k < issues.len() ==> (#[trigger] wps@[k]).id@ == spec_id(issues[k])),
        trials_justified(
            team,
            start_date.day as int,
            spec_triplets_of(issues),
            spec_depss_of(issues),
            spec_order_indices(issues, order),
            spec_velocity_value(velocity),
            iterations,
            samples,
            totals,
            output.results@,
        ),
    ensures
        simulation_output_ok(output, issues, order, velocity, iterations, start_date, team),
{
}

/// Per-item percentiles from the recorded samples: zeroes without samples,
/// otherwise the nearest-rank values of the sorted samples.
pub fn percentiles_from_values(values: &Vec<u64>) -> (r:
    crate::simulation_types::WorkPackagePercentiles)
    ensures
        values@.len() == 0 ==> r == (crate::simulation_types::WorkPackagePercentiles {
            p0: 0u64,
            p50: 0u64,
            p85: 0u64,
            p100: 0u64,
        }),
        values@.len() > 0 ==> {
            let sorted = crate::percentiles::sort_spec(values@);
            &&& r.p0 == crate::percentiles::percentile_of(sorted, 0)
            &&& r.p50 == crate::percentiles::percentile_of(sorted, 50)
            &&& r.p85 == crate::percentiles::percentile_of(sorted, 85)
            &&& r.p100 == crate::percentiles::percentile_of(sorted, 100)
        },
{
    if values.len() == 0 {
        return crate::simulation_types::WorkPackagePercentiles { p0: 0, p50: 0, p85: 0, p100: 0 };
    }
    proof {
        crate::percentiles::lemma_sort_spec_properties(values@);
    }
    let sorted = crate::percentiles::sort_u64s(values);
    let p0: u64 = match crate::percentiles::value_sorted(&sorted, 0) {
        Some(v) => v,
        None => 0,
    };
    let p50: u64 = match crate::percentiles::value_sorted(&sorted, 50) {
        Some(v) => v,
        None => 0,
    };
    let p85: u64 = match crate::percentiles::value_sorted(&sorted, 85) {
        Some(v) => v,
        None => 0,
    };
    let p100: u64 = match crate::percentiles::value_sorted(&sorted, 100) {
        Some(v) => v,
        None => 0,
    };
    crate::simulation_types::WorkPackagePercentiles { p0, p50, p85, p100 }
}

/// Builds the report around the sorted results: the percentile days follow
/// the nearest-rank rule and each date is the start date moved by the days
/// figure.
fn build_report(
    results: &Vec<u64>,
    start_date: Date,
    velocity: Option<u64>,
    iterations: usize,
    simulated_items: usize,
) -> (r: Result<crate::simulation_types::SimulationReport, ProjectSimulationError>)
    requires
        start_date.valid(),
    ensures
        r matches Ok(report) ==> {
            &&& report.iterations == iterations
            &&& report.simulated_items == simulated_items
            &&& report.velocity == velocity
            &&& report.start_date@ == crate::date::ymd_text_of_day(start_date.day as int)
            &&& report.data_source@ == Seq::<char>::empty()
            &&& report_percentiles_ok(report, results@, start_date)
        },
        r matches Err(e) ==> e is DateOutOfRange && (spec_end_day(
            start_date.day as int,
            spec_percentile_days(results@, 0),
        ) > crate::date::MAX_DAY_NUMBER || spec_end_day(
            start_date.day as int,
            spec_percentile_days(results@, 50),
        ) > crate::date::MAX_DAY_NUMBER || spec_end_day(
            start_date.day as int,
            spec_percentile_days(results@, 85),
        ) > crate::date::MAX_DAY_NUMBER || spec_end_day(
            start_date.day as int,
            spec_percentile_days(results@, 100),
        ) > crate::date::MAX_DAY_NUMBER),
{
    let p0_days: u64 = match crate::percentiles::value_sorted(results, 0) {
        Some(v) => v,
        None => 0,
    };
    let p50_days: u64 = match crate::percentiles::value_sorted(results, 50) {
        Some(v) => v,
        None => 0,
    };
    let p85_days: u64 = match crate::percentiles::value_sorted(results, 85) {
        Some(v) => v,
        None => 0,
    };
    let p100_days: u64 = match crate::percentiles::value_sorted(results, 100) {
        Some(v) => v,
        None => 0,
    };
    let p0_date = match end_date_from_days(start_date, p0_days) {
        Ok(d) => d,
        Err(e) => {
            return Err(e);
        },
    };
    let p50_date = match end_date_from_days(start_date, p50_days) {
        Ok(d) => d,
        Err(e) => {
            return Err(e);
        },
    };
    let p85_date = match end_date_from_days(start_date, p85_days) {
        Ok(d) => d,
        Err(e) => {
            return Err(e);
        },
    };
    let p100_date = match end_date_from_days(start_date, p100_days) {
        Ok(d) => d,
        Err(e) => {
            return Err(e);
        },
    };
    Ok(
        crate::simulation_types::SimulationReport {
            data_source: String::new(),
            start_date: start_date.format(),
            velocity,
            iterations,
            simulated_items,
            p0: crate::simulation_types::SimulationPercentile {
                days: p0_days,
                date: p0_date.format(),
            },
            p50: crate::simulation_types::SimulationPercentile {
                days: p50_days,
                date: p50_date.format(),
            },
            p85: crate::simulation_types::SimulationPercentile {
                days: p85_days,
                date: p85_date.format(),
            },
            p100: crate::simulation_types::SimulationPercentile {
                days: p100_days,
                date: p100_date.format(),
            },
        },
    )
}

/// One work-package entry per node, with the percentiles of its recorded
/// samples.
fn build_work_packages(nodes: &Vec<SimulationNode>, node_samples: &Vec<Vec<u64>>) -> (r: Vec<
    crate::simulation_types::WorkPackageSimulation,
>)
    requires
        node_samples@.len() == nodes@.len(),
    ensures
        r@.len() == nodes@.len(),
        forall|k: int| 0 <= k < r@.len() ==> (#[trigger] r@[k]).id@ == nodes@[k].id@,
        forall|k: int|
            0 <= k < r@.len() ==> {
                let row = node_samples@[k]@;
                let p = (#[trigger] r@[k]).percentiles;
                if row.len() == 0 {
                    p == (crate::simulation_types::WorkPackagePercentiles {
                        p0: 0u64,
                        p50: 0u64,
                        p85: 0u64,
                        p100: 0u64,
                    })
                } else {
                    let sorted = crate::percentiles::sort_spec(row);
                    &&& p.p0 == crate::percentiles::percentile_of(sorted, 0)
                    &&& p.p50 == crate::percentiles::percentile_of(sorted, 50)
                    &&& p.p85 == crate::percentiles::percentile_of(sorted, 85)
                    &&& p.p100 == crate::percentiles::percentile_of(sorted, 100)
                }
            },
{
    let n: usize = nodes.len();
    let mut wps: Vec<crate::simulation_types::WorkPackageSimulation> = Vec::new();
    let mut k: usize = 0;
    while k < n
        invariant
            k <= n,
            n == nodes@.len(),
            node_samples@.len() == n,
            wps@.len() == k,
            forall|kk: int| 0 <= kk < k ==> (#[trigger] wps@[kk]).id@ == nodes@[kk].id@,
            forall|kk: int|
                0 <= kk < k ==> {
                    let row = node_samples@[kk]@;
                    let p = (#[trigger] wps@[kk]).percentiles;
                    if row.len() == 0 {
                        p == (crate::simulation_types::WorkPackagePercentiles {
                            p0: 0u64,
                            p50: 0u64,
                            p85: 0u64,
                            p100: 0u64,
                        })
                    } else {
                        let sorted = crate::percentiles::sort_spec(row);
                        &&& p.p0 == crate::percentiles::percentile_of(sorted, 0)
                        &&& p.p50 == crate::percentiles::percentile_of(sorted, 50)
                        &&& p.p85 == crate::percentiles::percentile_of(sorted, 85)
                        &&& p.p100 == crate::percentiles::percentile_of(sorted, 100)
                    }
                },
        decreases n - k,
    {
        let percentiles = percentiles_from_values(&node_samples[k]);
        wps.push(
            crate::simulation_types::WorkPackageSimulation {
                id: nodes[k].id.clone(),
                percentiles,
            },
        );
        k = k + 1;
    }
    wps
}

/// Runs the trials: one total per iteration and the per-item finish
/// samples, with the sample matrix that justifies them.
/// When a visit of the most-likely trial fails, the whole most-likely
/// trial's total is undefined.
proof fn lemma_ml_trial_fails(
    team: TeamCalendar,
    start_day: int,
    triplets: Seq<(u32, u32, u32, bool)>,
    depss: Seq<Seq<usize>>,
    order_idx: Seq<int>,
    velocity: int,
    prefix: Seq<u32>,
    fins: Seq<int>,
    k: int,
)
    requires
        0 <= k < order_idx.len(),
        prefix.len() == k,
        prefix == spec_ml_samples(triplets, order_idx).take(k),
        spec_run_trial(team, start_day, triplets, depss, order_idx, velocity, prefix, k)
            == Some(fins),
        ({
            let idx = order_idx[k];
            !(0 <= idx < triplets.len() && 0 <= idx < depss.len()) || (match spec_step(
                team,
                start_day,
                triplets[idx],
                depss[idx],
                velocity,
                spec_ml_samples(triplets, order_idx)[k],
                fins,
            ) {
                Some(f) => !(0 <= f <= u64::MAX),
                None => true,
            })
        }),
    ensures
        spec_trial_total(
            team,
            start_day,
            triplets,
            depss,
            order_idx,
            velocity,
            spec_ml_samples(triplets, order_idx),
        ) is None,
{
    let ml = spec_ml_samples(triplets, order_idx);
    lemma_run_trial_same_prefix(
        team,
        start_day,
        triplets,
        depss,
        order_idx,
        velocity,
        prefix,
        ml,
        k,
    );
    assert(spec_run_trial(team, start_day, triplets, depss, order_idx, velocity, ml, k + 1)
        is None);
    lemma_run_trial_none_propagates(
        team,
        start_day,
        triplets,
        depss,
        order_idx,
        velocity,
        ml,
        k + 1,
        order_idx.len() as int,
    );
}

/// Once a visit fails, the whole trial does.
proof fn lemma_run_trial_none_propagates(
    team: TeamCalendar,
    start_day: int,
    triplets: Seq<(u32, u32, u32, bool)>,
    depss: Seq<Seq<usize>>,
    order_idx: Seq<int>,
    velocity: int,
    samples: Seq<u32>,
    k: int,
    m: int,
)
    requires
        0 <= k <= m,
        spec_run_trial(team, start_day, triplets, depss, order_idx, velocity, samples, k)
            is None,
    ensures
        spec_run_trial(team, start_day, triplets, depss, order_idx, velocity, samples, m)
            is None,
    decreases m - k,
{
    if m > k {
        lemma_run_trial_none_propagates(
            team,
            start_day,
            triplets,
            depss,
            order_idx,
            velocity,
            samples,
            k,
            m - 1,
        );
    }
}

#[verifier::loop_isolation(false)]
#[verifier::rlimit(100)]
fn run_trials<S: crate::sampler::ThreePointSampler>(
    nodes: &Vec<SimulationNode>,
    order_idx: &Vec<usize>,
    vel: u64,
    iterations: usize,
    start_date: Date,
    sampler: &mut S,
    calendar: &TeamCalendar,
    Ghost(issues): Ghost<Seq<Issue>>,
    Ghost(order_idx_spec): Ghost<Seq<int>>,
) -> (r: Result<(Vec<u64>, Vec<Vec<u64>>, Ghost<Seq<Seq<u32>>>), ProjectSimulationError>)
    requires
        start_date.valid(),
        nodes_model(issues, nodes@),
        order_idx_spec.len() == order_idx@.len(),
        forall|kk: int|
            0 <= kk < order_idx@.len() ==> (#[trigger] order_idx@[kk]) < nodes@.len()
                && order_idx@[kk] as int == order_idx_spec[kk],
        forall|k: int|
            0 <= k < nodes@.len() && (#[trigger] nodes@[k]).apply_velocity ==> vel >= 1,
    ensures
        r matches Ok((totals, node_samples, gsamples)) ==> {
            &&& totals@.len() == iterations
            &&& node_samples@.len() == nodes@.len()
            &&& gsamples@.len() == iterations
            &&& forall|t: int|
                0 <= t < iterations ==> spec_trial_total(
                    *calendar,
                    start_date.day as int,
                    spec_triplets_of(issues),
                    spec_depss_of(issues),
                    order_idx_spec,
                    vel as int,
                    #[trigger] gsamples@[t],
                ) == Some(totals@[t] as int)
            &&& forall|t: int|
                0 <= t < iterations ==> samples_in_range(
                    spec_triplets_of(issues),
                    order_idx_spec,
                    #[trigger] gsamples@[t],
                )
            &&& (old(sampler).always_most_likely() ==> forall|t: int|
                0 <= t < iterations ==> #[trigger] gsamples@[t] == spec_ml_samples(
                    spec_triplets_of(issues),
                    order_idx_spec,
                ))
        },
        r matches Err(e) ==> (e is DurationOverflow || e is InsufficientCapacity),
        old(sampler).always_most_likely() ==> final (sampler).always_most_likely(),
        old(sampler).always_most_likely() && spec_trial_total(
            *calendar,
            start_date.day as int,
            spec_triplets_of(issues),
            spec_depss_of(issues),
            order_idx_spec,
            vel as int,
            spec_ml_samples(spec_triplets_of(issues), order_idx_spec),
        ) is Some ==> r is Ok,
        (old(sampler).always_most_likely() && indices_distinct(order_idx_spec)) ==> (r matches Ok(
            (totals3, node_samples3, gsamples3),
        ) ==> ml_node_rows_ok(
            *calendar,
            start_date.day as int,
            spec_triplets_of(issues),
            spec_depss_of(issues),
            order_idx_spec,
            vel as int,
            iterations as int,
            rows_of(node_samples3@),
        )),
{
    let ghost team = *calendar;
    let ghost start_day = start_date.day as int;
    let ghost triplets = spec_triplets_of(issues);
    let ghost depss = spec_depss_of(issues);
    let n: usize = nodes.len();
    proof {
        assert forall|k: int| 0 <= k < n implies triplets[k] == ((#[trigger] nodes@[k]).optimistic,
        nodes@[k].most_likely, nodes@[k].pessimistic, nodes@[k].apply_velocity) by {}
        assert forall|k: int| 0 <= k < n implies depss[k] == (#[trigger] nodes@[k]).dependencies@
            by {}
    }
    // The trials.
    let mut totals: Vec<u64> = Vec::new();
    let mut node_samples: Vec<Vec<u64>> = Vec::new();
    let mut k: usize = 0;
    while k < n
        invariant
            k <= n,
            node_samples@.len() == k,
            forall|kk: int| 0 <= kk < k ==> (#[trigger] node_samples@[kk])@.len() == 0,
        decreases n - k,
    {
        node_samples.push(Vec::new());
        k = k + 1;
    }
    proof {
        if old(sampler).always_most_likely() && indices_distinct(order_idx_spec) {
            assert forall|idx: int|
                0 <= idx < n implies #[trigger] rows_of(node_samples@)[idx] == ml_row(
                team,
                start_day,
                triplets,
                depss,
                order_idx_spec,
                vel as int,
                idx,
                0,
            ) by {
                assert(rows_of(node_samples@)[idx] == node_samples@[idx]@);
                assert(rows_of(node_samples@)[idx] =~= ml_row(
                    team,
                    start_day,
                    triplets,
                    depss,
                    order_idx_spec,
                    vel as int,
                    idx,
                    0,
                ));
            }
        }
    }

    let ghost mut samples_matrix: Seq<Seq<u32>> = Seq::empty();
    let mut t: usize = 0;
    while t < iterations
        invariant
            t <= iterations,
            totals@.len() == t,
            samples_matrix.len() == t,
            node_samples@.len() == n,
            forall|tt: int|
                0 <= tt < t ==> spec_trial_total(
                    team,
                    start_day,
                    triplets,
                    depss,
                    order_idx_spec,
                    vel as int,
                    #[trigger] samples_matrix[tt],
                ) == Some(totals@[tt] as int),
            old(sampler).always_most_likely() ==> sampler.always_most_likely(),
            forall|tt: int|
                0 <= tt < t ==> samples_in_range(
                    triplets,
                    order_idx_spec,
                    #[trigger] samples_matrix[tt],
                ),
            old(sampler).always_most_likely() ==> forall|tt: int|
                0 <= tt < t ==> #[trigger] samples_matrix[tt] == spec_ml_samples(
                    triplets,
                    order_idx_spec,
                ),
            (old(sampler).always_most_likely() && indices_distinct(order_idx_spec))
                ==> ml_node_rows_ok(
                team,
                start_day,
                triplets,
                depss,
                order_idx_spec,
                vel as int,
                t as int,
                rows_of(node_samples@),
            ),
        decreases iterations - t,
    {
        let mut fins: Vec<u64> = Vec::new();
        let mut j: usize = 0;
        while j < n
            invariant
                j <= n,
                fins@.len() == j,
                forall|x: int| 0 <= x < j ==> (#[trigger] fins@[x]) == 0,
            decreases n - j,
        {
            fins.push(0);
            j = j + 1;
        }
        proof {
            assert(fins@.map_values(|x: u64| x as int) =~= Seq::new(triplets.len(), |x: int| 0));
            assert(spec_run_trial(
                team,
                start_day,
                triplets,
                depss,
                order_idx_spec,
                vel as int,
                Seq::<u32>::empty(),
                0,
            ) == Some(fins@.map_values(|x: u64| x as int)));
        }

        let ghost mut trial_samples: Seq<u32> = Seq::empty();
        let mut k: usize = 0;
        while k < order_idx.len()
            invariant
                k <= order_idx@.len(),
                fins@.len() == n,
                trial_samples.len() == k,
                node_samples@.len() == n,
                spec_run_trial(
                    team,
                    start_day,
                    triplets,
                    depss,
                    order_idx_spec,
                    vel as int,
                    trial_samples,
                    k as int,
                ) == Some(fins@.map_values(|x: u64| x as int)),
                forall|kk: int|
                    0 <= kk < k ==> {
                        let idx2 = order_idx_spec[kk];
                        (0 <= idx2 < triplets.len()) ==> (triplets[idx2].0
                            <= #[trigger] trial_samples[kk] && trial_samples[kk]
                            <= triplets[idx2].2)
                    },
                (old(sampler).always_most_likely() && indices_distinct(order_idx_spec))
                    ==> forall|idx2: int|
                    0 <= idx2 < n ==> #[trigger] rows_of(node_samples@)[idx2] == ml_row(
                        team,
                        start_day,
                        triplets,
                        depss,
                        order_idx_spec,
                        vel as int,
                        idx2,
                        t as int + (if exists|k0: int|
                            0 <= k0 < k && order_idx_spec[k0] == idx2 {
                            1int
                        } else {
                            0int
                        }),
                    ),
                old(sampler).always_most_likely() ==> sampler.always_most_likely(),
                old(sampler).always_most_likely() ==> trial_samples == spec_ml_samples(
                    triplets,
                    order_idx_spec,
                ).take(k as int),
            decreases order_idx@.len() - k,
        {
            let ghost fins_before = fins@.map_values(|x: u64| x as int);
            let idx: usize = order_idx[k];
            let node = &nodes[idx];

            // readiness: the largest dependency finish
            let deps_len: usize = node.dependencies.len();
            let mut ready: u64 = 0;
            let mut dj: usize = 0;
            while dj < deps_len
                invariant
                    dj <= deps_len,
                    deps_len == node.dependencies@.len(),
                    fins@.len() == n,
                    ready as int == ready_time(
                        fins@.map_values(|x: u64| x as int),
                        node.dependencies@.take(dj as int),
                    ),
                decreases deps_len - dj,
            {
                proof {
                    let deps = node.dependencies@;
                    assert(deps.take(dj + 1).drop_last() =~= deps.take(dj as int));
                    assert(deps.take(dj + 1).last() == deps[dj as int]);
                }
                let dep: usize = node.dependencies[dj];
                let f: u64 = if dep < fins.len() {
                    fins[dep]
                } else {
                    0
                };
                if f > ready {
                    ready = f;
                }
                dj = dj + 1;
            }
            proof {
                assert(node.dependencies@.take(deps_len as int) =~= node.dependencies@);
            }

            let (d, s): (u64, u32) = sample_duration(node, vel, sampler);

            let finish: u64 = if node.apply_velocity {
                match advance_through_calendar(calendar, start_date, ready, d as u128) {
                    Ok(f) => f,
                    Err(e) => {
                        proof {
                            if old(sampler).always_most_likely() {
                                lemma_ml_trial_fails(
                                    team,
                                    start_day,
                                    triplets,
                                    depss,
                                    order_idx_spec,
                                    vel as int,
                                    trial_samples,
                                    fins_before,
                                    k as int,
                                );
                            }
                        }
                        return Err(e);
                    },
                }
            } else {
                if d > u64::MAX - ready {
                    proof {
                        if old(sampler).always_most_likely() {
                            lemma_ml_trial_fails(
                                team,
                                start_day,
                                triplets,
                                depss,
                                order_idx_spec,
                                vel as int,
                                trial_samples,
                                fins_before,
                                k as int,
                            );
                        }
                    }
                    return Err(ProjectSimulationError::DurationOverflow);
                }
                ready + d
            };

            proof {
                assert(spec_step(
                    team,
                    start_day,
                    triplets[idx as int],
                    depss[idx as int],
                    vel as int,
                    s,
                    fins_before,
                ) == Some(finish as int));
            }

            fins.set(idx, finish);
            proof {
                let ts_old = trial_samples;
                trial_samples = trial_samples.push(s);
                lemma_run_trial_same_prefix(
                    team,
                    start_day,
                    triplets,
                    depss,
                    order_idx_spec,
                    vel as int,
                    ts_old,
                    trial_samples,
                    k as int,
                );
                assert(trial_samples[k as int] == s);
                assert(fins@.map_values(|x: u64| x as int) =~= fins_before.update(
                    idx as int,
                    finish as int,
                ));
                if old(sampler).always_most_likely() {
                    assert(trial_samples =~= spec_ml_samples(triplets, order_idx_spec).take(
                        k + 1,
                    ));
                }
            }
            let ghost rows_before = rows_of(node_samples@);
            let slot = &mut node_samples[idx];
            slot.push(finish);
            proof {
                if old(sampler).always_most_likely() && indices_distinct(order_idx_spec) {
                    let ml = spec_ml_samples(triplets, order_idx_spec);
                    lemma_run_trial_same_prefix(
                        team,
                        start_day,
                        triplets,
                        depss,
                        order_idx_spec,
                        vel as int,
                        trial_samples,
                        ml,
                        k + 1,
                    );
                    assert(spec_run_trial(
                        team,
                        start_day,
                        triplets,
                        depss,
                        order_idx_spec,
                        vel as int,
                        trial_samples,
                        k + 1,
                    ) == Some(fins@.map_values(|x: u64| x as int)));
                    assert(ml_visit_value(
                        team,
                        start_day,
                        triplets,
                        depss,
                        order_idx_spec,
                        vel as int,
                        k as int,
                    ) == finish as int);
                    let k0 = visit_position(order_idx_spec, idx as int);
                    assert(0 <= k0 < order_idx_spec.len() && order_idx_spec[k0] == idx as int);
                    assert(k0 == k as int);
                    assert forall|idx2: int|
                        0 <= idx2 < n implies #[trigger] rows_of(node_samples@)[idx2] == ml_row(
                        team,
                        start_day,
                        triplets,
                        depss,
                        order_idx_spec,
                        vel as int,
                        idx2,
                        t as int + (if exists|k02: int|
                            0 <= k02 < k + 1 && order_idx_spec[k02] == idx2 {
                            1int
                        } else {
                            0int
                        }),
                    ) by {
                        if idx2 == idx as int {
                            assert(rows_of(node_samples@)[idx2] == rows_before[idx2].push(
                                finish,
                            ));
                            assert(rows_before[idx2] == ml_row(
                                team,
                                start_day,
                                triplets,
                                depss,
                                order_idx_spec,
                                vel as int,
                                idx2,
                                t as int,
                            ));
                            assert(rows_of(node_samples@)[idx2] =~= ml_row(
                                team,
                                start_day,
                                triplets,
                                depss,
                                order_idx_spec,
                                vel as int,
                                idx2,
                                t as int + 1,
                            ));
                        } else {
                            assert(rows_of(node_samples@)[idx2] == rows_before[idx2]);
                            assert forall|k02: int|
                                0 <= k02 < k + 1 && order_idx_spec[k02] == idx2 implies k02
                                < k as int by {
                                assert(order_idx_spec[k as int] == idx as int);
                            }
                        }
                    }
                }
            }
            k = k + 1;
        }

        // the trial's total project duration
        let mut total: u64 = 0;
        let mut j: usize = 0;
        while j < n
            invariant
                j <= n,
                fins@.len() == n,
                total as int == seq_max_int(
                    fins@.map_values(|x: u64| x as int).take(j as int),
                ),
            decreases n - j,
        {
            proof {
                let fm = fins@.map_values(|x: u64| x as int);
                assert(fm.take(j + 1).drop_last() =~= fm.take(j as int));
                assert(fm.take(j + 1).last() == fm[j as int]);
            }
            let f: u64 = fins[j];
            if f > total {
                total = f;
            }
            j = j + 1;
        }
        proof {
            let fm = fins@.map_values(|x: u64| x as int);
            assert(fm.take(n as int) =~= fm);
            assert(spec_trial_total(
                team,
                start_day,
                triplets,
                depss,
                order_idx_spec,
                vel as int,
                trial_samples,
            ) == Some(total as int));
            samples_matrix = samples_matrix.push(trial_samples);
            if old(sampler).always_most_likely() {
                assert(spec_ml_samples(triplets, order_idx_spec).take(
                    order_idx_spec.len() as int,
                ) =~= spec_ml_samples(triplets, order_idx_spec));
            }
            if old(sampler).always_most_likely() && indices_distinct(order_idx_spec) {
                assert forall|idx2: int|
                    0 <= idx2 < n implies #[trigger] rows_of(node_samples@)[idx2] == ml_row(
                    team,
                    start_day,
                    triplets,
                    depss,
                    order_idx_spec,
                    vel as int,
                    idx2,
                    t as int + 1,
                ) by {
                    if exists|k0: int|
                        0 <= k0 < order_idx_spec.len() && order_idx_spec[k0] == idx2 {
                        let k0 = choose|k0: int|
                            0 <= k0 < order_idx_spec.len() && order_idx_spec[k0] == idx2;
                        assert(0 <= k0 < order_idx@.len() && order_idx_spec[k0] == idx2);
                    } else {
                        assert(rows_of(node_samples@)[idx2] =~= ml_row(
                            team,
                            start_day,
                            triplets,
                            depss,
                            order_idx_spec,
                            vel as int,
                            idx2,
                            t as int + 1,
                        ));
                    }
                }
            }
        }
        totals.push(total);
        t = t + 1;
    }

    Ok((totals, node_samples, Ghost(samples_matrix)))
}

/// Runs the Monte Carlo trials over the project in the given visiting
/// order and reduces them to a report.
///
/// Each trial visits the items in order, samples a duration for each, and
/// sets its earliest finish to its readiness (the largest finish among its
/// dependencies) plus the duration; story-point durations are scaled by the
/// velocity and walked through the capacity calendar. The sorted per-trial
/// totals yield the report's percentiles. With a sampler that always hands
/// back the most likely value the results are pinned exactly; for any
/// sampler the output is justified by a matrix of in-range samples.
#[verifier::loop_isolation(false)]
#[verifier::rlimit(100)]
pub fn run_simulation<S: crate::sampler::ThreePointSampler>(
    project: &Project,
    order: &Vec<String>,
    velocity: Option<u64>,
    iterations: usize,
    start_date: Date,
    sampler: &mut S,
    calendar: &TeamCalendar,
) -> (r: Result<crate::simulation_types::SimulationOutput, ProjectSimulationError>)
    requires
        start_date.valid(),
    ensures
        r matches Err(e) ==> (e is MissingIssueId || e is MissingEstimate || e is InvalidEstimate
            || e is MissingVelocity || e is InvalidVelocityValue || e is DurationOverflow
            || e is InsufficientCapacity || e is DateOutOfRange),
        r == Err::<crate::simulation_types::SimulationOutput, _>(
            ProjectSimulationError::MissingVelocity,
        ) ==> spec_has_story_points(project.work_packages@) && velocity is None,
        r == Err::<crate::simulation_types::SimulationOutput, _>(
            ProjectSimulationError::InvalidVelocityValue,
        ) ==> spec_has_story_points(project.work_packages@) && velocity == Some(0u64),
        r == Err::<crate::simulation_types::SimulationOutput, _>(
            ProjectSimulationError::MissingIssueId,
        ) ==> (!all_ids_present(project.work_packages@) || !order_ids_known(
            project.work_packages@,
            order_views(order@),
        )),
        r matches Ok(out) ==> simulation_output_ok(
            out,
            project.work_packages@,
            order_views(order@),
            velocity,
            iterations as int,
            start_date,
            *calendar,
        ),
        old(sampler).always_most_likely() ==> final (sampler).always_most_likely() && (
        r matches Ok(out) ==> exists|totals: Seq<u64>|
            #[trigger] trials_justified(
                *calendar,
                start_date.day as int,
                spec_triplets_of(project.work_packages@),
                spec_depss_of(project.work_packages@),
                spec_order_indices(project.work_packages@, order_views(order@)),
                spec_velocity_value(velocity),
                iterations as int,
                ml_matrix(
                    spec_triplets_of(project.work_packages@),
                    spec_order_indices(project.work_packages@, order_views(order@)),
                    iterations as int,
                ),
                totals,
                out.results@,
            )),
        (simulation_inputs_ok(project.work_packages@) && order_ids_known(
            project.work_packages@,
            order_views(order@),
        ) && velocity_ok(project.work_packages@, velocity)) ==> !(r matches Err(e2) && (
        e2 is MissingIssueId || e2 is MissingEstimate || e2 is InvalidEstimate
            || e2 is MissingVelocity || e2 is InvalidVelocityValue)),
        (simulation_inputs_ok(project.work_packages@) && spec_has_story_points(
            project.work_packages@,
        ) && velocity is None) ==> r == Err::<crate::simulation_types::SimulationOutput, _>(
            ProjectSimulationError::MissingVelocity,
        ),
        (old(sampler).always_most_likely() && simulation_inputs_ok(project.work_packages@)
            && order_ids_known(project.work_packages@, order_views(order@)) && velocity_ok(
            project.work_packages@,
            velocity,
        ) && ml_total_fits(
            project.work_packages@,
            order_views(order@),
            velocity,
            start_date,
            *calendar,
        )) ==> r is Ok,
        (old(sampler).always_most_likely() && indices_distinct(
            spec_order_indices(project.work_packages@, order_views(order@)),
        )) ==> (r matches Ok(out) ==> (out.work_packages matches Some(wps) && forall|k: int|
            0 <= k < wps@.len() ==> {
                let p = (#[trigger] wps@[k]).percentiles;
                &&& p.p0 == p.p50
                &&& p.p50 == p.p85
                &&& p.p85 == p.p100
            })),
{
    let issues_len: usize = project.work_packages.len();
    let ghost issues = project.work_packages@;
    let ghost team = *calendar;
    let ghost start_day = start_date.day as int;
    let ghost triplets = spec_triplets_of(issues);
    let ghost depss = spec_depss_of(issues);

    let nodes = match build_simulation_nodes(project) {
        Ok(nodes) => nodes,
        Err(e) => {
            return Err(e);
        },
    };
    let n: usize = nodes.len();
    proof {
        assert forall|k: int| 0 <= k < n implies triplets[k] == ((#[trigger] nodes@[k]).optimistic,
        nodes@[k].most_likely, nodes@[k].pessimistic, nodes@[k].apply_velocity) by {}
        assert forall|k: int| 0 <= k < n implies depss[k] == (#[trigger] nodes@[k]).dependencies@
            by {}
    }

    // A velocity must be present and positive when a story-point item is
    // simulated.
    let mut has_scaled: bool = false;
    let mut k: usize = 0;
    while k < n
        invariant
            k <= n,
            has_scaled ==> exists|kk: int|
                0 <= kk < n && (#[trigger] nodes@[kk]).apply_velocity,
            !has_scaled ==> forall|kk: int|
                0 <= kk < k ==> !(#[trigger] nodes@[kk]).apply_velocity,
        decreases n - k,
    {
        if nodes[k].apply_velocity {
            has_scaled = true;
        }
        k = k + 1;
    }
    proof {
        if has_scaled {
            let kk = choose|kk: int| 0 <= kk < n && (#[trigger] nodes@[kk]).apply_velocity;
            assert(spec_issue_triplet(issues[kk].estimate) matches Some((_, _, _, s)) && s);
            assert(crate::issue::spec_story_point_value(issues[kk].estimate) is Some);
            assert(spec_has_story_points(issues));
        } else {
            if spec_has_story_points(issues) {
                let kk = choose|kk: int|
                    0 <= kk < issues.len() && crate::issue::spec_story_point_value(
                        (#[trigger] issues[kk]).estimate,
                    ) is Some;
                assert(spec_issue_triplet(issues[kk].estimate) matches Some((_, _, _, sc))
                    && sc);
                assert(nodes@[kk].apply_velocity);
                assert(false);
            }
        }
    }
    let vel: u64 = if has_scaled {
        match velocity {
            None => {
                return Err(ProjectSimulationError::MissingVelocity);
            },
            Some(v) => {
                if v == 0 {
                    return Err(ProjectSimulationError::InvalidVelocityValue);
                }
                v
            },
        }
    } else {
        match velocity {
            Some(v) => v,
            None => 1,
        }
    };
    proof {
        assert(vel as int == spec_velocity_value(velocity));
        assert forall|kk: int|
            0 <= kk < n && (#[trigger] nodes@[kk]).apply_velocity implies vel >= 1 by {}
    }

    // Map the visiting order to node indices.
    let ghost order_idx_spec = spec_order_indices(issues, order_views(order@));
    let mut order_idx: Vec<usize> = Vec::new();
    let mut k: usize = 0;
    while k < order.len()
        invariant
            k <= order@.len(),
            order_idx@.len() == k,
            forall|kk: int|
                0 <= kk < k ==> (#[trigger] order_idx@[kk]) < n && order_idx@[kk] as int
                    == order_idx_spec[kk],
        decreases order@.len() - k,
    {
        proof {
            assert(order_views(order@)[k as int] == order@[k as int]@);
        }
        match find_node_index(&nodes, &order[k]) {
            None => {
                proof {
                    assert forall|j: int| 0 <= j < issues.len() implies spec_id(
                        #[trigger] issues[j],
                    ) != order@[k as int]@ by {
                        assert(nodes@[j].id@ != order@[k as int]@);
                    }
                    lemma_first_index_missing(issues, order@[k as int]@, 0);
                    assert(first_issue_index(issues, order_views(order@)[k as int], 0) == -1);
                    assert(!order_ids_known(issues, order_views(order@)));
                }
                return Err(ProjectSimulationError::MissingIssueId);
            },
            Some(j) => {
                proof {
                    assert forall|kk: int| 0 <= kk < j implies spec_id(#[trigger] issues[kk])
                        != order@[k as int]@ by {
                        assert(nodes@[kk].id@ != order@[k as int]@);
                    }
                    assert(spec_id(issues[j as int]) == order@[k as int]@);
                    lemma_first_index_found(issues, order@[k as int]@, 0, j as int);
                }
                order_idx.push(j);
            },
        }
        k = k + 1;
    }

    let (totals, node_samples, gsamples) = match run_trials(
        &nodes,
        &order_idx,
        vel,
        iterations,
        start_date,
        sampler,
        calendar,
        Ghost(issues),
        Ghost(order_idx_spec),
    ) {
        Ok(x) => x,
        Err(e) => {
            return Err(e);
        },
    };
    let ghost samples_matrix = gsamples@;

    let results = crate::percentiles::sort_u64s(&totals);
    proof {
        crate::percentiles::lemma_sort_spec_properties(totals@);
        assert(trials_justified(
            team,
            start_day,
            spec_triplets_of(project.work_packages@),
            spec_depss_of(project.work_packages@),
            spec_order_indices(project.work_packages@, order_views(order@)),
            spec_velocity_value(velocity),
            iterations as int,
            samples_matrix,
            totals@,
            results@,
        ));
        if old(sampler).always_most_likely() {
            assert(samples_matrix =~= ml_matrix(
                spec_triplets_of(project.work_packages@),
                spec_order_indices(project.work_packages@, order_views(order@)),
                iterations as int,
            ));
        }
    }

    let report = match build_report(&results, start_date, velocity, iterations, issues_len) {
        Ok(report) => report,
        Err(e) => {
            proof {
                if old(sampler).always_most_likely() && ml_total_fits(
                    issues,
                    order_views(order@),
                    velocity,
                    start_date,
                    *calendar,
                ) {
                    let mltotal = spec_trial_total(
                        team,
                        start_day,
                        triplets,
                        depss,
                        order_idx_spec,
                        vel as int,
                        spec_ml_samples(triplets, order_idx_spec),
                    );
                    let tot = mltotal->Some_0;
                    if iterations > 0 {
                        lemma_deterministic_results(
                            team,
                            start_day,
                            triplets,
                            depss,
                            order_idx_spec,
                            vel as int,
                            iterations as int,
                            totals@,
                            results@,
                            tot,
                        );
                        assert(spec_percentile_days(results@, 0) == tot);
                        assert(spec_percentile_days(results@, 50) == tot);
                        assert(spec_percentile_days(results@, 85) == tot);
                        assert(spec_percentile_days(results@, 100) == tot);
                        assert(false);
                    } else {
                        assert(results@.len() == 0);
                        assert(spec_end_day(start_day, 0) == start_day);
                        assert(false);
                    }
                }
            }
            return Err(e);
        },
    };
    let wps = build_work_packages(&nodes, &node_samples);
    proof {
        assert forall|k: int| 0 <= k < issues.len() implies (#[trigger] wps@[k]).id@ == spec_id(
            issues[k],
        ) by {
            assert(wps@[k].id@ == nodes@[k].id@);
        }
        if old(sampler).always_most_likely() && indices_distinct(order_idx_spec) {
            assert forall|k: int|
                0 <= k < wps@.len() implies {
                let p = (#[trigger] wps@[k]).percentiles;
                &&& p.p0 == p.p50
                &&& p.p50 == p.p85
                &&& p.p85 == p.p100
            } by {
                assert(rows_of(node_samples@)[k] == node_samples@[k]@);
                assert(node_samples@[k]@ == ml_row(
                    team,
                    start_day,
                    triplets,
                    depss,
                    order_idx_spec,
                    vel as int,
                    k,
                    iterations as int,
                ));
                lemma_uniform_percentiles(node_samples@[k]@);
            }
        }
    }

    let output = crate::simulation_types::SimulationOutput {
        report,
        results,
        work_packages: Some(wps),
    };
    proof {
        lemma_assemble_output(
            output,
            project.work_packages@,
            order_views(order@),
            velocity,
            iterations as int,
            start_date,
            *calendar,
            samples_matrix,
            totals@,
        );
    }
    Ok(output)
}

} // verus!
// The public entry point and the velocity bridge.

verus! {

/// The simulator's name for a velocity-calculation failure.
pub open spec fn velocity_error_of(e: VelocityCalculationError) -> ProjectSimulationError {
    match e {
        VelocityCalculationError::MissingVelocityData => ProjectSimulationError::MissingVelocityData,
        VelocityCalculationError::MissingVelocityDates => ProjectSimulationError::MissingVelocityDates,
        VelocityCalculationError::InvalidVelocityDuration => ProjectSimulationError::InvalidVelocityDuration,
        VelocityCalculationError::InvalidVelocityValue => ProjectSimulationError::InvalidVelocityValue,
    }
}

/// The team velocity of a project, under the simulator's error names:
/// exactly the outcome of the velocity calculation.
pub fn calculate_project_velocity(project: &Project, calendar: &TeamCalendar) -> (r: Result<
    u64,
    ProjectSimulationError,
>)
    ensures
        r matches Ok(v) ==> velocity_calculation::spec_velocity(*project, *calendar) == Ok::<
            u64,
            VelocityCalculationError,
        >(v),
        r matches Err(e) ==> velocity_calculation::spec_velocity(*project, *calendar) matches Err(
            ve,
        ) && e == velocity_error_of(ve),
        r matches Err(e) ==> (e is MissingVelocityData || e is MissingVelocityDates
            || e is InvalidVelocityDuration || e is InvalidVelocityValue),
{
    match velocity_calculation::calculate_project_velocity(project, calendar) {
        Ok(v) => Ok(v),
        Err(VelocityCalculationError::MissingVelocityData) => Err(
            ProjectSimulationError::MissingVelocityData,
        ),
        Err(VelocityCalculationError::MissingVelocityDates) => Err(
            ProjectSimulationError::MissingVelocityDates,
        ),
        Err(VelocityCalculationError::InvalidVelocityDuration) => Err(
            ProjectSimulationError::InvalidVelocityDuration,
        ),
        Err(VelocityCalculationError::InvalidVelocityValue) => Err(
            ProjectSimulationError::InvalidVelocityValue,
        ),
    }
}

/// Whether the velocity stage lets a simulation proceed: no story-point
/// item, or a velocity the calculation yields.
pub open spec fn velocity_stage_passes(project: Project, calendar: TeamCalendar) -> bool {
    !(spec_has_story_points(project.work_packages@)
        && velocity_calculation::spec_velocity(project, calendar) is Err)
}

/// The velocity a simulation will use: the calculated one when story points
/// demand it, none otherwise (meaningful when the velocity stage passes).
pub open spec fn chosen_velocity(project: Project, calendar: TeamCalendar) -> Option<u64> {
    if spec_has_story_points(project.work_packages@) {
        match velocity_calculation::spec_velocity(project, calendar) {
            Ok(v) => Some(v),
            Err(_) => None,
        }
    } else {
        None
    }
}

/// Whether the most-likely trial computation is defined and in the date
/// range for every topological order of the project's items.
pub open spec fn ml_fits_every_order(
    issues: Seq<Issue>,
    velocity: Option<u64>,
    start: Date,
    team: TeamCalendar,
) -> bool {
    forall|ov: Seq<Seq<char>>|
        (order_covers(issues, ov) && order_distinct(ov) && order_respects_dependencies(issues, ov)
            && (forall|k: int|
            0 <= k < ov.len() ==> exists|i: int|
                0 <= i < issues.len() && #[trigger] ov[k] == spec_id(issues[i])))
            ==> #[trigger] ml_total_fits(issues, ov, velocity, start, team)
}

/// A found first index carries the identifier it was searched for.
proof fn lemma_first_index_matches(issues: Seq<Issue>, id: Seq<char>, from: int)
    requires
        0 <= from <= issues.len(),
    ensures
        ({
            let a = first_issue_index(issues, id, from);
            a >= 0 ==> (from <= a < issues.len() && spec_id(issues[a]) == id)
        }),
    decreases issues.len() - from,
{
    if from < issues.len() && spec_id(issues[from]) != id {
        lemma_first_index_matches(issues, id, from + 1);
    }
}

/// The index of a present identifier is found.
proof fn lemma_first_index_exists(issues: Seq<Issue>, id: Seq<char>, from: int, i0: int)
    requires
        0 <= from <= i0 < issues.len(),
        spec_id(issues[i0]) == id,
    ensures
        first_issue_index(issues, id, from) >= 0,
    decreases i0 - from,
{
    if spec_id(issues[from]) != id {
        lemma_first_index_exists(issues, id, from + 1, i0);
    }
}

/// Simulates a project: rejects empty runs, derives the velocity when any
/// item is estimated in story points, orders the items topologically,
/// reads the start date, and runs the trials. The pre-trial stages succeed
/// or fail exactly as their contracts say, in the order the stages run.
pub fn simulate_project<S: crate::sampler::ThreePointSampler>(
    project: &Project,
    iterations: usize,
    start_date: &str,
    calendar: TeamCalendar,
    sampler: &mut S,
) -> (r: Result<crate::simulation_types::SimulationOutput, ProjectSimulationError>)
    ensures
        r == Err::<crate::simulation_types::SimulationOutput, _>(
            ProjectSimulationError::InvalidIterations,
        ) <==> iterations == 0,
        iterations > 0 ==> (r == Err::<crate::simulation_types::SimulationOutput, _>(
            ProjectSimulationError::EmptyProject,
        ) <==> project.work_packages@.len() == 0),
        r matches Err(e) ==> ((e is InvalidStartDate) ==> !(crate::date::day_number_of_text(
            start_date@,
        ) matches Some(n) && 1 <= n <= crate::date::MAX_DAY_NUMBER)),
        r matches Err(e) ==> (e matches ProjectSimulationError::InvalidStartDate(st) ==> st@
            == start_date@),
        r matches Err(e) ==> ((e is CyclicDependencies) ==> spec_dep_cycle(
            project.work_packages@,
        )),
        (iterations > 0 && project.work_packages@.len() > 0 && spec_has_story_points(
            project.work_packages@,
        )) ==> (velocity_calculation::spec_velocity(*project, calendar) matches Err(ve) ==> r
            == Err::<crate::simulation_types::SimulationOutput, _>(velocity_error_of(ve))),
        r matches Err(e) ==> ((e is MissingVelocityData || e is MissingVelocityDates
            || e is InvalidVelocityDuration || e is InvalidVelocityValue) ==> (
        spec_has_story_points(project.work_packages@) && velocity_calculation::spec_velocity(
            *project,
            calendar,
        ) is Err)),
        (iterations > 0 && project.work_packages@.len() > 0 && velocity_stage_passes(
            *project,
            calendar,
        ) && all_ids_present(project.work_packages@) && ids_unique(project.work_packages@)
            && deps_resolve(project.work_packages@) && project.work_packages@.len()
            < GRAPH_INDEX_LIMIT && total_deps(project.work_packages@) <= GRAPH_INDEX_LIMIT
            && spec_dep_cycle(project.work_packages@)) ==> r == Err::<
            crate::simulation_types::SimulationOutput,
            _,
        >(ProjectSimulationError::CyclicDependencies),
        r matches Err(e) ==> ((e is MissingIssueId || e is DuplicateIssueId
            || e is UnknownDependency || e is CyclicDependencies || e is CapacityExceeded)
            ==> !topo_ok(project.work_packages@)),
        (iterations > 0 && project.work_packages@.len() > 0 && velocity_stage_passes(
            *project,
            calendar,
        ) && topo_ok(project.work_packages@) && !(crate::date::day_number_of_text(start_date@)
            matches Some(n) && 1 <= n <= crate::date::MAX_DAY_NUMBER)) ==> (r matches Err(e4)
            && e4 is InvalidStartDate),
        (iterations > 0 && project.work_packages@.len() > 0 && velocity_stage_passes(
            *project,
            calendar,
        ) && topo_ok(project.work_packages@) && (crate::date::day_number_of_text(start_date@)
            matches Some(n) && 1 <= n <= crate::date::MAX_DAY_NUMBER)
            && simulation_inputs_ok(project.work_packages@)) ==> (r is Ok || (r matches Err(e5)
            && (e5 is DurationOverflow || e5 is InsufficientCapacity || e5 is DateOutOfRange))),
        r matches Ok(out) ==> {
            &&& iterations > 0
            &&& project.work_packages@.len() > 0
            &&& topo_ok(project.work_packages@)
            &&& crate::date::day_number_of_text(start_date@) matches Some(n) && 1 <= n
                <= crate::date::MAX_DAY_NUMBER
            &&& (spec_has_story_points(project.work_packages@) ==> (
            velocity_calculation::spec_velocity(*project, calendar) matches Ok(v)
                && out.report.velocity == Some(v)))
            &&& (!spec_has_story_points(project.work_packages@) ==> out.report.velocity is None)
            &&& exists|order: Seq<Seq<char>>, start: Date|
                {
                    &&& order_covers(project.work_packages@, order)
                    &&& order_distinct(order)
                    &&& order_respects_dependencies(project.work_packages@, order)
                    &&& crate::date::day_number_of_text(start_date@) == Some(start.day as i64)
                    &&& #[trigger] simulation_output_ok(
                        out,
                        project.work_packages@,
                        order,
                        out.report.velocity,
                        iterations as int,
                        start,
                        calendar,
                    )
                }
        },
        old(sampler).always_most_likely() ==> final (sampler).always_most_likely(),
        old(sampler).always_most_likely() ==> (r matches Ok(out2) ==> (out2.work_packages
            matches Some(wps) && forall|k: int|
            0 <= k < wps@.len() ==> {
                let p = (#[trigger] wps@[k]).percentiles;
                &&& p.p0 == p.p50
                &&& p.p50 == p.p85
                &&& p.p85 == p.p100
            })),
        (old(sampler).always_most_likely() && iterations > 0 && project.work_packages@.len() > 0
            && velocity_stage_passes(*project, calendar) && topo_ok(project.work_packages@)
            && simulation_inputs_ok(project.work_packages@)) ==> (
        crate::date::day_number_of_text(start_date@) matches Some(n) ==> (1 <= n
            <= crate::date::MAX_DAY_NUMBER ==> (ml_fits_every_order(
            project.work_packages@,
            chosen_velocity(*project, calendar),
            Date { day: n as u32 },
            calendar,
        ) ==> r is Ok))),
{
    if iterations == 0 {
        return Err(ProjectSimulationError::InvalidIterations);
    }
    if project.work_packages.len() == 0 {
        return Err(ProjectSimulationError::EmptyProject);
    }

    let ghost issues = project.work_packages@;
    let velocity: Option<u64> = if project_has_story_points(project) {
        match calculate_project_velocity(project, &calendar) {
            Ok(v) => Some(v),
            Err(e) => {
                return Err(e);
            },
        }
    } else {
        None
    };
    proof {
        assert(velocity_stage_passes(*project, calendar));
        assert(velocity == chosen_velocity(*project, calendar));
        match velocity {
            Some(v) => {
                velocity_calculation::lemma_velocity_functional_and_positive(
                    *project,
                    calendar,
                    Ok(v),
                    Ok(v),
                );
            },
            None => {},
        }
        assert(velocity_ok(issues, velocity));
    }

    let order = match topological_sort(project) {
        Ok(order) => order,
        Err(e) => {
            return Err(e);
        },
    };
    proof {
        // every order entry names an issue, so the trial lookups resolve
        assert forall|k: int|
            0 <= k < order_views(order@).len() implies #[trigger] first_issue_index(
            issues,
            order_views(order@)[k],
            0,
        ) >= 0 by {
            assert(order_views(order@)[k] == order@[k]@);
            let i0 = choose|i0: int| 0 <= i0 < issues.len() && order@[k]@ == spec_id(issues[i0]);
            lemma_first_index_exists(issues, order@[k]@, 0, i0);
        }
        assert(order_ids_known(issues, order_views(order@)));
        // distinct identifiers resolve to distinct items
        let oi = spec_order_indices(issues, order_views(order@));
        assert forall|k1: int, k2: int|
            0 <= k1 < k2 < oi.len() implies oi[k1] != oi[k2] by {
            lemma_first_index_matches(issues, order_views(order@)[k1], 0);
            lemma_first_index_matches(issues, order_views(order@)[k2], 0);
            if oi[k1] == oi[k2] {
                assert(order_views(order@)[k1] == order_views(order@)[k2]);
                assert(order@[k1]@ == order@[k2]@);
                assert(false);
            }
        }
        assert(indices_distinct(oi));
    }

    let start = match Date::parse(start_date) {
        Some(d) => d,
        None => {
            return Err(ProjectSimulationError::InvalidStartDate(start_date.to_owned()));
        },
    };

    let r = run_simulation(project, &order, velocity, iterations, start, sampler, &calendar);
    proof {
        if r is Ok {
            let out = r->Ok_0;
            assert(out.report.velocity == velocity);
            assert(simulation_output_ok(
                out,
                project.work_packages@,
                order_views(order@),
                out.report.velocity,
                iterations as int,
                start,
                calendar,
            ));
        }
        if old(sampler).always_most_likely() && simulation_inputs_ok(issues) {
            match crate::date::day_number_of_text(start_date@) {
                Some(n2) => {
                    if 1 <= n2 && n2 <= crate::date::MAX_DAY_NUMBER as i64
                        && ml_fits_every_order(
                        issues,
                        velocity,
                        Date { day: n2 as u32 },
                        calendar,
                    ) {
                        assert(Date { day: n2 as u32 } == start);
                        assert(ml_total_fits(
                            issues,
                            order_views(order@),
                            velocity,
                            start,
                            calendar,
                        ));
                    }
                },
                None => {},
            }
        }
    }
    r
}

} // verus!
// Laws of deterministic sampling.

verus! {

/// With a sampler that always returns the most likely value, every trial's
/// total equals the one most-likely total: the sorted results hold that
/// value everywhere, and all four report percentiles equal it.
pub proof fn lemma_deterministic_results(
    team: TeamCalendar,
    start_day: int,
    triplets: Seq<(u32, u32, u32, bool)>,
    depss: Seq<Seq<usize>>,
    order_idx: Seq<int>,
    velocity: int,
    iterations: int,
    totals: Seq<u64>,
    results: Seq<u64>,
    tot: int,
)
    requires
        iterations > 0,
        trials_justified(
            team,
            start_day,
            triplets,
            depss,
            order_idx,
            velocity,
            iterations,
            ml_matrix(triplets, order_idx, iterations),
            totals,
            results,
        ),
        spec_trial_total(
            team,
            start_day,
            triplets,
            depss,
            order_idx,
            velocity,
            spec_ml_samples(triplets, order_idx),
        ) == Some(tot),
    ensures
        results.len() == iterations,
        forall|t: int| 0 <= t < results.len() ==> (#[trigger] results[t]) as int == tot,
        crate::percentiles::percentile_of(results, 0) as int == tot,
        crate::percentiles::percentile_of(results, 50) as int == tot,
        crate::percentiles::percentile_of(results, 85) as int == tot,
        crate::percentiles::percentile_of(results, 100) as int == tot,
{
    assert forall|t: int| 0 <= t < iterations implies (#[trigger] totals[t]) as int == tot by {
        assert(ml_matrix(triplets, order_idx, iterations)[t] == spec_ml_samples(
            triplets,
            order_idx,
        ));
    }
    crate::percentiles::lemma_sort_spec_properties(totals);
    totals.to_multiset_ensures();
    results.to_multiset_ensures();
    assert(results.len() == iterations);
    assert forall|t: int| 0 <= t < results.len() implies (#[trigger] results[t]) as int
        == tot by {
        assert(results.contains(results[t]));
        assert(results.to_multiset().count(results[t]) > 0);
        assert(totals.to_multiset().count(results[t]) > 0);
        assert(totals.contains(results[t]));
        let j = choose|j: int| 0 <= j < totals.len() && totals[j] == results[t];
        assert(totals[j] as int == tot);
    }
    crate::percentiles::lemma_percentile_index_in_bounds(results.len() as int, 0);
    crate::percentiles::lemma_percentile_index_in_bounds(results.len() as int, 50);
    crate::percentiles::lemma_percentile_index_in_bounds(results.len() as int, 85);
    crate::percentiles::lemma_percentile_index_in_bounds(results.len() as int, 100);
}

/// Two runs under a most-likely sampler on the same inputs yield the same
/// sorted results.
pub proof fn lemma_deterministic_reproducible(
    team: TeamCalendar,
    start_day: int,
    triplets: Seq<(u32, u32, u32, bool)>,
    depss: Seq<Seq<usize>>,
    order_idx: Seq<int>,
    velocity: int,
    iterations: int,
    totals1: Seq<u64>,
    results1: Seq<u64>,
    totals2: Seq<u64>,
    results2: Seq<u64>,
    tot: int,
)
    requires
        iterations > 0,
        trials_justified(
            team,
            start_day,
            triplets,
            depss,
            order_idx,
            velocity,
            iterations,
            ml_matrix(triplets, order_idx, iterations),
            totals1,
            results1,
        ),
        trials_justified(
            team,
            start_day,
            triplets,
            depss,
            order_idx,
            velocity,
            iterations,
            ml_matrix(triplets, order_idx, iterations),
            totals2,
            results2,
        ),
        spec_trial_total(
            team,
            start_day,
            triplets,
            depss,
            order_idx,
            velocity,
            spec_ml_samples(triplets, order_idx),
        ) == Some(tot),
    ensures
        results1 == results2,
{
    lemma_deterministic_results(
        team,
        start_day,
        triplets,
        depss,
        order_idx,
        velocity,
        iterations,
        totals1,
        results1,
        tot,
    );
    lemma_deterministic_results(
        team,
        start_day,
        triplets,
        depss,
        order_idx,
        velocity,
        iterations,
        totals2,
        results2,
        tot,
    );
    assert(results1 =~= results2);
}

} // verus!
// The law of the critical path.

verus! {

/// Readiness reads only the dependency entries.
proof fn lemma_ready_time_congruence(fins1: Seq<int>, fins2: Seq<int>, deps: Seq<usize>)
    requires
        fins1.len() == fins2.len(),
        forall|j: int| 0 <= j < deps.len() ==> {
            let d = (#[trigger] deps[j]) as int;
            0 <= d < fins1.len() ==> fins1[d] == fins2[d]
        },
    ensures
        ready_time(fins1, deps) == ready_time(fins2, deps),
    decreases deps.len(),
{
    if deps.len() > 0 {
        lemma_ready_time_congruence(fins1, fins2, deps.drop_last());
        assert(deps[deps.len() - 1] == deps.last());
    }
}

/// Whether the order visits an item.
pub open spec fn order_visits(order_idx: Seq<int>, idx: int) -> bool {
    exists|k: int| 0 <= k < order_idx.len() && order_idx[k] == idx
}

/// Whether the order visits every item exactly once, each dependency before
/// its dependent.
pub open spec fn schedule_ok(
    triplets: Seq<(u32, u32, u32, bool)>,
    depss: Seq<Seq<usize>>,
    order_idx: Seq<int>,
) -> bool {
    &&& depss.len() == triplets.len()
    &&& order_idx.len() == triplets.len()
    &&& forall|k: int| 0 <= k < order_idx.len() ==> 0 <= #[trigger] order_idx[k] < triplets.len()
    &&& forall|k1: int, k2: int|
        0 <= k1 < k2 < order_idx.len() ==> order_idx[k1] != order_idx[k2]
    &&& forall|k: int, j: int|
        0 <= k < order_idx.len() && 0 <= j < depss[order_idx[k]].len() ==> exists|k2: int|
            0 <= k2 < k && order_idx[k2] == (#[trigger] depss[order_idx[k]][j]) as int
    &&& forall|idx: int| 0 <= idx < triplets.len() ==> #[trigger] order_visits(order_idx, idx)
}

/// After the first `m` visits of a well-formed schedule, the finishes of the
/// visited items already carry their final values, and unvisited items still
/// stand at zero.
proof fn lemma_prefix_finishes(
    team: TeamCalendar,
    start_day: int,
    triplets: Seq<(u32, u32, u32, bool)>,
    depss: Seq<Seq<usize>>,
    order_idx: Seq<int>,
    velocity: int,
    samples: Seq<u32>,
    fins: Seq<int>,
    m: int,
)
    requires
        schedule_ok(triplets, depss, order_idx),
        forall|k: int| 0 <= k < triplets.len() ==> !(#[trigger] triplets[k]).3,
        samples.len() == order_idx.len(),
        spec_run_trial(
            team,
            start_day,
            triplets,
            depss,
            order_idx,
            velocity,
            samples,
            order_idx.len() as int,
        ) == Some(fins),
        0 <= m <= order_idx.len(),
    ensures
        spec_run_trial(team, start_day, triplets, depss, order_idx, velocity, samples, m)
            matches Some(g) && g.len() == fins.len() && (forall|k: int|
            0 <= k < m ==> g[order_idx[k]] == fins[order_idx[k]]) && (forall|idx: int|
            0 <= idx < g.len() && !(exists|k: int| 0 <= k < m && order_idx[k] == idx) ==> g[idx]
                == 0),
    decreases order_idx.len() - m,
{
    let n = order_idx.len() as int;
    if m == n {
        assert(spec_run_trial(team, start_day, triplets, depss, order_idx, velocity, samples, m)
            == Some(fins));
        assert(fins.len() == triplets.len()) by {
            lemma_run_trial_len(team, start_day, triplets, depss, order_idx, velocity, samples, n);
        }
        assert forall|idx: int|
            0 <= idx < fins.len() && !(exists|k: int| 0 <= k < m && order_idx[k] == idx) implies
            fins[idx] == 0 by {
            lemma_unvisited_zero(
                team,
                start_day,
                triplets,
                depss,
                order_idx,
                velocity,
                samples,
                m,
                idx,
            );
        }
    } else {
        lemma_prefix_finishes(
            team,
            start_day,
            triplets,
            depss,
            order_idx,
            velocity,
            samples,
            fins,
            m + 1,
        );
        let g1 = spec_run_trial(
            team,
            start_day,
            triplets,
            depss,
            order_idx,
            velocity,
            samples,
            m + 1,
        )->Some_0;
        let g0 = spec_run_trial(team, start_day, triplets, depss, order_idx, velocity, samples, m);
        assert(g0 is Some);
        let g = g0->Some_0;
        lemma_run_trial_len(team, start_day, triplets, depss, order_idx, velocity, samples, m);
        let idx = order_idx[m];
        assert(0 <= idx < triplets.len());
        assert(g.len() == triplets.len());
        assert(!triplets[idx].3);
        assert(spec_step(team, start_day, triplets[idx], depss[idx], velocity, samples[m], g)
            == Some(ready_time(g, depss[idx]) + samples[m]));
        assert(g1 == g.update(idx, ready_time(g, depss[idx]) + samples[m]));
        assert(g.len() == g1.len());
        // entries other than the one visited at m agree with g1
        assert forall|k: int| 0 <= k < m implies g[order_idx[k]] == fins[order_idx[k]] by {
            assert(order_idx[k] != idx);
            assert(g1[order_idx[k]] == g[order_idx[k]]);
        }
        assert forall|idx2: int|
            0 <= idx2 < g.len() && !(exists|k: int| 0 <= k < m && order_idx[k] == idx2) implies g[
            idx2] == 0 by {
            lemma_unvisited_zero(
                team,
                start_day,
                triplets,
                depss,
                order_idx,
                velocity,
                samples,
                m,
                idx2,
            );
        }
    }
}

/// The finishes after `m` visits have one entry per item.
proof fn lemma_run_trial_len(
    team: TeamCalendar,
    start_day: int,
    triplets: Seq<(u32, u32, u32, bool)>,
    depss: Seq<Seq<usize>>,
    order_idx: Seq<int>,
    velocity: int,
    samples: Seq<u32>,
    m: int,
)
    requires
        spec_run_trial(team, start_day, triplets, depss, order_idx, velocity, samples, m) is Some,
        m >= 0,
    ensures
        spec_run_trial(
            team,
            start_day,
            triplets,
            depss,
            order_idx,
            velocity,
            samples,
            m,
        )->Some_0.len() == triplets.len(),
    decreases m,
{
    if m > 0 {
        lemma_run_trial_len(team, start_day, triplets, depss, order_idx, velocity, samples, m - 1);
    }
}

/// An item not yet visited still stands at zero.
proof fn lemma_unvisited_zero(
    team: TeamCalendar,
    start_day: int,
    triplets: Seq<(u32, u32, u32, bool)>,
    depss: Seq<Seq<usize>>,
    order_idx: Seq<int>,
    velocity: int,
    samples: Seq<u32>,
    m: int,
    idx: int,
)
    requires
        spec_run_trial(team, start_day, triplets, depss, order_idx, velocity, samples, m) is Some,
        0 <= m,
        forall|k: int| 0 <= k < m ==> order_idx[k] != idx,
        0 <= idx,
    ensures
        ({
            let g = spec_run_trial(
                team,
                start_day,
                triplets,
                depss,
                order_idx,
                velocity,
                samples,
                m,
            )->Some_0;
            idx < g.len() ==> g[idx] == 0
        }),
    decreases m,
{
    if m > 0 {
        lemma_unvisited_zero(
            team,
            start_day,
            triplets,
            depss,
            order_idx,
            velocity,
            samples,
            m - 1,
            idx,
        );
        lemma_run_trial_len(team, start_day, triplets, depss, order_idx, velocity, samples, m - 1);
    }
}

/// The law of the critical path for directly-estimated items: under a
/// well-formed schedule, every item's earliest finish is the largest finish
/// among its dependencies plus its own sampled duration, and the trial's
/// total is the largest finish of all. The total is therefore the length of
/// the longest dependency path, not the sum of all durations.
pub proof fn lemma_critical_path_recurrence(
    team: TeamCalendar,
    start_day: int,
    triplets: Seq<(u32, u32, u32, bool)>,
    depss: Seq<Seq<usize>>,
    order_idx: Seq<int>,
    velocity: int,
    samples: Seq<u32>,
    fins: Seq<int>,
    total: int,
)
    requires
        schedule_ok(triplets, depss, order_idx),
        forall|k: int| 0 <= k < triplets.len() ==> !(#[trigger] triplets[k]).3,
        samples.len() == order_idx.len(),
        spec_run_trial(
            team,
            start_day,
            triplets,
            depss,
            order_idx,
            velocity,
            samples,
            order_idx.len() as int,
        ) == Some(fins),
        spec_trial_total(team, start_day, triplets, depss, order_idx, velocity, samples) == Some(
            total,
        ),
    ensures
        fins.len() == triplets.len(),
        forall|k: int|
            0 <= k < order_idx.len() ==> fins[#[trigger] order_idx[k]] == ready_time(
                fins,
                depss[order_idx[k]],
            ) + samples[k],
        total == seq_max_int(fins),
        forall|idx: int| 0 <= idx < fins.len() ==> #[trigger] fins[idx] <= total,
{
    let n = order_idx.len() as int;
    lemma_run_trial_len(team, start_day, triplets, depss, order_idx, velocity, samples, n);
    assert forall|k: int| 0 <= k < n implies fins[#[trigger] order_idx[k]] == ready_time(
        fins,
        depss[order_idx[k]],
    ) + samples[k] by {
        lemma_prefix_finishes(
            team,
            start_day,
            triplets,
            depss,
            order_idx,
            velocity,
            samples,
            fins,
            k,
        );
        lemma_prefix_finishes(
            team,
            start_day,
            triplets,
            depss,
            order_idx,
            velocity,
            samples,
            fins,
            k + 1,
        );
        let g = spec_run_trial(team, start_day, triplets, depss, order_idx, velocity, samples, k)
            ->Some_0;
        let g1 = spec_run_trial(
            team,
            start_day,
            triplets,
            depss,
            order_idx,
            velocity,
            samples,
            k + 1,
        )->Some_0;
        let idx = order_idx[k];
        assert(g1 == g.update(idx, ready_time(g, depss[idx]) + samples[k]));
        assert(g1[idx] == fins[idx]);
        // the dependencies were visited earlier and already carry their
        // final values
        assert forall|j: int| 0 <= j < depss[idx].len() implies {
            let d = (#[trigger] depss[idx][j]) as int;
            0 <= d < g.len() ==> g[d] == fins[d]
        } by {
            let d = depss[idx][j] as int;
            let k2 = choose|k2: int| 0 <= k2 < k && order_idx[k2] == d;
            assert(g[order_idx[k2]] == fins[order_idx[k2]]);
        }
        lemma_ready_time_congruence(g, fins, depss[idx]);
    }
    assert forall|idx: int| 0 <= idx < fins.len() implies #[trigger] fins[idx] <= total by {
        lemma_seq_max_bound(fins, idx);
    }
}

/// Every entry is at most the sequence's largest value.
proof fn lemma_seq_max_bound(s: Seq<int>, idx: int)
    requires
        0 <= idx < s.len(),
    ensures
        s[idx] <= seq_max_int(s),
    decreases s.len(),
{
    if idx == s.len() - 1 {
    } else {
        lemma_seq_max_bound(s.drop_last(), idx);
    }
}

} // verus!
// No dependency path outlasts the total.

verus! {

/// A walk along declared dependencies, ending anywhere: each step goes from
/// a dependency to its dependent.
pub open spec fn is_dependency_path(depss: Seq<Seq<usize>>, path: Seq<int>) -> bool {
    &&& path.len() >= 1
    &&& forall|i: int| 0 <= i < path.len() ==> 0 <= #[trigger] path[i] < depss.len()
    &&& forall|i: int|
        0 <= i < path.len() - 1 ==> depss[path[i + 1]].contains((#[trigger] path[i]) as usize)
}

/// The summed durations along a path.
pub open spec fn path_duration_sum(durs: Seq<int>, path: Seq<int>) -> int
    decreases path.len(),
{
    if path.len() == 0 {
        0
    } else {
        path_duration_sum(durs, path.drop_last()) + durs[path.last()]
    }
}

/// Readiness never goes negative.
proof fn lemma_ready_time_nonneg(fins: Seq<int>, deps: Seq<usize>)
    ensures
        ready_time(fins, deps) >= 0,
    decreases deps.len(),
{
    if deps.len() > 0 {
        lemma_ready_time_nonneg(fins, deps.drop_last());
    }
}

/// Readiness is at least each dependency's finish.
proof fn lemma_ready_time_dominates(fins: Seq<int>, deps: Seq<usize>, d: usize)
    requires
        deps.contains(d),
        (d as int) < fins.len(),
    ensures
        ready_time(fins, deps) >= fins[d as int],
    decreases deps.len(),
{
    if deps.len() > 0 {
        if deps.last() == d {
            lemma_ready_time_nonneg(fins, deps.drop_last());
        } else {
            assert(deps.drop_last().contains(d)) by {
                let j = choose|j: int| 0 <= j < deps.len() && deps[j] == d;
                assert(deps.drop_last()[j] == d);
            }
            lemma_ready_time_dominates(fins, deps.drop_last(), d);
        }
    }
}

/// Along any dependency path the summed durations never exceed the last
/// item's finish, given the critical-path recurrence.
proof fn lemma_path_sum_bounded(
    depss: Seq<Seq<usize>>,
    fins: Seq<int>,
    durs: Seq<int>,
    path: Seq<int>,
)
    requires
        fins.len() == depss.len(),
        durs.len() == depss.len(),
        depss.len() <= usize::MAX,
        forall|idx: int|
            0 <= idx < fins.len() ==> #[trigger] fins[idx] == ready_time(fins, depss[idx])
                + durs[idx],
        is_dependency_path(depss, path),
    ensures
        path_duration_sum(durs, path) <= fins[path.last()],
    decreases path.len(),
{
    let v = path.last();
    assert(fins[v] == ready_time(fins, depss[v]) + durs[v]);
    if path.len() == 1 {
        assert(path.drop_last() =~= Seq::<int>::empty());
        assert(path_duration_sum(durs, Seq::<int>::empty()) == 0);
        lemma_ready_time_nonneg(fins, depss[v]);
    } else {
        let prefix = path.drop_last();
        assert(is_dependency_path(depss, prefix)) by {
            assert(forall|i: int| 0 <= i < prefix.len() ==> prefix[i] == path[i]);
        }
        lemma_path_sum_bounded(depss, fins, durs, prefix);
        assert(path_duration_sum(durs, path) == path_duration_sum(durs, prefix) + durs[v]);
        let u = prefix.last();
        assert(depss[v].contains(u as usize)) by {
            assert(path[path.len() - 2] == u);
            assert(depss[path[path.len() - 1]].contains((path[path.len() - 2]) as usize));
        }
        lemma_ready_time_dominates(fins, depss[v], u as usize);
    }
}

/// The law of the critical path, second half: under a well-formed schedule
/// of directly-estimated items, no dependency path's summed durations
/// exceed the finish of its last item, so the trial's total bounds the
/// longest path -- it is never the sum of all durations.
pub proof fn lemma_no_path_outlasts_total(
    team: TeamCalendar,
    start_day: int,
    triplets: Seq<(u32, u32, u32, bool)>,
    depss: Seq<Seq<usize>>,
    order_idx: Seq<int>,
    velocity: int,
    samples: Seq<u32>,
    fins: Seq<int>,
    total: int,
    durs: Seq<int>,
    path: Seq<int>,
)
    requires
        schedule_ok(triplets, depss, order_idx),
        forall|k: int| 0 <= k < triplets.len() ==> !(#[trigger] triplets[k]).3,
        samples.len() == order_idx.len(),
        spec_run_trial(
            team,
            start_day,
            triplets,
            depss,
            order_idx,
            velocity,
            samples,
            order_idx.len() as int,
        ) == Some(fins),
        spec_trial_total(team, start_day, triplets, depss, order_idx, velocity, samples) == Some(
            total,
        ),
        durs.len() == triplets.len(),
        depss.len() <= usize::MAX,
        forall|k: int|
            0 <= k < order_idx.len() ==> durs[#[trigger] order_idx[k]] == samples[k],
        is_dependency_path(depss, path),
    ensures
        path_duration_sum(durs, path) <= fins[path.last()],
        fins[path.last()] <= total,
{
    lemma_critical_path_recurrence(
        team,
        start_day,
        triplets,
        depss,
        order_idx,
        velocity,
        samples,
        fins,
        total,
    );
    assert forall|idx: int|
        0 <= idx < fins.len() implies #[trigger] fins[idx] == ready_time(fins, depss[idx])
        + durs[idx] by {
        assert(order_visits(order_idx, idx));
        let k = choose|k: int| 0 <= k < order_idx.len() && order_idx[k] == idx;
        assert(fins[order_idx[k]] == ready_time(fins, depss[order_idx[k]]) + samples[k]);
        assert(durs[idx] == samples[k]);
    }
    lemma_path_sum_bounded(depss, fins, durs, path);
}

} // verus!
// The law of the critical path, completed: some path attains the total.

verus! {

/// A non-empty sequence attains its maximum at some position.
proof fn lemma_seq_max_achieved(s: Seq<int>)
    requires
        s.len() > 0,
        forall|i: int| 0 <= i < s.len() ==> #[trigger] s[i] >= 0,
    ensures
        exists|i: int| 0 <= i < s.len() && #[trigger] s[i] == seq_max_int(s),
    decreases s.len(),
{
    if s.len() == 1 {
        assert(s.drop_last() =~= Seq::<int>::empty());
        assert(seq_max_int(Seq::<int>::empty()) == 0);
        assert(s[0] == seq_max_int(s));
    } else {
        lemma_seq_max_achieved(s.drop_last());
        if s.last() > seq_max_int(s.drop_last()) {
            assert(s[s.len() - 1] == seq_max_int(s));
        } else {
            let i = choose|i: int|
                0 <= i < s.drop_last().len() && s.drop_last()[i] == seq_max_int(s.drop_last());
            assert(s[i] == seq_max_int(s));
        }
    }
}

/// Readiness is zero or some dependency's finish.
proof fn lemma_ready_time_achieved(fins: Seq<int>, deps: Seq<usize>)
    ensures
        ready_time(fins, deps) == 0 || exists|j: int|
            0 <= j < deps.len() && ((#[trigger] deps[j]) as int) < fins.len() && #[trigger] fins[deps[j] as int] == ready_time(fins, deps),
    decreases deps.len(),
{
    if deps.len() > 0 {
        lemma_ready_time_achieved(fins, deps.drop_last());
        let rest = ready_time(fins, deps.drop_last());
        let d = deps.last() as int;
        let f: int = if 0 <= d < fins.len() {
            fins[d]
        } else {
            0
        };
        if f > rest {
            if 0 <= d < fins.len() {
                assert(deps[deps.len() - 1] == deps.last());
                assert(fins[deps[deps.len() - 1] as int] == ready_time(fins, deps));
            }
        } else {
            if rest != 0 {
                let j = choose|j: int|
                    0 <= j < deps.drop_last().len() && ((#[trigger] deps.drop_last()[j]) as int)
                        < fins.len() && fins[deps.drop_last()[j] as int] == rest;
                assert(deps[j] == deps.drop_last()[j]);
                assert(fins[deps[j] as int] == ready_time(fins, deps));
            }
        }
    }
}

/// The finish of every visited item is attained by some dependency path
/// ending there, given the critical-path recurrence.
proof fn lemma_finish_achieved(
    triplets: Seq<(u32, u32, u32, bool)>,
    depss: Seq<Seq<usize>>,
    order_idx: Seq<int>,
    durs: Seq<int>,
    fins: Seq<int>,
    k: int,
)
    requires
        schedule_ok(triplets, depss, order_idx),
        fins.len() == triplets.len(),
        durs.len() == triplets.len(),
        forall|k2: int|
            0 <= k2 < order_idx.len() ==> fins[#[trigger] order_idx[k2]] == ready_time(
                fins,
                depss[order_idx[k2]],
            ) + durs[order_idx[k2]],
        0 <= k < order_idx.len(),
    ensures
        exists|path: Seq<int>|
            #[trigger] is_dependency_path(depss, path) && path.last() == order_idx[k]
                && path_duration_sum(durs, path) == fins[order_idx[k]],
    decreases k,
{
    let v = order_idx[k];
    assert(fins[v] == ready_time(fins, depss[v]) + durs[v]);
    lemma_ready_time_achieved(fins, depss[v]);
    if ready_time(fins, depss[v]) == 0 {
        let path = seq![v];
        assert(path.drop_last() =~= Seq::<int>::empty());
        assert(path_duration_sum(durs, Seq::<int>::empty()) == 0);
        assert(is_dependency_path(depss, path));
        assert(path_duration_sum(durs, path) == fins[v]);
    } else {
        let j = choose|j: int|
            0 <= j < depss[v].len() && ((#[trigger] depss[v][j]) as int) < fins.len()
                && #[trigger] fins[depss[v][j] as int] == ready_time(fins, depss[v]);
        let u = depss[v][j] as int;
        // the dependency was visited at an earlier position
        let k2 = choose|k2: int| 0 <= k2 < k && order_idx[k2] == (depss[v][j]) as int;
        lemma_finish_achieved(triplets, depss, order_idx, durs, fins, k2);
        let prefix = choose|path: Seq<int>|
            #[trigger] is_dependency_path(depss, path) && path.last() == order_idx[k2]
                && path_duration_sum(durs, path) == fins[order_idx[k2]];
        let path = prefix.push(v);
        assert(path.drop_last() =~= prefix);
        assert(path.last() == v);
        assert(is_dependency_path(depss, path)) by {
            assert(forall|i: int| 0 <= i < prefix.len() ==> path[i] == prefix[i]);
            assert(path[path.len() - 2] == prefix.last() == u);
            assert(depss[v].contains(depss[v][j]));
        }
        assert(path_duration_sum(durs, path) == fins[u] + durs[v]);
    }
}

/// The law of the critical path, last half: the trial's total is attained
/// by some dependency path — together with `lemma_no_path_outlasts_total`,
/// the total equals the longest path's duration sum exactly.
pub proof fn lemma_total_achieved_by_path(
    team: TeamCalendar,
    start_day: int,
    triplets: Seq<(u32, u32, u32, bool)>,
    depss: Seq<Seq<usize>>,
    order_idx: Seq<int>,
    velocity: int,
    samples: Seq<u32>,
    fins: Seq<int>,
    total: int,
    durs: Seq<int>,
)
    requires
        schedule_ok(triplets, depss, order_idx),
        triplets.len() > 0,
        forall|k: int| 0 <= k < triplets.len() ==> !(#[trigger] triplets[k]).3,
        samples.len() == order_idx.len(),
        spec_run_trial(
            team,
            start_day,
            triplets,
            depss,
            order_idx,
            velocity,
            samples,
            order_idx.len() as int,
        ) == Some(fins),
        spec_trial_total(team, start_day, triplets, depss, order_idx, velocity, samples) == Some(
            total,
        ),
        durs.len() == triplets.len(),
        depss.len() <= usize::MAX,
        forall|k: int|
            0 <= k < order_idx.len() ==> durs[#[trigger] order_idx[k]] == samples[k],
    ensures
        exists|path: Seq<int>|
            #[trigger] is_dependency_path(depss, path) && path_duration_sum(durs, path) == total,
{
    lemma_critical_path_recurrence(
        team,
        start_day,
        triplets,
        depss,
        order_idx,
        velocity,
        samples,
        fins,
        total,
    );
    assert forall|k2: int|
        0 <= k2 < order_idx.len() implies fins[#[trigger] order_idx[k2]] == ready_time(
        fins,
        depss[order_idx[k2]],
    ) + durs[order_idx[k2]] by {
        assert(fins[order_idx[k2]] == ready_time(fins, depss[order_idx[k2]]) + samples[k2]);
        assert(durs[order_idx[k2]] == samples[k2]);
    }
    assert forall|idx: int| 0 <= idx < fins.len() implies #[trigger] fins[idx] >= 0 by {
        assert(order_visits(order_idx, idx));
        let k = choose|k: int| 0 <= k < order_idx.len() && order_idx[k] == idx;
        assert(fins[order_idx[k]] == ready_time(fins, depss[order_idx[k]]) + samples[k]);
        lemma_ready_time_nonneg(fins, depss[idx]);
    }
    lemma_seq_max_achieved(fins);
    let idx = choose|i: int| 0 <= i < fins.len() && fins[i] == seq_max_int(fins);
    assert(order_visits(order_idx, idx));
    let k = choose|k: int| 0 <= k < order_idx.len() && order_idx[k] == idx;
    lemma_finish_achieved(triplets, depss, order_idx, durs, fins, k);
    let path = choose|path: Seq<int>|
        #[trigger] is_dependency_path(depss, path) && path.last() == order_idx[k]
            && path_duration_sum(durs, path) == fins[order_idx[k]];
    assert(path_duration_sum(durs, path) == total);
}

} // verus!
