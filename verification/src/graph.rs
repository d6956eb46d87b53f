//! The publish scheduler: builds the directed graph of workspace-local
//! "depends-on" edges, orders it topologically (a cycle is a fatal input
//! error), and plans one publish or skip step per package, skipping a
//! package whose local version is not strictly ahead of the registry's.
//!
//! Nodes are positions in the publishable package list; the graph itself and
//! the topological sort come from an outside graph library, trusted at the
//! boundary below.

use vstd::prelude::*;

use crate::errors::Error;
use crate::package::{can_publish_spec, distinct_names, Package, PackageView};
use crate::version::{version_lt, version_lt_exec};
use crate::vmap::VersionMap;

verus! {

// ---------------------------------------------------------------------------
// Trusted boundary around the outside graph library
// ---------------------------------------------------------------------------

/// The edge-direction marker of the outside graph library.
#[verifier::external_type_specification]
#[verifier::external_body]
pub struct ExDirected(petgraph::Directed);

/// The directed graph type of the outside graph library, with node identity
/// `usize` and a unit edge weight.
#[verifier::external_type_specification]
#[verifier::external_body]
#[verifier::reject_recursive_types(N)]
#[verifier::reject_recursive_types(E)]
#[verifier::reject_recursive_types(Ty)]
#[verifier::reject_recursive_types(S)]
pub struct ExGraphMap<N, E, Ty, S: std::hash::BuildHasher>(
    petgraph::graphmap::GraphMap<N, E, Ty, S>,
);

/// The node set a graph value holds.
pub uninterp spec fn graph_nodes(
    g: petgraph::graphmap::DiGraphMap<usize, usize>,
) -> Set<int>;

/// The directed edge set a graph value holds.
pub uninterp spec fn graph_edges(
    g: petgraph::graphmap::DiGraphMap<usize, usize>,
) -> Set<(int, int)>;

/// Relies on GraphMap::new: a fresh graph has no nodes and no edges.
#[verifier::external_body]
fn graph_new() -> (g: petgraph::graphmap::DiGraphMap<usize, usize>)
    ensures
        graph_nodes(g) == Set::<int>::empty(),
        graph_edges(g) == Set::<(int, int)>::empty(),
{
    petgraph::graphmap::DiGraphMap::new()
}

/// Relies on GraphMap::add_node: inserts the node and touches nothing else.
#[verifier::external_body]
fn graph_add_node(g: &mut petgraph::graphmap::DiGraphMap<usize, usize>, n: usize)
    ensures
        graph_nodes(*final(g)) == graph_nodes(*old(g)).insert(n as int),
        graph_edges(*final(g)) == graph_edges(*old(g)),
{
    g.add_node(n);
}

/// Relies on GraphMap::add_edge: inserts the directed edge, adding missing
/// endpoints; parallel edges collapse, so the edge set gains one pair.
#[verifier::external_body]
fn graph_add_edge(g: &mut petgraph::graphmap::DiGraphMap<usize, usize>, a: usize, b: usize)
    ensures
        graph_nodes(*final(g)) == graph_nodes(*old(g)).insert(a as int).insert(b as int),
        graph_edges(*final(g)) == graph_edges(*old(g)).insert((a as int, b as int)),
{
    g.add_edge(a, b, 1);
}

/// Relies on petgraph's toposort: on an acyclic graph it returns every node
/// exactly once, each node ordered before its successors; on a cyclic graph
/// (self loops included) it reports a cycle.
#[verifier::external_body]
fn graph_toposort(g: &petgraph::graphmap::DiGraphMap<usize, usize>) -> (r: Result<
    Vec<usize>,
    Error,
>)
    ensures
        match r {
            Ok(order) => {
                &&& forall|i: int, j: int|
                    0 <= i < j < order@.len() ==> (#[trigger] order@[i]) != (#[trigger] order@[j])
                &&& forall|i: int|
                    0 <= i < order@.len() ==> graph_nodes(*g).contains((#[trigger] order@[i]) as int)
                &&& forall|n: int|
                    #[trigger] graph_nodes(*g).contains(n) ==> exists|i: int|
                        0 <= i < order@.len() && (#[trigger] order@[i]) as int == n
                &&& forall|i: int, j: int|
                    0 <= i < order@.len() && 0 <= j < order@.len() && graph_edges(*g).contains(
                        ((#[trigger] order@[i]) as int, (#[trigger] order@[j]) as int),
                    ) ==> i < j
            },
            Err(e) => e is CycleDetected && has_cycle(graph_edges(*g)),
        },
{
    match petgraph::algo::toposort(&*g, None) {
        Ok(order) => Ok(order),
        Err(_) => Err(Error::CycleDetected),
    }
}

// ---------------------------------------------------------------------------
// Cycles
// ---------------------------------------------------------------------------

/// Consecutive elements of `p` are all connected by edges.
pub open spec fn edge_path(edges: Set<(int, int)>, p: Seq<int>) -> bool {
    forall|i: int| 0 <= i < p.len() - 1 ==> edges.contains(((#[trigger] p[i]), p[i + 1]))
}

/// Some nonempty edge path closes back on its first node.
pub open spec fn has_cycle(edges: Set<(int, int)>) -> bool {
    exists|p: Seq<int>| p.len() >= 1 && edge_path(edges, p) && edges.contains(((#[trigger] p.last()), p[0]))
}

/// The position of node `n` in `order`.
spec fn pos_of(order: Seq<usize>, n: int) -> int {
    choose|i: int| 0 <= i < order.len() && (#[trigger] order[i]) as int == n
}

proof fn lemma_pos_valid(order: Seq<usize>, nodes: Set<int>, n: int)
    requires
        forall|m: int| #[trigger] nodes.contains(m) ==> exists|i: int|
            0 <= i < order.len() && (#[trigger] order[i]) as int == m,
        nodes.contains(n),
    ensures
        0 <= pos_of(order, n) < order.len(),
        order[pos_of(order, n)] as int == n,
{
}

proof fn lemma_cycle_pos_grows(
    edges: Set<(int, int)>,
    nodes: Set<int>,
    order: Seq<usize>,
    p: Seq<int>,
    k: int,
)
    requires
        forall|e: (int, int)| #[trigger] edges.contains(e) ==> nodes.contains(e.0) && nodes.contains(e.1),
        forall|m: int| #[trigger] nodes.contains(m) ==> exists|i: int|
            0 <= i < order.len() && (#[trigger] order[i]) as int == m,
        forall|i: int, j: int|
            0 <= i < order.len() && 0 <= j < order.len() && edges.contains(
                (((#[trigger] order[i]) as int), ((#[trigger] order[j]) as int)),
            ) ==> i < j,
        edge_path(edges, p),
        p.len() >= 1,
        edges.contains((p.last(), p[0])),
        0 <= k < p.len(),
    ensures
        pos_of(order, p[0]) + k <= pos_of(order, p[k]),
    decreases k,
{
    if k > 0 {
        lemma_cycle_pos_grows(edges, nodes, order, p, k - 1);
        assert(edges.contains((p[k - 1], p[k])));
        lemma_pos_valid(order, nodes, p[k - 1]);
        lemma_pos_valid(order, nodes, p[k]);
        let i = pos_of(order, p[k - 1]);
        let j = pos_of(order, p[k]);
        assert(edges.contains(((order[i] as int), (order[j] as int))));
        assert(i < j);
    }
}

/// A topological order refutes any cycle: positions rise strictly along a
/// cycle's edges and would have to come back down on the closing edge.
proof fn lemma_topo_order_acyclic(edges: Set<(int, int)>, nodes: Set<int>, order: Seq<usize>)
    requires
        forall|e: (int, int)| #[trigger] edges.contains(e) ==> nodes.contains(e.0) && nodes.contains(e.1),
        forall|m: int| #[trigger] nodes.contains(m) ==> exists|i: int|
            0 <= i < order.len() && (#[trigger] order[i]) as int == m,
        forall|i: int, j: int|
            0 <= i < order.len() && 0 <= j < order.len() && edges.contains(
                (((#[trigger] order[i]) as int), ((#[trigger] order[j]) as int)),
            ) ==> i < j,
    ensures
        !has_cycle(edges),
{
    if has_cycle(edges) {
        let p = choose|p: Seq<int>|
            p.len() >= 1 && edge_path(edges, p) && edges.contains(((#[trigger] p.last()), p[0]));
        lemma_cycle_pos_grows(edges, nodes, order, p, p.len() - 1);
        lemma_pos_valid(order, nodes, p.last());
        lemma_pos_valid(order, nodes, p[0]);
        let i = pos_of(order, p.last());
        let j = pos_of(order, p[0]);
        assert(edges.contains(((order[i] as int), (order[j] as int))));
        assert(i < j);
    }
}

/// A duplicate-free sequence that covers exactly the node positions
/// `0..n` has length `n`.
proof fn lemma_order_len(order: Seq<usize>, n: int)
    requires
        n >= 0,
        forall|i: int, j: int| 0 <= i < j < order.len() ==> (#[trigger] order[i]) != (#[trigger] order[j]),
        forall|i: int| 0 <= i < order.len() ==> ((#[trigger] order[i]) as int) < n,
        forall|m: int|
            #[trigger] vstd::set_lib::set_int_range(0, n).contains(m) ==> exists|i: int|
                0 <= i < order.len() && ((#[trigger] order[i]) as int) == m,
    ensures
        order.len() == n,
{
    broadcast use vstd::seq_lib::seq_to_set_is_finite;

    let ints = Seq::new(order.len(), |i: int| order[i] as int);
    assert(ints.no_duplicates());
    ints.unique_seq_to_set();
    let range = vstd::set_lib::set_int_range(0, n);
    vstd::set_lib::lemma_int_range(0, n);
    assert forall|m: int| ints.to_set().contains(m) implies range.contains(m) by {
        let i = choose|i: int| 0 <= i < ints.len() && ints[i] == m;
        assert(order[i] as int == m);
    }
    assert forall|m: int| range.contains(m) implies ints.to_set().contains(m) by {
        assert(vstd::set_lib::set_int_range(0, n).contains(m));
        let i = choose|i: int| 0 <= i < order.len() && ((#[trigger] order[i]) as int) == m;
        assert(ints[i] == m);
        assert(ints.contains(m));
    }
    assert(ints.to_set() =~= range);
}

// ---------------------------------------------------------------------------
// The dependency graph of a workspace
// ---------------------------------------------------------------------------

/// The edge from package `d` (depended on) to package `p` (dependant) that
/// the graph build adds: `p` declares a dependency whose name is `d`'s name.
/// For the target package only the first declared dependency is examined —
/// the build stops scanning the target's list early, an optimization that
/// limits the graph to what feeds the target, not a correctness requirement.
pub open spec fn dep_edge(pkgs: Seq<PackageView>, target: Seq<char>, d: int, p: int) -> bool {
    &&& 0 <= d < pkgs.len()
    &&& 0 <= p < pkgs.len()
    &&& exists|j: int|
        0 <= j < pkgs[p].deps.len() && (#[trigger] pkgs[p].deps[j]).name == pkgs[d].name && (
        pkgs[p].name == target ==> j == 0)
}

/// All edges of the dependency graph over `pkgs` for a publish run aimed at
/// `target`.
pub open spec fn dep_edges(pkgs: Seq<PackageView>, target: Seq<char>) -> Set<(int, int)> {
    Set::new(|e: (int, int)| dep_edge(pkgs, target, e.0, e.1))
}

/// Edges added so far while scanning dependant `p`: only witnesses below
/// `jmax` count.
spec fn dep_edge_upto(pkgs: Seq<PackageView>, d: int, p: int, jmax: int) -> bool {
    &&& 0 <= d < pkgs.len()
    &&& 0 <= p < pkgs.len()
    &&& exists|j: int| 0 <= j < jmax && (#[trigger] pkgs[p].deps[j]).name == pkgs[d].name
}

/// The edge set while the outer build loop stands before dependant `p`.
spec fn dep_edges_partial(pkgs: Seq<PackageView>, target: Seq<char>, p: int) -> Set<(int, int)> {
    Set::new(
        |e: (int, int)|
            {
                &&& dep_edge(pkgs, target, e.0, e.1)
                &&& e.1 < p
            },
    )
}

/// Finds the position of the package named `name`.
fn find_package_index(packages: &Vec<Package>, name: &String) -> (r: Option<usize>)
    ensures
        match r {
            Some(k) => k < packages@.len() && packages.deep_view()[k as int].name == name@,
            None => forall|k: int|
                0 <= k < packages@.len() ==> (#[trigger] packages.deep_view()[k]).name != name@,
        },
{
    let mut k: usize = 0;
    while k < packages.len()
        invariant
            k <= packages.len(),
            forall|j: int| 0 <= j < k ==> (#[trigger] packages.deep_view()[j]).name != name@,
        decreases packages.len() - k,
    {
        proof {
            assert(packages.deep_view()[k as int] == packages@[k as int]@);
        }
        if packages[k].name == *name {
            return Some(k);
        }
        k = k + 1;
    }
    None
}

/// Builds the dependency graph over the publishable packages: one node per
/// package, and for every dependency on another workspace package an edge
/// from the depended-on package to its dependant. Scanning the target's own
/// dependency list stops after its first entry.
pub fn dependency_graph(packages: &Vec<Package>, target: &String) -> (g: petgraph::graphmap::DiGraphMap<usize, usize>)
    requires
        distinct_names(packages.deep_view()),
    ensures
        graph_nodes(g) =~= Set::new(|n: int| 0 <= n < packages@.len()),
        graph_edges(g) =~= dep_edges(packages.deep_view(), target@),
{
    let ghost pkgs = packages.deep_view();
    let mut g = graph_new();
    let mut p: usize = 0;
    while p < packages.len()
        invariant
            p <= packages.len(),
            graph_nodes(g) =~= Set::new(|n: int| 0 <= n < p as int),
            graph_edges(g) =~= Set::<(int, int)>::empty(),
        decreases packages.len() - p,
    {
        graph_add_node(&mut g, p);
        proof {
            assert(graph_nodes(g) =~= Set::new(|n: int| 0 <= n < p as int + 1));
        }
        p = p + 1;
    }
    let ghost all_nodes = Set::new(|n: int| 0 <= n < packages@.len() as int);
    let mut p: usize = 0;
    while p < packages.len()
        invariant
            pkgs == packages.deep_view(),
            distinct_names(pkgs),
            p <= packages.len(),
            graph_nodes(g) =~= all_nodes,
            all_nodes == Set::new(|n: int| 0 <= n < packages@.len() as int),
            graph_edges(g) =~= dep_edges_partial(pkgs, target@, p as int),
        decreases packages.len() - p,
    {
        let deps_len = packages[p].dependencies.len();
        let is_target = packages[p].name == *target;
        proof {
            assert(pkgs[p as int] == packages@[p as int]@);
        }
        // The target's dependency list is scanned only up to its first entry.
        let scan_len = if is_target {
            if deps_len > 0 {
                1
            } else {
                0
            }
        } else {
            deps_len
        };
        let mut j: usize = 0;
        while j < scan_len
            invariant
                pkgs == packages.deep_view(),
                distinct_names(pkgs),
                p < packages.len(),
                deps_len == pkgs[p as int].deps.len(),
                is_target == (pkgs[p as int].name == target@),
                scan_len == if is_target { if deps_len > 0 { 1int } else { 0int } } else { deps_len as int },
                j <= scan_len,
                graph_nodes(g) =~= all_nodes,
                all_nodes == Set::new(|n: int| 0 <= n < packages@.len() as int),
                graph_edges(g) =~= dep_edges_partial(pkgs, target@, p as int).union(
                    Set::new(
                        |e: (int, int)| e.1 == p as int && dep_edge_upto(pkgs, e.0, p as int, j as int),
                    ),
                ),
            decreases scan_len - j,
        {
            proof {
                assert(pkgs[p as int].deps[j as int] == packages@[p as int]@.deps[j as int]);
            }
            let dep_name = &packages[p].dependencies[j].name;
            match find_package_index(packages, dep_name) {
                Some(d) => {
                    graph_add_edge(&mut g, d, p);
                    proof {
                        assert(pkgs[p as int].deps[j as int].name == pkgs[d as int].name);
                        assert(pkgs[p as int].name == target@ ==> j as int == 0);
                        assert(dep_edge_upto(pkgs, d as int, p as int, j as int + 1));
                        assert(dep_edge(pkgs, target@, d as int, p as int));
                        assert(graph_edges(g) =~= dep_edges_partial(pkgs, target@, p as int).union(
                            Set::new(
                                |e: (int, int)| e.1 == p as int && dep_edge_upto(
                                    pkgs,
                                    e.0,
                                    p as int,
                                    j as int + 1,
                                ),
                            ),
                        ));
                        assert(graph_nodes(g) =~= all_nodes);
                    }
                },
                None => {
                    proof {
                        assert forall|e: (int, int)|
                            e.1 == p as int && dep_edge_upto(pkgs, e.0, p as int, j as int + 1)
                                implies e.1 == p as int && dep_edge_upto(
                                pkgs,
                                e.0,
                                p as int,
                                j as int,
                            ) by {
                            let jj = choose|jj: int|
                                0 <= jj < j as int + 1 && (#[trigger] pkgs[p as int].deps[jj]).name
                                    == pkgs[e.0].name;
                            if jj == j as int {
                                assert(pkgs[e.0].name != pkgs[p as int].deps[j as int].name);
                            }
                        }
                        assert(graph_edges(g) =~= dep_edges_partial(pkgs, target@, p as int).union(
                            Set::new(
                                |e: (int, int)| e.1 == p as int && dep_edge_upto(
                                    pkgs,
                                    e.0,
                                    p as int,
                                    j as int + 1,
                                ),
                            ),
                        ));
                    }
                },
            }
            j = j + 1;
        }
        proof {
            // After the scan (complete, or cut short at the target), the
            // partial edge set advances by exactly this dependant's edges.
            assert forall|e: (int, int)|
                dep_edges_partial(pkgs, target@, p as int + 1).contains(e) implies graph_edges(
                g,
            ).contains(e) by {
                if e.1 == p as int {
                    let jj = choose|jj: int|
                        0 <= jj < pkgs[p as int].deps.len() && (
                        #[trigger] pkgs[p as int].deps[jj]).name == pkgs[e.0].name && (
                        pkgs[p as int].name == target@ ==> jj == 0);
                    if pkgs[p as int].name == target@ {
                        assert(jj == 0 && scan_len == 1);
                    }
                    assert(jj < j as int);
                    assert(dep_edge_upto(pkgs, e.0, p as int, j as int));
                }
            }
            assert forall|e: (int, int)| graph_edges(g).contains(e) implies dep_edges_partial(
                pkgs,
                target@,
                p as int + 1,
            ).contains(e) by {
                if e.1 == p as int {
                    let jj = choose|jj: int|
                        0 <= jj < j as int && (#[trigger] pkgs[p as int].deps[jj]).name
                            == pkgs[e.0].name;
                    if pkgs[p as int].name == target@ {
                        assert(jj == 0);
                    }
                    assert(dep_edge(pkgs, target@, e.0, e.1));
                }
            }
            assert(graph_edges(g) =~= dep_edges_partial(pkgs, target@, p as int + 1));
        }
        p = p + 1;
    }
    proof {
        assert(graph_edges(g) =~= dep_edges(pkgs, target@));
    }
    g
}

// ---------------------------------------------------------------------------
// The publish plan
// ---------------------------------------------------------------------------

/// Whether a scheduled package is published or skipped.
#[derive(Debug, PartialEq, Eq, Clone, Copy, Structural)]
pub enum PublishAction {
    /// The local version is ahead of the registry: publish.
    Publish,
    /// The local version is not ahead: skip (idempotent re-run safety).
    Skip,
}

/// One step of a publish run, in dependency order.
pub struct PublishStep {
    pub name: String,
    pub manifest_path: String,
    pub action: PublishAction,
}

/// The mathematical value of a [`PublishStep`].
#[verifier::ext_equal]
pub struct PublishStepView {
    pub name: Seq<char>,
    pub manifest_path: Seq<char>,
    pub action: PublishAction,
}

impl View for PublishStep {
    type V = PublishStepView;

    open spec fn view(&self) -> PublishStepView {
        PublishStepView {
            name: self.name@,
            manifest_path: self.manifest_path@,
            action: self.action,
        }
    }
}

/// The fail-fast guard of a publish run holds: unless only dependencies may
/// be published, a target that names a workspace package must be strictly
/// ahead of its published version.
pub open spec fn target_guard_ok(
    pkgs: Seq<PackageView>,
    published: Map<Seq<char>, crate::version::VersionView>,
    target: Seq<char>,
    allow_only_deps: bool,
) -> bool {
    !allow_only_deps ==> forall|p: int|
        0 <= p < pkgs.len() && (#[trigger] pkgs[p]).name == target ==> {
            &&& published.dom().contains(target)
            &&& version_lt(published[target], pkgs[p].version)
        }
}

/// The step `s` is the right one for package `p`: same name and manifest,
/// published iff the local version is strictly ahead of the published one.
pub open spec fn step_matches(
    pkgs: Seq<PackageView>,
    published: Map<Seq<char>, crate::version::VersionView>,
    s: PublishStepView,
    p: int,
) -> bool {
    &&& s.name == pkgs[p].name
    &&& s.manifest_path == pkgs[p].manifest_path
    &&& published.dom().contains(pkgs[p].name)
    &&& s.action == if version_lt(published[pkgs[p].name], pkgs[p].version) {
        PublishAction::Publish
    } else {
        PublishAction::Skip
    }
}

/// Plans a publish run over the publishable workspace packages: unless
/// `allow_only_deps` is set, the target (when it is a workspace package) must
/// be strictly ahead of its published version; the dependency graph must be
/// acyclic; and the plan then lists every package once, dependencies before
/// dependants, published when strictly ahead of the registry and skipped
/// otherwise.
#[verifier::rlimit(60)]
pub fn plan_publish(
    packages: &Vec<Package>,
    published: &VersionMap,
    target: &String,
    allow_only_deps: bool,
) -> (r: Result<Vec<PublishStep>, Error>)
    requires
        distinct_names(packages.deep_view()),
        forall|i: int|
            0 <= i < packages.deep_view().len() ==> can_publish_spec(
                #[trigger] packages.deep_view()[i],
            ),
        published.wf(),
    ensures
        ({
            let pkgs = packages.deep_view();
            match r {
                Ok(steps) => {
                    &&& !has_cycle(dep_edges(pkgs, target@))
                    &&& steps@.len() == pkgs.len()
                    &&& forall|i: int|
                        0 <= i < steps@.len() ==> exists|p: int|
                            0 <= p < pkgs.len() && (#[trigger] steps@[i])@.name == (
                            #[trigger] pkgs[p]).name
                    &&& forall|i: int, p: int|
                        0 <= i < steps@.len() && 0 <= p < pkgs.len() && (#[trigger] steps@[i])@.name
                            == (#[trigger] pkgs[p]).name ==> step_matches(
                            pkgs,
                            published.map_view(),
                            steps@[i]@,
                            p,
                        )
                    &&& forall|p: int|
                        0 <= p < pkgs.len() ==> exists|i: int|
                            0 <= i < steps@.len() && (#[trigger] steps@[i])@.name == (
                            #[trigger] pkgs[p]).name
                    &&& forall|d: int, pp: int, i: int, j: int|
                        #![trigger dep_edge(pkgs, target@, d, pp), steps@[i], steps@[j]]
                        dep_edge(pkgs, target@, d, pp) && 0 <= i < steps@.len() && 0 <= j
                            < steps@.len() && steps@[i]@.name == pkgs[d].name && steps@[j]@.name
                            == pkgs[pp].name ==> i < j
                    &&& target_guard_ok(pkgs, published.map_view(), target@, allow_only_deps)
                },
                Err(Error::AlreadyPublished(n)) => {
                    &&& n@ == target@
                    &&& !allow_only_deps
                    &&& exists|p: int|
                        0 <= p < pkgs.len() && (#[trigger] pkgs[p]).name == target@
                            && published.map_view().dom().contains(target@) && !version_lt(
                            published.map_view()[target@],
                            pkgs[p].version,
                        )
                },
                Err(Error::CycleDetected) => {
                    &&& has_cycle(dep_edges(pkgs, target@))
                    &&& target_guard_ok(pkgs, published.map_view(), target@, allow_only_deps)
                },
                Err(Error::RegistryLookupFailed(n)) => {
                    &&& exists|p: int| 0 <= p < pkgs.len() && (#[trigger] pkgs[p]).name == n@
                    &&& !published.map_view().dom().contains(n@)
                    &&& ((n@ == target@ && !allow_only_deps) || (target_guard_ok(
                        pkgs,
                        published.map_view(),
                        target@,
                        allow_only_deps,
                    ) && !has_cycle(dep_edges(pkgs, target@))))
                },
                Err(_) => false,
            }
        }),
{
    let ghost pkgs = packages.deep_view();

    // Fail fast unless the target is ahead of its published version.
    if !allow_only_deps {
        match find_package_index(packages, target) {
            Some(t) => {
                match published.get(target) {
                    None => {
                        return Err(Error::RegistryLookupFailed(target.clone()));
                    },
                    Some(pv) => {
                        if !version_lt_exec(pv, &packages[t].version) {
                            proof {
                                assert(pkgs[t as int] == packages@[t as int]@);
                            }
                            return Err(Error::AlreadyPublished(target.clone()));
                        }
                    },
                }
            },
            None => {},
        }
    }
    proof {
        if !allow_only_deps {
            assert forall|p: int|
                0 <= p < pkgs.len() && (#[trigger] pkgs[p]).name == target@ implies {
                &&& published.map_view().dom().contains(target@)
                &&& version_lt(published.map_view()[target@], pkgs[p].version)
            } by {
                assert(pkgs[p] == packages@[p]@);
            }
        }
        assert(target_guard_ok(pkgs, published.map_view(), target@, allow_only_deps));
    }

    let g = dependency_graph(packages, target);
    let order = match graph_toposort(&g) {
        Ok(o) => o,
        Err(e) => {
            return Err(e);
        },
    };
    proof {
        assert forall|e: (int, int)| #[trigger] dep_edges(pkgs, target@).contains(e) implies
            graph_nodes(g).contains(e.0) && graph_nodes(g).contains(e.1) by {}
        lemma_topo_order_acyclic(graph_edges(g), graph_nodes(g), order@);
        assert forall|m: int|
            #[trigger] vstd::set_lib::set_int_range(0, pkgs.len() as int).contains(m) implies exists|i: int|
            0 <= i < order@.len() && ((#[trigger] order@[i]) as int) == m by {
            assert(graph_nodes(g).contains(m));
        }
        lemma_order_len(order@, pkgs.len() as int);
    }

    let mut steps: Vec<PublishStep> = Vec::new();
    let mut i: usize = 0;
    while i < order.len()
        invariant
            pkgs == packages.deep_view(),
            published.wf(),
            distinct_names(pkgs),
            target_guard_ok(pkgs, published.map_view(), target@, allow_only_deps),
            !has_cycle(dep_edges(pkgs, target@)),
            i <= order@.len(),
            forall|a: int|
                0 <= a < order@.len() ==> ((#[trigger] order@[a]) as int) < pkgs.len(),
            steps@.len() == i,
            forall|k: int|
                0 <= k < i ==> step_matches(
                    pkgs,
                    published.map_view(),
                    (#[trigger] steps@[k])@,
                    order@[k] as int,
                ),
        decreases order@.len() - i,
    {
        let idx = order[i];
        proof {
            assert(pkgs[idx as int] == packages@[idx as int]@);
        }
        let pkg = &packages[idx];
        match published.get(&pkg.name) {
            None => {
                proof {
                    assert(pkgs[idx as int].name == pkg.name@);
                }
                return Err(Error::RegistryLookupFailed(pkg.name.clone()));
            },
            Some(pv) => {
                let action = if version_lt_exec(pv, &pkg.version) {
                    PublishAction::Publish
                } else {
                    PublishAction::Skip
                };
                steps.push(
                    PublishStep {
                        name: pkg.name.clone(),
                        manifest_path: pkg.manifest_path.clone(),
                        action,
                    },
                );
            },
        }
        i = i + 1;
    }

    proof {
        assert forall|p: int| 0 <= p < pkgs.len() implies exists|k: int|
            0 <= k < steps@.len() && (#[trigger] steps@[k])@.name == (#[trigger] pkgs[p]).name by {
            assert(graph_nodes(g).contains(p));
            let k = choose|k: int| 0 <= k < order@.len() && (#[trigger] order@[k]) as int == p;
            assert(steps@[k]@.name == pkgs[p].name);
        }
        assert forall|d: int, pp: int, k: int, j: int|
            #![trigger dep_edge(pkgs, target@, d, pp), steps@[k], steps@[j]]
            dep_edge(pkgs, target@, d, pp) && 0 <= k < steps@.len() && 0 <= j < steps@.len()
                && steps@[k]@.name == pkgs[d].name && steps@[j]@.name == pkgs[pp].name implies k
            < j by {
            assert(steps@[k]@.name == pkgs[order@[k] as int].name);
            assert(steps@[j]@.name == pkgs[order@[j] as int].name);
            // Names are unique, so the steps stand exactly at the packages'
            // positions in the topological order.
            if order@[k] as int != d {
                assert(pkgs[order@[k] as int].name != pkgs[d].name);
            }
            if order@[j] as int != pp {
                assert(pkgs[order@[j] as int].name != pkgs[pp].name);
            }
            assert(graph_edges(g).contains((order@[k] as int, order@[j] as int)));
        }
        assert forall|k: int| 0 <= k < steps@.len() implies exists|p: int|
            0 <= p < pkgs.len() && (#[trigger] steps@[k])@.name == (#[trigger] pkgs[p]).name by {
            assert(steps@[k]@.name == pkgs[order@[k] as int].name);
        }
        assert forall|k: int, p: int|
            0 <= k < steps@.len() && 0 <= p < pkgs.len() && (#[trigger] steps@[k])@.name == (
            #[trigger] pkgs[p]).name implies step_matches(
            pkgs,
            published.map_view(),
            steps@[k]@,
            p,
        ) by {
            if order@[k] as int != p {
                assert(pkgs[order@[k] as int].name != pkgs[p].name);
            }
        }
    }
    Ok(steps)
}

} // verus!
