//! `workspace-graph` — crate dependency-graph health.
//!
//! Builds a directed graph over workspace members (edges = intra-workspace
//! dependencies) and reports:
//! - **circular dependencies** (strongly connected components of more than
//!   one crate) — Error
//! - **isolated crates** (no inbound or outbound workspace edges, in a
//!   workspace of two crates or more) — Info
use vstd::prelude::*;
use crate::graph::{
    comps_view, degree, graph_add_edge, graph_add_node, graph_edges, graph_neighbor_count,
    graph_new, graph_node_count, graph_nodes, graph_tarjan_scc, in_some_component,
    is_scc_decomposition, mutually_reachable, tarjan_components, EdgeDirection,
};
use crate::model::{
    lemma_views_append, lemma_views_push, views, CrateData, Context, Finding, FindingView,
    Inspection, Location, LocationView, Metric, Severity,
};
use crate::strings::{join, lex_order, push_joined, sort_strings, str_eq, strs};

verus! {

pub struct WorkspaceGraph;

impl WorkspaceGraph {
    pub const NAME: &'static str = "workspace-graph";
}

/// The names of the crates, in order.
pub open spec fn crate_names(crates: Seq<CrateData>) -> Seq<Seq<char>> {
    crates.map_values(|c: CrateData| c.name@)
}

/// The index of the last name equal to `x`, if any (a later crate of the
/// same name shadows an earlier one).
pub open spec fn last_index_of(names: Seq<Seq<char>>, x: Seq<char>) -> Option<int>
    decreases names.len(),
{
    if names.len() == 0 {
        None
    } else if names.last() == x {
        Some(names.len() - 1)
    } else {
        last_index_of(names.drop_last(), x)
    }
}

/// The graph node of the crate named `x`.
pub open spec fn node_of(names: Seq<Seq<char>>, x: Seq<char>) -> int {
    match last_index_of(names, x) {
        Some(i) => i,
        None => 0,
    }
}

/// The edges that `deps` give the node `from`, in order: one per
/// dependency that names a workspace crate.
pub open spec fn dep_edges_of(names: Seq<Seq<char>>, from: int, deps: Seq<Seq<char>>) -> Seq<
    (int, int),
>
    decreases deps.len(),
{
    if deps.len() == 0 {
        seq![]
    } else {
        dep_edges_of(names, from, deps.drop_last()) + match last_index_of(names, deps.last()) {
            Some(t) => seq![(from, t)],
            None => seq![],
        }
    }
}

/// The edges of the first `k` crates, in order.
pub open spec fn dep_edges_upto(crates: Seq<CrateData>, k: int) -> Seq<(int, int)>
    decreases k,
{
    if k <= 0 {
        seq![]
    } else {
        let names = crate_names(crates);
        dep_edges_upto(crates, k - 1) + dep_edges_of(
            names,
            node_of(names, crates[k - 1].name@),
            crates[k - 1].workspace_deps.deep_view(),
        )
    }
}

/// The dependency edges of the workspace, in the order they are added.
pub open spec fn dep_edges(crates: Seq<CrateData>) -> Seq<(int, int)> {
    dep_edges_upto(crates, crates.len() as int)
}

/// The names of a component's members.
pub open spec fn member_names(names: Seq<Seq<char>>, comp: Seq<int>) -> Seq<Seq<char>> {
    comp.map_values(|j: int| names[j])
}

/// The location that names nothing.
pub open spec fn no_location() -> LocationView {
    LocationView { krate: None, file: None, span: None }
}

/// The location naming one crate.
pub open spec fn crate_location(krate: Seq<char>) -> LocationView {
    LocationView { krate: Some(krate), file: None, span: None }
}

/// A plain count as a metric.
pub open spec fn count_metric(n: nat) -> Metric {
    Metric { numerator: n as u64, denominator: 1, scale: 1 }
}

/// The finding for a dependency cycle through the members of `comp`, listed
/// in sorted order.
pub open spec fn circular_finding(names: Seq<Seq<char>>, comp: Seq<int>) -> FindingView {
    FindingView {
        inspection: "workspace-graph"@,
        severity: Severity::Error,
        location: no_location(),
        message: "circular dependency between crates: "@ + join(
            member_names(names, comp).sort_by(lex_order()),
            " ⇄ "@,
        ),
        metric: Some(count_metric(comp.len())),
    }
}

/// One cycle finding per component of more than one crate, in component
/// order.
pub open spec fn circular_spec(names: Seq<Seq<char>>, comps: Seq<Seq<int>>) -> Seq<FindingView>
    decreases comps.len(),
{
    if comps.len() == 0 {
        seq![]
    } else {
        circular_spec(names, comps.drop_last()) + if comps.last().len() > 1 {
            seq![circular_finding(names, comps.last())]
        } else {
            seq![]
        }
    }
}

/// The finding for an isolated crate.
pub open spec fn isolated_finding(name: Seq<char>) -> FindingView {
    FindingView {
        inspection: "workspace-graph"@,
        severity: Severity::Info,
        location: crate_location(name),
        message: "crate `"@ + name + "` has no intra-workspace dependencies (isolated)"@,
        metric: None,
    }
}

/// Whether node `i` has no edge in or out.
pub open spec fn is_isolated(edges: Seq<(int, int)>, i: int) -> bool {
    degree(edges, i, EdgeDirection::Outgoing) == 0 && degree(edges, i, EdgeDirection::Incoming)
        == 0
}

/// Isolation findings for the first `k` nodes.
pub open spec fn isolated_upto(names: Seq<Seq<char>>, edges: Seq<(int, int)>, k: int) -> Seq<
    FindingView,
>
    decreases k,
{
    if k <= 0 {
        seq![]
    } else {
        isolated_upto(names, edges, k - 1) + if is_isolated(edges, k - 1) {
            seq![isolated_finding(names[k - 1])]
        } else {
            seq![]
        }
    }
}

/// Isolation findings, only for workspaces of two crates or more.
pub open spec fn isolated_spec(names: Seq<Seq<char>>, edges: Seq<(int, int)>) -> Seq<FindingView> {
    if names.len() < 2 {
        seq![]
    } else {
        isolated_upto(names, edges, names.len() as int)
    }
}

/// What `workspace-graph` reports for a workspace.
pub open spec fn workspace_graph_spec(crates: Seq<CrateData>) -> Seq<FindingView> {
    let names = crate_names(crates);
    let edges = dep_edges(crates);
    circular_spec(names, tarjan_components(names.len(), edges)) + isolated_spec(names, edges)
}

/// Two distinct nodes below `n` reach each other.
pub open spec fn has_cycle(n: nat, edges: Seq<(int, int)>) -> bool {
    exists|u: int, v: int|
        0 <= u < n && 0 <= v < n && u != v && #[trigger] mutually_reachable(edges, u, v)
}

/// Some finding is an error.
pub open spec fn has_error(fs: Seq<FindingView>) -> bool {
    exists|k: int| 0 <= k < fs.len() && (#[trigger] fs[k]).severity == Severity::Error
}

proof fn lemma_circular_spec_shape(names: Seq<Seq<char>>, comps: Seq<Seq<int>>)
    ensures
        forall|k: int|
            0 <= k < circular_spec(names, comps).len() ==> (#[trigger] circular_spec(
                names,
                comps,
            )[k]).severity == Severity::Error,
        circular_spec(names, comps).len() > 0 <==> exists|c: int|
            0 <= c < comps.len() && (#[trigger] comps[c]).len() > 1,
    decreases comps.len(),
{
    if comps.len() > 0 {
        let d = comps.drop_last();
        lemma_circular_spec_shape(names, d);
        if circular_spec(names, d).len() > 0 {
            let c = choose|c: int| 0 <= c < d.len() && (#[trigger] d[c]).len() > 1;
            assert(comps[c] == d[c]);
        }
        if exists|c: int| 0 <= c < comps.len() && (#[trigger] comps[c]).len() > 1 {
            let c = choose|c: int| 0 <= c < comps.len() && (#[trigger] comps[c]).len() > 1;
            if c < comps.len() - 1 {
                assert(d[c] == comps[c]);
            }
        }
    }
}

proof fn lemma_isolated_spec_info(names: Seq<Seq<char>>, edges: Seq<(int, int)>, k: int)
    ensures
        forall|i: int|
            0 <= i < isolated_upto(names, edges, k).len() ==> (#[trigger] isolated_upto(
                names,
                edges,
                k,
            )[i]).severity == Severity::Info,
    decreases k,
{
    if k > 0 {
        lemma_isolated_spec_info(names, edges, k - 1);
    }
}

/// Law: for any decomposition of the dependency graph into its strongly
/// connected components, a dependency cycle is reported exactly when two
/// distinct crates depend on each other, directly or transitively.
pub proof fn lemma_cycle_reported_iff_mutual_dependency(
    names: Seq<Seq<char>>,
    edges: Seq<(int, int)>,
    comps: Seq<Seq<int>>,
)
    requires
        is_scc_decomposition(names.len(), edges, comps),
    ensures
        circular_spec(names, comps).len() > 0 <==> has_cycle(names.len(), edges),
{
    lemma_circular_spec_shape(names, comps);
    let n = names.len();
    if circular_spec(names, comps).len() > 0 {
        let c = choose|c: int| 0 <= c < comps.len() && (#[trigger] comps[c]).len() > 1;
        let u = comps[c][0];
        let v = comps[c][1];
        assert(u != v);
        assert(mutually_reachable(edges, u, v));
        assert(has_cycle(n, edges));
    }
    if has_cycle(n, edges) {
        let (u, v) = choose|u: int, v: int|
            0 <= u < n && 0 <= v < n && u != v && #[trigger] mutually_reachable(edges, u, v);
        assert(in_some_component(comps, u));
        assert(in_some_component(comps, v));
        let (c1, j1) = choose|c: int, j: int|
            0 <= c < comps.len() && 0 <= j < comps[c].len() && #[trigger] comps[c][j] == u;
        let (c2, j2) = choose|c: int, j: int|
            0 <= c < comps.len() && 0 <= j < comps[c].len() && #[trigger] comps[c][j] == v;
        assert(mutually_reachable(edges, comps[c1][j1], comps[c2][j2]));
        assert(c1 == c2);
        assert(j1 != j2);
        assert(comps[c1].len() > 1);
    }
}

/// Law: `workspace-graph` reports an error exactly when two distinct crates
/// depend on each other, for any decomposition of the graph into strongly
/// connected components standing in for the one the algorithm gives.
pub proof fn lemma_graph_error_iff_cycle(
    names: Seq<Seq<char>>,
    edges: Seq<(int, int)>,
    comps: Seq<Seq<int>>,
)
    requires
        is_scc_decomposition(names.len(), edges, comps),
    ensures
        has_error(circular_spec(names, comps) + isolated_spec(names, edges)) <==> has_cycle(
            names.len(),
            edges,
        ),
{
    lemma_cycle_reported_iff_mutual_dependency(names, edges, comps);
    lemma_circular_spec_shape(names, comps);
    lemma_isolated_spec_info(names, edges, names.len() as int);
    let a = circular_spec(names, comps);
    let b = isolated_spec(names, edges);
    let all = a + b;
    if has_error(all) {
        let k = choose|k: int| 0 <= k < all.len() && (#[trigger] all[k]).severity == Severity::Error;
        if k >= a.len() {
            assert(all[k] == b[k - a.len()]);
        }
    }
    if a.len() > 0 {
        assert(all[0] == a[0]);
    }
}

/// Law: a workspace of a single crate gets no `workspace-graph` finding at
/// all: it has no cycle, and isolation is not reported for it.
pub proof fn lemma_single_crate_is_silent(
    names: Seq<Seq<char>>,
    edges: Seq<(int, int)>,
    comps: Seq<Seq<int>>,
)
    requires
        names.len() == 1,
        is_scc_decomposition(names.len(), edges, comps),
    ensures
        circular_spec(names, comps) + isolated_spec(names, edges) == Seq::<FindingView>::empty(),
{
    lemma_cycle_reported_iff_mutual_dependency(names, edges, comps);
    assert(circular_spec(names, comps).len() == 0);
    assert(circular_spec(names, comps) + isolated_spec(names, edges) =~= Seq::<FindingView>::empty());
}

/// The index of the last name in `names` equal to `x`.
fn find_last(names: &Vec<String>, x: &str) -> (r: Option<usize>)
    ensures
        match last_index_of(strs(names@), x@) {
            Some(i) => r == Some(i as usize),
            None => r is None,
        },
{
    let mut k = names.len();
    assert(strs(names@).take(k as int) =~= strs(names@));
    while k > 0
        invariant
            k <= names.len(),
            last_index_of(strs(names@), x@) == last_index_of(strs(names@).take(k as int), x@),
        decreases k,
    {
        let ghost t = strs(names@).take(k as int);
        assert(t.drop_last() =~= strs(names@).take(k - 1));
        if str_eq(names[k - 1].as_str(), x) {
            return Some(k - 1);
        }
        k = k - 1;
    }
    proof {
        assert(strs(names@).take(0) =~= Seq::<Seq<char>>::empty());
    }
    None
}

/// One cycle finding per component of more than one crate (see
/// [`circular_spec`]); `comps` are components of the graph over `names`.
pub fn circular_findings(names: &Vec<String>, comps: &Vec<Vec<usize>>) -> (r: Vec<Finding>)
    requires
        forall|c: int, j: int|
            0 <= c < comps@.len() && 0 <= j < comps@[c]@.len() ==> #[trigger] comps@[c]@[j]
                < names@.len(),
    ensures
        views(r@) == circular_spec(strs(names@), comps_view(comps@)),
{
    let mut out: Vec<Finding> = Vec::new();
    let ghost nm = strs(names@);
    let ghost cv = comps_view(comps@);
    for c in 0..comps.len()
        invariant
            nm == strs(names@),
            cv == comps_view(comps@),
            forall|c: int, j: int|
                0 <= c < comps@.len() && 0 <= j < comps@[c]@.len() ==> #[trigger] comps@[c]@[j]
                    < names@.len(),
            views(out@) == circular_spec(nm, cv.take(c as int)),
    {
        let comp = &comps[c];
        proof {
            assert(cv.take(c + 1).drop_last() =~= cv.take(c as int));
            assert(cv.take(c + 1).last() == cv[c as int]);
        }
        if comp.len() > 1 {
            let mut members: Vec<String> = Vec::new();
            for j in 0..comp.len()
                invariant
                    comp == &comps@[c as int],
                    nm == strs(names@),
                    cv == comps_view(comps@),
                    forall|c: int, j: int|
                        0 <= c < comps@.len() && 0 <= j < comps@[c]@.len()
                            ==> #[trigger] comps@[c]@[j] < names@.len(),
                    0 <= c < comps@.len(),
                    strs(members@) == member_names(nm, cv[c as int].take(j as int)),
            {
                assert(comps@[c as int]@[j as int] < names@.len());
                let member = names[comp[j]].clone();
                proof {
                    assert(cv[c as int][j as int] == comp@[j as int] as int);
                    assert(member@ == nm[cv[c as int][j as int]]);
                }
                let ghost before = strs(members@);
                let ghost mv = member@;
                members.push(member);
                proof {
                    assert(strs(members@) =~= before.push(mv));
                    let t = cv[c as int];
                    assert(t.take(j + 1) =~= t.take(j as int).push(t[j as int]));
                    assert(member_names(nm, t.take(j + 1)) =~= member_names(nm, t.take(j as int)).push(
                        nm[t[j as int]],
                    ));
                    assert(strs(members@) =~= member_names(nm, cv[c as int].take(j + 1)));
                }
            }
            proof {
                assert(cv[c as int].take(comp@.len() as int) =~= cv[c as int]);
            }
            let sorted = sort_strings(&members);
            let mut message = String::new();
            message.append("circular dependency between crates: ");
            push_joined(&mut message, &sorted, " ⇄ ");
            let f = Finding {
                inspection: WorkspaceGraph::NAME,
                severity: Severity::Error,
                location: Location::none(),
                message,
                metric: Some(Metric::count(comp.len() as u64)),
            };
            proof {
                lemma_views_push(out@, f);
                assert(f@ == circular_finding(nm, cv[c as int]));
            }
            out.push(f);
        }
    }
    proof {
        assert(cv.take(comps@.len() as int) =~= cv);
    }
    out
}

/// Isolation findings over the graph whose node weights are `names`.
pub fn isolated_findings(graph: &petgraph::graph::Graph<String, (), petgraph::Directed, u32>, names: &Vec<String>) -> (r: Vec<Finding>)
    requires
        graph_nodes(*graph) == strs(names@),
    ensures
        views(r@) == isolated_spec(strs(names@), graph_edges(*graph)),
{
    let mut out: Vec<Finding> = Vec::new();
    let n = graph_node_count(graph);
    if n < 2 {
        return out;
    }
    let ghost nm = strs(names@);
    let ghost edges = graph_edges(*graph);
    for i in 0..n
        invariant
            n == nm.len(),
            nm == strs(names@),
            edges == graph_edges(*graph),
            graph_nodes(*graph) == nm,
            views(out@) == isolated_upto(nm, edges, i as int),
    {
        let outs = graph_neighbor_count(graph, i, EdgeDirection::Outgoing);
        let ins = graph_neighbor_count(graph, i, EdgeDirection::Incoming);
        if outs == 0 && ins == 0 {
            let mut message = String::new();
            message.append("crate `");
            message.append(names[i].as_str());
            message.append("` has no intra-workspace dependencies (isolated)");
            let f = Finding {
                inspection: WorkspaceGraph::NAME,
                severity: Severity::Info,
                location: Location::in_crate(&names[i]),
                message,
                metric: None,
            };
            proof {
                lemma_views_push(out@, f);
                assert(f@ == isolated_finding(nm[i as int]));
            }
            out.push(f);
        }
    }
    out
}

impl WorkspaceGraph {
    /// The workspace's dependency graph: one node per crate, in order, and
    /// one edge per dependency on a workspace crate.
    fn build_graph(crates: &Vec<CrateData>) -> (r: (
        petgraph::graph::Graph<String, (), petgraph::Directed, u32>,
        Vec<String>,
    ))
        requires
            crates@.len() < 0xffff_ffff,
            dep_edges(crates@).len() <= 0xffff_ffff,
        ensures
            graph_nodes(r.0) == crate_names(crates@),
            strs(r.1@) == crate_names(crates@),
            graph_edges(r.0) == dep_edges(crates@),
    {
        let mut graph = graph_new();
        let mut names: Vec<String> = Vec::new();
        let n = crates.len();
        for i in 0..n
            invariant
                n == crates@.len(),
                n < 0xffff_ffff,
                graph_nodes(graph) == crate_names(crates@).take(i as int),
                strs(names@) == crate_names(crates@).take(i as int),
                graph_edges(graph) == Seq::<(int, int)>::empty(),
        {
            graph_add_node(&mut graph, crates[i].name.clone());
            names.push(crates[i].name.clone());
            proof {
                assert(crate_names(crates@).take(i + 1) =~= crate_names(crates@).take(i as int).push(
                    crates@[i as int].name@,
                ));
                assert(strs(names@) =~= crate_names(crates@).take(i + 1));
            }
        }
        proof {
            assert(crate_names(crates@).take(n as int) =~= crate_names(crates@));
            assert(dep_edges_upto(crates@, 0) =~= Seq::<(int, int)>::empty());
        }
        let ghost nm = crate_names(crates@);
        for i in 0..n
            invariant
                n == crates@.len(),
                nm == crate_names(crates@),
                graph_nodes(graph) == nm,
                strs(names@) == nm,
                graph_edges(graph) == dep_edges_upto(crates@, i as int),
                dep_edges(crates@).len() <= 0xffff_ffff,
        {
            let krate = &crates[i];
            let from_opt = find_last(&names, krate.name.as_str());
            proof {
                lemma_last_index_bounds(nm, krate.name@);
                lemma_last_index_found(nm, i as int);
            }
            let from = match from_opt {
                Some(f) => f,
                None => 0,
            };
            let ghost prefix = graph_edges(graph);
            let ghost deps = krate.workspace_deps.deep_view();
            let m = krate.workspace_deps.len();
            proof {
                assert(dep_edges_of(nm, from as int, deps.take(0)) =~= Seq::<(int, int)>::empty());
                lemma_dep_edges_upto_mono(crates@, i + 1, n as int);
            }
            for j in 0..m
                invariant
                    n == crates@.len(),
                    i < n,
                    krate == &crates@[i as int],
                    m == krate.workspace_deps@.len(),
                    deps == krate.workspace_deps.deep_view(),
                    nm == crate_names(crates@),
                    graph_nodes(graph) == nm,
                    strs(names@) == nm,
                    from == node_of(nm, crates@[i as int].name@),
                    from < nm.len(),
                    prefix == dep_edges_upto(crates@, i as int),
                    graph_edges(graph) == prefix + dep_edges_of(nm, from as int, deps.take(j as int)),
                    dep_edges_upto(crates@, i + 1).len() <= 0xffff_ffff,
            {
                let to_opt = find_last(&names, krate.workspace_deps[j].as_str());
                proof {
                    lemma_last_index_bounds(nm, deps[j as int]);
                    assert(deps.take(j + 1).drop_last() =~= deps.take(j as int));
                    assert(deps.take(j + 1).last() == deps[j as int]);
                    lemma_dep_edges_of_prefix(nm, from as int, deps, j + 1);
                }
                if let Some(to) = to_opt {
                    graph_add_edge(&mut graph, from, to);
                }
                proof {
                    assert(graph_edges(graph) =~= prefix + dep_edges_of(
                        nm,
                        from as int,
                        deps.take(j + 1),
                    ));
                }
            }
            proof {
                assert(deps.take(m as int) =~= deps);
            }
        }
        (graph, names)
    }
}

proof fn lemma_last_index_bounds(names: Seq<Seq<char>>, x: Seq<char>)
    ensures
        last_index_of(names, x) matches Some(i) ==> 0 <= i < names.len() && names[i] == x,
    decreases names.len(),
{
    if names.len() > 0 && names.last() != x {
        lemma_last_index_bounds(names.drop_last(), x);
    }
}

proof fn lemma_last_index_found(names: Seq<Seq<char>>, i: int)
    requires
        0 <= i < names.len(),
    ensures
        last_index_of(names, names[i]) is Some,
    decreases names.len(),
{
    if names.last() != names[i] {
        lemma_last_index_found(names.drop_last(), i);
    }
}

proof fn lemma_dep_edges_upto_mono(crates: Seq<CrateData>, k: int, m: int)
    requires
        0 <= k <= m,
    ensures
        dep_edges_upto(crates, k).len() <= dep_edges_upto(crates, m).len(),
    decreases m - k,
{
    if k < m {
        lemma_dep_edges_upto_mono(crates, k, m - 1);
    }
}

proof fn lemma_dep_edges_of_prefix(names: Seq<Seq<char>>, from: int, deps: Seq<Seq<char>>, j: int)
    requires
        0 <= j <= deps.len(),
    ensures
        dep_edges_of(names, from, deps.take(j)).len() <= dep_edges_of(names, from, deps).len(),
    decreases deps.len() - j,
{
    if j < deps.len() {
        lemma_dep_edges_of_prefix(names, from, deps.drop_last(), j);
        assert(deps.drop_last().take(j) =~= deps.take(j));
    } else {
        assert(deps.take(j) =~= deps);
    }
}

impl Inspection for WorkspaceGraph {
    open spec fn accepts(&self, ctx: &Context) -> bool {
        &&& ctx.crates@.len() < 0xffff_ffff
        &&& dep_edges(ctx.crates@).len() <= 0xffff_ffff
    }

    open spec fn findings_spec(&self, ctx: &Context) -> Seq<FindingView> {
        workspace_graph_spec(ctx.crates@)
    }

    open spec fn inspection_name(&self) -> Seq<char> {
        "workspace-graph"@
    }

    fn name(&self) -> (r: &'static str) {
        Self::NAME
    }

    fn run(&self, ctx: &Context) -> (r: Vec<Finding>)
        ensures
            has_error(views(r@)) <==> has_cycle(
                crate_names(ctx.crates@).len(),
                dep_edges(ctx.crates@),
            ),
    {
        let (graph, names) = Self::build_graph(&ctx.crates);
        let comps = graph_tarjan_scc(&graph);
        proof {
            let cv = comps_view(comps@);
            assert forall|c: int, j: int|
                0 <= c < comps@.len() && 0 <= j < comps@[c]@.len() implies #[trigger] comps@[c]@[j]
                < names@.len() by {
                assert(cv[c][j] == comps@[c]@[j] as int);
            }
        }
        let mut findings = circular_findings(&names, &comps);
        let mut isolated = isolated_findings(&graph, &names);
        proof {
            lemma_views_append(findings@, isolated@);
            lemma_graph_error_iff_cycle(strs(names@), graph_edges(graph), comps_view(comps@));
        }
        findings.append(&mut isolated);
        findings
    }
}

} // verus!
