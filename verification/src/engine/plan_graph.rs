//! The dependency graph of a plan and its analyses: topological order,
//! critical path and parallel batches.

use vstd::prelude::*;
use crate::engine::types::texts;
use crate::engine::planner::TaskDependency;

verus! {

broadcast use vstd::std_specs::vec::group_vec_axioms, vstd::seq::group_seq_axioms;

/// A node of the graph: the id of a plan node and its duration estimate.
#[derive(Debug)]
pub struct GraphNode {
    pub node_id: String,
    pub estimated_duration_ms: u64,
}

/// An edge from the node at `source` to the node at `target`: the target
/// depends on the source.
#[derive(Debug)]
pub struct GraphEdge {
    pub source: usize,
    pub target: usize,
    pub dependency: TaskDependency,
}

/// A dependency graph over node positions.
#[derive(Debug)]
pub struct PlanGraph {
    pub nodes: Vec<GraphNode>,
    pub edges: Vec<GraphEdge>,
}

/// The (source, target) pairs of the edges.
pub open spec fn edge_pairs(edges: Seq<GraphEdge>) -> Seq<(usize, usize)> {
    edges.map_values(|e: GraphEdge| (e.source, e.target))
}

/// `o` lists every node of an `n`-node graph once, and no edge leads
/// from a node to one listed at or before it.
pub open spec fn is_topological_order(n: nat, pairs: Seq<(usize, usize)>, o: Seq<usize>) -> bool {
    &&& o.len() == n
    &&& o.no_duplicates()
    &&& forall|i: int| 0 <= i < o.len() ==> #[trigger] o[i] < n
    &&& forall|x: usize| x < n ==> #[trigger] listed(o, x)
    &&& forall|e: int, a: int, b: int|
        #![trigger pairs[e], o[a], o[b]]
        0 <= e < pairs.len() && 0 <= a <= b < o.len() ==> !(pairs[e].0 == o[b] && pairs[e].1
            == o[a])
}

/// Whether `x` occurs in `o`.
pub open spec fn listed(o: Seq<usize>, x: usize) -> bool {
    exists|i: int| 0 <= i < o.len() && o[i] == x
}

/// What `petgraph::algo::toposort` gives for a graph of `n` nodes with the
/// given edges, nodes named by position: an order, or nothing when it
/// finds a cycle.
pub uninterp spec fn toposort_of(n: nat, pairs: Seq<(usize, usize)>) -> Option<Seq<usize>>;

pub open spec fn opt_seq(o: Option<Vec<usize>>) -> Option<Seq<usize>> {
    match o {
        Some(v) => Some(v@),
        None => None,
    }
}

/// `petgraph::algo::toposort` on a directed `Graph` with `n` nodes (node
/// `i` at index `i`) and the given edges. Its documentation promises a list
/// of all nodes in topological order, or an error when a cycle is detected;
/// the order it picks among several is named by `toposort_of`. The graph
/// is indexed by `usize`, for which `add_node` and `add_edge` never reach
/// an index limit; `add_edge` panics only on an endpoint outside the graph,
/// which `requires` leaves out.
#[verifier::external_body]
fn petgraph_toposort(n: usize, pairs: &Vec<(usize, usize)>) -> (r: Option<Vec<usize>>)
    requires
        forall|e: int| 0 <= e < pairs@.len() ==> (#[trigger] pairs@[e]).0 < n && pairs@[e].1 < n,
    ensures
        opt_seq(r) == toposort_of(n as nat, pairs@),
        r matches Some(o) ==> is_topological_order(n as nat, pairs@, o@),
        r is None ==> forall|o: Seq<usize>| !is_topological_order(n as nat, pairs@, o),
{
    let mut g = petgraph::graph::Graph::<(), (), petgraph::Directed, usize>::default();
    let idx: Vec<petgraph::graph::NodeIndex<usize>> = (0..n).map(|_| g.add_node(())).collect();
    for &(a, b) in pairs.iter() {
        g.add_edge(idx[a], idx[b], ());
    }
    match petgraph::algo::toposort(&g, None) {
        Ok(order) => Some(order.into_iter().map(|x| x.index()).collect()),
        Err(_) => None,
    }
}

impl PlanGraph {
    /// Every edge joins two nodes of the graph.
    pub open spec fn wf(&self) -> bool {
        forall|e: int|
            0 <= e < self.edges@.len() ==> (#[trigger] self.edges@[e]).source < self.nodes@.len()
                && self.edges@[e].target < self.nodes@.len()
    }

    pub open spec fn pairs(&self) -> Seq<(usize, usize)> {
        edge_pairs(self.edges@)
    }

    /// An empty graph.
    pub fn new() -> (g: PlanGraph)
        ensures
            g.wf(),
            g.nodes@.len() == 0,
            g.edges@.len() == 0,
    {
        PlanGraph { nodes: Vec::new(), edges: Vec::new() }
    }

    /// The (source, target) pairs of the edges, in edge order.
    pub fn edge_list(&self) -> (r: Vec<(usize, usize)>)
        ensures
            r@ == self.pairs(),
    {
        let mut r: Vec<(usize, usize)> = Vec::new();
        let mut e: usize = 0;
        while e < self.edges.len()
            invariant
                e <= self.edges@.len(),
                r@ == edge_pairs(self.edges@.subrange(0, e as int)),
            decreases self.edges@.len() - e,
        {
            r.push((self.edges[e].source, self.edges[e].target));
            assert(edge_pairs(self.edges@.subrange(0, e + 1)) =~= edge_pairs(
                self.edges@.subrange(0, e as int),
            ).push((self.edges@[e as int].source, self.edges@[e as int].target)));
            e = e + 1;
        }
        assert(self.edges@.subrange(0, self.edges@.len() as int) =~= self.edges@);
        r
    }

    /// A topological order of the nodes as petgraph's `toposort` gives it,
    /// or `None` when the graph has a cycle.
    pub fn toposort(&self) -> (r: Option<Vec<usize>>)
        requires
            self.wf(),
        ensures
            opt_seq(r) == toposort_of(self.nodes@.len(), self.pairs()),
            r matches Some(o) ==> is_topological_order(self.nodes@.len(), self.pairs(), o@),
            r is None ==> forall|o: Seq<usize>|
                !is_topological_order(self.nodes@.len(), self.pairs(), o),
    {
        let pairs = self.edge_list();
        petgraph_toposort(self.nodes.len(), &pairs)
    }
}

/// The durations of the nodes.
pub open spec fn durations(nodes: Seq<GraphNode>) -> Seq<u64> {
    nodes.map_values(|g: GraphNode| g.estimated_duration_ms)
}

/// The sum of the durations of all nodes.
pub open spec fn duration_sum(nodes: Seq<GraphNode>) -> nat
    decreases nodes.len(),
{
    if nodes.len() == 0 {
        0
    } else {
        duration_sum(nodes.drop_last()) + nodes.last().estimated_duration_ms as nat
    }
}

/// The largest `ef[source]` over the first `m` edges that lead into `v`,
/// or 0 when there is none.
pub open spec fn max_pred_finish(pairs: Seq<(usize, usize)>, v: usize, ef: Seq<u64>, m: int) -> u64
    decreases m,
{
    if m <= 0 {
        0
    } else {
        let p = max_pred_finish(pairs, v, ef, m - 1);
        if pairs[m - 1].1 == v && ef[pairs[m - 1].0 as int] > p {
            ef[pairs[m - 1].0 as int]
        } else {
            p
        }
    }
}

/// The smallest `ls[target]` over the first `m` edges that leave `v`,
/// or `total` when there is none smaller.
pub open spec fn min_succ_start(
    pairs: Seq<(usize, usize)>,
    v: usize,
    ls: Seq<u64>,
    total: u64,
    m: int,
) -> u64
    decreases m,
{
    if m <= 0 {
        total
    } else {
        let p = min_succ_start(pairs, v, ls, total, m - 1);
        if pairs[m - 1].0 == v && ls[pairs[m - 1].1 as int] < p {
            ls[pairs[m - 1].1 as int]
        } else {
            p
        }
    }
}

/// The critical path method's equations for a graph: earliest start and
/// finish forward, latest start and finish backward from the total
/// duration, which is the largest earliest finish.
pub open spec fn cpm_solution(
    nodes: Seq<GraphNode>,
    pairs: Seq<(usize, usize)>,
    es: Seq<u64>,
    ef: Seq<u64>,
    ls: Seq<u64>,
    lf: Seq<u64>,
    total: u64,
) -> bool {
    let n = nodes.len();
    &&& es.len() == n && ef.len() == n && ls.len() == n && lf.len() == n
    &&& forall|x: int|
        0 <= x < n ==> #[trigger] es[x] == max_pred_finish(pairs, x as usize, ef, pairs.len() as int)
    &&& forall|x: int| 0 <= x < n ==> #[trigger] ef[x] == es[x] + nodes[x].estimated_duration_ms
    &&& forall|x: int| 0 <= x < n ==> #[trigger] ef[x] <= total
    &&& (total == 0 || exists|x: int| 0 <= x < n && #[trigger] ef[x] == total)
    &&& forall|x: int|
        0 <= x < n ==> #[trigger] lf[x] == min_succ_start(
            pairs,
            x as usize,
            ls,
            total,
            pairs.len() as int,
        )
    &&& forall|x: int| 0 <= x < n ==> #[trigger] ls[x] == lf[x] - nodes[x].estimated_duration_ms
    &&& forall|x: int| 0 <= x < n ==> es[x] <= #[trigger] ls[x]
}

/// The sum of the durations of the nodes marked in `done`, among the first `m`.
pub open spec fn marked_sum(nodes: Seq<GraphNode>, done: Seq<bool>, m: int) -> nat
    decreases m,
{
    if m <= 0 {
        0
    } else {
        marked_sum(nodes, done, m - 1) + if done[m - 1] {
            nodes[m - 1].estimated_duration_ms as nat
        } else {
            0
        }
    }
}

proof fn lemma_marked_sum_insert(nodes: Seq<GraphNode>, done: Seq<bool>, v: int, m: int)
    requires
        0 <= v < done.len(),
        !done[v],
        0 <= m <= done.len(),
    ensures
        marked_sum(nodes, done.update(v, true), m) == marked_sum(nodes, done, m) + if v < m {
            nodes[v].estimated_duration_ms as nat
        } else {
            0
        },
    decreases m,
{
    if m > 0 {
        lemma_marked_sum_insert(nodes, done, v, m - 1);
    }
}

proof fn lemma_marked_sum_all(nodes: Seq<GraphNode>, m: int)
    requires
        0 <= m <= nodes.len(),
    ensures
        marked_sum(nodes, Seq::new(nodes.len(), |i: int| true), m) == duration_sum(
            nodes.subrange(0, m),
        ),
    decreases m,
{
    if m > 0 {
        lemma_marked_sum_all(nodes, m - 1);
        assert(nodes.subrange(0, m).drop_last() =~= nodes.subrange(0, m - 1));
    }
}

proof fn lemma_marked_sum_mono(nodes: Seq<GraphNode>, a: Seq<bool>, b: Seq<bool>, m: int)
    requires
        0 <= m <= a.len(),
        a.len() == b.len(),
        forall|i: int| 0 <= i < a.len() && a[i] ==> b[i],
    ensures
        marked_sum(nodes, a, m) <= marked_sum(nodes, b, m),
    decreases m,
{
    if m > 0 {
        lemma_marked_sum_mono(nodes, a, b, m - 1);
    }
}

proof fn lemma_max_pred_ge(pairs: Seq<(usize, usize)>, v: usize, ef: Seq<u64>, m: int, e: int)
    requires
        0 <= e < m <= pairs.len(),
        pairs[e].1 == v,
    ensures
        max_pred_finish(pairs, v, ef, m) >= ef[pairs[e].0 as int],
    decreases m,
{
    if e < m - 1 {
        lemma_max_pred_ge(pairs, v, ef, m - 1, e);
    }
}

proof fn lemma_max_pred_le(pairs: Seq<(usize, usize)>, v: usize, ef: Seq<u64>, m: int, b: u64)
    requires
        0 <= m <= pairs.len(),
        forall|e: int| 0 <= e < m && pairs[e].1 == v ==> ef[pairs[e].0 as int] <= b,
    ensures
        max_pred_finish(pairs, v, ef, m) <= b,
    decreases m,
{
    if m > 0 {
        lemma_max_pred_le(pairs, v, ef, m - 1, b);
    }
}

proof fn lemma_max_pred_frame(
    pairs: Seq<(usize, usize)>,
    v: usize,
    ef: Seq<u64>,
    y: int,
    val: u64,
    m: int,
)
    requires
        0 <= m <= pairs.len(),
        0 <= y < ef.len(),
        forall|e: int| 0 <= e < m ==> (#[trigger] pairs[e]).0 < ef.len(),
        forall|e: int| 0 <= e < m && pairs[e].1 == v ==> pairs[e].0 != y,
    ensures
        max_pred_finish(pairs, v, ef.update(y, val), m) == max_pred_finish(pairs, v, ef, m),
    decreases m,
{
    if m > 0 {
        lemma_max_pred_frame(pairs, v, ef, y, val, m - 1);
    }
}

proof fn lemma_min_succ_ge(
    pairs: Seq<(usize, usize)>,
    v: usize,
    ls: Seq<u64>,
    total: u64,
    m: int,
    b: u64,
)
    requires
        0 <= m <= pairs.len(),
        total >= b,
        forall|e: int| 0 <= e < m && pairs[e].0 == v ==> ls[pairs[e].1 as int] >= b,
    ensures
        min_succ_start(pairs, v, ls, total, m) >= b,
    decreases m,
{
    if m > 0 {
        lemma_min_succ_ge(pairs, v, ls, total, m - 1, b);
    }
}

proof fn lemma_min_succ_frame(
    pairs: Seq<(usize, usize)>,
    v: usize,
    ls: Seq<u64>,
    total: u64,
    y: int,
    val: u64,
    m: int,
)
    requires
        0 <= m <= pairs.len(),
        0 <= y < ls.len(),
        forall|e: int| 0 <= e < m ==> (#[trigger] pairs[e]).1 < ls.len(),
        forall|e: int| 0 <= e < m && pairs[e].0 == v ==> pairs[e].1 != y,
    ensures
        min_succ_start(pairs, v, ls.update(y, val), total, m) == min_succ_start(
            pairs,
            v,
            ls,
            total,
            m,
        ),
    decreases m,
{
    if m > 0 {
        lemma_min_succ_frame(pairs, v, ls, total, y, val, m - 1);
    }
}

/// The position of node `x` in the order `o`.
pub open spec fn pos_in(o: Seq<usize>, x: usize) -> int {
    choose|i: int| 0 <= i < o.len() && o[i] == x
}

proof fn lemma_pos_in(n: nat, pairs: Seq<(usize, usize)>, o: Seq<usize>, x: usize)
    requires
        is_topological_order(n, pairs, o),
        x < n,
    ensures
        0 <= pos_in(o, x) < o.len(),
        o[pos_in(o, x)] == x,
        forall|i: int| 0 <= i < o.len() && o[i] == x ==> i == pos_in(o, x),
{
    assert(listed(o, x));
}

/// Along an edge, the source comes strictly before the target in the order.
proof fn lemma_edge_forward(n: nat, pairs: Seq<(usize, usize)>, o: Seq<usize>, e: int)
    requires
        is_topological_order(n, pairs, o),
        0 <= e < pairs.len(),
        pairs[e].0 < n,
        pairs[e].1 < n,
    ensures
        pos_in(o, pairs[e].0) < pos_in(o, pairs[e].1),
{
    lemma_pos_in(n, pairs, o, pairs[e].0);
    lemma_pos_in(n, pairs, o, pairs[e].1);
    let a = pos_in(o, pairs[e].1);
    let b = pos_in(o, pairs[e].0);
    if a <= b {
        assert(!(pairs[e].0 == o[b] && pairs[e].1 == o[a]));
    }
}

/// The earliest and latest starts and finishes of every node, along a
/// topological order, and the total duration.
pub struct CpmTables {
    pub es: Vec<u64>,
    pub ef: Vec<u64>,
    pub ls: Vec<u64>,
    pub lf: Vec<u64>,
    pub total: u64,
}

impl PlanGraph {
    /// The critical path method over the graph, given a topological
    /// order: earliest start of a node is the latest finish of its
    /// predecessors, the total duration is the latest earliest finish,
    /// and latest finish is the earliest latest start of its successors.
    /// No value overflows, and no latest start falls before the earliest.
    pub fn cpm_tables(&self, order: &Vec<usize>) -> (t: CpmTables)
        requires
            self.wf(),
            is_topological_order(self.nodes@.len(), self.pairs(), order@),
            duration_sum(self.nodes@) <= u64::MAX,
        ensures
            cpm_solution(self.nodes@, self.pairs(), t.es@, t.ef@, t.ls@, t.lf@, t.total),
    {
        let n = self.nodes.len();
        let ghost pairs = self.pairs();
        let ghost nodes = self.nodes@;
        let ghost m = pairs.len() as int;
        let ghost all_true = Seq::new(n as nat, |i: int| true);
        proof {
            lemma_marked_sum_all(nodes, n as int);
            assert(nodes.subrange(0, n as int) =~= nodes);
        }
        let mut es: Vec<u64> = Vec::new();
        let mut ef: Vec<u64> = Vec::new();
        let mut ls: Vec<u64> = Vec::new();
        let mut lf: Vec<u64> = Vec::new();
        let mut i: usize = 0;
        while i < n
            invariant
                i <= n,
                n == nodes.len(),
                es@.len() == i && ef@.len() == i && ls@.len() == i && lf@.len() == i,
                forall|x: int| 0 <= x < i ==> es@[x] == 0 && ef@[x] == 0 && ls@[x] == 0 && lf@[x] == 0,
            decreases n - i,
        {
            es.push(0);
            ef.push(0);
            ls.push(0);
            lf.push(0);
            i = i + 1;
        }
        // Forward pass.
        let ghost mut done: Seq<bool> = Seq::new(n as nat, |i: int| false);
        let mut k: usize = 0;
        while k < n
            invariant
                self.wf(),
                n == nodes.len(),
                nodes == self.nodes@,
                pairs == self.pairs(),
                m == pairs.len(),
                pairs.len() == self.edges@.len(),
                is_topological_order(n as nat, pairs, order@),
                marked_sum(nodes, all_true, n as int) <= u64::MAX,
                all_true == Seq::new(n as nat, |i: int| true),
                0 <= k <= n,
                es@.len() == n && ef@.len() == n && ls@.len() == n && lf@.len() == n,
                done.len() == n,
                forall|x: int| 0 <= x < n ==> (done[x] <==> exists|j: int| 0 <= j < k && order@[j] == x),
                forall|x: int|
                    0 <= x < n && done[x] ==> #[trigger] es@[x] == max_pred_finish(
                        pairs,
                        x as usize,
                        ef@,
                        m,
                    ),
                forall|x: int|
                    0 <= x < n && done[x] ==> #[trigger] ef@[x] == es@[x]
                        + nodes[x].estimated_duration_ms,
                forall|x: int| 0 <= x < n && done[x] ==> #[trigger] ef@[x] <= marked_sum(nodes, done, n as int),
                forall|x: int| 0 <= x < n && !done[x] ==> #[trigger] ef@[x] == 0,
            decreases n - k,
        {
            let v = order[k];
            proof {
                lemma_pos_in(n as nat, pairs, order@, v);
                assert(!done[v as int]) by {
                    if done[v as int] {
                        let j = choose|j: int| 0 <= j < k && order@[j] == v;
                        assert(order@[j] == order@[k as int]);
                    }
                }
            }
            let mut best: u64 = 0;
            let mut e: usize = 0;
            while e < self.edges.len()
                invariant
                    self.wf(),
                    pairs == self.pairs(),
                    m == pairs.len(),
                    pairs.len() == self.edges@.len(),
                    n == nodes.len(),
                    nodes == self.nodes@,
                    ef@.len() == n,
                    done.len() == n,
                    v < n,
                    e <= self.edges@.len(),
                    best == max_pred_finish(pairs, v, ef@, e as int),
                    is_topological_order(n as nat, pairs, order@),
                    order@[k as int] == v,
                    k < n,
                    forall|x: int| 0 <= x < n ==> (done[x] <==> exists|j: int| 0 <= j < k && order@[j] == x),
                decreases self.edges@.len() - e,
            {
                assert(pairs[e as int] == (self.edges@[e as int].source, self.edges@[e as int].target));
                if self.edges[e].target == v {
                    let s = self.edges[e].source;
                    if ef[s] > best {
                        best = ef[s];
                    }
                }
                e = e + 1;
            }
            // Every predecessor of v is already done, and bounded.
            proof {
                assert forall|e2: int| 0 <= e2 < m && pairs[e2].1 == v implies done[pairs[e2].0 as int] by {
                    assert(pairs[e2] == (self.edges@[e2].source, self.edges@[e2].target));
                    lemma_edge_forward(n as nat, pairs, order@, e2);
                    lemma_pos_in(n as nat, pairs, order@, pairs[e2].0);
                    lemma_pos_in(n as nat, pairs, order@, v);
                    let j = pos_in(order@, pairs[e2].0);
                    assert(order@[j] == pairs[e2].0);
                }
                lemma_marked_sum_mono(nodes, done, all_true, n as int);
                let bound = marked_sum(nodes, done, n as int) as u64;
                assert forall|e2: int| 0 <= e2 < m && pairs[e2].1 == v implies ef@[pairs[e2].0 as int] <= bound by {
                    assert(pairs[e2] == (self.edges@[e2].source, self.edges@[e2].target));
                    assert(done[pairs[e2].0 as int]);
                }
                lemma_max_pred_le(pairs, v, ef@, m, bound);
            }
            let d = self.nodes[v].estimated_duration_ms;
            proof {
                lemma_marked_sum_insert(nodes, done, v as int, n as int);
                lemma_marked_sum_mono(nodes, done.update(v as int, true), all_true, n as int);
            }
            let finish = best + d;
            let ghost old_ef = ef@;
            let ghost old_done = done;
            es.set(v, best);
            ef.set(v, finish);
            proof {
                done = done.update(v as int, true);
                assert forall|x: int|
                    0 <= x < n && done[x] implies #[trigger] es@[x] == max_pred_finish(
                    pairs,
                    x as usize,
                    ef@,
                    m,
                ) by {
                    // No edge leads from v into an earlier node.
                    assert forall|e2: int| 0 <= e2 < m && pairs[e2].1 == x as usize implies pairs[e2].0
                        != v as int by {
                        if pairs[e2].0 == v {
                            assert(pairs[e2] == (self.edges@[e2].source, self.edges@[e2].target));
                            lemma_edge_forward(n as nat, pairs, order@, e2);
                            lemma_pos_in(n as nat, pairs, order@, v);
                            if x != v {
                                assert(old_done[x]);
                                let j = choose|j: int| 0 <= j < k && order@[j] == x;
                                lemma_pos_in(n as nat, pairs, order@, x as usize);
                            }
                        }
                    }
                    assert forall|e2: int| 0 <= e2 < m implies (#[trigger] pairs[e2]).0 < old_ef.len() by {
                        assert(pairs[e2] == (self.edges@[e2].source, self.edges@[e2].target));
                    }
                    lemma_max_pred_frame(pairs, x as usize, old_ef, v as int, finish, m);
                }
                assert forall|x: int| 0 <= x < n implies (done[x] <==> exists|j: int| 0 <= j < k + 1 && order@[j] == x) by {
                    if x == v {
                        assert(order@[k as int] == x);
                    } else if exists|j: int| 0 <= j < k + 1 && order@[j] == x {
                        let j = choose|j: int| 0 <= j < k + 1 && order@[j] == x;
                        assert(j != k);
                    }
                }
            }
            k = k + 1;
        }
        proof {
            assert forall|x: int| 0 <= x < n implies done[x] by {
                lemma_pos_in(n as nat, pairs, order@, x as usize);
                let j = pos_in(order@, x as usize);
                assert(order@[j] == x);
            }
        }
        // The total duration.
        let mut total: u64 = 0;
        let mut k2: usize = 0;
        while k2 < n
            invariant
                n == nodes.len(),
                ef@.len() == n,
                is_topological_order(n as nat, pairs, order@),
                k2 <= n,
                forall|j: int| 0 <= j < k2 ==> ef@[order@[j] as int] <= total,
                total == 0 || exists|x: int| 0 <= x < n && ef@[x] == total,
            decreases n - k2,
        {
            let x = order[k2];
            if ef[x] > total {
                total = ef[x];
            }
            k2 = k2 + 1;
        }
        proof {
            assert forall|x: int| 0 <= x < n implies ef@[x] <= total by {
                lemma_pos_in(n as nat, pairs, order@, x as usize);
                let j = pos_in(order@, x as usize);
                assert(ef@[order@[j] as int] <= total);
            }
        }
        // Backward pass.
        let ghost mut late: Seq<bool> = Seq::new(n as nat, |i: int| false);
        let mut k3: usize = n;
        while k3 > 0
            invariant
                self.wf(),
                n == nodes.len(),
                nodes == self.nodes@,
                pairs == self.pairs(),
                m == pairs.len(),
                pairs.len() == self.edges@.len(),
                is_topological_order(n as nat, pairs, order@),
                k3 <= n,
                es@.len() == n && ef@.len() == n && ls@.len() == n && lf@.len() == n,
                late.len() == n,
                forall|x: int| 0 <= x < n ==> (late[x] <==> exists|j: int| k3 <= j < n && order@[j] == x),
                forall|x: int|
                    0 <= x < n ==> #[trigger] es@[x] == max_pred_finish(pairs, x as usize, ef@, m),
                forall|x: int| 0 <= x < n ==> #[trigger] ef@[x] == es@[x] + nodes[x].estimated_duration_ms,
                forall|x: int| 0 <= x < n ==> #[trigger] ef@[x] <= total,
                forall|x: int|
                    0 <= x < n && late[x] ==> #[trigger] lf@[x] == min_succ_start(
                        pairs,
                        x as usize,
                        ls@,
                        total,
                        m,
                    ),
                forall|x: int|
                    0 <= x < n && late[x] ==> #[trigger] ls@[x] == lf@[x]
                        - nodes[x].estimated_duration_ms,
                forall|x: int| 0 <= x < n && late[x] ==> es@[x] <= #[trigger] ls@[x],
            decreases k3,
        {
            let kk = k3 - 1;
            let v = order[kk];
            proof {
                lemma_pos_in(n as nat, pairs, order@, v);
            }
            let mut low: u64 = total;
            let mut e: usize = 0;
            while e < self.edges.len()
                invariant
                    self.wf(),
                    pairs == self.pairs(),
                    m == pairs.len(),
                    pairs.len() == self.edges@.len(),
                    n == nodes.len(),
                    nodes == self.nodes@,
                    ls@.len() == n,
                    v < n,
                    e <= self.edges@.len(),
                    low == min_succ_start(pairs, v, ls@, total, e as int),
                decreases self.edges@.len() - e,
            {
                assert(pairs[e as int] == (self.edges@[e as int].source, self.edges@[e as int].target));
                if self.edges[e].source == v {
                    let t = self.edges[e].target;
                    if ls[t] < low {
                        low = ls[t];
                    }
                }
                e = e + 1;
            }
            proof {
                // Every successor of v is already done, and starts after v finishes.
                assert forall|e2: int| 0 <= e2 < m && pairs[e2].0 == v implies ls@[pairs[e2].1 as int]
                    >= ef@[v as int] by {
                    assert(pairs[e2] == (self.edges@[e2].source, self.edges@[e2].target));
                    lemma_edge_forward(n as nat, pairs, order@, e2);
                    let w = pairs[e2].1;
                    lemma_pos_in(n as nat, pairs, order@, w);
                    let j = pos_in(order@, w);
                    assert(order@[j] == w);
                    assert(late[w as int]);
                    lemma_max_pred_ge(pairs, w, ef@, m, e2);
                }
                lemma_min_succ_ge(pairs, v, ls@, total, m, ef@[v as int]);
            }
            let d = self.nodes[v].estimated_duration_ms;
            let start = low - d;
            let ghost old_ls = ls@;
            let ghost old_late = late;
            lf.set(v, low);
            ls.set(v, start);
            proof {
                late = late.update(v as int, true);
                assert forall|x: int|
                    0 <= x < n && late[x] implies #[trigger] lf@[x] == min_succ_start(
                    pairs,
                    x as usize,
                    ls@,
                    total,
                    m,
                ) by {
                    assert forall|e2: int| 0 <= e2 < m && pairs[e2].0 == x as usize implies pairs[e2].1
                        != v as int by {
                        if pairs[e2].1 == v {
                            assert(pairs[e2] == (self.edges@[e2].source, self.edges@[e2].target));
                            lemma_edge_forward(n as nat, pairs, order@, e2);
                            if x != v {
                                assert(old_late[x]);
                                let j = choose|j: int| k3 <= j < n && order@[j] == x;
                                lemma_pos_in(n as nat, pairs, order@, x as usize);
                            }
                        }
                    }
                    assert forall|e2: int| 0 <= e2 < m implies (#[trigger] pairs[e2]).1 < old_ls.len() by {
                        assert(pairs[e2] == (self.edges@[e2].source, self.edges@[e2].target));
                    }
                    lemma_min_succ_frame(pairs, x as usize, old_ls, total, v as int, start, m);
                }
                assert forall|x: int| 0 <= x < n implies (late[x] <==> exists|j: int| kk <= j < n && order@[j] == x) by {
                    if x == v {
                        assert(order@[kk as int] == x);
                    } else if exists|j: int| kk <= j < n && order@[j] == x {
                        let j = choose|j: int| kk <= j < n && order@[j] == x;
                        assert(j != kk);
                    }
                }
            }
            k3 = kk;
        }
        proof {
            assert forall|x: int| 0 <= x < n implies late[x] by {
                lemma_pos_in(n as nat, pairs, order@, x as usize);
                let j = pos_in(order@, x as usize);
                assert(order@[j] == x);
            }
        }
        CpmTables { es, ef, ls, lf, total }
    }
}

/// What the critical path analysis reports of one task.
#[derive(Debug)]
pub struct CriticalPathInfo {
    pub task_id: String,
    pub earliest_start_ms: u64,
    pub earliest_finish_ms: u64,
    pub latest_start_ms: u64,
    pub latest_finish_ms: u64,
    pub slack_ms: u64,
    pub is_critical: bool,
}

/// The critical path of a plan: the critical tasks in order, the total
/// duration, and the figures of every task in topological order.
#[derive(Debug)]
pub struct CriticalPathResult {
    pub critical_path: Vec<String>,
    pub total_duration_ms: u64,
    pub task_info: Vec<CriticalPathInfo>,
}

/// The ids of the critical entries, in order.
pub open spec fn critical_ids(info: Seq<CriticalPathInfo>) -> Seq<Seq<char>>
    decreases info.len(),
{
    if info.len() == 0 {
        Seq::empty()
    } else if info.last().is_critical {
        critical_ids(info.drop_last()).push(info.last().task_id@)
    } else {
        critical_ids(info.drop_last())
    }
}

/// `r` reports the critical path method's figures `es`, `ef`, `ls`, `lf`
/// for the nodes listed in `order`, in that order.
pub open spec fn reports_cpm(
    nodes: Seq<GraphNode>,
    order: Seq<usize>,
    es: Seq<u64>,
    ef: Seq<u64>,
    ls: Seq<u64>,
    lf: Seq<u64>,
    total: u64,
    r: CriticalPathResult,
) -> bool {
    &&& r.total_duration_ms == total
    &&& r.task_info@.len() == order.len()
    &&& forall|k: int|
        #![trigger r.task_info@[k]]
        0 <= k < order.len() ==> {
            let x = order[k] as int;
            let info = r.task_info@[k];
            &&& info.task_id@ == nodes[x].node_id@
            &&& info.earliest_start_ms == es[x]
            &&& info.earliest_finish_ms == ef[x]
            &&& info.latest_start_ms == ls[x]
            &&& info.latest_finish_ms == lf[x]
            &&& info.slack_ms == ls[x] - es[x]
            &&& info.is_critical == (ls[x] == es[x])
        }
    &&& texts(r.critical_path@) == critical_ids(r.task_info@)
}

/// `r` is the critical path of the graph along `order`.
pub open spec fn is_critical_path_of(g: PlanGraph, order: Seq<usize>, r: CriticalPathResult) -> bool {
    exists|es: Seq<u64>, ef: Seq<u64>, ls: Seq<u64>, lf: Seq<u64>|
        #![trigger cpm_solution(g.nodes@, g.pairs(), es, ef, ls, lf, r.total_duration_ms)]
        cpm_solution(g.nodes@, g.pairs(), es, ef, ls, lf, r.total_duration_ms) && reports_cpm(
            g.nodes@,
            order,
            es,
            ef,
            ls,
            lf,
            r.total_duration_ms,
            r,
        )
}

impl PlanGraph {
    /// The critical path report of the graph along a topological order:
    /// every task's figures in that order, and the critical tasks (those
    /// with no slack) in that order.
    pub fn critical_path_from_order(&self, order: &Vec<usize>) -> (r: CriticalPathResult)
        requires
            self.wf(),
            is_topological_order(self.nodes@.len(), self.pairs(), order@),
            duration_sum(self.nodes@) <= u64::MAX,
        ensures
            is_critical_path_of(*self, order@, r),
    {
        let t = self.cpm_tables(order);
        let n = order.len();
        let mut task_info: Vec<CriticalPathInfo> = Vec::new();
        let mut critical_path: Vec<String> = Vec::new();
        let mut k: usize = 0;
        while k < n
            invariant
                n == order@.len(),
                n == self.nodes@.len(),
                is_topological_order(self.nodes@.len(), self.pairs(), order@),
                cpm_solution(self.nodes@, self.pairs(), t.es@, t.ef@, t.ls@, t.lf@, t.total),
                k <= n,
                task_info@.len() == k,
                forall|j: int|
                    #![trigger task_info@[j]]
                    0 <= j < k ==> {
                        let x = order@[j] as int;
                        let info = task_info@[j];
                        &&& info.task_id@ == self.nodes@[x].node_id@
                        &&& info.earliest_start_ms == t.es@[x]
                        &&& info.earliest_finish_ms == t.ef@[x]
                        &&& info.latest_start_ms == t.ls@[x]
                        &&& info.latest_finish_ms == t.lf@[x]
                        &&& info.slack_ms == t.ls@[x] - t.es@[x]
                        &&& info.is_critical == (t.ls@[x] == t.es@[x])
                    },
                texts(critical_path@) == critical_ids(task_info@),
            decreases n - k,
        {
            let x = order[k];
            assert(x < self.nodes@.len());
            let es = t.es[x];
            let ls = t.ls[x];
            assert(es <= ls);
            let slack = ls - es;
            let is_critical = slack == 0;
            let info = CriticalPathInfo {
                task_id: self.nodes[x].node_id.clone(),
                earliest_start_ms: es,
                earliest_finish_ms: t.ef[x],
                latest_start_ms: ls,
                latest_finish_ms: t.lf[x],
                slack_ms: slack,
                is_critical,
            };
            let ghost old_info = task_info@;
            let ghost old_cp = critical_path@;
            if is_critical {
                critical_path.push(self.nodes[x].node_id.clone());
            }
            task_info.push(info);
            proof {
                assert(task_info@.drop_last() =~= old_info);
                if is_critical {
                    assert(texts(critical_path@) =~= texts(old_cp).push(self.nodes@[x as int].node_id@));
                } else {
                    assert(texts(critical_path@) =~= texts(old_cp));
                }
            }
            k = k + 1;
        }
        let r = CriticalPathResult { critical_path, total_duration_ms: t.total, task_info };
        assert(reports_cpm(self.nodes@, order@, t.es@, t.ef@, t.ls@, t.lf@, t.total, r));
        r
    }
}


/// The batch after the latest batch (in `lv`) of the predecessors of `v`
/// among the first `m` edges; the first batch, 0, without any.
pub open spec fn pred_batch(pairs: Seq<(usize, usize)>, lv: Seq<usize>, v: usize, m: int) -> int
    decreases m,
{
    if m <= 0 {
        0
    } else {
        let r = pred_batch(pairs, lv, v, m - 1);
        let e = pairs[m - 1];
        if e.1 == v && lv[e.0 as int] + 1 > r {
            lv[e.0 as int] + 1
        } else {
            r
        }
    }
}

/// `lv` gives each of the `n` nodes its batch: the first batch (0) for a
/// node without predecessors, otherwise the one right after the latest
/// batch of its predecessors. These are the batches of Kahn's layering: a
/// node joins the first batch after all its predecessors have gone.
pub open spec fn batch_levels(n: nat, pairs: Seq<(usize, usize)>, lv: Seq<usize>) -> bool {
    &&& lv.len() == n
    &&& forall|v: int| 0 <= v < n ==> #[trigger] lv[v] == pred_batch(pairs, lv, v as usize, pairs.len() as int)
}

/// The ids of the nodes in batch `k`, in node order.
pub open spec fn ids_at(nodes: Seq<GraphNode>, lv: Seq<usize>, k: int) -> Seq<Seq<char>>
    decreases nodes.len(),
{
    if nodes.len() == 0 {
        Seq::empty()
    } else {
        let r = ids_at(nodes.drop_last(), lv, k);
        if lv[nodes.len() - 1] == k {
            r.push(nodes.last().node_id@)
        } else {
            r
        }
    }
}

/// `r` lists the batches of the graph under the levels `lv`: as many as
/// the latest batch needs, each with the ids of its nodes in node order.
pub open spec fn batches_by_level(nodes: Seq<GraphNode>, lv: Seq<usize>, r: Seq<Vec<String>>) -> bool {
    &&& forall|v: int| 0 <= v < nodes.len() ==> #[trigger] lv[v] < r.len()
    &&& (nodes.len() == 0 ==> r.len() == 0)
    &&& (nodes.len() > 0 ==> exists|v: int| 0 <= v < nodes.len() && #[trigger] lv[v] + 1 == r.len())
    &&& forall|k: int| 0 <= k < r.len() ==> texts(#[trigger] r[k]@) == ids_at(nodes, lv, k)
}

/// `r` is the graph's batches: grouped by the batch levels of its nodes.
pub open spec fn batches_of(g: PlanGraph, r: Seq<Vec<String>>) -> bool {
    exists|lv: Seq<usize>| batch_levels(g.nodes@.len(), g.pairs(), lv) && batches_by_level(g.nodes@, lv, r)
}

proof fn lemma_pred_batch_frame(pairs: Seq<(usize, usize)>, lv1: Seq<usize>, lv2: Seq<usize>, x: usize, m: int)
    requires
        0 <= m <= pairs.len(),
        forall|e: int| 0 <= e < m && (#[trigger] pairs[e]).1 == x ==> lv1[pairs[e].0 as int] == lv2[pairs[e].0 as int],
    ensures
        pred_batch(pairs, lv1, x, m) == pred_batch(pairs, lv2, x, m),
    decreases m,
{
    if m > 0 {
        lemma_pred_batch_frame(pairs, lv1, lv2, x, m - 1);
        assert(pairs[m - 1] == pairs[m - 1]);
    }
}

proof fn lemma_pred_batch_nonneg(pairs: Seq<(usize, usize)>, lv: Seq<usize>, x: usize, m: int)
    ensures
        pred_batch(pairs, lv, x, m) >= 0,
    decreases m,
{
    if m > 0 {
        lemma_pred_batch_nonneg(pairs, lv, x, m - 1);
    }
}

/// The source of an edge into the node at position `p` of a topological
/// order comes earlier in it.
proof fn lemma_source_before(n: nat, pairs: Seq<(usize, usize)>, o: Seq<usize>, p: int, e: int) -> (q: int)
    requires
        is_topological_order(n, pairs, o),
        0 <= p < o.len(),
        0 <= e < pairs.len(),
        pairs[e].1 == o[p],
        pairs[e].0 < n,
    ensures
        0 <= q < p,
        o[q] == pairs[e].0,
{
    assert(listed(o, pairs[e].0));
    let q = choose|i: int| 0 <= i < o.len() && o[i] == pairs[e].0;
    if q >= p {
        assert(!(pairs[e].0 == o[q] && pairs[e].1 == o[p]));
    }
    q
}

proof fn lemma_ids_at_len(nodes: Seq<GraphNode>, lv: Seq<usize>, k: int)
    ensures
        ids_at(nodes, lv, k).len() <= nodes.len(),
    decreases nodes.len(),
{
    if nodes.len() > 0 {
        lemma_ids_at_len(nodes.drop_last(), lv, k);
    }
}

impl PlanGraph {
    /// The batch of every node along a topological order: each node's
    /// batch follows the latest batch of its predecessors.
    fn batch_levels_from_order(&self, order: &Vec<usize>) -> (lv: Vec<usize>)
        requires
            self.wf(),
            is_topological_order(self.nodes@.len(), self.pairs(), order@),
        ensures
            batch_levels(self.nodes@.len(), self.pairs(), lv@),
            forall|v: int| 0 <= v < lv@.len() ==> #[trigger] lv@[v] < self.nodes@.len(),
    {
        let pairs = self.edge_list();
        let n = self.nodes.len();
        let m = pairs.len();
        let ghost o = order@;
        let mut lv: Vec<usize> = Vec::new();
        let mut i: usize = 0;
        while i < n
            invariant
                i <= n,
                lv@.len() == i,
                forall|j: int| 0 <= j < i ==> #[trigger] lv@[j] == 0,
            decreases n - i,
        {
            lv.push(0);
            i = i + 1;
        }
        proof {
            assert forall|e: int| 0 <= e < pairs@.len() implies (#[trigger] pairs@[e]).0 < n && pairs@[e].1 < n by {
                assert(self.edges@[e].source < n);
            }
        }
        let mut p: usize = 0;
        while p < n
            invariant
                n == self.nodes@.len(),
                n == o.len(),
                m == pairs@.len(),
                pairs@ == self.pairs(),
                o == order@,
                is_topological_order(n as nat, pairs@, o),
                forall|e: int| 0 <= e < pairs@.len() ==> (#[trigger] pairs@[e]).0 < n && pairs@[e].1 < n,
                p <= n,
                lv@.len() == n,
                forall|q: int| 0 <= q < p ==> #[trigger] lv@[o[q] as int] <= q && lv@[o[q] as int] == pred_batch(pairs@, lv@, o[q], m as int),
                forall|q: int| p <= q < n ==> #[trigger] lv@[o[q] as int] == 0,
            decreases n - p,
        {
            let v = order[p];
            let mut best: usize = 0;
            let mut e: usize = 0;
            while e < m
                invariant
                    n == self.nodes@.len(),
                    n == o.len(),
                    m == pairs@.len(),
                    o == order@,
                    v == o[p as int],
                    p < n,
                    is_topological_order(n as nat, pairs@, o),
                    forall|e2: int| 0 <= e2 < pairs@.len() ==> (#[trigger] pairs@[e2]).0 < n && pairs@[e2].1 < n,
                    lv@.len() == n,
                    forall|q: int| 0 <= q < p ==> #[trigger] lv@[o[q] as int] <= q,
                    e <= m,
                    best <= p,
                    best == pred_batch(pairs@, lv@, v, e as int),
                decreases m - e,
            {
                let (a, b) = pairs[e];
                if b == v {
                    proof {
                        let q = lemma_source_before(n as nat, pairs@, o, p as int, e as int);
                        assert(lv@[o[q] as int] <= q);
                    }
                    let cand = lv[a] + 1;
                    if cand > best {
                        best = cand;
                    }
                }
                e = e + 1;
            }
            let ghost before = lv@;
            lv.set(v, best);
            proof {
                assert(o.no_duplicates());
                assert forall|q: int| 0 <= q < p + 1 implies #[trigger] lv@[o[q] as int] <= q && lv@[o[q] as int]
                    == pred_batch(pairs@, lv@, o[q], m as int) by {
                    let x = o[q];
                    assert forall|e2: int| 0 <= e2 < m && (#[trigger] pairs@[e2]).1 == x implies before[pairs@[e2].0 as int]
                        == lv@[pairs@[e2].0 as int] by {
                        let qs = lemma_source_before(n as nat, pairs@, o, q, e2);
                        assert(qs < p);
                        assert(o[qs] != o[p as int]);
                    }
                    lemma_pred_batch_frame(pairs@, before, lv@, x, m as int);
                    if q < p {
                        assert(o[q] != o[p as int]);
                    }
                }
                assert forall|q: int| p + 1 <= q < n implies #[trigger] lv@[o[q] as int] == 0 by {
                    assert(o[q] != o[p as int]);
                }
            }
            p = p + 1;
        }
        proof {
            assert forall|v: int| 0 <= v < n implies #[trigger] lv@[v] == pred_batch(pairs@, lv@, v as usize, m as int)
                && lv@[v] < n by {
                assert(listed(o, v as usize));
                let q = choose|i: int| 0 <= i < o.len() && o[i] == v as usize;
                assert(lv@[o[q] as int] <= q);
            }
        }
        lv
    }

    /// The batches of the graph along a topological order: the nodes
    /// grouped by batch, each batch in node order.
    pub fn batches_from_order(&self, order: &Vec<usize>) -> (r: Vec<Vec<String>>)
        requires
            self.wf(),
            is_topological_order(self.nodes@.len(), self.pairs(), order@),
        ensures
            batches_of(*self, r@),
    {
        let lv = self.batch_levels_from_order(order);
        let n = self.nodes.len();
        let mut count: usize = 0;
        let mut i: usize = 0;
        while i < n
            invariant
                n == self.nodes@.len(),
                lv@.len() == n,
                forall|v: int| 0 <= v < n ==> #[trigger] lv@[v] < n,
                i <= n,
                count <= n,
                forall|v: int| 0 <= v < i ==> #[trigger] lv@[v] < count,
                i == 0 ==> count == 0,
                i > 0 ==> exists|v: int| 0 <= v < i && #[trigger] lv@[v] + 1 == count,
            decreases n - i,
        {
            if lv[i] + 1 > count {
                count = lv[i] + 1;
            }
            i = i + 1;
        }
        let mut r: Vec<Vec<String>> = Vec::new();
        let mut k: usize = 0;
        while k < count
            invariant
                n == self.nodes@.len(),
                lv@.len() == n,
                k <= count,
                r@.len() == k,
                forall|j: int| 0 <= j < k ==> texts(#[trigger] r@[j]@) == ids_at(self.nodes@, lv@, j),
                batch_levels(self.nodes@.len(), self.pairs(), lv@),
                forall|v: int| 0 <= v < n ==> #[trigger] lv@[v] < count,
                n == 0 ==> count == 0,
                n > 0 ==> exists|v: int| 0 <= v < n && #[trigger] lv@[v] + 1 == count,
            decreases count - k,
        {
            let mut batch: Vec<String> = Vec::new();
            let mut v: usize = 0;
            while v < n
                invariant
                    n == self.nodes@.len(),
                    lv@.len() == n,
                    v <= n,
                    texts(batch@) == ids_at(self.nodes@.take(v as int), lv@, k as int),
                decreases n - v,
            {
                proof {
                    assert(self.nodes@.take(v as int + 1).drop_last() =~= self.nodes@.take(v as int));
                }
                if lv[v] == k {
                    let ghost b0 = batch@;
                    batch.push(self.nodes[v].node_id.clone());
                    assert(texts(batch@) =~= texts(b0).push(self.nodes@[v as int].node_id@));
                }
                v = v + 1;
            }
            assert(self.nodes@.take(n as int) =~= self.nodes@);
            let ghost r0 = r@;
            r.push(batch);
            assert forall|j: int| 0 <= j < k + 1 implies texts(#[trigger] r@[j]@) == ids_at(self.nodes@, lv@, j) by {
                if j < k {
                    assert(r@[j] == r0[j]);
                }
            }
            k = k + 1;
        }
        assert(batches_by_level(self.nodes@, lv@, r@));
        r
    }
}

} // verus!
