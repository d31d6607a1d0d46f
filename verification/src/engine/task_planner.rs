//! The task planner: turns a root task and its sub-tasks into an
//! execution plan, and keeps the plan's dependency graph for its analyses.

use vstd::prelude::*;
use crate::engine::types::{Task, TaskModel, clone_strings, texts};
use crate::runtime::now_millis;
use crate::text::str_eq;
use crate::error::AetherisError;
use crate::engine::plan_graph::{GraphNode, GraphEdge, PlanGraph, CriticalPathResult, edge_pairs, duration_sum, toposort_of, is_topological_order, is_critical_path_of, batches_of};
use crate::engine::planner::{TaskDependency, TaskDependencyType, TaskNode, TaskNodeStatus, ExecutionPlan, unique_ids, node_pos, holds_text, vec_holds, graph_nodes_match, dep_edges, graph_built_from, plan_duration_sum, lemma_duration_sums};

verus! {

broadcast use vstd::std_specs::vec::group_vec_axioms, vstd::seq::group_seq_axioms;

/// Plans tasks: keeps the dependency graph of the last plan it looked at.
#[derive(Debug)]
pub struct TaskPlanner {
    pub graph: PlanGraph,
}

impl TaskPlanner {
    /// The graph is well formed.
    pub open spec fn wf(&self) -> bool {
        self.graph.wf()
    }

    /// A planner with an empty graph.
    pub fn new() -> (p: TaskPlanner)
        ensures
            p.wf(),
            p.graph.nodes@.len() == 0,
            p.graph.edges@.len() == 0,
    {
        TaskPlanner { graph: PlanGraph::new() }
    }

    /// The dependency graph the planner holds.
    pub fn graph(&self) -> (g: &PlanGraph)
        ensures
            *g == self.graph,
    {
        &self.graph
    }

    /// Rebuilds the graph from the plan: one node per plan node, in plan
    /// order, and one edge per dependency whose ends are both plan nodes.
    fn build_dependency_graph_from_plan(&mut self, plan: &ExecutionPlan)
        requires
            plan.wf(),
        ensures
            graph_built_from(final(self).graph, *plan),
    {
        let mut nodes: Vec<GraphNode> = Vec::new();
        let mut i: usize = 0;
        while i < plan.nodes.len()
            invariant
                i <= plan.nodes@.len(),
                graph_nodes_match(nodes@, plan.nodes@.subrange(0, i as int)),
            decreases plan.nodes@.len() - i,
        {
            nodes.push(
                GraphNode {
                    node_id: plan.nodes[i].node_id.clone(),
                    estimated_duration_ms: plan.nodes[i].estimated_duration_ms,
                },
            );
            i = i + 1;
        }
        assert(plan.nodes@.subrange(0, plan.nodes@.len() as int) =~= plan.nodes@);
        let mut edges: Vec<GraphEdge> = Vec::new();
        let mut j: usize = 0;
        while j < plan.dependencies.len()
            invariant
                plan.wf(),
                j <= plan.dependencies@.len(),
                nodes@.len() == plan.nodes@.len(),
                forall|e: int|
                    0 <= e < edges@.len() ==> (#[trigger] edges@[e]).source < nodes@.len()
                        && edges@[e].target < nodes@.len(),
                edge_pairs(edges@) == dep_edges(plan.nodes@, plan.dependencies@.subrange(0, j as int)),
            decreases plan.dependencies@.len() - j,
        {
            let dep = &plan.dependencies[j];
            let s = plan.find_node(dep.source_task_id.as_str());
            let t = plan.find_node(dep.target_task_id.as_str());
            let ghost prefix = plan.dependencies@.subrange(0, j + 1);
            assert(prefix.drop_last() =~= plan.dependencies@.subrange(0, j as int));
            assert(prefix.last() == plan.dependencies@[j as int]);
            match (s, t) {
                (Some(si), Some(ti)) => {
                    let ghost old_edges = edges@;
                    edges.push(GraphEdge { source: si, target: ti, dependency: dep.duplicate() });
                    assert(edge_pairs(edges@) =~= edge_pairs(old_edges).push((si, ti)));
                },
                _ => {},
            }
            j = j + 1;
        }
        assert(plan.dependencies@.subrange(0, plan.dependencies@.len() as int) =~= plan.dependencies@);
        self.graph = PlanGraph { nodes, edges };
    }

    /// Rebuilds the graph from the plan when its node count differs from
    /// the plan's; otherwise the graph stays as it is.
    pub(crate) fn ensure_graph_built(&mut self, plan: &ExecutionPlan)
        requires
            old(self).wf(),
            plan.wf(),
        ensures
            final(self).wf(),
            old(self).graph.nodes@.len() == plan.nodes@.len() ==> final(self).graph == old(self).graph,
            old(self).graph.nodes@.len() != plan.nodes@.len() ==> graph_built_from(final(self).graph, *plan),
    {
        if self.graph.nodes.len() != plan.nodes.len() {
            self.build_dependency_graph_from_plan(plan);
        }
    }

    /// The node ids in topological order of the graph the planner holds
    /// once it has looked at the plan, or a planning error when the graph
    /// has a cycle.
    pub fn topological_sort(&mut self, plan: &ExecutionPlan) -> (r: Result<Vec<String>, AetherisError>)
        requires
            old(self).wf(),
            plan.wf(),
        ensures
            final(self).wf(),
            old(self).graph.nodes@.len() == plan.nodes@.len() ==> final(self).graph == old(self).graph,
            old(self).graph.nodes@.len() != plan.nodes@.len() ==> graph_built_from(final(self).graph, *plan),
            match toposort_of(final(self).graph.nodes@.len(), final(self).graph.pairs()) {
                None => r matches Err(AetherisError::Planning(_)),
                Some(o) => r matches Ok(ids) && ids@.len() == o.len() && forall|k: int|
                    0 <= k < o.len() ==> #[trigger] ids@[k]@ == final(self).graph.nodes@[o[k] as int].node_id@,
            },
    {
        self.ensure_graph_built(plan);
        match self.graph.toposort() {
            None => Err(AetherisError::Planning("Circular dependency detected in the task graph".to_string())),
            Some(order) => {
                let mut ids: Vec<String> = Vec::new();
                let mut k: usize = 0;
                while k < order.len()
                    invariant
                        is_topological_order(self.graph.nodes@.len(), self.graph.pairs(), order@),
                        k <= order@.len(),
                        ids@.len() == k,
                        forall|j: int|
                            0 <= j < k ==> #[trigger] ids@[j]@ == self.graph.nodes@[order@[j] as int].node_id@,
                    decreases order@.len() - k,
                {
                    ids.push(self.graph.nodes[order[k]].node_id.clone());
                    k = k + 1;
                }
                Ok(ids)
            },
        }
    }

    /// The tasks of the graph the planner holds once it has looked at the
    /// plan, in batches that can run in parallel: each task in the batch
    /// right after the latest batch of the tasks it depends on (the first
    /// batch for a task without any), each batch in node order; a planning
    /// error when the graph has a cycle.
    pub fn parallel_batches(&mut self, plan: &ExecutionPlan) -> (r: Result<Vec<Vec<String>>, AetherisError>)
        requires
            old(self).wf(),
            plan.wf(),
        ensures
            final(self).wf(),
            old(self).graph.nodes@.len() == plan.nodes@.len() ==> final(self).graph == old(self).graph,
            old(self).graph.nodes@.len() != plan.nodes@.len() ==> graph_built_from(final(self).graph, *plan),
            match toposort_of(final(self).graph.nodes@.len(), final(self).graph.pairs()) {
                None => r matches Err(AetherisError::Planning(_)),
                Some(o) => r matches Ok(b) && batches_of(final(self).graph, b@),
            },
    {
        self.ensure_graph_built(plan);
        match self.graph.toposort() {
            None => Err(AetherisError::Planning("Circular dependency detected in the task graph".to_string())),
            Some(order) => {
                Ok(self.graph.batches_from_order(&order))
            },
        }
    }

    /// The critical path of the graph the planner holds once it has looked
    /// at the plan, along petgraph's topological order; a planning error
    /// when the graph has a cycle.
    pub fn critical_path(&mut self, plan: &ExecutionPlan) -> (r: Result<CriticalPathResult, AetherisError>)
        requires
            old(self).wf(),
            plan.wf(),
            duration_sum(old(self).graph.nodes@) <= u64::MAX,
            plan_duration_sum(plan.nodes@) <= u64::MAX,
        ensures
            final(self).wf(),
            old(self).graph.nodes@.len() == plan.nodes@.len() ==> final(self).graph == old(self).graph,
            old(self).graph.nodes@.len() != plan.nodes@.len() ==> graph_built_from(final(self).graph, *plan),
            match toposort_of(final(self).graph.nodes@.len(), final(self).graph.pairs()) {
                None => r matches Err(AetherisError::Planning(_)),
                Some(o) => r matches Ok(res) && is_critical_path_of(final(self).graph, o, res),
            },
    {
        self.ensure_graph_built(plan);
        proof {
            if old(self).graph.nodes@.len() != plan.nodes@.len() {
                lemma_duration_sums(self.graph.nodes@, plan.nodes@);
            }
        }
        match self.graph.toposort() {
            None => Err(AetherisError::Planning("Circular dependency detected in the task graph".to_string())),
            Some(order) => Ok(self.graph.critical_path_from_order(&order)),
        }
    }
}

/// The position of the last task in `tasks` with the given id.
pub open spec fn last_with_id(tasks: Seq<Task>, id: Seq<char>) -> int
    decreases tasks.len(),
{
    if tasks.len() == 0 {
        -1
    } else if tasks.last().id@ == id {
        tasks.len() - 1
    } else {
        last_with_id(tasks.drop_last(), id)
    }
}

proof fn lemma_last_with_id(tasks: Seq<Task>, id: Seq<char>)
    ensures
        -1 <= last_with_id(tasks, id) < tasks.len(),
        last_with_id(tasks, id) >= 0 ==> tasks[last_with_id(tasks, id)].id@ == id,
        last_with_id(tasks, id) == -1 <==> forall|j: int| 0 <= j < tasks.len() ==> tasks[j].id@ != id,
    decreases tasks.len(),
{
    if tasks.len() > 0 {
        lemma_last_with_id(tasks.drop_last(), id);
        if tasks.last().id@ != id {
            assert forall|j: int| 0 <= j < tasks.len() - 1 implies tasks[j] == tasks.drop_last()[j] by {}
        }
    }
}

/// The estimate the planner gives a task: one second, plus a tenth of a
/// second for each step of priority below 10.
pub open spec fn priority_estimate(priority: u8) -> u64 {
    (1000 + (10 - priority) * 100) as u64
}

/// The nodes hold one node per distinct id of `tasks`, each for the last
/// task with that id, pending, estimated at one second, with three retries.
pub open spec fn fresh_nodes_of(nodes: Seq<TaskNode>, tasks: Seq<Task>) -> bool {
    &&& unique_ids(nodes)
    &&& forall|i: int|
        #![trigger nodes[i]]
        0 <= i < nodes.len() ==> {
            let t = last_with_id(tasks, nodes[i].node_id@);
            &&& 0 <= t < tasks.len()
            &&& nodes[i].task@ == tasks[t]@
            &&& nodes[i].status == TaskNodeStatus::Pending
            &&& nodes[i].estimated_duration_ms == 1000
            &&& nodes[i].actual_duration_ms is None
            &&& nodes[i].retry_count == 0
            &&& nodes[i].max_retries == 3
            &&& nodes[i].dependencies@.len() == 0
            &&& nodes[i].dependents@.len() == 0
        }
    &&& forall|j: int|
        0 <= j < tasks.len() ==> exists|i: int|
            0 <= i < nodes.len() && #[trigger] nodes[i].node_id@ == (#[trigger] tasks[j]).id@
}

/// Each node stands for the last of `tasks` with its id: it holds that
/// task, is pending, has no retries behind it and three allowed, and is
/// estimated from the task's priority; every task id has a node, and no two
/// nodes share an id.
pub open spec fn nodes_planned(nodes: Seq<TaskNode>, tasks: Seq<Task>) -> bool {
    &&& unique_ids(nodes)
    &&& forall|i: int|
        #![trigger nodes[i]]
        0 <= i < nodes.len() ==> {
            let t = last_with_id(tasks, nodes[i].node_id@);
            &&& 0 <= t < tasks.len()
            &&& nodes[i].task@ == tasks[t]@
            &&& nodes[i].status == TaskNodeStatus::Pending
            &&& nodes[i].estimated_duration_ms == priority_estimate(tasks[t].priority)
            &&& nodes[i].retry_count == 0
            &&& nodes[i].max_retries == 3
        }
    &&& forall|j: int|
        0 <= j < tasks.len() ==> exists|i: int|
            0 <= i < nodes.len() && #[trigger] nodes[i].node_id@ == (#[trigger] tasks[j]).id@
}

/// The dependencies make the root depend, hard, on every other node, once
/// each: one dependency per node but the root.
pub open spec fn root_depends_on_rest(deps: Seq<TaskDependency>, nodes: Seq<TaskNode>, root_id: Seq<char>) -> bool {
    &&& deps.len() == nodes.len() - 1
    &&& forall|k: int|
        #![trigger deps[k]]
        0 <= k < deps.len() ==> {
            &&& deps[k].target_task_id@ == root_id
            &&& deps[k].source_task_id@ != root_id
            &&& deps[k].dependency_type == TaskDependencyType::Hard
            &&& exists|i: int| 0 <= i < nodes.len() && #[trigger] nodes[i].node_id@ == deps[k].source_task_id@
        }
    &&& forall|k1: int, k2: int|
        0 <= k1 < k2 < deps.len() ==> (#[trigger] deps[k1]).source_task_id@ != (#[trigger] deps[k2]).source_task_id@
}

/// The nodes' own lists of a plan whose dependencies are `deps`: the root
/// holds every dependency, each other node holds none and has the root as
/// its only dependent, and the root has no dependents.
pub open spec fn node_links(nodes: Seq<TaskNode>, deps: Seq<TaskDependency>, root_id: Seq<char>) -> bool {
    forall|i: int|
        #![trigger nodes[i]]
        0 <= i < nodes.len() ==> {
            &&& nodes[i].dependencies@ == if nodes[i].node_id@ == root_id {
                deps
            } else {
                Seq::<TaskDependency>::empty()
            }
            &&& texts(nodes[i].dependents@) == if nodes[i].node_id@ == root_id {
                Seq::<Seq<char>>::empty()
            } else {
                seq![root_id]
            }
        }
}

/// The node keeps the id, status, task and retry counts of `before`.
pub open spec fn keeps_node(after: TaskNode, before: TaskNode) -> bool {
    &&& after.node_id == before.node_id
    &&& after.status == before.status
    &&& after.task == before.task
    &&& after.estimated_duration_ms == before.estimated_duration_ms
    &&& after.retry_count == before.retry_count
    &&& after.max_retries == before.max_retries
}

/// `after` is `before` with each node estimated from its task's priority.
#[verifier::opaque]
pub open spec fn estimated_nodes(after: Seq<TaskNode>, before: Seq<TaskNode>) -> bool {
    &&& after.len() == before.len()
    &&& forall|i: int|
        0 <= i < after.len() ==> (#[trigger] after[i]) == (TaskNode {
            estimated_duration_ms: priority_estimate(before[i].task.priority),
            ..before[i]
        })
}

/// `p` is the plan `nodes_for_tasks` makes of `tasks`.
#[verifier::opaque]
spec fn fresh_plan(p: ExecutionPlan, tasks: Seq<Task>) -> bool {
    fresh_nodes_of(p.nodes@, tasks)
}

/// `after` is `before` with its nodes kept and the root's dependencies added.
#[verifier::opaque]
spec fn built_deps(after: ExecutionPlan, before: ExecutionPlan) -> bool {
    &&& after.nodes@.len() == before.nodes@.len()
    &&& forall|i: int| 0 <= i < after.nodes@.len() ==> keeps_node(#[trigger] after.nodes@[i], before.nodes@[i])
    &&& root_depends_on_rest(after.dependencies@, before.nodes@, before.root_task_id@)
}

proof fn lemma_node_planned(fr: TaskNode, md: TaskNode, fi: TaskNode, tasks: Seq<Task>)
    requires
        keeps_node(md, fr),
        fi == (TaskNode { estimated_duration_ms: priority_estimate(md.task.priority), ..md }),
        ({
            let t = last_with_id(tasks, fr.node_id@);
            &&& 0 <= t < tasks.len()
            &&& fr.task@ == tasks[t]@
            &&& fr.status == TaskNodeStatus::Pending
            &&& fr.retry_count == 0
            &&& fr.max_retries == 3
        }),
    ensures
        fi.node_id == fr.node_id,
        ({
            let t = last_with_id(tasks, fi.node_id@);
            &&& 0 <= t < tasks.len()
            &&& fi.task@ == tasks[t]@
            &&& fi.status == TaskNodeStatus::Pending
            &&& fi.estimated_duration_ms == priority_estimate(tasks[t].priority)
            &&& fi.retry_count == 0
            &&& fi.max_retries == 3
        }),
{
}

#[verifier::spinoff_prover]
#[verifier::rlimit(80)]
proof fn lemma_nodes_planned(fresh: Seq<TaskNode>, mid: Seq<TaskNode>, fin: Seq<TaskNode>, tasks: Seq<Task>)
    requires
        fresh_nodes_of(fresh, tasks),
        mid.len() == fresh.len(),
        forall|i: int| 0 <= i < mid.len() ==> keeps_node(#[trigger] mid[i], fresh[i]),
        estimated_nodes(fin, mid),
    ensures
        nodes_planned(fin, tasks),
        forall|i: int| 0 <= i < fin.len() ==> (#[trigger] fin[i]).node_id == fresh[i].node_id,
{
    reveal(estimated_nodes);
    assert forall|i: int| 0 <= i < fin.len() implies (#[trigger] fin[i]).node_id == fresh[i].node_id && {
        let t = last_with_id(tasks, fin[i].node_id@);
        &&& 0 <= t < tasks.len()
        &&& fin[i].task@ == tasks[t]@
        &&& fin[i].status == TaskNodeStatus::Pending
        &&& fin[i].estimated_duration_ms == priority_estimate(tasks[t].priority)
        &&& fin[i].retry_count == 0
        &&& fin[i].max_retries == 3
    } by {
        assert(keeps_node(mid[i], fresh[i]));
        assert(fresh[i] == fresh[i]);
        lemma_node_planned(fresh[i], mid[i], fin[i], tasks);
    }
    assert forall|a: int, b: int|
        0 <= a < fin.len() && 0 <= b < fin.len() && a != b implies #[trigger] fin[a].node_id@ != #[trigger] fin[b].node_id@ by {
        assert(fin[a].node_id == fresh[a].node_id);
        assert(fin[b].node_id == fresh[b].node_id);
    }
    assert forall|j: int| 0 <= j < tasks.len() implies exists|i: int|
        0 <= i < fin.len() && #[trigger] fin[i].node_id@ == (#[trigger] tasks[j]).id@ by {
        let i = choose|i: int| 0 <= i < fresh.len() && #[trigger] fresh[i].node_id@ == tasks[j].id@;
        assert(fin[i].node_id == fresh[i].node_id);
    }
}

proof fn lemma_root_deps_same_ids(deps: Seq<TaskDependency>, a: Seq<TaskNode>, b: Seq<TaskNode>, root_id: Seq<char>)
    requires
        root_depends_on_rest(deps, a, root_id),
        a.len() == b.len(),
        forall|i: int| 0 <= i < b.len() ==> (#[trigger] b[i]).node_id == a[i].node_id,
    ensures
        root_depends_on_rest(deps, b, root_id),
{
    assert forall|k: int| 0 <= k < deps.len() implies exists|i: int|
        0 <= i < b.len() && #[trigger] b[i].node_id@ == (#[trigger] deps[k]).source_task_id@ by {
        let i = choose|i: int| 0 <= i < a.len() && #[trigger] a[i].node_id@ == deps[k].source_task_id@;
        assert(b[i].node_id == a[i].node_id);
    }
}

proof fn lemma_links_kept(mid: Seq<TaskNode>, fin: Seq<TaskNode>, deps: Seq<TaskDependency>, root_id: Seq<char>)
    requires
        estimated_nodes(fin, mid),
        node_links(mid, deps, root_id),
    ensures
        node_links(fin, deps, root_id),
{
    reveal(estimated_nodes);
    assert forall|i: int| 0 <= i < fin.len() implies #[trigger] fin[i] == (TaskNode {
        estimated_duration_ms: priority_estimate(mid[i].task.priority),
        ..mid[i]
    }) by {}
}

#[verifier::spinoff_prover]
#[verifier::rlimit(60)]
proof fn lemma_plan(fresh: ExecutionPlan, mid: ExecutionPlan, fin: ExecutionPlan, tasks: Seq<Task>)
    requires
        fresh_plan(fresh, tasks),
        built_deps(mid, fresh),
        estimated_nodes(fin.nodes@, mid.nodes@),
        fin.dependencies == mid.dependencies,
    ensures
        nodes_planned(fin.nodes@, tasks),
        root_depends_on_rest(fin.dependencies@, fin.nodes@, fresh.root_task_id@),
        fin.nodes@.len() == fresh.nodes@.len(),
        forall|i: int| 0 <= i < fin.nodes@.len() ==> (#[trigger] fin.nodes@[i]).node_id == fresh.nodes@[i].node_id,
        forall|i: int| 0 <= i < fresh.nodes@.len() ==> (#[trigger] fresh.nodes@[i]).estimated_duration_ms == 1000,
{
    reveal(fresh_plan);
    reveal(built_deps);
    reveal(estimated_nodes);
    lemma_nodes_planned(fresh.nodes@, mid.nodes@, fin.nodes@, tasks);
    lemma_root_deps_same_ids(fin.dependencies@, fresh.nodes@, fin.nodes@, fresh.root_task_id@);
}

impl TaskPlanner {
    /// Plans the root task and its sub-tasks: one node per distinct task
    /// id (a later task replaces an earlier one with the same id), and,
    /// when there is more than one node, a hard dependency of the root on
    /// each other node. The planner's graph mirrors the nodes as they were
    /// before estimation, with those dependencies as edges; then each node
    /// is estimated from its priority.
    #[verifier::spinoff_prover]
    #[verifier::rlimit(60)]
    pub fn plan(&mut self, root_task: Task, sub_tasks: Vec<Task>) -> (r: Result<ExecutionPlan, AetherisError>)
        requires
            root_task.priority <= 10,
            forall|j: int| 0 <= j < sub_tasks@.len() ==> (#[trigger] sub_tasks@[j]).priority <= 10,
        ensures
            final(self).wf(),
            r matches Ok(p) && {
                &&& p.wf()
                &&& p.root_task_id@ == root_task.id@
                &&& nodes_planned(p.nodes@, seq![root_task].add(sub_tasks@))
                &&& root_depends_on_rest(p.dependencies@, p.nodes@, root_task.id@)
                &&& node_links(p.nodes@, p.dependencies@, root_task.id@)
                &&& final(self).graph.nodes@.len() == p.nodes@.len()
                &&& forall|i: int|
                    0 <= i < p.nodes@.len() ==> (#[trigger] final(self).graph.nodes@[i]).node_id@
                        == p.nodes@[i].node_id@ && final(self).graph.nodes@[i].estimated_duration_ms == 1000
                &&& final(self).graph.edges@.len() == p.dependencies@.len()
            },
    {
        let ghost tasks = seq![root_task].add(sub_tasks@);
        let mut plan = Self::nodes_for_tasks(root_task, sub_tasks);
        let ghost fresh = plan;
        self.build_dependency_graph(&mut plan);
        let ghost mid = plan;
        self.estimate_durations(&mut plan);
        proof {
            lemma_plan(fresh, mid, plan, tasks);
            lemma_links_kept(mid.nodes@, plan.nodes@, plan.dependencies@, root_task.id@);
        }
        Ok(plan)
    }
    /// A plan for the root task with one fresh node per distinct task id,
    /// the later of two tasks with one id winning.
    fn nodes_for_tasks(root_task: Task, sub_tasks: Vec<Task>) -> (plan: ExecutionPlan)
        requires
            root_task.priority <= 10,
            forall|j: int| 0 <= j < sub_tasks@.len() ==> (#[trigger] sub_tasks@[j]).priority <= 10,
        ensures
            plan.wf(),
            plan.root_task_id@ == root_task.id@,
            plan.dependencies@.len() == 0,
            fresh_plan(plan, seq![root_task].add(sub_tasks@)),
            forall|i: int| 0 <= i < plan.nodes@.len() ==> (#[trigger] plan.nodes@[i]).dependencies@.len() == 0,
            forall|i: int| 0 <= i < plan.nodes@.len() ==> (#[trigger] plan.nodes@[i]).dependents@.len() == 0,
            exists|i: int| 0 <= i < plan.nodes@.len() && #[trigger] plan.nodes@[i].node_id@ == root_task.id@,
            forall|i: int| 0 <= i < plan.nodes@.len() ==> (#[trigger] plan.nodes@[i]).task.priority <= 10,
    {
        let mut plan = ExecutionPlan::new(root_task.id.clone());
        let ghost tasks = seq![root_task].add(sub_tasks@);
        let ghost root_id = root_task.id@;
        assert(tasks[0] == root_task);
        let node = TaskNode::new(root_task);
        plan.add_node(node);
        proof {
            assert(tasks.subrange(0, 1) =~= seq![tasks[0]]);
            assert(last_with_id(tasks.subrange(0, 1), root_id) == 0) by {
                assert(tasks.subrange(0, 1).last().id@ == root_id);
            }
            assert(plan.nodes@ =~= seq![node]);
            let t1 = tasks.subrange(0, 1);
            assert(t1[0] == root_task);
            assert(plan.nodes@[0].node_id@ == t1[0].id@);
            assert(plan.nodes@[0].task@ == t1[0]@);
            assert(fresh_nodes_of(plan.nodes@, t1));
        }
        let mut rest = sub_tasks;
        let ghost mut k: int = 1;
        while rest.len() > 0
            invariant
                plan.wf(),
                plan.root_task_id@ == root_id,
                plan.dependencies@.len() == 0,
                1 <= k <= tasks.len(),
                rest@ == tasks.subrange(k, tasks.len() as int),
                fresh_nodes_of(plan.nodes@, tasks.subrange(0, k)),
                forall|j: int| 0 <= j < tasks.len() ==> (#[trigger] tasks[j]).priority <= 10,
                tasks[0].id@ == root_id,
                exists|i: int| 0 <= i < plan.nodes@.len() && #[trigger] plan.nodes@[i].node_id@ == root_id,
                forall|i: int| 0 <= i < plan.nodes@.len() ==> (#[trigger] plan.nodes@[i]).task.priority <= 10,
            decreases rest@.len(),
        {
            let t = rest.remove(0);
            let ghost before = plan.nodes@;
            let ghost pre = tasks.subrange(0, k);
            let ghost post = tasks.subrange(0, k + 1);
            assert(post.drop_last() =~= pre);
            assert(post.last() == t);
            let ghost tid = t.id@;
            plan.add_node(TaskNode::new(t));
            proof {
                assert forall|i: int| #![trigger plan.nodes@[i]] 0 <= i < plan.nodes@.len() implies {
                    let lt = last_with_id(post, plan.nodes@[i].node_id@);
                    &&& 0 <= lt < post.len()
                    &&& plan.nodes@[i].task@ == post[lt]@
                    &&& plan.nodes@[i].status == TaskNodeStatus::Pending
                    &&& plan.nodes@[i].estimated_duration_ms == 1000
                    &&& plan.nodes@[i].actual_duration_ms is None
                    &&& plan.nodes@[i].retry_count == 0
                    &&& plan.nodes@[i].max_retries == 3
                    &&& plan.nodes@[i].dependencies@.len() == 0
                    &&& plan.nodes@[i].dependents@.len() == 0
                } by {
                    if plan.nodes@[i].node_id@ != tid {
                        assert(i < before.len());
                        assert(plan.nodes@[i] == before[i]);
                    }
                }
                assert forall|i: int| 0 <= i < before.len() implies plan.nodes@[i].node_id@ == #[trigger] before[i].node_id@ by {
                    match node_pos(before, tid) {
                        Some(p) => {},
                        None => {},
                    }
                }
                assert forall|j: int| 0 <= j < post.len() implies exists|i: int|
                    0 <= i < plan.nodes@.len() && #[trigger] plan.nodes@[i].node_id@ == (#[trigger] post[j]).id@ by {
                    if j < k {
                        assert(post[j] == pre[j]);
                        let i = choose|i: int| 0 <= i < before.len() && #[trigger] before[i].node_id@ == pre[j].id@;
                        assert(plan.nodes@[i].node_id@ == before[i].node_id@);
                    } else {
                        match node_pos(before, tid) {
                            Some(p) => assert(plan.nodes@[p].node_id@ == tid),
                            None => assert(plan.nodes@[before.len() as int].node_id@ == tid),
                        }
                    }
                }
                let r0 = choose|i: int| 0 <= i < before.len() && #[trigger] before[i].node_id@ == root_id;
                assert(plan.nodes@[r0].node_id@ == before[r0].node_id@);
                assert forall|i: int| 0 <= i < plan.nodes@.len() implies (#[trigger] plan.nodes@[i]).task.priority <= 10 by {
                    let lt = last_with_id(post, plan.nodes@[i].node_id@);
                    assert(post[lt] == tasks[lt]);
                }
                assert(rest@ =~= tasks.subrange(k + 1, tasks.len() as int));
                k = k + 1;
            }
        }
        assert(tasks.subrange(0, tasks.len() as int) =~= tasks);
        assert(fresh_plan(plan, tasks)) by {
            reveal(fresh_plan);
        }
        assert(forall|i: int| 0 <= i < plan.nodes@.len() ==> (#[trigger] plan.nodes@[i]).dependents@.len() == 0) by {
            reveal(fresh_plan);
        }
        plan
    }
}

impl TaskPlanner {
    /// Mirrors the plan's nodes in the graph and, when there is more than
    /// one node, makes the root depend (hard) on every other node, in node
    /// order, both in the plan and as graph edges.
    fn build_dependency_graph(&mut self, plan: &mut ExecutionPlan)
        requires
            old(plan).wf(),
            old(plan).dependencies@.len() == 0,
            forall|i: int| 0 <= i < old(plan).nodes@.len() ==> (#[trigger] old(plan).nodes@[i]).dependencies@.len() == 0,
            forall|i: int| 0 <= i < old(plan).nodes@.len() ==> (#[trigger] old(plan).nodes@[i]).dependents@.len() == 0,
            exists|i: int| 0 <= i < old(plan).nodes@.len() && #[trigger] old(plan).nodes@[i].node_id@ == old(plan).root_task_id@,
            forall|i: int| 0 <= i < old(plan).nodes@.len() ==> (#[trigger] old(plan).nodes@[i]).task.priority <= 10,
        ensures
            forall|i: int| 0 <= i < final(plan).nodes@.len() ==> (#[trigger] final(plan).nodes@[i]).task.priority <= 10,
            final(self).wf(),
            final(plan).wf(),
            final(plan).root_task_id == old(plan).root_task_id,
            built_deps(*final(plan), *old(plan)),
            graph_nodes_match(final(self).graph.nodes@, old(plan).nodes@),
            final(self).graph.edges@.len() == final(plan).dependencies@.len(),
            node_links(final(plan).nodes@, final(plan).dependencies@, old(plan).root_task_id@),
    {
        let n = plan.nodes.len();
        let mut nodes: Vec<GraphNode> = Vec::new();
        let mut i: usize = 0;
        while i < n
            invariant
                n == plan.nodes@.len(),
                i <= n,
                graph_nodes_match(nodes@, plan.nodes@.subrange(0, i as int)),
            decreases n - i,
        {
            nodes.push(
                GraphNode {
                    node_id: plan.nodes[i].node_id.clone(),
                    estimated_duration_ms: plan.nodes[i].estimated_duration_ms,
                },
            );
            i = i + 1;
        }
        assert(plan.nodes@.subrange(0, n as int) =~= plan.nodes@);
        let mut edges: Vec<GraphEdge> = Vec::new();
        if n <= 1 {
            self.graph = PlanGraph { nodes, edges };
            assert(built_deps(*plan, *old(plan))) by {
                reveal(built_deps);
            }
            proof {
                assert forall|i: int| 0 <= i < plan.nodes@.len() implies #[trigger] plan.nodes@[i].node_id@ == plan.root_task_id@ by {
                    let r = choose|r: int| 0 <= r < plan.nodes@.len() && #[trigger] plan.nodes@[r].node_id@ == plan.root_task_id@;
                    assert(r == 0 && i == 0);
                }
                assert forall|i: int| 0 <= i < plan.nodes@.len() implies texts(#[trigger] plan.nodes@[i].dependents@) =~= Seq::<Seq<char>>::empty()
                    && plan.nodes@[i].dependencies@ =~= plan.dependencies@ by {}
            }
            return;
        }
        let root_id = plan.root_task_id.clone();
        let root_idx = match plan.find_node(root_id.as_str()) {
            Some(r) => r,
            None => {
                proof {
                    let i = choose|i: int| 0 <= i < plan.nodes@.len() && #[trigger] plan.nodes@[i].node_id@ == plan.root_task_id@;
                    assert(false);
                }
                return;
            },
        };
        let ghost start = *plan;
        proof {
            assert forall|i: int| 0 <= i < n implies texts(#[trigger] plan.nodes@[i].dependents@) =~= Seq::<Seq<char>>::empty() by {}
            assert forall|i: int| 0 <= i < n implies (#[trigger] plan.nodes@[i]).dependencies@ =~= Seq::<TaskDependency>::empty() by {}
        }
        let mut j: usize = 0;
        while j < n
            invariant
                n == plan.nodes@.len(),
                n == start.nodes@.len(),
                n > 1,
                root_idx < n,
                start.nodes@[root_idx as int].node_id@ == root_id@,
                root_id@ == start.root_task_id@,
                unique_ids(start.nodes@),
                plan.wf(),
                plan.root_task_id == start.root_task_id,
                j <= n,
                forall|i: int|
                    0 <= i < n ==> (#[trigger] plan.nodes@[i]).node_id == start.nodes@[i].node_id
                        && plan.nodes@[i].status == start.nodes@[i].status
                        && plan.nodes@[i].task == start.nodes@[i].task
                        && plan.nodes@[i].estimated_duration_ms == start.nodes@[i].estimated_duration_ms
                        && plan.nodes@[i].retry_count == start.nodes@[i].retry_count
                        && plan.nodes@[i].max_retries == start.nodes@[i].max_retries,
                plan.dependencies@.len() == edges@.len(),
                plan.dependencies@.len() == if root_idx < j { j - 1 } else { j as int },
                forall|e: int| 0 <= e < edges@.len() ==> (#[trigger] edges@[e]).source < n && edges@[e].target < n,
                forall|k: int|
                    #![trigger plan.dependencies@[k]]
                    0 <= k < plan.dependencies@.len() ==> {
                        &&& plan.dependencies@[k].target_task_id@ == start.root_task_id@
                        &&& plan.dependencies@[k].source_task_id@ != start.root_task_id@
                        &&& plan.dependencies@[k].dependency_type == TaskDependencyType::Hard
                        &&& exists|i: int| 0 <= i < j && #[trigger] start.nodes@[i].node_id@ == plan.dependencies@[k].source_task_id@
                    },
                forall|k1: int, k2: int|
                    0 <= k1 < k2 < plan.dependencies@.len() ==> (#[trigger] plan.dependencies@[k1]).source_task_id@
                        != (#[trigger] plan.dependencies@[k2]).source_task_id@,
                forall|i: int|
                    #![trigger plan.nodes@[i]]
                    0 <= i < n ==> {
                        &&& plan.nodes@[i].dependencies@ == if i == root_idx {
                            plan.dependencies@
                        } else {
                            Seq::<TaskDependency>::empty()
                        }
                        &&& texts(plan.nodes@[i].dependents@) == if i != root_idx && i < j {
                            seq![root_id@]
                        } else {
                            Seq::<Seq<char>>::empty()
                        }
                    },
            decreases n - j,
        {
            let is_root = str_eq(plan.nodes[j].node_id.as_str(), root_id.as_str());
            proof {
                if !is_root {
                    assert(j != root_idx);
                } else {
                    assert(plan.nodes@[j as int].node_id@ == start.nodes@[root_idx as int].node_id@);
                    assert(j == root_idx);
                }
            }
            if !is_root {
                let dep = TaskDependency::new(
                    plan.nodes[j].node_id.clone(),
                    root_id.clone(),
                    TaskDependencyType::Hard,
                );
                let ghost old_deps = plan.dependencies@;
                let ghost jid = start.nodes@[j as int].node_id@;
                edges.push(GraphEdge { source: j, target: root_idx, dependency: dep.duplicate() });
                plan.add_dependency(dep);
                proof {
                    assert forall|k: int| 0 <= k < old_deps.len() implies (#[trigger] plan.dependencies@[k]).source_task_id@ != jid by {
                        assert(plan.dependencies@[k] == old_deps[k]);
                        let i = choose|i: int| 0 <= i < j && #[trigger] start.nodes@[i].node_id@ == old_deps[k].source_task_id@;
                        assert(start.nodes@[i].node_id@ != start.nodes@[j as int].node_id@);
                    }
                    assert(start.nodes@[j as int].node_id@ == plan.dependencies@[old_deps.len() as int].source_task_id@);
                    assert forall|i: int| 0 <= i < n implies (#[trigger] start.nodes@[i].node_id@ == root_id@) == (i == root_idx)
                        && (start.nodes@[i].node_id@ == jid) == (i == j) by {
                        if i != root_idx {
                            assert(start.nodes@[i].node_id@ != start.nodes@[root_idx as int].node_id@);
                        }
                        if i != j {
                            assert(start.nodes@[i].node_id@ != start.nodes@[j as int].node_id@);
                        }
                    }
                    assert forall|i: int| 0 <= i < n implies texts((#[trigger] plan.nodes@[i]).dependents@) == if i != root_idx
                        && i < j + 1 {
                        seq![root_id@]
                    } else {
                        Seq::<Seq<char>>::empty()
                    } by {
                        assert(start.nodes@[i].node_id@ == root_id@ || start.nodes@[i].node_id@ != root_id@);
                        if i == j {
                            assert(texts(plan.nodes@[i].dependents@) =~= seq![root_id@]);
                        }
                    }
                }
            }
            j = j + 1;
        }
        self.graph = PlanGraph { nodes, edges };
        assert(built_deps(*plan, *old(plan))) by {
            reveal(built_deps);
        }
        proof {
            assert forall|i: int| 0 <= i < n implies (#[trigger] plan.nodes@[i].node_id@ == root_id@) == (i == root_idx) by {
                if i != root_idx {
                    assert(start.nodes@[i].node_id@ != start.nodes@[root_idx as int].node_id@);
                }
            }
        }
    }

    /// Estimates every node from its task's priority.
    fn estimate_durations(&self, plan: &mut ExecutionPlan)
        requires
            forall|i: int| 0 <= i < old(plan).nodes@.len() ==> (#[trigger] old(plan).nodes@[i]).task.priority <= 10,
        ensures
            estimated_nodes(final(plan).nodes@, old(plan).nodes@),
            final(plan).root_task_id == old(plan).root_task_id,
            final(plan).dependencies == old(plan).dependencies,
            final(plan).plan_id == old(plan).plan_id,
            final(plan).created_at == old(plan).created_at,
            final(plan).updated_at == old(plan).updated_at,
    {
        let n = plan.nodes.len();
        let mut i: usize = 0;
        while i < n
            invariant
                n == plan.nodes@.len(),
                n == old(plan).nodes@.len(),
                i <= n,
                forall|j: int| i <= j < n ==> plan.nodes@[j] == old(plan).nodes@[j],
                forall|j: int| 0 <= j < n ==> (#[trigger] old(plan).nodes@[j]).task.priority <= 10,
                forall|j: int|
                    0 <= j < i ==> (#[trigger] plan.nodes@[j]) == (TaskNode {
                        estimated_duration_ms: priority_estimate(old(plan).nodes@[j].task.priority),
                        ..old(plan).nodes@[j]
                    }),
                plan.root_task_id == old(plan).root_task_id,
                plan.dependencies == old(plan).dependencies,
                plan.plan_id == old(plan).plan_id,
                plan.created_at == old(plan).created_at,
                plan.updated_at == old(plan).updated_at,
            decreases n - i,
        {
            let mut node = plan.nodes.remove(i);
            let factor = (10 - node.task.priority) as u64 * 100;
            node.estimated_duration_ms = 1000 + factor;
            plan.nodes.insert(i, node);
            i = i + 1;
        }
        assert(estimated_nodes(plan.nodes@, old(plan).nodes@)) by {
            reveal(estimated_nodes);
        }
    }
}

} // verus!
