//! Changing a plan after it was made: replanning after a failure, and
//! adding and removing tasks.

use vstd::prelude::*;
use crate::engine::types::{Task, TaskModel, clone_strings};
use crate::runtime::now_millis;
use crate::text::str_eq;
use crate::error::AetherisError;
use crate::engine::planner::{TaskDependency, TaskDependencyType, TaskNode, TaskNodeStatus, ExecutionPlan, unique_ids, node_pos, holds_text, vec_holds, graph_built_from};
use crate::engine::task_planner::TaskPlanner;

verus! {

broadcast use vstd::std_specs::vec::group_vec_axioms, vstd::seq::group_seq_axioms;

/// The node has a hard dependency on the task `failed`.
pub open spec fn hard_dep_on(node: TaskNode, failed: Seq<char>) -> bool {
    exists|k: int|
        0 <= k < node.dependencies@.len() && (#[trigger] node.dependencies@[k]).source_task_id@ == failed
            && node.dependencies@[k].dependency_type == TaskDependencyType::Hard
}

/// The node after a failure of `failed` that cannot be retried: skipped when
/// the failed node lists it as a dependent and it depends hard on the failed
/// task; unchanged otherwise.
pub open spec fn after_failure(node: TaskNode, failed_node: Option<TaskNode>, failed: Seq<char>) -> TaskNode {
    match failed_node {
        Some(f) => if holds_text(f.dependents@, node.node_id@) && hard_dep_on(node, failed) {
            TaskNode { status: TaskNodeStatus::Skipped, ..node }
        } else {
            node
        },
        None => node,
    }
}

/// Whether the node depends hard on the task `failed`.
fn depends_hard_on(node: &TaskNode, failed: &str) -> (r: bool)
    ensures
        r == hard_dep_on(*node, failed@),
{
    let mut k: usize = 0;
    while k < node.dependencies.len()
        invariant
            k <= node.dependencies@.len(),
            forall|q: int|
                0 <= q < k ==> !((#[trigger] node.dependencies@[q]).source_task_id@ == failed@
                    && node.dependencies@[q].dependency_type == TaskDependencyType::Hard),
        decreases node.dependencies@.len() - k,
    {
        let d = &node.dependencies[k];
        if str_eq(d.source_task_id.as_str(), failed) && d.dependency_type == TaskDependencyType::Hard {
            return true;
        }
        k = k + 1;
    }
    false
}

impl TaskPlanner {
    /// Replans after a task failed: a failed node with retries left goes
    /// back to pending; otherwise each node the failed node lists as a
    /// dependent and that depends hard on it is skipped. The update time is
    /// stamped either way.
    pub fn replan(&mut self, plan: ExecutionPlan, failed_task_id: &str) -> (r: Result<ExecutionPlan, AetherisError>)
        requires
            plan.wf(),
        ensures
            r matches Ok(p) && {
                &&& p.wf()
                &&& p.root_task_id == plan.root_task_id
                &&& p.dependencies == plan.dependencies
                &&& p.plan_id == plan.plan_id
                &&& p.created_at == plan.created_at
                &&& p.nodes@.len() == plan.nodes@.len()
                &&& match node_pos(plan.nodes@, failed_task_id@) {
                    Some(i) => if plan.nodes@[i].status == TaskNodeStatus::Failed && plan.nodes@[i].retry_count
                        < plan.nodes@[i].max_retries {
                        p.nodes@ == plan.nodes@.update(i, TaskNode { status: TaskNodeStatus::Pending, ..plan.nodes@[i] })
                    } else {
                        forall|j: int| 0 <= j < p.nodes@.len() ==> #[trigger] p.nodes@[j] == after_failure(
                            plan.nodes@[j],
                            Some(plan.nodes@[i]),
                            failed_task_id@,
                        )
                    },
                    None => p.nodes@ == plan.nodes@,
                }
            },
    {
        let mut plan = plan;
        let ghost old_plan = plan;
        let ghost old_nodes = plan.nodes@;
        let found = plan.find_node(failed_task_id);
        match found {
            None => {
                plan.updated_at = now_millis();
                return Ok(plan);
            },
            Some(fi) => {
                if plan.nodes[fi].can_retry() {
                    let mut node = plan.nodes.remove(fi);
                    node.reset_for_retry();
                    plan.nodes.insert(fi, node);
                    proof {
                        assert(plan.nodes@ =~= old_nodes.update(fi as int, TaskNode { status: TaskNodeStatus::Pending, ..old_nodes[fi as int] }));
                        assert forall|a: int, b: int|
                            0 <= a < plan.nodes@.len() && 0 <= b < plan.nodes@.len() && a != b implies #[trigger] plan.nodes@[a].node_id@
                                != #[trigger] plan.nodes@[b].node_id@ by {
                            assert(plan.nodes@[a].node_id == old_nodes[a].node_id);
                            assert(plan.nodes@[b].node_id == old_nodes[b].node_id);
                        }
                    }
                    plan.updated_at = now_millis();
                    return Ok(plan);
                }
                let dependents = clone_strings(&plan.nodes[fi].dependents);
                let ghost failed_node = old_nodes[fi as int];
                let n = plan.nodes.len();
                let mut j: usize = 0;
                while j < n
                    invariant
                        n == plan.nodes@.len(),
                        n == old_nodes.len(),
                        j <= n,
                        dependents@ == failed_node.dependents@,
                        plan.root_task_id == old_plan.root_task_id,
                        plan.dependencies == old_plan.dependencies,
                        plan.plan_id == old_plan.plan_id,
                        plan.created_at == old_plan.created_at,
                        forall|q: int| 0 <= q < j ==> #[trigger] plan.nodes@[q] == after_failure(old_nodes[q], Some(failed_node), failed_task_id@),
                        forall|q: int| j <= q < n ==> #[trigger] plan.nodes@[q] == old_nodes[q],
                    decreases n - j,
                {
                    let listed = vec_holds(&dependents, plan.nodes[j].node_id.as_str());
                    let hard = depends_hard_on(&plan.nodes[j], failed_task_id);
                    if listed && hard {
                        let mut node = plan.nodes.remove(j);
                        node.status = TaskNodeStatus::Skipped;
                        plan.nodes.insert(j, node);
                    }
                    proof {
                        assert(plan.nodes@[j as int] == after_failure(old_nodes[j as int], Some(failed_node), failed_task_id@));
                    }
                    j = j + 1;
                }
                proof {
                    assert forall|a: int, b: int|
                        0 <= a < plan.nodes@.len() && 0 <= b < plan.nodes@.len() && a != b implies #[trigger] plan.nodes@[a].node_id@
                            != #[trigger] plan.nodes@[b].node_id@ by {
                        assert(plan.nodes@[a].node_id == old_nodes[a].node_id);
                        assert(plan.nodes@[b].node_id == old_nodes[b].node_id);
                    }
                }
                plan.updated_at = now_millis();
                Ok(plan)
            },
        }
    }
}

/// The node is the fresh node of the task: same id and task, no
/// dependencies or dependents, pending, estimated at a second, no retries
/// behind it and three allowed.
pub open spec fn fresh_node(n: TaskNode, t: Task) -> bool {
    &&& n.node_id@ == t.id@
    &&& n.task@ == t@
    &&& n.dependencies@.len() == 0
    &&& n.dependents@.len() == 0
    &&& n.status == TaskNodeStatus::Pending
    &&& n.estimated_duration_ms == 1000
    &&& n.actual_duration_ms is None
    &&& n.retry_count == 0
    &&& n.max_retries == 3
}

/// The dependencies whose source is not `id`, in order.
pub open spec fn drop_sources(deps: Seq<TaskDependency>, id: Seq<char>) -> Seq<TaskDependency>
    decreases deps.len(),
{
    if deps.len() == 0 {
        Seq::empty()
    } else if deps.last().source_task_id@ == id {
        drop_sources(deps.drop_last(), id)
    } else {
        drop_sources(deps.drop_last(), id).push(deps.last())
    }
}

/// The dependencies that neither start nor end at `id`, in order.
pub open spec fn drop_touching(deps: Seq<TaskDependency>, id: Seq<char>) -> Seq<TaskDependency>
    decreases deps.len(),
{
    if deps.len() == 0 {
        Seq::empty()
    } else if deps.last().source_task_id@ == id || deps.last().target_task_id@ == id {
        drop_touching(deps.drop_last(), id)
    } else {
        drop_touching(deps.drop_last(), id).push(deps.last())
    }
}

/// The strings other than `x`, in order.
pub open spec fn drop_text(s: Seq<String>, x: Seq<char>) -> Seq<String>
    decreases s.len(),
{
    if s.len() == 0 {
        Seq::empty()
    } else if s.last()@ == x {
        drop_text(s.drop_last(), x)
    } else {
        drop_text(s.drop_last(), x).push(s.last())
    }
}

/// Some dependency of the removed node has this source.
pub open spec fn sources_include(deps: Seq<TaskDependency>, x: Seq<char>) -> bool {
    exists|k: int| 0 <= k < deps.len() && (#[trigger] deps[k]).source_task_id@ == x
}

/// The node `after` is `before` once the node `removed`, with id `id`, has
/// left the plan: a dependent of the removed node drops its dependencies on
/// it; a source of one of its dependencies drops it from its dependents.
pub open spec fn cleaned_node(after: TaskNode, before: TaskNode, removed: TaskNode, id: Seq<char>) -> bool {
    &&& after.node_id == before.node_id
    &&& after.task == before.task
    &&& after.status == before.status
    &&& after.estimated_duration_ms == before.estimated_duration_ms
    &&& after.actual_duration_ms == before.actual_duration_ms
    &&& after.retry_count == before.retry_count
    &&& after.max_retries == before.max_retries
    &&& after.dependencies@ == (if holds_text(removed.dependents@, before.node_id@) {
        drop_sources(before.dependencies@, id)
    } else {
        before.dependencies@
    })
    &&& after.dependents@ == (if sources_include(removed.dependencies@, before.node_id@) {
        drop_text(before.dependents@, id)
    } else {
        before.dependents@
    })
}

fn without_sources(deps: &Vec<TaskDependency>, id: &str) -> (r: Vec<TaskDependency>)
    ensures
        r@ == drop_sources(deps@, id@),
{
    let mut r: Vec<TaskDependency> = Vec::new();
    let mut k: usize = 0;
    while k < deps.len()
        invariant
            k <= deps@.len(),
            r@ == drop_sources(deps@.subrange(0, k as int), id@),
        decreases deps@.len() - k,
    {
        proof {
            assert(deps@.subrange(0, k as int + 1).drop_last() =~= deps@.subrange(0, k as int));
        }
        if !str_eq(deps[k].source_task_id.as_str(), id) {
            r.push(deps[k].duplicate());
        }
        k = k + 1;
    }
    assert(deps@.subrange(0, deps@.len() as int) =~= deps@);
    r
}

fn without_touching(deps: &Vec<TaskDependency>, id: &str) -> (r: Vec<TaskDependency>)
    ensures
        r@ == drop_touching(deps@, id@),
{
    let mut r: Vec<TaskDependency> = Vec::new();
    let mut k: usize = 0;
    while k < deps.len()
        invariant
            k <= deps@.len(),
            r@ == drop_touching(deps@.subrange(0, k as int), id@),
        decreases deps@.len() - k,
    {
        proof {
            assert(deps@.subrange(0, k as int + 1).drop_last() =~= deps@.subrange(0, k as int));
        }
        if !str_eq(deps[k].source_task_id.as_str(), id) && !str_eq(deps[k].target_task_id.as_str(), id) {
            r.push(deps[k].duplicate());
        }
        k = k + 1;
    }
    assert(deps@.subrange(0, deps@.len() as int) =~= deps@);
    r
}

fn without_text(s: &Vec<String>, x: &str) -> (r: Vec<String>)
    ensures
        r@ == drop_text(s@, x@),
{
    let mut r: Vec<String> = Vec::new();
    let mut k: usize = 0;
    while k < s.len()
        invariant
            k <= s@.len(),
            r@ == drop_text(s@.subrange(0, k as int), x@),
        decreases s@.len() - k,
    {
        proof {
            assert(s@.subrange(0, k as int + 1).drop_last() =~= s@.subrange(0, k as int));
        }
        if !str_eq(s[k].as_str(), x) {
            r.push(s[k].clone());
        }
        k = k + 1;
    }
    assert(s@.subrange(0, s@.len() as int) =~= s@);
    r
}

fn has_source(deps: &Vec<TaskDependency>, x: &str) -> (r: bool)
    ensures
        r == sources_include(deps@, x@),
{
    let mut k: usize = 0;
    while k < deps.len()
        invariant
            k <= deps@.len(),
            forall|q: int| 0 <= q < k ==> (#[trigger] deps@[q]).source_task_id@ != x@,
        decreases deps@.len() - k,
    {
        if str_eq(deps[k].source_task_id.as_str(), x) {
            return true;
        }
        k = k + 1;
    }
    false
}

impl TaskPlanner {
    /// Adds a fresh node for the task (replacing a node with the same id)
    /// and makes sure the graph mirrors the plan.
    pub fn add_task_to_plan(&mut self, plan: &mut ExecutionPlan, task: Task) -> (r: Result<(), AetherisError>)
        requires
            old(self).wf(),
            old(plan).wf(),
        ensures
            r is Ok,
            final(self).wf(),
            final(plan).wf(),
            final(plan).root_task_id == old(plan).root_task_id,
            final(plan).dependencies == old(plan).dependencies,
            match node_pos(old(plan).nodes@, task.id@) {
                Some(i) => final(plan).nodes@.len() == old(plan).nodes@.len() && fresh_node(final(plan).nodes@[i], task)
                    && forall|j: int| 0 <= j < old(plan).nodes@.len() && j != i ==> #[trigger] final(plan).nodes@[j] == old(plan).nodes@[j],
                None => final(plan).nodes@.len() == old(plan).nodes@.len() + 1 && final(plan).nodes@.drop_last()
                    == old(plan).nodes@ && fresh_node(final(plan).nodes@.last(), task),
            },
            old(self).graph.nodes@.len() == final(plan).nodes@.len() ==> final(self).graph == old(self).graph,
            old(self).graph.nodes@.len() != final(plan).nodes@.len() ==> graph_built_from(final(self).graph, *final(plan)),
    {
        let ghost t = task;
        let node = TaskNode::new(task);
        plan.add_node(node);
        self.ensure_graph_built(plan);
        proof {
            match node_pos(old(plan).nodes@, t.id@) {
                Some(i) => {
                    assert(final(plan).nodes@[i] == node);
                },
                None => {
                    assert(final(plan).nodes@.drop_last() =~= old(plan).nodes@);
                },
            }
        }
        Ok(())
    }

    /// Removes a task from the plan: the root cannot be removed (a planning
    /// error); a task the plan does not hold changes nothing. Otherwise the
    /// node leaves, its dependents drop their dependencies on it, the
    /// sources of its dependencies drop it from their dependents, the plan's
    /// dependencies that start or end at it go, the update time is stamped,
    /// and the graph is made to mirror the plan.
    pub fn remove_task_from_plan(&mut self, plan: &mut ExecutionPlan, task_id: &str) -> (r: Result<(), AetherisError>)
        requires
            old(self).wf(),
            old(plan).wf(),
        ensures
            final(self).wf(),
            final(plan).wf(),
            task_id@ == old(plan).root_task_id@ ==> (r matches Err(AetherisError::Planning(m))
                && m@ == "Cannot remove root task from execution plan"@ && *final(plan) == *old(plan)
                && final(self).graph == old(self).graph),
            task_id@ != old(plan).root_task_id@ ==> r is Ok && match node_pos(old(plan).nodes@, task_id@) {
                None => *final(plan) == *old(plan) && final(self).graph == old(self).graph,
                Some(p) => {
                    &&& final(plan).nodes@.len() == old(plan).nodes@.len() - 1
                    &&& forall|j: int| 0 <= j < final(plan).nodes@.len() ==> cleaned_node(
                        #[trigger] final(plan).nodes@[j],
                        if j < p { old(plan).nodes@[j] } else { old(plan).nodes@[j + 1] },
                        old(plan).nodes@[p],
                        task_id@,
                    )
                    &&& final(plan).dependencies@ == drop_touching(old(plan).dependencies@, task_id@)
                    &&& final(plan).root_task_id == old(plan).root_task_id
                    &&& (old(self).graph.nodes@.len() != final(plan).nodes@.len() ==> graph_built_from(final(self).graph, *final(plan)))
                    &&& (old(self).graph.nodes@.len() == final(plan).nodes@.len() ==> final(self).graph == old(self).graph)
                },
            },
    {
        if str_eq(task_id, plan.root_task_id.as_str()) {
            return Err(AetherisError::Planning(String::from_str("Cannot remove root task from execution plan")));
        }
        match plan.find_node(task_id) {
            None => Ok(()),
            Some(p) => {
                let ghost before = plan.nodes@;
                let removed = plan.nodes.remove(p);
                let ghost rest = plan.nodes@;
                proof {
                    assert forall|j: int| 0 <= j < rest.len() implies #[trigger] rest[j] == (if j < p { before[j] } else { before[j + 1] }) by {}
                }
                let n = plan.nodes.len();
                let mut j: usize = 0;
                while j < n
                    invariant
                        n == plan.nodes@.len(),
                        n == rest.len(),
                        j <= n,
                        forall|q: int| 0 <= q < j ==> cleaned_node(#[trigger] plan.nodes@[q], rest[q], removed, task_id@),
                        forall|q: int| j <= q < n ==> #[trigger] plan.nodes@[q] == rest[q],
                        plan.root_task_id == old(plan).root_task_id,
                        plan.dependencies == old(plan).dependencies,
                    decreases n - j,
                {
                    let mut node = plan.nodes.remove(j);
                    if vec_holds(&removed.dependents, node.node_id.as_str()) {
                        node.dependencies = without_sources(&node.dependencies, task_id);
                    }
                    if has_source(&removed.dependencies, node.node_id.as_str()) {
                        node.dependents = without_text(&node.dependents, task_id);
                    }
                    plan.nodes.insert(j, node);
                    j = j + 1;
                }
                plan.dependencies = without_touching(&plan.dependencies, task_id);
                plan.updated_at = now_millis();
                proof {
                    assert forall|a: int, b: int|
                        0 <= a < plan.nodes@.len() && 0 <= b < plan.nodes@.len() && a != b implies #[trigger] plan.nodes@[a].node_id@
                            != #[trigger] plan.nodes@[b].node_id@ by {
                        assert(cleaned_node(plan.nodes@[a], rest[a], removed, task_id@));
                        assert(cleaned_node(plan.nodes@[b], rest[b], removed, task_id@));
                        let a0 = if a < p { a } else { a + 1 };
                        let b0 = if b < p { b } else { b + 1 };
                        assert(before[a0].node_id@ != before[b0].node_id@);
                    }
                }
                self.ensure_graph_built(plan);
                Ok(())
            },
        }
    }
}

} // verus!
