//! Running a plan round by round: the outcomes of the nodes that ran are
//! recorded, a failure replans, and the nodes that may run next are
//! started, until the plan is complete or has failed. The waiting on the
//! nodes' work is the caller's; each round here decides what follows.

use vstd::prelude::*;
use crate::engine::types::texts;
use crate::engine::planner::{TaskNode, TaskNodeStatus, ExecutionPlan, unique_ids, node_pos, holds_text, completed_in, ready_in, node_can_execute};
use crate::engine::plan_edit::after_failure;
use crate::engine::task_planner::TaskPlanner;
use crate::error::AetherisError;

verus! {

broadcast use vstd::std_specs::vec::group_vec_axioms, vstd::seq::group_seq_axioms;

/// What follows a round of plan execution.
#[derive(Debug, Clone)]
pub enum RoundAction {
    /// Run these nodes, in this order, and report how each went.
    Run(Vec<String>),
    /// Every node is completed or skipped.
    Completed,
    /// A node failed for good.
    Failed,
}

/// The nodes after a replan for the failure of `id`: a failed node with
/// retries left goes back to pending; otherwise each node the failed node
/// lists as a dependent and that depends hard on it is skipped.
pub open spec fn replanned_nodes(nodes: Seq<TaskNode>, id: Seq<char>) -> Seq<TaskNode> {
    match node_pos(nodes, id) {
        Some(i) => if nodes[i].status == TaskNodeStatus::Failed && nodes[i].retry_count < nodes[i].max_retries {
            nodes.update(i, TaskNode { status: TaskNodeStatus::Pending, ..nodes[i] })
        } else {
            Seq::new(nodes.len(), |j: int| after_failure(nodes[j], Some(nodes[i]), id))
        },
        None => nodes,
    }
}

/// A node after it failed: failed, with one more retry counted.
pub open spec fn failed_node(n: TaskNode) -> TaskNode {
    TaskNode { status: TaskNodeStatus::Failed, retry_count: (n.retry_count + 1) as u32, ..n }
}

/// A node after it completed: completed, having taken a second.
pub open spec fn completed_node(n: TaskNode) -> TaskNode {
    TaskNode { status: TaskNodeStatus::Completed, actual_duration_ms: Some(1000), ..n }
}

/// The nodes after one node's outcome: a success completes it; a failure
/// marks it failed and then replans.
pub open spec fn after_outcome(nodes: Seq<TaskNode>, id: Seq<char>, ok: bool) -> Seq<TaskNode> {
    match node_pos(nodes, id) {
        Some(i) => if ok {
            nodes.update(i, completed_node(nodes[i]))
        } else {
            replanned_nodes(nodes.update(i, failed_node(nodes[i])), id)
        },
        None => nodes,
    }
}

/// The outcomes as ids and verdicts.
pub open spec fn outcome_models(os: Seq<(String, bool)>) -> Seq<(Seq<char>, bool)> {
    os.map_values(|o: (String, bool)| (o.0@, o.1))
}

/// The nodes after the outcomes, recorded in order.
pub open spec fn after_outcomes(nodes: Seq<TaskNode>, os: Seq<(Seq<char>, bool)>) -> Seq<TaskNode>
    decreases os.len(),
{
    if os.len() == 0 {
        nodes
    } else {
        let before = after_outcomes(nodes, os.drop_last());
        after_outcome(before, os.last().0, os.last().1)
    }
}

/// Every node is completed or skipped.
pub open spec fn all_done(nodes: Seq<TaskNode>) -> bool {
    forall|i: int|
        0 <= i < nodes.len() ==> (#[trigger] nodes[i]).status == TaskNodeStatus::Completed || nodes[i].status
            == TaskNodeStatus::Skipped
}

/// Some node failed.
pub open spec fn any_failed(nodes: Seq<TaskNode>) -> bool {
    exists|i: int| 0 <= i < nodes.len() && (#[trigger] nodes[i]).status == TaskNodeStatus::Failed
}

/// The ids of the nodes among `q` that may run within the plan `all`, in
/// order.
pub open spec fn ready_ids(q: Seq<TaskNode>, all: Seq<TaskNode>) -> Seq<Seq<char>>
    decreases q.len(),
{
    if q.len() == 0 {
        Seq::empty()
    } else {
        let r = ready_ids(q.drop_last(), all);
        if ready_in(q.last(), all) {
            r.push(q.last().node_id@)
        } else {
            r
        }
    }
}

/// The nodes with those that may run started.
pub open spec fn started(nodes: Seq<TaskNode>) -> Seq<TaskNode> {
    Seq::new(
        nodes.len(),
        |i: int|
            if ready_in(nodes[i], nodes) {
                TaskNode { status: TaskNodeStatus::Running, ..nodes[i] }
            } else {
                nodes[i]
            },
    )
}

/// Retries can be counted: each node can take one more per outcome.
pub open spec fn retries_fit(nodes: Seq<TaskNode>, n: nat) -> bool {
    forall|i: int| 0 <= i < nodes.len() ==> (#[trigger] nodes[i]).retry_count + n <= u32::MAX
}

/// A node that a round starts was pending or ready, so a node that is
/// running, completed, failed or skipped is never started again, and every
/// hard dependency of it is a completed node of the plan.
pub proof fn law_started_nodes_were_ready(nodes: Seq<TaskNode>, i: int)
    requires
        0 <= i < nodes.len(),
        ready_in(nodes[i], nodes),
    ensures
        nodes[i].status == TaskNodeStatus::Pending || nodes[i].status == TaskNodeStatus::Ready,
        forall|k: int|
            0 <= k < nodes[i].dependencies@.len() && #[trigger] nodes[i].dependencies@[k].dependency_type
                == crate::engine::planner::TaskDependencyType::Hard ==> completed_in(
                nodes,
                nodes[i].dependencies@[k].source_task_id@,
            ),
{
}

proof fn lemma_replan_nodes(before: Seq<TaskNode>, after: Seq<TaskNode>, id: Seq<char>)
    requires
        after.len() == before.len(),
        match node_pos(before, id) {
            Some(i) => if before[i].status == TaskNodeStatus::Failed && before[i].retry_count < before[i].max_retries {
                after == before.update(i, TaskNode { status: TaskNodeStatus::Pending, ..before[i] })
            } else {
                forall|j: int| 0 <= j < after.len() ==> #[trigger] after[j] == after_failure(before[j], Some(before[i]), id)
            },
            None => after == before,
        },
    ensures
        after == replanned_nodes(before, id),
{
    match node_pos(before, id) {
        Some(i) => {
            if !(before[i].status == TaskNodeStatus::Failed && before[i].retry_count < before[i].max_retries) {
                assert(after =~= Seq::new(before.len(), |j: int| after_failure(before[j], Some(before[i]), id)));
            }
        },
        None => {},
    }
}

/// Replacing a node by one with the same id keeps the ids unique.
proof fn lemma_update_keeps_ids(before: Seq<TaskNode>, i: int, node: TaskNode)
    requires
        unique_ids(before),
        0 <= i < before.len(),
        node.node_id == before[i].node_id,
    ensures
        unique_ids(before.update(i, node)),
{
    let after = before.update(i, node);
    assert forall|a: int, b: int|
        0 <= a < after.len() && 0 <= b < after.len() && a != b implies #[trigger] after[a].node_id@
            != #[trigger] after[b].node_id@ by {
        assert(after[a].node_id == before[a].node_id);
        assert(after[b].node_id == before[b].node_id);
    }
}

impl TaskPlanner {
    /// Records one node's outcome: a success completes it, taking a second;
    /// a failure marks it failed and replans.
    fn record_outcome(&mut self, plan: ExecutionPlan, id: &str, ok: bool) -> (r: ExecutionPlan)
        requires
            plan.wf(),
            retries_fit(plan.nodes@, 1),
        ensures
            r.wf(),
            r.nodes@ == after_outcome(plan.nodes@, id@, ok),
            r.root_task_id == plan.root_task_id,
            r.dependencies == plan.dependencies,
    {
        let mut plan = plan;
        let ghost before = plan.nodes@;
        match plan.find_node(id) {
            None => plan,
            Some(i) => {
                if ok {
                    let mut node = plan.nodes.remove(i);
                    node.mark_completed(1000);
                    plan.nodes.insert(i, node);
                    proof {
                        assert(plan.nodes@ =~= before.update(i as int, completed_node(before[i as int])));
                        lemma_update_keeps_ids(before, i as int, completed_node(before[i as int]));
                    }
                    plan
                } else {
                    let mut node = plan.nodes.remove(i);
                    node.mark_failed();
                    plan.nodes.insert(i, node);
                    proof {
                        assert(plan.nodes@ =~= before.update(i as int, failed_node(before[i as int])));
                        lemma_update_keeps_ids(before, i as int, failed_node(before[i as int]));
                    }
                    let ghost marked = plan.nodes@;
                    assert(marked == before.update(i as int, failed_node(before[i as int])));
                    assert(node_pos(marked, id@) == Some(i as int)) by {
                        assert(marked[i as int].node_id@ == id@);
                    }
                    let p = match self.replan(plan, id) {
                        Ok(p) => p,
                        Err(_) => {
                            assert(false);
                            return ExecutionPlan::new(String::new());
                        },
                    };
                    proof {
                        lemma_replan_nodes(marked, p.nodes@, id@);
                    }
                    p
                }
            },
        }
    }

    /// One round of plan execution: records the outcomes of the nodes that
    /// ran, in order (a success completes the node, taking a second; a
    /// failure marks it failed and replans), then ends the run when every
    /// node is completed or skipped, or when one has failed; otherwise it
    /// starts the nodes that may run now and names them, in plan order.
    pub fn execution_round(&mut self, plan: ExecutionPlan, outcomes: &Vec<(String, bool)>) -> (r: Result<
        (ExecutionPlan, RoundAction),
        AetherisError,
    >)
        requires
            plan.wf(),
            retries_fit(plan.nodes@, outcomes@.len()),
        ensures
            r matches Ok((p, a)) && {
                let q = after_outcomes(plan.nodes@, outcome_models(outcomes@));
                &&& p.wf()
                &&& p.root_task_id == plan.root_task_id
                &&& p.dependencies == plan.dependencies
                &&& if all_done(q) {
                    a is Completed && p.nodes@ == q
                } else if any_failed(q) {
                    a is Failed && p.nodes@ == q
                } else {
                    a matches RoundAction::Run(ids) && texts(ids@) == ready_ids(q, q) && p.nodes@ == started(q)
                }
            },
    {
        let mut plan = plan;
        let ghost os = outcome_models(outcomes@);
        let ghost start = plan.nodes@;
        let ghost root = plan.root_task_id;
        let ghost deps = plan.dependencies;
        let mut k: usize = 0;
        while k < outcomes.len()
            invariant
                k <= outcomes@.len(),
                os == outcome_models(outcomes@),
                plan.wf(),
                retries_fit(plan.nodes@, (outcomes@.len() - k) as nat),
                plan.nodes@ == after_outcomes(start, os.take(k as int)),
                plan.nodes@.len() == start.len(),
                plan.root_task_id == root,
                plan.dependencies == deps,
            decreases outcomes@.len() - k,
        {
            let ghost before = plan.nodes@;
            let id = outcomes[k].0.as_str();
            let ok = outcomes[k].1;
            proof {
                assert(os.take(k as int + 1).drop_last() =~= os.take(k as int));
                assert(os.take(k as int + 1).last() == (id@, ok));
            }
            plan = self.record_outcome(plan, id, ok);
            proof {
                assert forall|i: int| 0 <= i < plan.nodes@.len() implies (#[trigger] plan.nodes@[i]).retry_count
                    + (outcomes@.len() - (k + 1)) <= u32::MAX by {
                    lemma_outcome_retries(before, id@, ok, i);
                }
            }
            k = k + 1;
        }
        assert(os.take(outcomes@.len() as int) =~= os);
        let ghost q = plan.nodes@;
        if plan.is_complete() {
            return Ok((plan, RoundAction::Completed));
        }
        if plan.has_failed_tasks() {
            return Ok((plan, RoundAction::Failed));
        }
        let completed = plan.completed_ids();
        let ghost done_list = |x: Seq<char>| holds_text(completed@, x);
        let ghost done_plan = |x: Seq<char>| completed_in(q, x);
        assert(done_list =~= done_plan);
        let n = plan.nodes.len();
        let mut ids: Vec<String> = Vec::new();
        let mut i: usize = 0;
        while i < n
            invariant
                n == q.len(),
                n == plan.nodes@.len(),
                i <= n,
                plan.wf(),
                done_list == done_plan,
                done_list == (|x: Seq<char>| holds_text(completed@, x)),
                done_plan == (|x: Seq<char>| completed_in(q, x)),
                texts(ids@) == ready_ids(q.take(i as int), q),
                forall|j: int| 0 <= j < i ==> #[trigger] plan.nodes@[j] == started(q)[j],
                forall|j: int| i <= j < n ==> #[trigger] plan.nodes@[j] == q[j],
                plan.root_task_id == root,
                plan.dependencies == deps,
            decreases n - i,
        {
            let ok = plan.nodes[i].can_execute(&completed);
            assert(ok == ready_in(q[i as int], q));
            proof {
                assert(q.take(i as int + 1).drop_last() =~= q.take(i as int));
                assert(q.take(i as int + 1).last() == q[i as int]);
            }
            if ok {
                let ghost before_ids = ids@;
                let ghost before_nodes = plan.nodes@;
                ids.push(plan.nodes[i].node_id.clone());
                let mut node = plan.nodes.remove(i);
                node.mark_running();
                plan.nodes.insert(i, node);
                proof {
                    let run = TaskNode { status: TaskNodeStatus::Running, ..before_nodes[i as int] };
                    assert(plan.nodes@ =~= before_nodes.update(i as int, run));
                    lemma_update_keeps_ids(before_nodes, i as int, run);
                }
                assert(texts(ids@) =~= texts(before_ids).push(q[i as int].node_id@));
            }
            i = i + 1;
        }
        assert(q.take(n as int) =~= q);
        assert(plan.nodes@ =~= started(q));
        Ok((plan, RoundAction::Run(ids)))
    }
}

proof fn lemma_outcome_retries(nodes: Seq<TaskNode>, id: Seq<char>, ok: bool, i: int)
    requires
        0 <= i < nodes.len(),
    ensures
        after_outcome(nodes, id, ok).len() == nodes.len(),
        after_outcome(nodes, id, ok)[i].retry_count <= nodes[i].retry_count + 1,
{
    match node_pos(nodes, id) {
        Some(p) => {
            if !ok {
                let m = nodes.update(p, failed_node(nodes[p]));
                match node_pos(m, id) {
                    Some(f) => {
                        if !(m[f].status == TaskNodeStatus::Failed && m[f].retry_count < m[f].max_retries) {
                            assert(replanned_nodes(m, id)[i] == after_failure(m[i], Some(m[f]), id));
                        }
                    },
                    None => {},
                }
            }
        },
        None => {},
    }
}

} // verus!
