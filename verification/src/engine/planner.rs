//! Execution plans: task nodes, their dependencies, and the analyses of
//! the dependency graph (topological order, critical path, parallel
//! batches).

use vstd::prelude::*;
use crate::engine::types::{Task, TaskModel};
use crate::runtime::{new_uuid, now_millis};
use crate::text::str_eq;
use crate::error::AetherisError;
use crate::engine::plan_graph::{GraphNode, GraphEdge, PlanGraph, CriticalPathResult, edge_pairs, duration_sum, toposort_of, is_topological_order, is_critical_path_of};

verus! {

broadcast use vstd::std_specs::vec::group_vec_axioms, vstd::seq::group_seq_axioms;

/// How strongly one task depends on another.
#[derive(Debug, Clone, Copy, PartialEq, Eq, Structural)]
pub enum TaskDependencyType {
    Hard,
    Soft,
    Optional,
}

/// The target task depends on the source task.
#[derive(Debug)]
pub struct TaskDependency {
    pub source_task_id: String,
    pub target_task_id: String,
    pub dependency_type: TaskDependencyType,
    pub description: String,
}

impl TaskDependency {
    /// A dependency of `target_task_id` on `source_task_id`, without description.
    pub fn new(
        source_task_id: String,
        target_task_id: String,
        dependency_type: TaskDependencyType,
    ) -> (d: TaskDependency)
        ensures
            d.source_task_id@ == source_task_id@,
            d.target_task_id@ == target_task_id@,
            d.dependency_type == dependency_type,
            d.description@.len() == 0,
    {
        TaskDependency { source_task_id, target_task_id, dependency_type, description: String::new() }
    }

    /// The dependency with the given description.
    pub fn with_description(self, description: String) -> (d: TaskDependency)
        ensures
            d.source_task_id@ == self.source_task_id@,
            d.target_task_id@ == self.target_task_id@,
            d.dependency_type == self.dependency_type,
            d.description@ == description@,
    {
        TaskDependency { description, ..self }
    }

    /// A copy of the dependency.
    pub fn duplicate(&self) -> (d: TaskDependency)
        ensures
            d == *self,
    {
        TaskDependency {
            source_task_id: self.source_task_id.clone(),
            target_task_id: self.target_task_id.clone(),
            dependency_type: self.dependency_type,
            description: self.description.clone(),
        }
    }
}

/// Where a node of a plan stands.
#[derive(Debug, Clone, Copy, PartialEq, Eq, Structural)]
pub enum TaskNodeStatus {
    Pending,
    Ready,
    Running,
    Completed,
    Failed,
    Skipped,
}

/// A task inside a plan, with the dependencies that lead to it.
#[derive(Debug)]
pub struct TaskNode {
    pub node_id: String,
    pub task: Task,
    pub dependencies: Vec<TaskDependency>,
    pub dependents: Vec<String>,
    pub status: TaskNodeStatus,
    pub estimated_duration_ms: u64,
    pub actual_duration_ms: Option<u64>,
    pub retry_count: u32,
    pub max_retries: u32,
}

/// Whether `s` holds the text `x`.
pub open spec fn holds_text(s: Seq<String>, x: Seq<char>) -> bool {
    exists|i: int| 0 <= i < s.len() && #[trigger] s[i]@ == x
}

/// Whether every hard dependency of the node has its source in `done`.
pub open spec fn hard_deps_met(node: TaskNode, done: spec_fn(Seq<char>) -> bool) -> bool {
    forall|k: int|
        0 <= k < node.dependencies@.len() && #[trigger] node.dependencies@[k].dependency_type
            == TaskDependencyType::Hard ==> done(node.dependencies@[k].source_task_id@)
}

/// Whether a node may run once the tasks in `completed` are done: it is
/// pending or ready, and every hard dependency has its source completed.
pub open spec fn node_can_execute(node: TaskNode, completed: Seq<String>) -> bool {
    (node.status == TaskNodeStatus::Pending || node.status == TaskNodeStatus::Ready)
        && hard_deps_met(node, |x: Seq<char>| holds_text(completed, x))
}

/// Whether some node of `nodes` with id `x` is completed.
pub open spec fn completed_in(nodes: Seq<TaskNode>, x: Seq<char>) -> bool {
    exists|j: int|
        0 <= j < nodes.len() && (#[trigger] nodes[j]).status == TaskNodeStatus::Completed
            && nodes[j].node_id@ == x
}

/// Whether a node may run inside a plan whose nodes are `nodes`.
pub open spec fn ready_in(node: TaskNode, nodes: Seq<TaskNode>) -> bool {
    (node.status == TaskNodeStatus::Pending || node.status == TaskNodeStatus::Ready)
        && hard_deps_met(node, |x: Seq<char>| completed_in(nodes, x))
}

/// Whether the text `x` is one of the strings of `v`.
pub fn vec_holds(v: &Vec<String>, x: &str) -> (r: bool)
    ensures
        r == holds_text(v@, x@),
{
    let mut i: usize = 0;
    while i < v.len()
        invariant
            i <= v.len(),
            forall|j: int| 0 <= j < i ==> v@[j]@ != x@,
        decreases v.len() - i,
    {
        if str_eq(v[i].as_str(), x) {
            return true;
        }
        i = i + 1;
    }
    false
}

impl TaskNode {
    /// A pending node for the task, named by the task's id, estimated at
    /// one second, allowed three retries.
    pub fn new(task: Task) -> (n: TaskNode)
        ensures
            n.node_id@ == task.id@,
            n.task@ == task@,
            n.dependencies@.len() == 0,
            n.dependents@.len() == 0,
            n.status == TaskNodeStatus::Pending,
            n.estimated_duration_ms == 1000,
            n.actual_duration_ms is None,
            n.retry_count == 0,
            n.max_retries == 3,
    {
        TaskNode {
            node_id: task.id.clone(),
            task,
            dependencies: Vec::new(),
            dependents: Vec::new(),
            status: TaskNodeStatus::Pending,
            estimated_duration_ms: 1000,
            actual_duration_ms: None,
            retry_count: 0,
            max_retries: 3,
        }
    }

    /// The node with the given duration estimate.
    pub fn with_estimated_duration(self, duration: u64) -> (n: TaskNode)
        ensures
            n == (TaskNode { estimated_duration_ms: duration, ..self }),
    {
        TaskNode { estimated_duration_ms: duration, ..self }
    }

    /// The node with the given retry allowance.
    pub fn with_max_retries(self, retries: u32) -> (n: TaskNode)
        ensures
            n == (TaskNode { max_retries: retries, ..self }),
    {
        TaskNode { max_retries: retries, ..self }
    }

    /// Appends a dependency of this node.
    pub fn add_dependency(&mut self, dependency: TaskDependency)
        ensures
            final(self).dependencies@ == old(self).dependencies@.push(dependency),
            final(self).node_id == old(self).node_id,
            final(self).task == old(self).task,
            final(self).dependents == old(self).dependents,
            final(self).status == old(self).status,
            final(self).estimated_duration_ms == old(self).estimated_duration_ms,
            final(self).retry_count == old(self).retry_count,
            final(self).max_retries == old(self).max_retries,
    {
        self.dependencies.push(dependency);
    }

    /// Appends the id of a node that depends on this one.
    pub fn add_dependent(&mut self, dependent_id: String)
        ensures
            final(self).dependents@ == old(self).dependents@.push(dependent_id),
            final(self).node_id == old(self).node_id,
            final(self).task == old(self).task,
            final(self).dependencies == old(self).dependencies,
            final(self).status == old(self).status,
            final(self).estimated_duration_ms == old(self).estimated_duration_ms,
            final(self).retry_count == old(self).retry_count,
            final(self).max_retries == old(self).max_retries,
    {
        self.dependents.push(dependent_id);
    }

    /// Whether the node may run, given the ids of the completed tasks.
    pub fn can_execute(&self, completed_tasks: &Vec<String>) -> (r: bool)
        ensures
            r == node_can_execute(*self, completed_tasks@),
    {
        if self.status != TaskNodeStatus::Pending && self.status != TaskNodeStatus::Ready {
            return false;
        }
        let mut k: usize = 0;
        while k < self.dependencies.len()
            invariant
                k <= self.dependencies@.len(),
                self.status == TaskNodeStatus::Pending || self.status == TaskNodeStatus::Ready,
                forall|j: int|
                    0 <= j < k && #[trigger] self.dependencies@[j].dependency_type
                        == TaskDependencyType::Hard ==> holds_text(
                        completed_tasks@,
                        self.dependencies@[j].source_task_id@,
                    ),
            decreases self.dependencies@.len() - k,
        {
            let dep = &self.dependencies[k];
            if dep.dependency_type == TaskDependencyType::Hard {
                if !vec_holds(completed_tasks, dep.source_task_id.as_str()) {
                    return false;
                }
            }
            k = k + 1;
        }
        true
    }

    /// A pending node becomes ready; any other status stays.
    pub fn mark_ready(&mut self)
        ensures
            *final(self) == (if old(self).status == TaskNodeStatus::Pending {
                TaskNode { status: TaskNodeStatus::Ready, ..*old(self) }
            } else {
                *old(self)
            }),
    {
        if self.status == TaskNodeStatus::Pending {
            self.status = TaskNodeStatus::Ready;
        }
    }

    /// The node runs.
    pub fn mark_running(&mut self)
        ensures
            *final(self) == (TaskNode { status: TaskNodeStatus::Running, ..*old(self) }),
    {
        self.status = TaskNodeStatus::Running;
    }

    /// The node completed, taking `duration_ms`.
    pub fn mark_completed(&mut self, duration_ms: u64)
        ensures
            *final(self) == (TaskNode {
                status: TaskNodeStatus::Completed,
                actual_duration_ms: Some(duration_ms),
                ..*old(self)
            }),
    {
        self.status = TaskNodeStatus::Completed;
        self.actual_duration_ms = Some(duration_ms);
    }

    /// The node failed; its retry count goes up by one.
    pub fn mark_failed(&mut self)
        requires
            old(self).retry_count < u32::MAX,
        ensures
            *final(self) == (TaskNode {
                status: TaskNodeStatus::Failed,
                retry_count: (old(self).retry_count + 1) as u32,
                ..*old(self)
            }),
    {
        self.status = TaskNodeStatus::Failed;
        self.retry_count = self.retry_count + 1;
    }

    /// Whether the node failed and has retries left.
    pub fn can_retry(&self) -> (r: bool)
        ensures
            r == (self.status == TaskNodeStatus::Failed && self.retry_count < self.max_retries),
    {
        self.status == TaskNodeStatus::Failed && self.retry_count < self.max_retries
    }

    /// A failed node with retries left goes back to pending.
    pub fn reset_for_retry(&mut self)
        ensures
            *final(self) == (if old(self).status == TaskNodeStatus::Failed && old(self).retry_count
                < old(self).max_retries {
                TaskNode { status: TaskNodeStatus::Pending, ..*old(self) }
            } else {
                *old(self)
            }),
    {
        if self.can_retry() {
            self.status = TaskNodeStatus::Pending;
        }
    }
}

/// A plan: the nodes of a root task and its sub-tasks, and the
/// dependencies between them. Node ids are unique.
#[derive(Debug)]
pub struct ExecutionPlan {
    pub plan_id: String,
    pub root_task_id: String,
    pub nodes: Vec<TaskNode>,
    pub dependencies: Vec<TaskDependency>,
    pub created_at: i64,
    pub updated_at: i64,
}

/// The position of the node named `id`, if any.
pub open spec fn node_pos(nodes: Seq<TaskNode>, id: Seq<char>) -> Option<int> {
    if exists|i: int| 0 <= i < nodes.len() && #[trigger] nodes[i].node_id@ == id {
        Some(choose|i: int| 0 <= i < nodes.len() && #[trigger] nodes[i].node_id@ == id)
    } else {
        None
    }
}

/// No two nodes share an id.
pub open spec fn unique_ids(nodes: Seq<TaskNode>) -> bool {
    forall|i: int, j: int|
        0 <= i < nodes.len() && 0 <= j < nodes.len() && i != j ==> #[trigger] nodes[i].node_id@
            != #[trigger] nodes[j].node_id@
}

impl ExecutionPlan {
    /// The plan is well formed: its node ids are unique.
    pub open spec fn wf(&self) -> bool {
        unique_ids(self.nodes@)
    }

    /// An empty plan for the root task, with a fresh id and the current time.
    pub fn new(root_task_id: String) -> (p: ExecutionPlan)
        ensures
            p.wf(),
            p.root_task_id@ == root_task_id@,
            p.nodes@.len() == 0,
            p.dependencies@.len() == 0,
            p.created_at == p.updated_at,
    {
        let now = now_millis();
        ExecutionPlan {
            plan_id: new_uuid(),
            root_task_id,
            nodes: Vec::new(),
            dependencies: Vec::new(),
            created_at: now,
            updated_at: now,
        }
    }

    /// The position of the node named `id`.
    pub fn find_node(&self, id: &str) -> (r: Option<usize>)
        requires
            self.wf(),
        ensures
            match r {
                Some(i) => i < self.nodes@.len() && self.nodes@[i as int].node_id@ == id@,
                None => forall|i: int| 0 <= i < self.nodes@.len() ==> self.nodes@[i].node_id@ != id@,
            },
            r matches Some(i) ==> node_pos(self.nodes@, id@) == Some(i as int),
            r is None <==> node_pos(self.nodes@, id@) is None,
    {
        let mut i: usize = 0;
        while i < self.nodes.len()
            invariant
                i <= self.nodes@.len(),
                unique_ids(self.nodes@),
                forall|j: int| 0 <= j < i ==> self.nodes@[j].node_id@ != id@,
            decreases self.nodes@.len() - i,
        {
            if str_eq(self.nodes[i].node_id.as_str(), id) {
                proof {
                    let k = choose|k: int|
                        0 <= k < self.nodes@.len() && #[trigger] self.nodes@[k].node_id@ == id@;
                    assert(self.nodes@[i as int].node_id@ == id@);
                    assert(k == i);
                }
                return Some(i);
            }
            i = i + 1;
        }
        None
    }

    /// The node named `id`, if any.
    pub fn get_node(&self, node_id: &str) -> (r: Option<&TaskNode>)
        requires
            self.wf(),
        ensures
            match node_pos(self.nodes@, node_id@) {
                Some(i) => r == Some(&self.nodes@[i]),
                None => r is None,
            },
    {
        match self.find_node(node_id) {
            Some(i) => Some(&self.nodes[i]),
            None => None,
        }
    }

    /// Adds the node, replacing a node with the same id, and stamps the
    /// update time.
    pub fn add_node(&mut self, node: TaskNode)
        requires
            old(self).wf(),
        ensures
            final(self).wf(),
            match node_pos(old(self).nodes@, node.node_id@) {
                Some(i) => final(self).nodes@ == old(self).nodes@.update(i, node),
                None => final(self).nodes@ == old(self).nodes@.push(node),
            },
            final(self).root_task_id == old(self).root_task_id,
            final(self).dependencies == old(self).dependencies,
            final(self).plan_id == old(self).plan_id,
            final(self).created_at == old(self).created_at,
    {
        match self.find_node(node.node_id.as_str()) {
            Some(i) => {
                self.nodes.set(i, node);
            },
            None => {
                self.nodes.push(node);
            },
        }
        self.updated_at = now_millis();
    }

    /// Records a dependency: the target node gains it, the source node
    /// gains the target as a dependent, and the plan lists it.
    pub fn add_dependency(&mut self, dependency: TaskDependency)
        requires
            old(self).wf(),
        ensures
            final(self).wf(),
            final(self).nodes@.len() == old(self).nodes@.len(),
            final(self).dependencies@ == old(self).dependencies@.push(dependency),
            final(self).root_task_id == old(self).root_task_id,
            forall|i: int|
                0 <= i < final(self).nodes@.len() ==> (#[trigger] final(self).nodes@[i]).node_id
                    == old(self).nodes@[i].node_id && final(self).nodes@[i].status == old(
                    self,
                ).nodes@[i].status && final(self).nodes@[i].task == old(self).nodes@[i].task
                    && final(self).nodes@[i].estimated_duration_ms == old(
                    self,
                ).nodes@[i].estimated_duration_ms && final(self).nodes@[i].retry_count == old(
                    self,
                ).nodes@[i].retry_count && final(self).nodes@[i].max_retries == old(
                    self,
                ).nodes@[i].max_retries,
            forall|i: int|
                0 <= i < final(self).nodes@.len() ==> (#[trigger] final(self).nodes@[i]).dependencies@
                    == if old(self).nodes@[i].node_id@ == dependency.target_task_id@ {
                    old(self).nodes@[i].dependencies@.push(dependency)
                } else {
                    old(self).nodes@[i].dependencies@
                },
            forall|i: int|
                0 <= i < final(self).nodes@.len() ==> (#[trigger] final(self).nodes@[i]).dependents@
                    == if old(self).nodes@[i].node_id@ == dependency.source_task_id@ {
                    old(self).nodes@[i].dependents@.push(dependency.target_task_id)
                } else {
                    old(self).nodes@[i].dependents@
                },
    {
        let t = self.find_node(dependency.target_task_id.as_str());
        let s = self.find_node(dependency.source_task_id.as_str());
        let ghost before = self.nodes@;
        if let Some(ti) = t {
            let mut node = self.nodes.remove(ti);
            node.add_dependency(dependency.duplicate());
            self.nodes.insert(ti, node);
            assert forall|i: int| 0 <= i < self.nodes@.len() && i != ti implies #[trigger] self.nodes@[i] == before[i] by {}
        }
        let ghost mid = self.nodes@;
        if let Some(si) = s {
            let mut node = self.nodes.remove(si);
            node.add_dependent(dependency.target_task_id.clone());
            self.nodes.insert(si, node);
            assert forall|i: int| 0 <= i < self.nodes@.len() && i != si implies #[trigger] self.nodes@[i] == mid[i] by {}
        }
        assert forall|i: int, j: int|
            0 <= i < self.nodes@.len() && 0 <= j < self.nodes@.len() && i != j implies #[trigger] self.nodes@[i].node_id@
                != #[trigger] self.nodes@[j].node_id@ by {
            assert(self.nodes@[i].node_id == before[i].node_id);
            assert(self.nodes@[j].node_id == before[j].node_id);
        }
        self.dependencies.push(dependency);
        self.updated_at = now_millis();
    }

    /// Whether every node is completed or skipped.
    pub fn is_complete(&self) -> (r: bool)
        ensures
            r == forall|i: int|
                0 <= i < self.nodes@.len() ==> (#[trigger] self.nodes@[i]).status
                    == TaskNodeStatus::Completed || self.nodes@[i].status
                    == TaskNodeStatus::Skipped,
    {
        let mut i: usize = 0;
        while i < self.nodes.len()
            invariant
                i <= self.nodes@.len(),
                forall|j: int|
                    0 <= j < i ==> (#[trigger] self.nodes@[j]).status == TaskNodeStatus::Completed
                        || self.nodes@[j].status == TaskNodeStatus::Skipped,
            decreases self.nodes@.len() - i,
        {
            let st = self.nodes[i].status;
            if st != TaskNodeStatus::Completed && st != TaskNodeStatus::Skipped {
                return false;
            }
            i = i + 1;
        }
        true
    }

    /// Whether some node failed.
    pub fn has_failed_tasks(&self) -> (r: bool)
        ensures
            r == exists|i: int|
                0 <= i < self.nodes@.len() && (#[trigger] self.nodes@[i]).status
                    == TaskNodeStatus::Failed,
    {
        let mut i: usize = 0;
        while i < self.nodes.len()
            invariant
                i <= self.nodes@.len(),
                forall|j: int|
                    0 <= j < i ==> (#[trigger] self.nodes@[j]).status != TaskNodeStatus::Failed,
            decreases self.nodes@.len() - i,
        {
            if self.nodes[i].status == TaskNodeStatus::Failed {
                return true;
            }
            i = i + 1;
        }
        false
    }

    /// The ids of the completed nodes, in plan order.
    pub fn completed_ids(&self) -> (r: Vec<String>)
        ensures
            forall|x: Seq<char>| holds_text(r@, x) <==> completed_in(self.nodes@, x),
    {
        let mut r: Vec<String> = Vec::new();
        let mut i: usize = 0;
        while i < self.nodes.len()
            invariant
                i <= self.nodes@.len(),
                forall|x: Seq<char>|
                    holds_text(r@, x) <==> completed_in(self.nodes@.subrange(0, i as int), x),
            decreases self.nodes@.len() - i,
        {
            let ghost old_r = r@;
            let ghost pre = self.nodes@.subrange(0, i as int);
            let ghost post = self.nodes@.subrange(0, i + 1);
            if self.nodes[i].status == TaskNodeStatus::Completed {
                r.push(self.nodes[i].node_id.clone());
            }
            assert forall|x: Seq<char>| holds_text(r@, x) <==> completed_in(post, x) by {
                if holds_text(r@, x) {
                    let k = choose|k: int| 0 <= k < r@.len() && #[trigger] r@[k]@ == x;
                    if k < old_r.len() {
                        assert(old_r[k]@ == x);
                        assert(holds_text(old_r, x));
                        assert(completed_in(pre, x));
                        let j = choose|j: int|
                            0 <= j < pre.len() && (#[trigger] pre[j]).status
                                == TaskNodeStatus::Completed && pre[j].node_id@ == x;
                        assert(post[j] == pre[j]);
                    } else {
                        assert(post[i as int] == self.nodes@[i as int]);
                    }
                }
                if completed_in(post, x) {
                    let j = choose|j: int|
                        0 <= j < post.len() && (#[trigger] post[j]).status
                            == TaskNodeStatus::Completed && post[j].node_id@ == x;
                    if j < i {
                        assert(pre[j] == post[j]);
                        assert(completed_in(pre, x));
                        assert(holds_text(old_r, x));
                        let k = choose|k: int| 0 <= k < old_r.len() && #[trigger] old_r[k]@ == x;
                        assert(r@[k] == old_r[k]);
                    } else {
                        assert(r@[old_r.len() as int]@ == x);
                    }
                }
            }
            i = i + 1;
        }
        assert(self.nodes@.subrange(0, self.nodes@.len() as int) =~= self.nodes@);
        r
    }

    /// The nodes that may run now: those ready given the completed nodes
    /// of the plan, in plan order.
    pub fn get_ready_nodes(&self) -> (r: Vec<&TaskNode>)
        ensures
            exists|idx: Seq<int>|
                #![trigger idx.len()]
                idx.len() == r@.len() && (forall|k: int|
                    #![trigger idx[k]]
                    0 <= k < idx.len() ==> 0 <= idx[k] < self.nodes@.len() && r@[k]
                        == &self.nodes@[idx[k]]),
            forall|k: int| 0 <= k < r@.len() ==> ready_in(*#[trigger] r@[k], self.nodes@),
            forall|i: int|
                0 <= i < self.nodes@.len() && ready_in(#[trigger] self.nodes@[i], self.nodes@)
                    ==> r@.contains(&self.nodes@[i]),
    {
        let completed = self.completed_ids();
        let ghost done_list = |x: Seq<char>| holds_text(completed@, x);
        let ghost done_plan = |x: Seq<char>| completed_in(self.nodes@, x);
        assert(done_list =~= done_plan);
        let mut r: Vec<&TaskNode> = Vec::new();
        let ghost mut idx: Seq<int> = Seq::empty();
        let mut i: usize = 0;
        while i < self.nodes.len()
            invariant
                i <= self.nodes@.len(),
                done_list == done_plan,
                done_list == (|x: Seq<char>| holds_text(completed@, x)),
                done_plan == (|x: Seq<char>| completed_in(self.nodes@, x)),
                idx.len() == r@.len(),
                forall|k: int|
                    #![trigger idx[k]]
                    0 <= k < idx.len() ==> 0 <= idx[k] < i && r@[k] == &self.nodes@[idx[k]],
                forall|k: int| 0 <= k < r@.len() ==> ready_in(*#[trigger] r@[k], self.nodes@),
                forall|j: int|
                    0 <= j < i && ready_in(#[trigger] self.nodes@[j], self.nodes@) ==> r@.contains(
                        &self.nodes@[j],
                    ),
            decreases self.nodes@.len() - i,
        {
            let ok = self.nodes[i].can_execute(&completed);
            assert(ok == ready_in(self.nodes@[i as int], self.nodes@));
            let ghost old_r = r@;
            let ghost old_idx = idx;
            if ok {
                r.push(&self.nodes[i]);
                proof {
                    idx = idx.push(i as int);
                }
                assert(r@[r@.len() - 1] == &self.nodes@[i as int]);
            }
            assert forall|k: int| #![trigger idx[k]] 0 <= k < idx.len() implies 0 <= idx[k] < i + 1
                && r@[k] == &self.nodes@[idx[k]] by {
                if k < old_idx.len() {
                    assert(idx[k] == old_idx[k]);
                    assert(r@[k] == old_r[k]);
                }
            }
            assert forall|j: int|
                0 <= j < i + 1 && ready_in(#[trigger] self.nodes@[j], self.nodes@) implies r@.contains(
                &self.nodes@[j],
            ) by {
                if j < i {
                    let k = choose|k: int| 0 <= k < old_r.len() && old_r[k] == &self.nodes@[j];
                    assert(r@[k] == old_r[k]);
                } else {
                    assert(r@[r@.len() - 1] == &self.nodes@[i as int]);
                }
            }
            i = i + 1;
        }
        assert(idx.len() == r@.len());
        r
    }
}

/// The graph nodes mirror the plan nodes: same ids and estimates, same order.
pub open spec fn graph_nodes_match(g: Seq<GraphNode>, nodes: Seq<TaskNode>) -> bool {
    &&& g.len() == nodes.len()
    &&& forall|i: int|
        0 <= i < g.len() ==> (#[trigger] g[i]).node_id@ == nodes[i].node_id@
            && g[i].estimated_duration_ms == nodes[i].estimated_duration_ms
}

/// The edges of the dependencies whose source and target are both nodes
/// of the plan, as pairs of node positions, in dependency order.
pub open spec fn dep_edges(nodes: Seq<TaskNode>, deps: Seq<TaskDependency>) -> Seq<(usize, usize)>
    decreases deps.len(),
{
    if deps.len() == 0 {
        Seq::empty()
    } else {
        let rest = dep_edges(nodes, deps.drop_last());
        let d = deps.last();
        match (node_pos(nodes, d.source_task_id@), node_pos(nodes, d.target_task_id@)) {
            (Some(s), Some(t)) => rest.push((s as usize, t as usize)),
            _ => rest,
        }
    }
}

/// `g` is the dependency graph of the plan.
pub open spec fn graph_built_from(g: PlanGraph, plan: ExecutionPlan) -> bool {
    &&& g.wf()
    &&& graph_nodes_match(g.nodes@, plan.nodes@)
    &&& g.pairs() == dep_edges(plan.nodes@, plan.dependencies@)
}

/// The sum of the duration estimates of the nodes.
pub open spec fn plan_duration_sum(nodes: Seq<TaskNode>) -> nat
    decreases nodes.len(),
{
    if nodes.len() == 0 {
        0
    } else {
        plan_duration_sum(nodes.drop_last()) + nodes.last().estimated_duration_ms as nat
    }
}

pub proof fn lemma_duration_sums(g: Seq<GraphNode>, nodes: Seq<TaskNode>)
    requires
        graph_nodes_match(g, nodes),
    ensures
        duration_sum(g) == plan_duration_sum(nodes),
    decreases nodes.len(),
{
    if nodes.len() > 0 {
        assert(graph_nodes_match(g.drop_last(), nodes.drop_last())) by {
            assert forall|i: int| 0 <= i < g.drop_last().len() implies (#[trigger] g.drop_last()[i]).node_id@
                == nodes.drop_last()[i].node_id@ && g.drop_last()[i].estimated_duration_ms
                == nodes.drop_last()[i].estimated_duration_ms by {
                assert(g.drop_last()[i] == g[i]);
            }
        }
        lemma_duration_sums(g.drop_last(), nodes.drop_last());
        assert(g.last() == g[g.len() - 1]);
    }
}

} // verus!
