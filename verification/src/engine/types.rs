//! Tasks and their execution context.

use vstd::prelude::*;
use crate::json::{JsonValue, JsonModel};
use crate::runtime::{new_uuid, now_millis};

verus! {

/// Where a task stands in its life.
#[derive(Debug, Clone, Copy, PartialEq, Eq, Structural)]
pub enum TaskStatus {
    Pending,
    Running,
    Completed,
    Failed,
    Cancelled,
    Paused,
}

/// A unit of work. Times are milliseconds since the Unix epoch.
#[derive(Debug)]
pub struct Task {
    pub id: String,
    pub title: String,
    pub description: String,
    pub status: TaskStatus,
    pub created_at: i64,
    pub updated_at: i64,
    pub priority: u8,
    pub metadata: JsonValue,
    pub tags: Vec<String>,
    pub result: Option<String>,
}

/// The model of a task.
pub struct TaskModel {
    pub id: Seq<char>,
    pub title: Seq<char>,
    pub description: Seq<char>,
    pub status: TaskStatus,
    pub created_at: i64,
    pub updated_at: i64,
    pub priority: u8,
    pub metadata: JsonModel,
    pub tags: Seq<Seq<char>>,
    pub result: Option<Seq<char>>,
}

/// The texts of a sequence of strings.
pub open spec fn texts(s: Seq<String>) -> Seq<Seq<char>> {
    s.map_values(|x: String| x@)
}

pub open spec fn opt_text(o: Option<String>) -> Option<Seq<char>> {
    match o {
        Some(s) => Some(s@),
        None => None,
    }
}

impl View for Task {
    type V = TaskModel;

    open spec fn view(&self) -> TaskModel {
        TaskModel {
            id: self.id@,
            title: self.title@,
            description: self.description@,
            status: self.status,
            created_at: self.created_at,
            updated_at: self.updated_at,
            priority: self.priority,
            metadata: self.metadata@,
            tags: texts(self.tags@),
            result: opt_text(self.result),
        }
    }
}

/// A copy of a string list, element by element.
pub fn clone_strings(v: &Vec<String>) -> (r: Vec<String>)
    ensures
        r@ == v@,
{
    let mut r: Vec<String> = Vec::new();
    let mut i: usize = 0;
    while i < v.len()
        invariant
            i <= v.len(),
            r@ == v@.subrange(0, i as int),
        decreases v.len() - i,
    {
        r.push(v[i].clone());
        i = i + 1;
    }
    assert(r@ =~= v@);
    r
}

impl Task {
    /// A pending task whose title is its description, with a fresh id,
    /// the current time, an empty metadata object, no tags and no result.
    pub fn new(description: String, priority: u8) -> (t: Task)
        ensures
            t.title@ == description@,
            t.description@ == description@,
            t.status == TaskStatus::Pending,
            t.created_at == t.updated_at,
            t.priority == priority,
            t.metadata@ == JsonModel::Object(Seq::empty()),
            t.tags@.len() == 0,
            t.result is None,
            t.id@.len() == 36,
    {
        let now = now_millis();
        Task {
            id: new_uuid(),
            title: description.clone(),
            description,
            status: TaskStatus::Pending,
            created_at: now,
            updated_at: now,
            priority,
            metadata: JsonValue::empty_object(),
            tags: Vec::new(),
            result: None,
        }
    }

    /// The task with the given tags.
    pub fn with_tags(self, tags: Vec<String>) -> (t: Task)
        ensures
            t@ == (TaskModel { tags: texts(tags@), ..self@ }),
    {
        Task { tags, ..self }
    }

    /// Marks the task running and stamps the update time.
    pub fn mark_running(&mut self)
        ensures
            final(self)@ == (TaskModel { status: TaskStatus::Running, updated_at: final(self).updated_at, ..old(self)@ }),
    {
        self.status = TaskStatus::Running;
        self.updated_at = now_millis();
    }

    /// Marks the task completed and stamps the update time.
    pub fn mark_completed(&mut self)
        ensures
            final(self)@ == (TaskModel { status: TaskStatus::Completed, updated_at: final(self).updated_at, ..old(self)@ }),
    {
        self.status = TaskStatus::Completed;
        self.updated_at = now_millis();
    }

    /// Marks the task failed and stamps the update time.
    pub fn mark_failed(&mut self)
        ensures
            final(self)@ == (TaskModel { status: TaskStatus::Failed, updated_at: final(self).updated_at, ..old(self)@ }),
    {
        self.status = TaskStatus::Failed;
        self.updated_at = now_millis();
    }

    /// Marks the task paused and stamps the update time.
    pub fn mark_paused(&mut self)
        ensures
            final(self)@ == (TaskModel { status: TaskStatus::Paused, updated_at: final(self).updated_at, ..old(self)@ }),
    {
        self.status = TaskStatus::Paused;
        self.updated_at = now_millis();
    }
}

impl Task {
    /// A copy of the task.
    pub fn duplicate(&self) -> (t: Task)
        ensures
            t@ == self@,
    {
        Task {
            id: self.id.clone(),
            title: self.title.clone(),
            description: self.description.clone(),
            status: self.status,
            created_at: self.created_at,
            updated_at: self.updated_at,
            priority: self.priority,
            metadata: self.metadata.duplicate(),
            tags: clone_strings(&self.tags),
            result: match &self.result {
                Some(r) => Some(r.clone()),
                None => None,
            },
        }
    }
}

} // verus!
