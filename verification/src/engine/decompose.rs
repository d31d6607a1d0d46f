//! Breaking a task into steps by the sentences of its description.

use vstd::prelude::*;
use crate::engine::types::{Task, TaskModel, TaskStatus};
use crate::engine::task_planner::TaskPlanner;
use crate::error::AetherisError;
use crate::json::{JsonValue, JsonModel, members_model, lemma_members_model, items_model, lemma_items_model};
use crate::engine::intent::{member_of, text_of, items_of, count_of, member, array_items, text_value, count_value};
use crate::text::{trim, trimmed, push_char, decimal, u64_to_text};

verus! {

broadcast use vstd::std_specs::vec::group_vec_axioms, vstd::seq::group_seq_axioms;

/// The characters a description is split at: full stops, semicolons and
/// line breaks.
pub open spec fn is_separator(c: char) -> bool {
    c == '.' || c == ';' || c == '\n'
}

/// The pieces between separators, in order, empty ones included (as
/// `str::split` gives them).
pub open spec fn pieces(s: Seq<char>) -> Seq<Seq<char>>
    decreases s.len(),
{
    if s.len() == 0 {
        seq![Seq::empty()]
    } else {
        let p = pieces(s.drop_last());
        if is_separator(s.last()) {
            p.push(Seq::empty())
        } else {
            p.update(p.len() - 1, p.last().push(s.last()))
        }
    }
}

proof fn lemma_pieces_nonempty(s: Seq<char>)
    ensures
        pieces(s).len() >= 1,
    decreases s.len(),
{
    if s.len() > 0 {
        lemma_pieces_nonempty(s.drop_last());
    }
}

/// The steps the pieces give: each piece trimmed, the empty ones dropped.
pub open spec fn step_descriptions(parts: Seq<Seq<char>>) -> Seq<Seq<char>>
    decreases parts.len(),
{
    if parts.len() == 0 {
        Seq::empty()
    } else {
        let r = step_descriptions(parts.drop_last());
        let t = trimmed(parts.last());
        if t.len() > 0 {
            r.push(t)
        } else {
            r
        }
    }
}

proof fn lemma_step_count(parts: Seq<Seq<char>>)
    ensures
        step_descriptions(parts).len() <= parts.len(),
    decreases parts.len(),
{
    if parts.len() > 0 {
        lemma_step_count(parts.drop_last());
    }
}

/// The metadata of a step: the parent task's id and the step's number,
/// its members in key order.
pub open spec fn step_metadata(parent: Seq<char>, step: nat) -> JsonModel {
    JsonModel::Object(seq![("parent_task_id"@, JsonModel::String(parent)), ("step"@, JsonModel::Number(decimal(step)))])
}

/// The task is the step with this description and number of `parent`: a
/// pending task with the parent's priority and the step's metadata.
pub open spec fn is_step_of(t: TaskModel, parent: TaskModel, description: Seq<char>, step: nat) -> bool {
    &&& t.description == description
    &&& t.title == description
    &&& t.status == TaskStatus::Pending
    &&& t.priority == parent.priority
    &&& t.metadata == step_metadata(parent.id, step)
}

fn step_task(parent: &Task, description: String, step: u64) -> (t: Task)
    ensures
        is_step_of(t@, parent@, description@, step as nat),
{
    let mut t = Task::new(description, parent.priority);
    let mut members: Vec<(String, JsonValue)> = Vec::new();
    members.push((String::from_str("parent_task_id"), JsonValue::String(parent.id.clone())));
    members.push((String::from_str("step"), JsonValue::Number(u64_to_text(step))));
    proof {
        lemma_members_model(members@);
        assert(members_model(members@) =~= seq![
            ("parent_task_id"@, JsonModel::String(parent.id@)),
            ("step"@, JsonModel::Number(decimal(step as nat))),
        ]);
    }
    t.metadata = JsonValue::Object(members);
    t
}

/// The steps the rules make of a task: one per piece of its description
/// that is not blank, numbered from 1; the task itself when there is none.
pub open spec fn rule_decomposition(task: TaskModel, v: Seq<Task>) -> bool {
    let d = step_descriptions(pieces(task.description));
    if d.len() == 0 {
        v.len() == 1 && v[0]@ == task
    } else {
        v.len() == d.len() && forall|k: int| 0 <= k < d.len() ==> is_step_of(#[trigger] v[k]@, task, d[k], (k + 1) as nat)
    }
}

/// The entries of a model reply's `subtasks` array; none when it has no
/// such array.
pub open spec fn reply_subtasks(reply: JsonModel) -> Seq<JsonModel> {
    match items_of(member_of(reply, "subtasks"@)) {
        Some(a) => a,
        None => Seq::empty(),
    }
}

/// The steps a model proposed among the entries: each entry with a string
/// `description` gives that description, its position among all entries
/// (from 1), and its `estimated_duration_minutes` when that is a whole
/// number fitting 64 bits.
pub open spec fn llm_steps(items: Seq<JsonModel>) -> Seq<(Seq<char>, nat, Option<nat>)>
    decreases items.len(),
{
    if items.len() == 0 {
        Seq::empty()
    } else {
        let rest = llm_steps(items.drop_last());
        match text_of(member_of(items.last(), "description"@)) {
            Some(d) => rest.push((d, items.len(), count_of(member_of(items.last(), "estimated_duration_minutes"@)))),
            None => rest,
        }
    }
}

/// The metadata of a proposed step, its members in key order: the
/// estimate when there is one, the parent task's id and the step's number.
pub open spec fn llm_step_metadata(parent: Seq<char>, step: nat, minutes: Option<nat>) -> JsonModel {
    match minutes {
        Some(m) => JsonModel::Object(
            seq![
                ("estimated_duration_minutes"@, JsonModel::Number(decimal(m))),
                ("parent_task_id"@, JsonModel::String(parent)),
                ("step"@, JsonModel::Number(decimal(step))),
            ],
        ),
        None => step_metadata(parent, step),
    }
}

/// The task is the proposed step of `parent`: a pending task with the
/// step's description, the parent's priority and the step's metadata.
pub open spec fn is_llm_step_of(t: TaskModel, parent: TaskModel, step: (Seq<char>, nat, Option<nat>)) -> bool {
    &&& t.description == step.0
    &&& t.title == step.0
    &&& t.status == TaskStatus::Pending
    &&& t.priority == parent.priority
    &&& t.metadata == llm_step_metadata(parent.id, step.1, step.2)
}

fn llm_step_task(parent: &Task, description: String, step: u64, minutes: Option<u64>) -> (t: Task)
    ensures
        is_llm_step_of(
            t@,
            parent@,
            (description@, step as nat, match minutes {
                Some(m) => Some(m as nat),
                None => None,
            }),
        ),
{
    match minutes {
        None => step_task(parent, description, step),
        Some(m) => {
            let mut t = Task::new(description, parent.priority);
            let mut members: Vec<(String, JsonValue)> = Vec::new();
            members.push((String::from_str("estimated_duration_minutes"), JsonValue::Number(u64_to_text(m))));
            members.push((String::from_str("parent_task_id"), JsonValue::String(parent.id.clone())));
            members.push((String::from_str("step"), JsonValue::Number(u64_to_text(step))));
            proof {
                lemma_members_model(members@);
                assert(members_model(members@) =~= seq![
                    ("estimated_duration_minutes"@, JsonModel::Number(decimal(m as nat))),
                    ("parent_task_id"@, JsonModel::String(parent.id@)),
                    ("step"@, JsonModel::Number(decimal(step as nat))),
                ]);
            }
            t.metadata = JsonValue::Object(members);
            t
        },
    }
}

impl TaskPlanner {
    /// Breaks a task into steps by the rules: its description is split at
    /// full stops, semicolons and line breaks; each piece that is not blank
    /// becomes a pending step, trimmed, with the task's priority and
    /// metadata naming the parent and the step's number (from 1). A task
    /// with no such piece stays whole.
    pub fn decompose_task_sync(&self, task: &Task) -> (r: Result<Vec<Task>, AetherisError>)
        ensures
            r matches Ok(v) && rule_decomposition(task@, v@),
    {
        let s = task.description.as_str();
        let n = s.unicode_len();
        let mut steps: Vec<Task> = Vec::new();
        let mut current = String::new();
        let ghost mut done: Seq<Seq<char>> = Seq::empty();
        let mut i: usize = 0;
        proof {
            assert(s@.take(0) =~= Seq::<char>::empty());
            assert(done + seq![current@] =~= seq![Seq::<char>::empty()]);
        }
        while i < n
            invariant
                n == s@.len(),
                s@ == task.description@,
                i <= n,
                pieces(s@.take(i as int)) == done + seq![current@],
                done.len() + current@.len() <= i,
                steps@.len() == step_descriptions(done).len(),
                forall|k: int| 0 <= k < steps@.len() ==> is_step_of(#[trigger] steps@[k]@, task@, step_descriptions(done)[k], (k + 1) as nat),
            decreases n - i,
        {
            let c = s.get_char(i);
            proof {
                assert(s@.take(i as int + 1).drop_last() =~= s@.take(i as int));
                assert(s@.take(i as int + 1).last() == c);
                lemma_step_count(done);
            }
            if c == '.' || c == ';' || c == '\n' {
                let piece = trim(current.as_str());
                let ghost old_done = done;
                if piece.as_str().unicode_len() > 0 {
                    let k = steps.len();
                    let t = step_task(task, piece, (k + 1) as u64);
                    steps.push(t);
                }
                proof {
                    done = old_done.push(current@);
                    assert(done.drop_last() =~= old_done);
                    assert(pieces(s@.take(i as int + 1)) =~= done + seq![Seq::<char>::empty()]);
                }
                current = String::new();
            } else {
                push_char(&mut current, c);
                proof {
                    assert(pieces(s@.take(i as int + 1)) =~= done + seq![current@]);
                }
            }
            i = i + 1;
        }
        proof {
            lemma_step_count(done);
            assert(s@.take(n as int) =~= s@);
        }
        let piece = trim(current.as_str());
        let ghost all = done.push(current@);
        proof {
            if current@.len() == 0 {
                assert(trimmed(current@).len() == 0);
            }
        }
        if piece.as_str().unicode_len() > 0 {
            let k = steps.len();
            let t = step_task(task, piece, (k + 1) as u64);
            steps.push(t);
        }
        proof {
            assert(all.drop_last() =~= done);
            assert(all =~= pieces(s@));
        }
        if steps.len() == 0 {
            let mut whole: Vec<Task> = Vec::new();
            whole.push(task.duplicate());
            return Ok(whole);
        }
        Ok(steps)
    }
}

impl TaskPlanner {
    /// Breaks a task into the steps a model proposed in its reply: one
    /// pending task per `subtasks` entry with a description, in order, with
    /// the task's priority and metadata naming the parent, the entry's
    /// position (from 1) and its estimate in minutes when it has one. When
    /// the reply proposes no such step, the task is broken up by the rules.
    pub fn decompose_from_llm_reply(&self, task: &Task, reply: &JsonValue) -> (r: Result<Vec<Task>, AetherisError>)
        ensures
            ({
                let steps = llm_steps(reply_subtasks(reply@));
                if steps.len() > 0 {
                    r matches Ok(v) && v@.len() == steps.len() && forall|k: int|
                        0 <= k < steps.len() ==> is_llm_step_of(#[trigger] v@[k]@, task@, steps[k])
                } else {
                    r matches Ok(v) && rule_decomposition(task@, v@)
                }
            }),
    {
        let mut out: Vec<Task> = Vec::new();
        let ghost items = reply_subtasks(reply@);
        match array_items(member(reply, "subtasks")) {
            Some(a) => {
                proof {
                    lemma_items_model(a@);
                }
                let mut i: usize = 0;
                while i < a.len()
                    invariant
                        i <= a@.len(),
                        items == items_model(a@),
                        items.len() == a@.len(),
                        forall|q: int| 0 <= q < a@.len() ==> #[trigger] items[q] == a@[q]@,
                        out@.len() == llm_steps(items.take(i as int)).len(),
                        forall|k: int|
                            0 <= k < out@.len() ==> is_llm_step_of(#[trigger] out@[k]@, task@, llm_steps(items.take(i as int))[k]),
                    decreases a@.len() - i,
                {
                    let it = &a[i];
                    proof {
                        assert(items.take(i as int + 1).drop_last() =~= items.take(i as int));
                        assert(items.take(i as int + 1).last() == it@);
                    }
                    match text_value(member(it, "description")) {
                        Some(d) => {
                            let minutes = count_value(member(it, "estimated_duration_minutes"));
                            let step: usize = i + 1;
                            let t = llm_step_task(task, String::from_str(d.as_str()), step as u64, minutes);
                            let ghost before = out@;
                            out.push(t);
                            proof {
                                assert forall|k: int| 0 <= k < out@.len() implies is_llm_step_of(
                                    #[trigger] out@[k]@,
                                    task@,
                                    llm_steps(items.take(i as int + 1))[k],
                                ) by {
                                    if k < before.len() {
                                        assert(out@[k] == before[k]);
                                    }
                                }
                            }
                        },
                        None => {},
                    }
                    i = i + 1;
                }
                assert(items.take(a@.len() as int) =~= items);
                if out.len() > 0 {
                    return Ok(out);
                }
            },
            None => {},
        }
        self.decompose_task_sync(task)
    }
}

} // verus!
