//! The first-run wizard's progress through its steps.

use vstd::prelude::*;
use crate::config::openclaw::OpenClawConfigError;
use crate::runtime::now_millis;
use crate::text::str_eq;

verus! {

broadcast use vstd::std_specs::vec::group_vec_axioms, vstd::seq::group_seq_axioms;

/// What can go wrong during onboarding.
#[derive(Debug)]
pub enum OnboardError {
    Io(String),
    Config(OpenClawConfigError),
    Soul(String),
    Validation(String),
    Cancelled,
    Json(String),
}

/// One step of the wizard.
#[derive(Debug, Clone)]
pub struct OnboardStep {
    pub id: String,
    pub title: String,
    pub description: String,
    pub required: bool,
    pub completed: bool,
}

/// Where the wizard stands: its steps, the current one, and when it
/// started and finished (milliseconds since the epoch).
#[derive(Debug, Clone)]
pub struct OnboardProgress {
    pub current_step: String,
    pub steps: Vec<OnboardStep>,
    pub started_at: i64,
    pub completed_at: Option<i64>,
}

/// The position of the first step with the given id.
pub open spec fn step_pos(steps: Seq<OnboardStep>, id: Seq<char>) -> Option<int>
    decreases steps.len(),
{
    if steps.len() == 0 {
        None
    } else if steps[0].id@ == id {
        Some(0)
    } else {
        match step_pos(steps.skip(1), id) {
            Some(p) => Some(p + 1),
            None => None,
        }
    }
}

proof fn lemma_step_pos(steps: Seq<OnboardStep>, id: Seq<char>)
    ensures
        match step_pos(steps, id) {
            Some(p) => 0 <= p < steps.len() && steps[p].id@ == id && forall|j: int| 0 <= j < p ==> steps[j].id@ != id,
            None => forall|j: int| 0 <= j < steps.len() ==> steps[j].id@ != id,
        },
    decreases steps.len(),
{
    if steps.len() > 0 {
        lemma_step_pos(steps.skip(1), id);
        assert forall|j: int| 1 <= j < steps.len() implies steps[j] == steps.skip(1)[j - 1] by {}
    }
}

/// Every required step is completed.
pub open spec fn required_done(steps: Seq<OnboardStep>) -> bool {
    forall|i: int| 0 <= i < steps.len() ==> (!(#[trigger] steps[i]).required || steps[i].completed)
}

fn step(id: &str, title: &str, description: &str, required: bool) -> (s: OnboardStep)
    ensures
        s.id@ == id@,
        s.title@ == title@,
        s.description@ == description@,
        s.required == required,
        !s.completed,
{
    OnboardStep {
        id: String::from_str(id),
        title: String::from_str(title),
        description: String::from_str(description),
        required,
        completed: false,
    }
}

impl OnboardProgress {
    /// A wizard at its first step, `welcome`, with its five steps none of
    /// them completed: welcome, detect_openclaw, create_config, setup_soul
    /// and complete, of which the first, third and fifth are required.
    pub fn new() -> (p: OnboardProgress)
        ensures
            p.current_step@ == "welcome"@,
            p.steps@.len() == 5,
            p.steps@[0].id@ == "welcome"@ && p.steps@[0].required,
            p.steps@[1].id@ == "detect_openclaw"@ && !p.steps@[1].required,
            p.steps@[2].id@ == "create_config"@ && p.steps@[2].required,
            p.steps@[3].id@ == "setup_soul"@ && !p.steps@[3].required,
            p.steps@[4].id@ == "complete"@ && p.steps@[4].required,
            forall|i: int| 0 <= i < 5 ==> !(#[trigger] p.steps@[i]).completed,
            p.completed_at is None,
    {
        let mut steps: Vec<OnboardStep> = Vec::new();
        steps.push(step("welcome", "欢迎使用 Aetheris", "欢迎使用 Aetheris 2.0 - 统一数字员工与 Agent/Skill 生态系统", true));
        steps.push(step("detect_openclaw", "检测 OpenClaw 配置", "检测是否存在 OpenClaw 配置，支持平滑迁移", false));
        steps.push(step("create_config", "创建配置文件", "创建 Aetheris 配置文件", true));
        steps.push(step("setup_soul", "设置数字员工", "设置你的数字员工人格（SOUL.md）", false));
        steps.push(step("complete", "完成设置", "恭喜！你已完成 Aetheris 的初始设置", true));
        OnboardProgress {
            current_step: String::from_str("welcome"),
            steps,
            started_at: now_millis(),
            completed_at: None,
        }
    }

    /// The position of the first step with the given id.
    pub fn step_index(&self, id: &str) -> (r: Option<usize>)
        ensures
            step_pos(self.steps@, id@) == match r {
                Some(i) => Some(i as int),
                None => None::<int>,
            },
    {
        proof {
            lemma_step_pos(self.steps@, id@);
        }
        let mut i: usize = 0;
        while i < self.steps.len()
            invariant
                i <= self.steps@.len(),
                forall|j: int| 0 <= j < i ==> self.steps@[j].id@ != id@,
            decreases self.steps@.len() - i,
        {
            if str_eq(self.steps[i].id.as_str(), id) {
                proof {
                    lemma_step_pos(self.steps@, id@);
                }
                return Some(i);
            }
            i = i + 1;
        }
        proof {
            lemma_step_pos(self.steps@, id@);
        }
        None
    }

    /// The first step with the given id.
    pub fn get_step(&self, id: &str) -> (r: Option<&OnboardStep>)
        ensures
            match step_pos(self.steps@, id@) {
                Some(p) => r == Some(&self.steps@[p]),
                None => r is None,
            },
    {
        proof {
            lemma_step_pos(self.steps@, id@);
        }
        match self.step_index(id) {
            Some(i) => Some(&self.steps[i]),
            None => None,
        }
    }

    /// Completes the step with the given id: a required step is marked
    /// completed (an optional one keeps its mark); the wizard moves to the
    /// next step, or, after the last one, records when it finished. A step
    /// that does not exist is a validation error and changes nothing.
    pub fn complete_step(&mut self, id: &str) -> (r: Result<(), OnboardError>)
        ensures
            match step_pos(old(self).steps@, id@) {
                None => r matches Err(OnboardError::Validation(m)) && m@ == "Step not found: "@ + id@
                    && *final(self) == *old(self),
                Some(p) => {
                    &&& r is Ok
                    &&& final(self).steps@.len() == old(self).steps@.len()
                    &&& final(self).steps@[p] == (OnboardStep {
                        completed: old(self).steps@[p].completed || old(self).steps@[p].required,
                        ..old(self).steps@[p]
                    })
                    &&& forall|j: int| 0 <= j < old(self).steps@.len() && j != p ==> #[trigger] final(self).steps@[j] == old(self).steps@[j]
                    &&& final(self).started_at == old(self).started_at
                    &&& if p + 1 < old(self).steps@.len() {
                        final(self).current_step@ == old(self).steps@[p + 1].id@
                            && final(self).completed_at == old(self).completed_at
                    } else {
                        final(self).current_step == old(self).current_step && final(self).completed_at is Some
                    }
                },
            },
    {
        proof {
            lemma_step_pos(self.steps@, id@);
        }
        match self.step_index(id) {
            None => {
                let mut m = String::from_str("Step not found: ");
                m.append(id);
                Err(OnboardError::Validation(m))
            },
            Some(i) => {
                let n = self.steps.len();
                if self.steps[i].required && !self.steps[i].completed {
                    let mut s = self.steps.remove(i);
                    s.completed = true;
                    self.steps.insert(i, s);
                }
                assert(self.steps@.len() == n);
                if i + 1 < n {
                    self.current_step = self.steps[i + 1].id.clone();
                } else {
                    self.completed_at = Some(now_millis());
                }
                Ok(())
            },
        }
    }

    /// The wizard is complete: it has finished, or every required step is
    /// completed.
    pub fn is_complete(&self) -> (r: bool)
        ensures
            r == (self.completed_at is Some || required_done(self.steps@)),
    {
        if self.completed_at.is_some() {
            return true;
        }
        let mut i: usize = 0;
        while i < self.steps.len()
            invariant
                i <= self.steps@.len(),
                self.completed_at is None,
                forall|j: int| 0 <= j < i ==> (!(#[trigger] self.steps@[j]).required || self.steps@[j].completed),
            decreases self.steps@.len() - i,
        {
            if self.steps[i].required && !self.steps[i].completed {
                assert(!(!self.steps@[i as int].required || self.steps@[i as int].completed));
                return false;
            }
            i = i + 1;
        }
        true
    }

    /// How many steps are required, and how many of those are completed.
    pub fn required_counts(&self) -> (r: (usize, usize))
        ensures
            r.0 == required_count(self.steps@),
            r.1 == required_completed_count(self.steps@),
    {
        let mut total: usize = 0;
        let mut done: usize = 0;
        let mut i: usize = 0;
        while i < self.steps.len()
            invariant
                i <= self.steps@.len(),
                total == required_count(self.steps@.subrange(0, i as int)),
                done == required_completed_count(self.steps@.subrange(0, i as int)),
                total <= i,
                done <= i,
            decreases self.steps@.len() - i,
        {
            proof {
                let sub = self.steps@.subrange(0, i as int);
                let next = self.steps@.subrange(0, i as int + 1);
                assert(next.drop_last() =~= sub);
                assert(next.last() == self.steps@[i as int]);
            }
            if self.steps[i].required {
                total = total + 1;
                if self.steps[i].completed {
                    done = done + 1;
                }
            }
            i = i + 1;
        }
        assert(self.steps@.subrange(0, self.steps@.len() as int) =~= self.steps@);
        (total, done)
    }
}

/// The number of required steps.
pub open spec fn required_count(steps: Seq<OnboardStep>) -> nat
    decreases steps.len(),
{
    if steps.len() == 0 {
        0
    } else {
        required_count(steps.drop_last()) + if steps.last().required { 1nat } else { 0nat }
    }
}

/// The number of required steps that are completed.
pub open spec fn required_completed_count(steps: Seq<OnboardStep>) -> nat
    decreases steps.len(),
{
    if steps.len() == 0 {
        0
    } else {
        required_completed_count(steps.drop_last()) + if steps.last().required && steps.last().completed {
            1nat
        } else {
            0nat
        }
    }
}

} // verus!
