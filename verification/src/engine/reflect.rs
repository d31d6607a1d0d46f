//! Reflection on finished work: critiques of how a task went, the lessons
//! drawn from a report, the improvements proposed from its critiques, and
//! the history of reports. Times are milliseconds since the Unix epoch and
//! durations are milliseconds.

use vstd::prelude::*;
use crate::engine::types::{Task, TaskStatus};
use crate::error::AetherisError;
use crate::runtime::{new_uuid, now_millis};
use crate::text::{byte_len, utf8_len, str_eq};

verus! {

broadcast use vstd::std_specs::vec::group_vec_axioms, vstd::seq::group_seq_axioms;

/// How serious a critique of a task's execution is.
#[derive(Debug, Clone, Copy, PartialEq, Eq, Structural)]
pub enum CritiqueSeverity {
    Info,
    Warning,
    Error,
    Critical,
}

/// A critique of how a task was carried out, with what to do about it.
#[derive(Debug)]
pub struct Critique {
    pub critique_id: String,
    pub task_id: String,
    pub severity: CritiqueSeverity,
    pub category: String,
    pub description: String,
    pub suggestion: String,
    pub created_at: i64,
}

impl Critique {
    /// A critique with a fresh id, stamped now, with no suggestion yet.
    pub fn new(task_id: String, severity: CritiqueSeverity, category: String, description: String) -> (c: Critique)
        ensures
            c.task_id == task_id,
            c.severity == severity,
            c.category == category,
            c.description == description,
            c.suggestion@.len() == 0,
            c.critique_id@.len() == 36,
    {
        Critique {
            critique_id: new_uuid(),
            task_id,
            severity,
            category,
            description,
            suggestion: String::new(),
            created_at: now_millis(),
        }
    }

    /// The critique with the given suggestion.
    pub fn with_suggestion(self, suggestion: String) -> (c: Critique)
        ensures
            c == (Critique { suggestion, ..self }),
    {
        Critique { suggestion, ..self }
    }

    /// A copy of the critique.
    pub fn duplicate(&self) -> (c: Critique)
        ensures
            c == *self,
    {
        Critique {
            critique_id: self.critique_id.clone(),
            task_id: self.task_id.clone(),
            severity: self.severity,
            category: self.category.clone(),
            description: self.description.clone(),
            suggestion: self.suggestion.clone(),
            created_at: self.created_at,
        }
    }
}

/// The measurements of one execution.
#[derive(Debug)]
pub struct ExecutionMetric {
    pub task_id: String,
    pub duration_ms: i64,
    pub token_used: Option<u64>,
    pub steps_taken: u32,
    pub success: bool,
    pub retries: u32,
}

impl ExecutionMetric {
    /// A copy of the measurements.
    pub fn duplicate(&self) -> (m: ExecutionMetric)
        ensures
            m == *self,
    {
        ExecutionMetric {
            task_id: self.task_id.clone(),
            duration_ms: self.duration_ms,
            token_used: self.token_used,
            steps_taken: self.steps_taken,
            success: self.success,
            retries: self.retries,
        }
    }
}

/// A change proposed to how a task is carried out. Its effectiveness is
/// scored in thousandths.
#[derive(Debug)]
pub struct Improvement {
    pub improvement_id: String,
    pub task_id: String,
    pub description: String,
    pub before_state: String,
    pub after_state: String,
    pub applied_at: Option<i64>,
    pub effectiveness_permille: i64,
}

impl Improvement {
    /// An improvement with a fresh id, not applied, scored zero.
    pub fn new(task_id: String, description: String, before_state: String, after_state: String) -> (i: Improvement)
        ensures
            i.task_id == task_id,
            i.description == description,
            i.before_state == before_state,
            i.after_state == after_state,
            i.applied_at is None,
            i.effectiveness_permille == 0,
            i.improvement_id@.len() == 36,
    {
        Improvement {
            improvement_id: new_uuid(),
            task_id,
            description,
            before_state,
            after_state,
            applied_at: None,
            effectiveness_permille: 0,
        }
    }

    /// Stamps the improvement applied now; nothing else changes.
    pub fn mark_applied(&mut self)
        ensures
            final(self).applied_at is Some,
            *final(self) == (Improvement { applied_at: final(self).applied_at, ..*old(self) }),
    {
        self.applied_at = Some(now_millis());
    }

    /// A copy of the improvement.
    pub fn duplicate(&self) -> (i: Improvement)
        ensures
            i == *self,
    {
        Improvement {
            improvement_id: self.improvement_id.clone(),
            task_id: self.task_id.clone(),
            description: self.description.clone(),
            before_state: self.before_state.clone(),
            after_state: self.after_state.clone(),
            applied_at: self.applied_at,
            effectiveness_permille: self.effectiveness_permille,
        }
    }
}

/// What was learned from one execution of a task.
#[derive(Debug)]
pub struct ExecutionReport {
    pub report_id: String,
    pub task_id: String,
    pub success: bool,
    pub duration_ms: i64,
    pub start_time: Option<i64>,
    pub end_time: Option<i64>,
    pub critiques: Vec<Critique>,
    pub lessons_learned: Vec<String>,
    pub improvements: Vec<Improvement>,
    pub metrics: ExecutionMetric,
    pub created_at: i64,
}

/// The model of a report: its lists as sequences.
pub struct ReportModel {
    pub report_id: Seq<char>,
    pub task_id: Seq<char>,
    pub success: bool,
    pub duration_ms: i64,
    pub start_time: Option<i64>,
    pub end_time: Option<i64>,
    pub critiques: Seq<Critique>,
    pub lessons_learned: Seq<Seq<char>>,
    pub improvements: Seq<Improvement>,
    pub metrics: ExecutionMetric,
    pub created_at: i64,
}

impl View for ExecutionReport {
    type V = ReportModel;

    open spec fn view(&self) -> ReportModel {
        ReportModel {
            report_id: self.report_id@,
            task_id: self.task_id@,
            success: self.success,
            duration_ms: self.duration_ms,
            start_time: self.start_time,
            end_time: self.end_time,
            critiques: self.critiques@,
            lessons_learned: self.lessons_learned@.map_values(|s: String| s@),
            improvements: self.improvements@,
            metrics: self.metrics,
            created_at: self.created_at,
        }
    }
}

/// The critiques of the given severity, in order.
pub open spec fn by_severity(cs: Seq<Critique>, severity: CritiqueSeverity) -> Seq<Critique>
    decreases cs.len(),
{
    if cs.len() == 0 {
        Seq::empty()
    } else {
        let rest = by_severity(cs.drop_last(), severity);
        if cs.last().severity == severity {
            rest.push(cs.last())
        } else {
            rest
        }
    }
}

impl ExecutionReport {
    /// A report with a fresh id, stamped now, of the given outcome, with no
    /// duration, critiques, lessons or improvements, and metrics that record
    /// only the task and the outcome.
    pub fn new(task_id: String, success: bool) -> (r: ExecutionReport)
        ensures
            r@.task_id == task_id@,
            r@.success == success,
            r@.duration_ms == 0,
            r@.start_time is None,
            r@.end_time is None,
            r@.critiques.len() == 0,
            r@.lessons_learned.len() == 0,
            r@.improvements.len() == 0,
            r@.metrics == (ExecutionMetric {
                task_id: task_id,
                duration_ms: 0,
                token_used: None,
                steps_taken: 0,
                success: success,
                retries: 0,
            }),
            r@.report_id.len() == 36,
    {
        let now = now_millis();
        let task_id_copy = task_id.clone();
        ExecutionReport {
            report_id: new_uuid(),
            task_id,
            success,
            duration_ms: 0,
            start_time: None,
            end_time: None,
            critiques: Vec::new(),
            lessons_learned: Vec::new(),
            improvements: Vec::new(),
            metrics: ExecutionMetric {
                task_id: task_id_copy,
                duration_ms: 0,
                token_used: None,
                steps_taken: 0,
                success,
                retries: 0,
            },
            created_at: now,
        }
    }

    /// The report with the execution's start and end, and the time between
    /// them as its duration and its metrics' duration.
    pub fn with_duration(self, start: i64, end: i64) -> (r: ExecutionReport)
        requires
            i64::MIN <= end - start <= i64::MAX,
        ensures
            r@ == (ReportModel {
                start_time: Some(start),
                end_time: Some(end),
                duration_ms: (end - start) as i64,
                metrics: ExecutionMetric { duration_ms: (end - start) as i64, ..self@.metrics },
                ..self@
            }),
    {
        let d = end - start;
        let mut r = self;
        r.start_time = Some(start);
        r.end_time = Some(end);
        r.duration_ms = d;
        r.metrics.duration_ms = d;
        r
    }

    /// Appends a critique.
    pub fn add_critique(&mut self, critique: Critique)
        ensures
            final(self)@ == (ReportModel { critiques: old(self)@.critiques.push(critique), ..old(self)@ }),
    {
        self.critiques.push(critique);
    }

    /// Appends a lesson.
    pub fn add_lesson(&mut self, lesson: String)
        ensures
            final(self)@ == (ReportModel { lessons_learned: old(self)@.lessons_learned.push(lesson@), ..old(self)@ }),
    {
        let ghost before = self.lessons_learned@;
        self.lessons_learned.push(lesson);
        assert(self.lessons_learned@.map_values(|s: String| s@) =~= before.map_values(|s: String| s@).push(lesson@));
    }

    /// Appends an improvement.
    pub fn add_improvement(&mut self, improvement: Improvement)
        ensures
            final(self)@ == (ReportModel { improvements: old(self)@.improvements.push(improvement), ..old(self)@ }),
    {
        self.improvements.push(improvement);
    }

    /// The critiques of the given severity, in order.
    pub fn get_critiques_by_severity(&self, severity: &CritiqueSeverity) -> (r: Vec<&Critique>)
        ensures
            r@.len() == by_severity(self@.critiques, *severity).len(),
            forall|i: int| 0 <= i < r@.len() ==> *r@[i] == by_severity(self@.critiques, *severity)[i],
    {
        let mut r: Vec<&Critique> = Vec::new();
        let mut i: usize = 0;
        while i < self.critiques.len()
            invariant
                i <= self.critiques@.len(),
                r@.len() == by_severity(self.critiques@.subrange(0, i as int), *severity).len(),
                forall|k: int| 0 <= k < r@.len() ==> *r@[k] == by_severity(self.critiques@.subrange(0, i as int), *severity)[k],
            decreases self.critiques@.len() - i,
        {
            assert(self.critiques@.subrange(0, i as int + 1).drop_last() =~= self.critiques@.subrange(0, i as int));
            if self.critiques[i].severity == *severity {
                r.push(&self.critiques[i]);
            }
            i = i + 1;
        }
        assert(self.critiques@.subrange(0, i as int) =~= self.critiques@);
        r
    }

    /// Whether some critique has the given severity.
    pub fn has_errors(&self, severity: &CritiqueSeverity) -> (r: bool)
        ensures
            r == exists|i: int| 0 <= i < self@.critiques.len() && self@.critiques[i].severity == *severity,
    {
        let mut i: usize = 0;
        while i < self.critiques.len()
            invariant
                i <= self.critiques@.len(),
                forall|k: int| 0 <= k < i ==> self.critiques@[k].severity != *severity,
            decreases self.critiques@.len() - i,
        {
            if self.critiques[i].severity == *severity {
                return true;
            }
            i = i + 1;
        }
        false
    }

    /// A copy of the report.
    pub fn duplicate(&self) -> (r: ExecutionReport)
        ensures
            r@ == self@,
    {
        let mut critiques: Vec<Critique> = Vec::new();
        let mut i: usize = 0;
        while i < self.critiques.len()
            invariant
                i <= self.critiques@.len(),
                critiques@ == self.critiques@.subrange(0, i as int),
            decreases self.critiques@.len() - i,
        {
            critiques.push(self.critiques[i].duplicate());
            i = i + 1;
        }
        let mut lessons: Vec<String> = Vec::new();
        let mut i: usize = 0;
        while i < self.lessons_learned.len()
            invariant
                i <= self.lessons_learned@.len(),
                lessons@ == self.lessons_learned@.subrange(0, i as int),
            decreases self.lessons_learned@.len() - i,
        {
            lessons.push(self.lessons_learned[i].clone());
            i = i + 1;
        }
        let mut improvements: Vec<Improvement> = Vec::new();
        let mut i: usize = 0;
        while i < self.improvements.len()
            invariant
                i <= self.improvements@.len(),
                improvements@ == self.improvements@.subrange(0, i as int),
            decreases self.improvements@.len() - i,
        {
            improvements.push(self.improvements[i].duplicate());
            i = i + 1;
        }
        proof {
            assert(critiques@ =~= self.critiques@);
            assert(lessons@ =~= self.lessons_learned@);
            assert(improvements@ =~= self.improvements@);
        }
        ExecutionReport {
            report_id: self.report_id.clone(),
            task_id: self.task_id.clone(),
            success: self.success,
            duration_ms: self.duration_ms,
            start_time: self.start_time,
            end_time: self.end_time,
            critiques,
            lessons_learned: lessons,
            improvements,
            metrics: self.metrics.duplicate(),
            created_at: self.created_at,
        }
    }
}


/// The model of a history: the stored reports, and for each stored report
/// in the order they came, the task it belongs to and its id.
pub struct HistoryModel {
    pub reports: Seq<ReportModel>,
    pub task_reports: Seq<(Seq<char>, Seq<char>)>,
}

/// The reports of executions, by id, and which tasks they belong to.
#[derive(Debug)]
pub struct ExecutionHistory {
    reports: Vec<ExecutionReport>,
    task_reports: Vec<(String, String)>,
}

impl View for ExecutionHistory {
    type V = HistoryModel;

    closed spec fn view(&self) -> HistoryModel {
        HistoryModel {
            reports: self.reports@.map_values(|r: ExecutionReport| r@),
            task_reports: self.task_reports@.map_values(|p: (String, String)| (p.0@, p.1@)),
        }
    }
}

/// Where the report with the given id is stored: the first such place.
pub open spec fn report_pos(rs: Seq<ReportModel>, id: Seq<char>) -> Option<int>
    decreases rs.len(),
{
    if rs.len() == 0 {
        None
    } else {
        match report_pos(rs.drop_last(), id) {
            Some(i) => Some(i),
            None => if rs.last().report_id == id {
                Some(rs.len() - 1)
            } else {
                None
            },
        }
    }
}

/// The history after storing a report: it replaces a stored report with
/// the same id, or else comes last; either way the task gains its id.
pub open spec fn history_store(h: HistoryModel, r: ReportModel) -> HistoryModel {
    HistoryModel {
        reports: match report_pos(h.reports, r.report_id) {
            Some(p) => h.reports.update(p, r),
            None => h.reports.push(r),
        },
        task_reports: h.task_reports.push((r.task_id, r.report_id)),
    }
}

/// The reports of a task, in the order they were stored, each as it is
/// stored now.
pub open spec fn reports_for(reports: Seq<ReportModel>, log: Seq<(Seq<char>, Seq<char>)>, task: Seq<char>) -> Seq<ReportModel>
    decreases log.len(),
{
    if log.len() == 0 {
        Seq::empty()
    } else {
        let rest = reports_for(reports, log.drop_last(), task);
        if log.last().0 == task {
            match report_pos(reports, log.last().1) {
                Some(p) => rest.push(reports[p]),
                None => rest,
            }
        } else {
            rest
        }
    }
}

proof fn lemma_report_pos(rs: Seq<ReportModel>, id: Seq<char>)
    ensures
        match report_pos(rs, id) {
            Some(p) => 0 <= p < rs.len() && rs[p].report_id == id,
            None => forall|k: int| 0 <= k < rs.len() ==> rs[k].report_id != id,
        },
    decreases rs.len(),
{
    if rs.len() > 0 {
        lemma_report_pos(rs.drop_last(), id);
        assert forall|k: int| 0 <= k < rs.len() - 1 implies #[trigger] rs[k] == rs.drop_last()[k] by {}
    }
}

proof fn lemma_report_pos_prefix(rs: Seq<ReportModel>, j: int, id: Seq<char>)
    requires
        0 <= j <= rs.len(),
        report_pos(rs.subrange(0, j), id) is Some,
    ensures
        report_pos(rs, id) == report_pos(rs.subrange(0, j), id),
    decreases rs.len() - j,
{
    if j < rs.len() {
        assert(rs.subrange(0, j + 1).drop_last() =~= rs.subrange(0, j));
        lemma_report_pos_prefix(rs, j + 1, id);
    } else {
        assert(rs.subrange(0, j) =~= rs);
    }
}

impl ExecutionHistory {
    /// An empty history.
    pub fn new() -> (h: ExecutionHistory)
        ensures
            h@.reports.len() == 0,
            h@.task_reports.len() == 0,
    {
        ExecutionHistory { reports: Vec::new(), task_reports: Vec::new() }
    }

    /// An empty history.
    pub fn default() -> (h: ExecutionHistory)
        ensures
            h@.reports.len() == 0,
            h@.task_reports.len() == 0,
    {
        ExecutionHistory::new()
    }

    fn find(&self, report_id: &str) -> (r: Option<usize>)
        ensures
            match r {
                Some(p) => report_pos(self@.reports, report_id@) == Some(p as int) && p < self.reports@.len(),
                None => report_pos(self@.reports, report_id@) is None,
            },
    {
        let ghost rs = self@.reports;
        let mut i: usize = 0;
        while i < self.reports.len()
            invariant
                i <= self.reports@.len(),
                rs == self@.reports,
                rs.len() == self.reports@.len(),
                report_pos(rs.subrange(0, i as int), report_id@) is None,
            decreases self.reports@.len() - i,
        {
            assert(rs.subrange(0, i as int + 1).drop_last() =~= rs.subrange(0, i as int));
            assert(rs[i as int] == self.reports@[i as int]@);
            if str_eq(self.reports[i].report_id.as_str(), report_id) {
                proof {
                    assert(report_pos(rs.subrange(0, i as int + 1), report_id@) == Some(i as int));
                    lemma_report_pos_prefix(rs, i as int + 1, report_id@);
                }
                return Some(i);
            }
            i = i + 1;
        }
        assert(rs.subrange(0, i as int) =~= rs);
        None
    }

    /// Stores a report: it replaces a stored report with the same id, or
    /// else is added; and the report's task gains the report's id.
    pub fn store_report(&mut self, report: ExecutionReport)
        ensures
            final(self)@ == history_store(old(self)@, report@),
    {
        let ghost old_h = self@;
        let ghost rm = report@;
        let entry = (report.task_id.clone(), report.report_id.clone());
        match self.find(report.report_id.as_str()) {
            Some(p) => {
                self.reports.set(p, report);
                assert(self@.reports =~= old_h.reports.update(p as int, rm));
            },
            None => {
                self.reports.push(report);
                assert(self@.reports =~= old_h.reports.push(rm));
            },
        }
        self.task_reports.push(entry);
        assert(self@.task_reports =~= old_h.task_reports.push((rm.task_id, rm.report_id)));
    }

    /// The stored report with the given id.
    pub fn get_report(&self, report_id: &str) -> (r: Option<ExecutionReport>)
        ensures
            match report_pos(self@.reports, report_id@) {
                Some(p) => r is Some && r->Some_0@ == self@.reports[p],
                None => r is None,
            },
    {
        match self.find(report_id) {
            Some(p) => Some(self.reports[p].duplicate()),
            None => None,
        }
    }

    /// The reports of a task, in the order they were stored.
    pub fn get_reports_for_task(&self, task_id: &str) -> (r: Vec<ExecutionReport>)
        ensures
            r@.len() == reports_for(self@.reports, self@.task_reports, task_id@).len(),
            forall|i: int| 0 <= i < r@.len() ==> #[trigger] r@[i]@ == reports_for(self@.reports, self@.task_reports, task_id@)[i],
    {
        let ghost h = self@;
        let mut r: Vec<ExecutionReport> = Vec::new();
        let mut i: usize = 0;
        while i < self.task_reports.len()
            invariant
                i <= self.task_reports@.len(),
                h == self@,
                h.task_reports.len() == self.task_reports@.len(),
                r@.len() == reports_for(h.reports, h.task_reports.subrange(0, i as int), task_id@).len(),
                forall|k: int| 0 <= k < r@.len() ==> #[trigger] r@[k]@ == reports_for(h.reports, h.task_reports.subrange(0, i as int), task_id@)[k],
            decreases self.task_reports@.len() - i,
        {
            assert(h.task_reports.subrange(0, i as int + 1).drop_last() =~= h.task_reports.subrange(0, i as int));
            assert(h.task_reports[i as int] == (self.task_reports@[i as int].0@, self.task_reports@[i as int].1@));
            if str_eq(self.task_reports[i].0.as_str(), task_id) {
                match self.find(self.task_reports[i].1.as_str()) {
                    Some(p) => {
                        r.push(self.reports[p].duplicate());
                    },
                    None => {},
                }
            }
            i = i + 1;
        }
        assert(h.task_reports.subrange(0, i as int) =~= h.task_reports);
        r
    }

    /// The report of a task stored last.
    pub fn get_latest_report_for_task(&self, task_id: &str) -> (r: Option<ExecutionReport>)
        ensures
            ({
                let rs = reports_for(self@.reports, self@.task_reports, task_id@);
                if rs.len() == 0 {
                    r is None
                } else {
                    r is Some && r->Some_0@ == rs.last()
                }
            }),
    {
        let mut all = self.get_reports_for_task(task_id);
        all.pop()
    }
}


/// What a critique says: its severity, category, description and
/// suggestion.
pub open spec fn critique_shape(c: Critique) -> (CritiqueSeverity, Seq<char>, Seq<char>, Seq<char>) {
    (c.severity, c.category@, c.description@, c.suggestion@)
}

/// The critiques every task gets from its own fields: a warning when its
/// description is under 20 bytes long, and a note when its priority is
/// above 7.
pub open spec fn default_critique_shapes(description: Seq<char>, priority: u8) -> Seq<(CritiqueSeverity, Seq<char>, Seq<char>, Seq<char>)> {
    (if utf8_len(description) < 20 {
        seq![(CritiqueSeverity::Warning, "TaskDescription"@, "Task description is too short"@, "Provide more detailed task description"@)]
    } else {
        Seq::empty()
    }) + (if priority > 7 {
        seq![(CritiqueSeverity::Info, "TaskPriority"@, "Task has high priority"@, Seq::<char>::empty())]
    } else {
        Seq::empty()
    })
}

/// One lesson for each critique that makes a suggestion, in order.
pub open spec fn suggestion_lessons(cs: Seq<Critique>) -> Seq<Seq<char>>
    decreases cs.len(),
{
    if cs.len() == 0 {
        Seq::empty()
    } else {
        let rest = suggestion_lessons(cs.drop_last());
        if cs.last().suggestion@.len() > 0 {
            rest.push("Suggestion: "@ + cs.last().suggestion@)
        } else {
            rest
        }
    }
}

/// The lessons of a report: how it ended, a note when it ran over ten
/// seconds, and the critiques' suggestions.
pub open spec fn lessons_for(success: bool, duration_ms: i64, cs: Seq<Critique>) -> Seq<Seq<char>> {
    seq![if success { "Task completed successfully"@ } else { "Task failed, review error logs"@ }]
        + (if duration_ms > 10000 { seq!["Consider optimizing long-running tasks"@] } else { Seq::empty() })
        + suggestion_lessons(cs)
}

/// What an improvement proposes: for its task, its description, the state
/// before and the state after.
pub open spec fn improvement_shape(i: Improvement) -> (Seq<char>, Seq<char>, Seq<char>, Seq<char>) {
    (i.task_id@, i.description@, i.before_state@, i.after_state@)
}

/// The improvements proposed from a report's critiques: one for each
/// critique that makes a suggestion, in order.
pub open spec fn improvement_shapes(task_id: Seq<char>, cs: Seq<Critique>) -> Seq<(Seq<char>, Seq<char>, Seq<char>, Seq<char>)>
    decreases cs.len(),
{
    if cs.len() == 0 {
        Seq::empty()
    } else {
        let rest = improvement_shapes(task_id, cs.drop_last());
        let c = cs.last();
        if c.suggestion@.len() > 0 {
            rest.push((task_id, c.description@, "Before: "@ + c.description@, "After: "@ + c.suggestion@))
        } else {
            rest
        }
    }
}

/// How many of the reports record a success.
pub open spec fn successes(rs: Seq<ReportModel>) -> int
    decreases rs.len(),
{
    if rs.len() == 0 {
        0
    } else {
        successes(rs.drop_last()) + if rs.last().success { 1int } else { 0int }
    }
}

/// The sum of the reports' durations.
pub open spec fn total_duration(rs: Seq<ReportModel>) -> int
    decreases rs.len(),
{
    if rs.len() == 0 {
        0
    } else {
        total_duration(rs.drop_last()) + rs.last().duration_ms
    }
}

/// The advice drawn from a task's earlier reports: when fewer than half
/// succeeded, to simplify and split the task; when they took over thirty
/// seconds on average, to run in parallel.
pub open spec fn strategy_advice(rs: Seq<ReportModel>) -> Seq<Seq<char>> {
    if rs.len() == 0 {
        Seq::empty()
    } else {
        (if 2 * successes(rs) < rs.len() {
            seq!["Consider simplifying task approach"@, "Break task into smaller steps"@]
        } else {
            Seq::empty()
        }) + (if total_duration(rs) > 30000 * rs.len() {
            seq!["Consider parallel execution"@]
        } else {
            Seq::empty()
        })
    }
}

/// Reviews finished tasks: it critiques them, draws lessons, proposes
/// improvements and keeps the history of its reports.
#[derive(Debug)]
pub struct Reflector {
    history: ExecutionHistory,
}

impl View for Reflector {
    type V = HistoryModel;

    closed spec fn view(&self) -> HistoryModel {
        self.history@
    }
}

impl Reflector {
    /// A reflector with an empty history.
    pub fn new() -> (r: Reflector)
        ensures
            r@.reports.len() == 0,
            r@.task_reports.len() == 0,
    {
        Reflector { history: ExecutionHistory::new() }
    }

    /// A reflector with an empty history.
    pub fn default() -> (r: Reflector)
        ensures
            r@.reports.len() == 0,
            r@.task_reports.len() == 0,
    {
        Reflector::new()
    }

    /// The reflector keeping the given history.
    pub fn with_history(self, history: ExecutionHistory) -> (r: Reflector)
        ensures
            r@ == history@,
    {
        Reflector { history }
    }

    /// The history of reports.
    pub fn get_history(&self) -> (h: &ExecutionHistory)
        ensures
            h@ == self@,
    {
        &self.history
    }

    fn generate_default_critiques(&self, task: &Task) -> (r: Vec<Critique>)
        ensures
            r@.len() == default_critique_shapes(task.description@, task.priority).len(),
            forall|i: int| 0 <= i < r@.len() ==> critique_shape(#[trigger] r@[i]) == default_critique_shapes(task.description@, task.priority)[i]
                && r@[i].task_id@ == task.id@,
    {
        let mut r: Vec<Critique> = Vec::new();
        let short = byte_len(task.description.as_str()) < 20;
        if short {
            let c = Critique::new(
                task.id.clone(),
                CritiqueSeverity::Warning,
                String::from_str("TaskDescription"),
                String::from_str("Task description is too short"),
            ).with_suggestion(String::from_str("Provide more detailed task description"));
            r.push(c);
        }
        if task.priority > 7 {
            r.push(Critique::new(
                task.id.clone(),
                CritiqueSeverity::Info,
                String::from_str("TaskPriority"),
                String::from_str("Task has high priority"),
            ));
        }
        proof {
            let shapes = default_critique_shapes(task.description@, task.priority);
            assert(r@.len() == shapes.len());
            assert forall|i: int| 0 <= i < r@.len() implies critique_shape(#[trigger] r@[i]) == shapes[i] && r@[i].task_id@ == task.id@ by {
                if short {
                    if i == 0 {
                        assert(critique_shape(r@[0]) == shapes[0]);
                    } else {
                        assert(critique_shape(r@[1]) == shapes[1]);
                    }
                } else {
                    assert(critique_shape(r@[0]) == shapes[0]);
                }
            }
        }
        r
    }

    fn generate_lessons(&self, success: bool, duration_ms: i64, critiques: &Vec<Critique>) -> (r: Vec<String>)
        ensures
            r@.map_values(|s: String| s@) == lessons_for(success, duration_ms, critiques@),
    {
        let mut r: Vec<String> = Vec::new();
        if success {
            r.push(String::from_str("Task completed successfully"));
        } else {
            r.push(String::from_str("Task failed, review error logs"));
        }
        if duration_ms > 10000 {
            r.push(String::from_str("Consider optimizing long-running tasks"));
        }
        let ghost head = r@.map_values(|s: String| s@);
        assert(head == lessons_for(success, duration_ms, Seq::empty()));
        let mut i: usize = 0;
        while i < critiques.len()
            invariant
                i <= critiques@.len(),
                r@.map_values(|s: String| s@) == head + suggestion_lessons(critiques@.subrange(0, i as int)),
            decreases critiques@.len() - i,
        {
            assert(critiques@.subrange(0, i as int + 1).drop_last() =~= critiques@.subrange(0, i as int));
            let ghost before = r@;
            if critiques[i].suggestion.unicode_len() > 0 {
                let mut l = String::from_str("Suggestion: ");
                l.append(critiques[i].suggestion.as_str());
                r.push(l);
                assert(r@.map_values(|s: String| s@) =~= before.map_values(|s: String| s@).push(l@));
            }
            i = i + 1;
        }
        assert(critiques@.subrange(0, i as int) =~= critiques@);
        r
    }

    /// Reviews a finished task: a report of whether it completed, with the
    /// default critiques of the task and the lessons drawn from them, which
    /// is also stored in the history.
    pub fn analyze(&mut self, task: &Task) -> (r: Result<ExecutionReport, AetherisError>)
        ensures
            r is Ok,
            ({
                let rep = r->Ok_0@;
                &&& rep.task_id == task.id@
                &&& rep.success == (task.status == TaskStatus::Completed)
                &&& rep.duration_ms == 0
                &&& rep.start_time is None && rep.end_time is None
                &&& rep.critiques.len() == default_critique_shapes(task.description@, task.priority).len()
                &&& forall|i: int| 0 <= i < rep.critiques.len() ==> critique_shape(#[trigger] rep.critiques[i])
                    == default_critique_shapes(task.description@, task.priority)[i] && rep.critiques[i].task_id@ == task.id@
                &&& rep.lessons_learned == lessons_for(rep.success, 0, rep.critiques)
                &&& rep.improvements.len() == 0
                &&& final(self)@ == history_store(old(self)@, rep)
            }),
    {
        let success = task.status == TaskStatus::Completed;
        let mut report = ExecutionReport::new(task.id.clone(), success);
        let critiques = self.generate_default_critiques(task);
        let mut i: usize = 0;
        while i < critiques.len()
            invariant
                i <= critiques@.len(),
                report@.task_id == task.id@,
                report@.success == success,
                report@.duration_ms == 0,
                report@.start_time is None && report@.end_time is None,
                report@.lessons_learned.len() == 0,
                report@.improvements.len() == 0,
                report@.critiques == critiques@.subrange(0, i as int),
            decreases critiques@.len() - i,
        {
            report.add_critique(critiques[i].duplicate());
            i = i + 1;
        }
        assert(report@.critiques =~= critiques@);
        let lessons = self.generate_lessons(success, 0, &report.critiques);
        let mut i: usize = 0;
        while i < lessons.len()
            invariant
                i <= lessons@.len(),
                report@.task_id == task.id@,
                report@.success == success,
                report@.duration_ms == 0,
                report@.start_time is None && report@.end_time is None,
                report@.improvements.len() == 0,
                report@.critiques == critiques@,
                lessons@.map_values(|s: String| s@) == lessons_for(success, 0, critiques@),
                report@.lessons_learned == lessons@.map_values(|s: String| s@).subrange(0, i as int),
            decreases lessons@.len() - i,
        {
            report.add_lesson(lessons[i].clone());
            assert(lessons@.map_values(|s: String| s@).subrange(0, i as int + 1)
                =~= lessons@.map_values(|s: String| s@).subrange(0, i as int).push(lessons@[i as int]@));
            i = i + 1;
        }
        assert(report@.lessons_learned =~= lessons_for(success, 0, critiques@));
        self.history.store_report(report.duplicate());
        Ok(report)
    }

    /// The improvements proposed from a report: for each critique that
    /// makes a suggestion, the change from its description to its
    /// suggestion.
    pub fn optimize(&self, report: &ExecutionReport) -> (r: Result<Vec<Improvement>, AetherisError>)
        ensures
            r is Ok,
            r->Ok_0@.len() == improvement_shapes(report@.task_id, report@.critiques).len(),
            forall|i: int| 0 <= i < r->Ok_0@.len() ==> improvement_shape(#[trigger] r->Ok_0@[i])
                == improvement_shapes(report@.task_id, report@.critiques)[i],
    {
        let mut r: Vec<Improvement> = Vec::new();
        let mut i: usize = 0;
        while i < report.critiques.len()
            invariant
                i <= report.critiques@.len(),
                r@.len() == improvement_shapes(report@.task_id, report.critiques@.subrange(0, i as int)).len(),
                forall|k: int| 0 <= k < r@.len() ==> improvement_shape(#[trigger] r@[k])
                    == improvement_shapes(report@.task_id, report.critiques@.subrange(0, i as int))[k],
            decreases report.critiques@.len() - i,
        {
            assert(report.critiques@.subrange(0, i as int + 1).drop_last() =~= report.critiques@.subrange(0, i as int));
            let c = &report.critiques[i];
            if c.suggestion.unicode_len() > 0 {
                let mut before = String::from_str("Before: ");
                before.append(c.description.as_str());
                let mut after = String::from_str("After: ");
                after.append(c.suggestion.as_str());
                r.push(Improvement::new(report.task_id.clone(), c.description.clone(), before, after));
            }
            i = i + 1;
        }
        assert(report.critiques@.subrange(0, i as int) =~= report.critiques@);
        Ok(r)
    }

    /// Advice for a task from its earlier reports: when fewer than half
    /// of them succeeded, to simplify it and break it into smaller steps;
    /// when they took over thirty seconds on average, to run it in
    /// parallel. A task with no reports gets no advice.
    pub fn generate_strategy_optimization(&self, task: &Task) -> (r: Result<Vec<String>, AetherisError>)
        ensures
            r is Ok,
            r->Ok_0@.map_values(|s: String| s@) == strategy_advice(reports_for(self@.reports, self@.task_reports, task.id@)),
    {
        let previous = self.history.get_reports_for_task(task.id.as_str());
        let ghost rs = reports_for(self@.reports, self@.task_reports, task.id@);
        let mut r: Vec<String> = Vec::new();
        if previous.len() == 0 {
            assert(r@.map_values(|s: String| s@) =~= strategy_advice(rs));
            return Ok(r);
        }
        let mut succeeded: usize = 0;
        let mut total: i128 = 0;
        let mut i: usize = 0;
        while i < previous.len()
            invariant
                i <= previous@.len(),
                previous@.len() == rs.len(),
                forall|k: int| 0 <= k < previous@.len() ==> #[trigger] previous@[k]@ == rs[k],
                succeeded == successes(rs.subrange(0, i as int)),
                total == total_duration(rs.subrange(0, i as int)),
                succeeded <= i,
                -(i as int) * 0x8000_0000_0000_0000 <= total <= (i as int) * 0x8000_0000_0000_0000,
            decreases previous@.len() - i,
        {
            assert(rs.subrange(0, i as int + 1).drop_last() =~= rs.subrange(0, i as int));
            assert(previous@[i as int]@ == rs[i as int]);
            if previous[i].success {
                succeeded = succeeded + 1;
            }
            total = total + previous[i].duration_ms as i128;
            i = i + 1;
        }
        assert(rs.subrange(0, i as int) =~= rs);
        let n = previous.len();
        if succeeded < n - succeeded {
            r.push(String::from_str("Consider simplifying task approach"));
            r.push(String::from_str("Break task into smaller steps"));
        }
        if total > 30000 * (n as i128) {
            r.push(String::from_str("Consider parallel execution"));
        }
        assert(r@.map_values(|s: String| s@) =~= strategy_advice(rs));
        Ok(r)
    }
}

} // verus!
