//! Turning what a user asks for into an intent: its goal, constraints,
//! requirements and missing information, how confident the reading is,
//! and whether it may become a task.

use vstd::prelude::*;
use crate::engine::types::{Task, TaskStatus, texts, clone_strings};
use crate::error::AetherisError;
use crate::json::{JsonValue, JsonModel, items_model, members_model, lemma_members_model, lemma_items_model, key_index, lemma_key_index, find_key};
use crate::runtime::{new_uuid, now_millis};
use crate::text::{contains, contains_text, lowercase, to_lowercase, trim, trimmed, utf8_len, byte_len, str_eq, str_debug, str_debug_text};

verus! {

broadcast use vstd::std_specs::vec::group_vec_axioms, vstd::seq::group_seq_axioms;

/// What a constraint is about.
#[derive(Debug, Clone, Copy, PartialEq, Eq, Structural)]
pub enum ConstraintType {
    Security,
    Compliance,
    Permission,
    Resource,
    Time,
    Custom,
}

/// A condition the work must meet; a mandatory one that fails makes the
/// intent invalid, another only draws a warning.
#[derive(Debug, Clone)]
pub struct Constraint {
    pub constraint_type: ConstraintType,
    pub description: String,
    pub is_mandatory: bool,
    pub validation_rules: Vec<String>,
}

/// The model of a constraint: its type, description, whether it is
/// mandatory, and its rules.
pub struct ConstraintModel {
    pub constraint_type: ConstraintType,
    pub description: Seq<char>,
    pub is_mandatory: bool,
    pub validation_rules: Seq<Seq<char>>,
}

impl View for Constraint {
    type V = ConstraintModel;

    open spec fn view(&self) -> ConstraintModel {
        ConstraintModel {
            constraint_type: self.constraint_type,
            description: self.description@,
            is_mandatory: self.is_mandatory,
            validation_rules: texts(self.validation_rules@),
        }
    }
}

/// The models of a sequence of constraints.
pub open spec fn models(cs: Seq<Constraint>) -> Seq<ConstraintModel> {
    cs.map_values(|c: Constraint| c@)
}

impl Constraint {
    /// A copy of the constraint.
    pub fn duplicate(&self) -> (c: Constraint)
        ensures
            c@ == self@,
    {
        Constraint {
            constraint_type: self.constraint_type,
            description: self.description.clone(),
            is_mandatory: self.is_mandatory,
            validation_rules: clone_strings(&self.validation_rules),
        }
    }

    /// A constraint with no validation rules.
    pub fn new(constraint_type: ConstraintType, description: String, is_mandatory: bool) -> (c: Constraint)
        ensures
            c.constraint_type == constraint_type,
            c.description == description,
            c.is_mandatory == is_mandatory,
            c.validation_rules@.len() == 0,
    {
        Constraint { constraint_type, description, is_mandatory, validation_rules: Vec::new() }
    }

    /// The constraint with these validation rules.
    pub fn with_validation_rules(self, rules: Vec<String>) -> (c: Constraint)
        ensures
            c == (Constraint { validation_rules: rules, ..self }),
    {
        Constraint { validation_rules: rules, ..self }
    }
}

/// How sure the reading of an intent is, from low to very high.
#[derive(Debug, Clone, Copy, PartialEq, Eq, Structural)]
pub enum IntentConfidence {
    Low,
    Medium,
    High,
    VeryHigh,
}

/// The rank of a confidence: 0 for low up to 3 for very high.
pub open spec fn confidence_rank(c: IntentConfidence) -> int {
    match c {
        IntentConfidence::Low => 0,
        IntentConfidence::Medium => 1,
        IntentConfidence::High => 2,
        IntentConfidence::VeryHigh => 3,
    }
}

impl IntentConfidence {
    /// The confidence's name as it is written in task metadata.
    pub fn name(&self) -> (r: &'static str)
        ensures
            r@ == match *self {
                IntentConfidence::Low => "Low"@,
                IntentConfidence::Medium => "Medium"@,
                IntentConfidence::High => "High"@,
                IntentConfidence::VeryHigh => "VeryHigh"@,
            },
    {
        match self {
            IntentConfidence::Low => "Low",
            IntentConfidence::Medium => "Medium",
            IntentConfidence::High => "High",
            IntentConfidence::VeryHigh => "VeryHigh",
        }
    }
}

/// The confidence a score out of a hundred gives.
pub open spec fn confidence_of_score(score: int) -> IntentConfidence {
    if 0 <= score <= 30 {
        IntentConfidence::Low
    } else if 31 <= score <= 50 {
        IntentConfidence::Medium
    } else if 51 <= score <= 75 {
        IntentConfidence::High
    } else if 76 <= score <= 100 {
        IntentConfidence::VeryHigh
    } else {
        IntentConfidence::Medium
    }
}

/// The confidence a score out of a hundred gives: up to 30 low, up to 50
/// medium, up to 75 high, up to 100 very high; medium beyond.
pub fn confidence_from_score(score: u64) -> (c: IntentConfidence)
    ensures
        c == confidence_of_score(score as int),
{
    if score <= 30 {
        IntentConfidence::Low
    } else if score <= 50 {
        IntentConfidence::Medium
    } else if score <= 75 {
        IntentConfidence::High
    } else if score <= 100 {
        IntentConfidence::VeryHigh
    } else {
        IntentConfidence::Medium
    }
}

/// What a user wants, as read from their words.
#[derive(Debug, Clone)]
pub struct Intent {
    pub intent_id: String,
    pub raw_input: String,
    pub parsed_goal: String,
    pub constraints: Vec<Constraint>,
    pub requirements: Vec<String>,
    pub confidence: IntentConfidence,
    pub missing_information: Vec<String>,
    pub created_at: i64,
}

impl Intent {
    /// A fresh intent for the input, with nothing read from it yet: an
    /// empty goal, no constraints, requirements or missing information, and
    /// low confidence.
    pub fn new(raw_input: String) -> (i: Intent)
        ensures
            i.raw_input == raw_input,
            i.parsed_goal@.len() == 0,
            i.constraints@.len() == 0,
            i.requirements@.len() == 0,
            i.missing_information@.len() == 0,
            i.confidence == IntentConfidence::Low,
            i.intent_id@.len() == 36,
    {
        Intent {
            intent_id: new_uuid(),
            raw_input,
            parsed_goal: String::new(),
            constraints: Vec::new(),
            requirements: Vec::new(),
            confidence: IntentConfidence::Low,
            missing_information: Vec::new(),
            created_at: now_millis(),
        }
    }

    /// The intent with this goal.
    pub fn with_parsed_goal(self, goal: String) -> (i: Intent)
        ensures
            i == (Intent { parsed_goal: goal, ..self }),
    {
        Intent { parsed_goal: goal, ..self }
    }

    /// The intent with this confidence.
    pub fn with_confidence(self, confidence: IntentConfidence) -> (i: Intent)
        ensures
            i == (Intent { confidence, ..self }),
    {
        Intent { confidence, ..self }
    }

    /// Adds a constraint at the end.
    pub fn add_constraint(&mut self, constraint: Constraint)
        ensures
            *final(self) == (Intent { constraints: final(self).constraints, ..*old(self) }),
            final(self).constraints@ == old(self).constraints@.push(constraint),
    {
        self.constraints.push(constraint);
    }

    /// Adds a requirement at the end.
    pub fn add_requirement(&mut self, requirement: String)
        ensures
            *final(self) == (Intent { requirements: final(self).requirements, ..*old(self) }),
            final(self).requirements@ == old(self).requirements@.push(requirement),
    {
        self.requirements.push(requirement);
    }

    /// Adds a piece of missing information at the end.
    pub fn add_missing_information(&mut self, info: String)
        ensures
            *final(self) == (Intent { missing_information: final(self).missing_information, ..*old(self) }),
            final(self).missing_information@ == old(self).missing_information@.push(info),
    {
        self.missing_information.push(info);
    }

    /// Some information is missing.
    pub fn has_missing_information(&self) -> (r: bool)
        ensures
            r == (self.missing_information@.len() > 0),
    {
        self.missing_information.len() > 0
    }

    /// The intent may become a task: it has a goal, at least medium
    /// confidence, and nothing missing.
    pub fn is_executable(&self) -> (r: bool)
        ensures
            r == executable(*self),
    {
        self.parsed_goal.as_str().unicode_len() > 0 && match self.confidence {
            IntentConfidence::Low => false,
            _ => true,
        } && !self.has_missing_information()
    }
}

/// The intent has a goal, at least medium confidence, and nothing missing.
pub open spec fn executable(i: Intent) -> bool {
    i.parsed_goal@.len() > 0 && confidence_rank(i.confidence) >= 1 && i.missing_information@.len() == 0
}

/// Whether the constraints hold, and what is wrong if they do not.
#[derive(Debug, Clone)]
pub struct ValidationResult {
    pub is_valid: bool,
    pub violated_constraints: Vec<Constraint>,
    pub warnings: Vec<String>,
}

impl ValidationResult {
    /// A valid result, with nothing violated and no warning.
    pub fn valid() -> (r: ValidationResult)
        ensures
            r.is_valid,
            r.violated_constraints@.len() == 0,
            r.warnings@.len() == 0,
    {
        ValidationResult { is_valid: true, violated_constraints: Vec::new(), warnings: Vec::new() }
    }

    /// An invalid result naming the violated constraints, with no warning.
    pub fn invalid(violated: Vec<Constraint>) -> (r: ValidationResult)
        ensures
            !r.is_valid,
            r.violated_constraints == violated,
            r.warnings@.len() == 0,
    {
        ValidationResult { is_valid: false, violated_constraints: violated, warnings: Vec::new() }
    }

    /// Adds a warning at the end.
    pub fn add_warning(&mut self, warning: String)
        ensures
            final(self).is_valid == old(self).is_valid,
            final(self).violated_constraints == old(self).violated_constraints,
            final(self).warnings@ == old(self).warnings@.push(warning),
    {
        self.warnings.push(warning);
    }
}

/// The mandatory constraints among those that failed their rules
/// (`passes[i]` tells whether constraint `i` passed), in order.
pub open spec fn violated(constraints: Seq<ConstraintModel>, passes: Seq<bool>) -> Seq<ConstraintModel>
    decreases constraints.len(),
{
    if constraints.len() == 0 {
        Seq::empty()
    } else {
        let rest = violated(constraints.drop_last(), passes);
        let k = constraints.len() - 1;
        if !passes[k] && constraints[k].is_mandatory {
            rest.push(constraints[k])
        } else {
            rest
        }
    }
}

/// The warnings for the optional constraints that failed their rules, in
/// order.
pub open spec fn optional_warnings(constraints: Seq<ConstraintModel>, passes: Seq<bool>) -> Seq<Seq<char>>
    decreases constraints.len(),
{
    if constraints.len() == 0 {
        Seq::empty()
    } else {
        let rest = optional_warnings(constraints.drop_last(), passes);
        let k = constraints.len() - 1;
        if !passes[k] && !constraints[k].is_mandatory {
            rest.push("Non-mandatory constraint violated: "@ + constraints[k].description)
        } else {
            rest
        }
    }
}

/// Judges constraints by the verdicts of their rules (`passes[i]` for
/// constraint `i`, as the rules registered for its type gave it): the
/// result is valid when no mandatory constraint failed; the failed
/// mandatory ones are listed, and each failed optional one draws a warning.
pub fn validate_constraints(constraints: &Vec<Constraint>, passes: &Vec<bool>) -> (r: ValidationResult)
    requires
        passes@.len() == constraints@.len(),
    ensures
        models(r.violated_constraints@) == violated(models(constraints@), passes@),
        r.is_valid == (violated(models(constraints@), passes@).len() == 0),
        texts(r.warnings@) == optional_warnings(models(constraints@), passes@),
{
    let mut bad: Vec<Constraint> = Vec::new();
    let mut warnings: Vec<String> = Vec::new();
    let mut i: usize = 0;
    while i < constraints.len()
        invariant
            passes@.len() == constraints@.len(),
            i <= constraints@.len(),
            models(bad@) == violated(models(constraints@.subrange(0, i as int)), passes@),
            texts(warnings@) == optional_warnings(models(constraints@.subrange(0, i as int)), passes@),
        decreases constraints@.len() - i,
    {
        let ghost pre = constraints@.subrange(0, i as int);
        let ghost post = constraints@.subrange(0, i as int + 1);
        proof {
            assert(models(post).drop_last() =~= models(pre));
            assert(models(post)[i as int] == constraints@[i as int]@);
        }
        if !passes[i] {
            if constraints[i].is_mandatory {
                let c = constraints[i].duplicate();
                let ghost before = bad@;
                bad.push(c);
                proof {
                    assert(models(bad@) =~= models(before).push(c@));
                }
            } else {
                let mut w = String::from_str("Non-mandatory constraint violated: ");
                w.append(constraints[i].description.as_str());
                let ghost before = warnings@;
                warnings.push(w);
                proof {
                    assert(texts(warnings@) =~= texts(before).push(w@));
                }
            }
        }
        i = i + 1;
    }
    proof {
        assert(constraints@.subrange(0, constraints@.len() as int) =~= constraints@);
    }
    let valid = bad.len() == 0;
    assert(models(bad@).len() == bad@.len());
    ValidationResult { is_valid: valid, violated_constraints: bad, warnings }
}

/// The goal read from the input: the input trimmed, cut to its first 500
/// characters. (A text of more than 500 characters has more than 500 bytes,
/// and one of at most 500 characters is kept whole either way.)
pub open spec fn goal_of(input: Seq<char>) -> Seq<char> {
    let g = trimmed(input);
    if g.len() > 500 {
        g.take(500)
    } else {
        g
    }
}

pub open spec fn rule_constraint(t: ConstraintType, d: Seq<char>, mandatory: bool) -> ConstraintModel {
    ConstraintModel { constraint_type: t, description: d, is_mandatory: mandatory, validation_rules: Seq::empty() }
}

/// The constraints the words of the (lowered) input call for: security for
/// "secure" or "安全", compliance for "compliance" or "合规" (both
/// mandatory), and an optional time constraint for "before", "by" or
/// "deadline".
pub open spec fn rule_constraints(lower: Seq<char>) -> Seq<ConstraintModel> {
    let sec = if contains_text(lower, "secure"@) || contains_text(lower, "安全"@) {
        seq![rule_constraint(ConstraintType::Security, "Security constraints required"@, true)]
    } else {
        Seq::empty()
    };
    let comp = if contains_text(lower, "compliance"@) || contains_text(lower, "合规"@) {
        seq![rule_constraint(ConstraintType::Compliance, "Compliance check required"@, true)]
    } else {
        Seq::empty()
    };
    let time = if contains_text(lower, "before"@) || contains_text(lower, "by"@) || contains_text(lower, "deadline"@) {
        seq![rule_constraint(ConstraintType::Time, "Time constraint detected"@, false)]
    } else {
        Seq::empty()
    };
    sec + comp + time
}

/// Words that set a time give the intent an optional time constraint: the
/// lowered input yields a constraint of type `Time` exactly when it
/// contains "before", "by" or "deadline", and that constraint is not
/// mandatory and reads "Time constraint detected".
pub proof fn law_time_words_give_time_constraint(lower: Seq<char>)
    ensures
        (contains_text(lower, "before"@) || contains_text(lower, "by"@) || contains_text(lower, "deadline"@))
            <==> exists|k: int| 0 <= k < rule_constraints(lower).len() && (#[trigger] rule_constraints(lower)[k]).constraint_type == ConstraintType::Time,
        forall|k: int| 0 <= k < rule_constraints(lower).len() && (#[trigger] rule_constraints(lower)[k]).constraint_type == ConstraintType::Time
            ==> !rule_constraints(lower)[k].is_mandatory && rule_constraints(lower)[k].description == "Time constraint detected"@,
{
    let c = rule_constraints(lower);
    if contains_text(lower, "before"@) || contains_text(lower, "by"@) || contains_text(lower, "deadline"@) {
        assert(c[c.len() - 1].constraint_type == ConstraintType::Time);
    }
}

/// Security words make the intent carry a mandatory security constraint:
/// the lowered input yields a constraint of type `Security` exactly when it
/// contains "secure" or "安全", and it reads "Security constraints
/// required". Compliance words do the same for a mandatory `Compliance`
/// constraint, on "compliance" or "合规".
pub proof fn law_security_and_compliance_words(lower: Seq<char>)
    ensures
        (contains_text(lower, "secure"@) || contains_text(lower, "安全"@))
            <==> exists|k: int| 0 <= k < rule_constraints(lower).len() && (#[trigger] rule_constraints(lower)[k]).constraint_type == ConstraintType::Security,
        (contains_text(lower, "compliance"@) || contains_text(lower, "合规"@))
            <==> exists|k: int| 0 <= k < rule_constraints(lower).len() && (#[trigger] rule_constraints(lower)[k]).constraint_type == ConstraintType::Compliance,
        forall|k: int| 0 <= k < rule_constraints(lower).len() && (#[trigger] rule_constraints(lower)[k]).constraint_type == ConstraintType::Security
            ==> rule_constraints(lower)[k].is_mandatory && rule_constraints(lower)[k].description == "Security constraints required"@,
        forall|k: int| 0 <= k < rule_constraints(lower).len() && (#[trigger] rule_constraints(lower)[k]).constraint_type == ConstraintType::Compliance
            ==> rule_constraints(lower)[k].is_mandatory && rule_constraints(lower)[k].description == "Compliance check required"@,
{
    let c = rule_constraints(lower);
    if contains_text(lower, "secure"@) || contains_text(lower, "安全"@) {
        assert(c[0].constraint_type == ConstraintType::Security);
    }
    if contains_text(lower, "compliance"@) || contains_text(lower, "合规"@) {
        let i = if contains_text(lower, "secure"@) || contains_text(lower, "安全"@) { 1int } else { 0int };
        assert(c[i].constraint_type == ConstraintType::Compliance);
    }
}

/// Each requirement word the lowered input contains ("need", "requires",
/// "must", "should", "需要", "必须") gives the requirement
/// "Requirement detected: " followed by the word.
pub proof fn law_requirement_words(lower: Seq<char>, kw: Seq<char>)
    requires
        kw == "need"@ || kw == "requires"@ || kw == "must"@ || kw == "should"@ || kw == "需要"@ || kw == "必须"@,
        contains_text(lower, kw),
    ensures
        rule_requirements(lower).contains("Requirement detected: "@ + kw),
{
    let ks = requirement_keywords();
    let j: int = if kw == "need"@ { 0 } else if kw == "requires"@ { 1 } else if kw == "must"@ { 2 } else if kw == "should"@ { 3 } else if kw == "需要"@ { 4 } else { 5 };
    assert(ks[j] == kw);
    lemma_requirement_kept(lower, j, 6);
}

proof fn lemma_requirement_kept(lower: Seq<char>, j: int, k: int)
    requires
        0 <= j < k <= 6,
        contains_text(lower, requirement_keywords()[j]),
    ensures
        rule_requirements_upto(lower, k).contains("Requirement detected: "@ + requirement_keywords()[j]),
    decreases k,
{
    let r = rule_requirements_upto(lower, k);
    if j == k - 1 {
        assert(r.last() == "Requirement detected: "@ + requirement_keywords()[j]);
    } else {
        lemma_requirement_kept(lower, j, k - 1);
        let prev = rule_requirements_upto(lower, k - 1);
        let i = choose|i: int| 0 <= i < prev.len() && prev[i] == "Requirement detected: "@ + requirement_keywords()[j];
        assert(r[i] == prev[i]);
    }
}

/// What a goal misses: "Clear goal description" exactly when the goal is
/// empty, and "More detailed description" exactly when it has fewer than
/// ten bytes; nothing else.
pub proof fn law_missing_information(goal: Seq<char>)
    ensures
        rule_missing(goal).contains("Clear goal description"@) <==> goal.len() == 0,
        rule_missing(goal).contains("More detailed description"@) <==> utf8_len(goal) < 10,
        forall|i: int| 0 <= i < rule_missing(goal).len() ==> #[trigger] rule_missing(goal)[i] == "Clear goal description"@
            || rule_missing(goal)[i] == "More detailed description"@,
{
    reveal_strlit("Clear goal description");
    reveal_strlit("More detailed description");
    let m = rule_missing(goal);
    assert("Clear goal description"@ != "More detailed description"@) by {
        assert("Clear goal description"@[0] != "More detailed description"@[0]);
    }
    if goal.len() == 0 {
        assert(m[0] == "Clear goal description"@);
    }
    if utf8_len(goal) < 10 {
        assert(m[m.len() - 1] == "More detailed description"@);
    }
}

/// The requirement words, in the order they are looked for.
pub open spec fn requirement_keywords() -> Seq<Seq<char>> {
    seq!["need"@, "requires"@, "must"@, "should"@, "需要"@, "必须"@]
}

/// One requirement for each keyword among the first `k` that the (lowered)
/// input contains.
pub open spec fn rule_requirements_upto(lower: Seq<char>, k: int) -> Seq<Seq<char>>
    decreases k,
{
    if k <= 0 {
        Seq::empty()
    } else {
        let rest = rule_requirements_upto(lower, k - 1);
        let kw = requirement_keywords()[k - 1];
        if contains_text(lower, kw) {
            rest.push("Requirement detected: "@ + kw)
        } else {
            rest
        }
    }
}

/// One requirement for each keyword the (lowered) input contains.
pub open spec fn rule_requirements(lower: Seq<char>) -> Seq<Seq<char>> {
    rule_requirements_upto(lower, 6)
}

/// What is missing from a goal: a goal at all, and detail when it has
/// fewer than 10 bytes.
pub open spec fn rule_missing(goal: Seq<char>) -> Seq<Seq<char>> {
    let a = if goal.len() == 0 { seq!["Clear goal description"@] } else { Seq::empty() };
    let b = if utf8_len(goal) < 10 { seq!["More detailed description"@] } else { Seq::empty() };
    a + b
}

/// The confidence score: 30 for a goal, 20 more for one of 20 bytes or
/// more, 20 for constraints, 15 for requirements, 15 when nothing is
/// missing.
pub open spec fn rule_score(goal: Seq<char>, constraints: nat, requirements: nat, missing: nat) -> int {
    (if goal.len() > 0 { 30int } else { 0int })
        + (if utf8_len(goal) >= 20 { 20int } else { 0int })
        + (if constraints > 0 { 20int } else { 0int })
        + (if requirements > 0 { 15int } else { 0int })
        + (if missing == 0 { 15int } else { 0int })
}

/// Reads intents from text, and checks them before they become tasks.
/// Constraints added here are attached to every intent it reads.
#[derive(Debug, Clone)]
pub struct IntentParser {
    pub common_constraints: Vec<Constraint>,
}

fn push_constraint(v: &mut Vec<Constraint>, t: ConstraintType, d: &str, mandatory: bool)
    ensures
        models(final(v)@) == models(old(v)@).push(rule_constraint(t, d@, mandatory)),
        final(v)@.len() == old(v)@.len() + 1,
{
    let c = Constraint::new(t, String::from_str(d), mandatory);
    let ghost before = v@;
    v.push(c);
    proof {
        assert(texts(c.validation_rules@) =~= Seq::<Seq<char>>::empty());
        assert(models(v@) =~= models(before).push(rule_constraint(t, d@, mandatory)));
    }
}

fn push_text(v: &mut Vec<String>, prefix: &str, rest: &str)
    ensures
        texts(final(v)@) == texts(old(v)@).push(prefix@ + rest@),
        final(v)@.len() == old(v)@.len() + 1,
{
    let mut s = String::from_str(prefix);
    s.append(rest);
    let ghost before = v@;
    v.push(s);
    proof {
        assert(texts(v@) =~= texts(before).push(prefix@ + rest@));
    }
}

fn push_plain(v: &mut Vec<String>, text: &str)
    ensures
        texts(final(v)@) == texts(old(v)@).push(text@),
        final(v)@.len() == old(v)@.len() + 1,
{
    let s = String::from_str(text);
    let ghost before = v@;
    v.push(s);
    proof {
        assert(texts(v@) =~= texts(before).push(text@));
    }
}

fn keyword(k: usize) -> (r: &'static str)
    requires
        k < 6,
    ensures
        r@ == requirement_keywords()[k as int],
{
    if k == 0 {
        "need"
    } else if k == 1 {
        "requires"
    } else if k == 2 {
        "must"
    } else if k == 3 {
        "should"
    } else if k == 4 {
        "需要"
    } else {
        "必须"
    }
}

impl IntentParser {
    /// A parser with no common constraints.
    pub fn new() -> (p: IntentParser)
        ensures
            p.common_constraints@.len() == 0,
    {
        IntentParser { common_constraints: Vec::new() }
    }

    /// Adds a constraint attached to every intent read from now on.
    pub fn add_common_constraint(&mut self, constraint: Constraint)
        ensures
            final(self).common_constraints@ == old(self).common_constraints@.push(constraint),
    {
        self.common_constraints.push(constraint);
    }

    /// Reads an intent by rules: the goal is the trimmed input (at most 500
    /// characters); the constraints and requirements come from words of the
    /// lowered input; what is missing and the confidence come from the goal
    /// and what was found; the common constraints follow the ones found.
    pub fn parse_rules(&self, input: &str) -> (r: Intent)
        ensures
            r.raw_input@ == input@,
            r.parsed_goal@ == goal_of(input@),
            models(r.constraints@) == rule_constraints(lowercase(input@)) + models(self.common_constraints@),
            texts(r.requirements@) == rule_requirements(lowercase(input@)),
            texts(r.missing_information@) == rule_missing(goal_of(input@)),
            r.confidence == confidence_of_score(rule_score(
                goal_of(input@),
                rule_constraints(lowercase(input@)).len(),
                rule_requirements(lowercase(input@)).len(),
                rule_missing(goal_of(input@)).len(),
            )),
            r.intent_id@.len() == 36,
    {
        let mut intent = Intent::new(String::from_str(input));
        let trimmed_input = trim(input);
        let goal = if trimmed_input.as_str().unicode_len() > 500 {
            String::from_str(trimmed_input.as_str().substring_char(0, 500))
        } else {
            trimmed_input
        };
        assert(goal@ == goal_of(input@));
        let lowered = to_lowercase(input);
        let lower = lowered.as_str();
        let mut constraints: Vec<Constraint> = Vec::new();
        assert(models(constraints@) =~= Seq::<ConstraintModel>::empty());
        if contains(lower, "secure") || contains(lower, "安全") {
            push_constraint(&mut constraints, ConstraintType::Security, "Security constraints required", true);
        }
        if contains(lower, "compliance") || contains(lower, "合规") {
            push_constraint(&mut constraints, ConstraintType::Compliance, "Compliance check required", true);
        }
        if contains(lower, "before") || contains(lower, "by") || contains(lower, "deadline") {
            push_constraint(&mut constraints, ConstraintType::Time, "Time constraint detected", false);
        }
        assert(models(constraints@) =~= rule_constraints(lower@));
        let mut requirements: Vec<String> = Vec::new();
        let mut k: usize = 0;
        assert(texts(requirements@) =~= Seq::<Seq<char>>::empty());
        while k < 6
            invariant
                k <= 6,
                texts(requirements@) == rule_requirements_upto(lower@, k as int),
                requirements@.len() <= k,
            decreases 6 - k,
        {
            let kw = keyword(k);
            if contains(lower, kw) {
                push_text(&mut requirements, "Requirement detected: ", kw);
            }
            k = k + 1;
        }
        let mut missing: Vec<String> = Vec::new();
        assert(texts(missing@) =~= Seq::<Seq<char>>::empty());
        let goal_chars = goal.as_str().unicode_len();
        let goal_bytes = byte_len(goal.as_str());
        if goal_chars == 0 {
            push_plain(&mut missing, "Clear goal description");
        }
        if goal_bytes < 10 {
            push_plain(&mut missing, "More detailed description");
        }
        assert(texts(missing@) =~= rule_missing(goal@));
        let mut score: u64 = 0;
        if goal_chars > 0 {
            score = score + 30;
        }
        if goal_bytes >= 20 {
            score = score + 20;
        }
        if constraints.len() > 0 {
            score = score + 20;
        }
        if requirements.len() > 0 {
            score = score + 15;
        }
        if missing.len() == 0 {
            score = score + 15;
        }
        assert(texts(requirements@).len() == requirements@.len());
        assert(texts(missing@).len() == missing@.len());
        assert(models(constraints@).len() == constraints@.len());
        let confidence = confidence_from_score(score);
        let mut i: usize = 0;
        let ghost found = models(constraints@);
        while i < self.common_constraints.len()
            invariant
                i <= self.common_constraints@.len(),
                models(constraints@) == found + models(self.common_constraints@.subrange(0, i as int)),
            decreases self.common_constraints@.len() - i,
        {
            let c = self.common_constraints[i].duplicate();
            let ghost before = constraints@;
            constraints.push(c);
            proof {
                assert(models(constraints@) =~= models(before).push(c@));
                assert(models(self.common_constraints@.subrange(0, i as int + 1)) =~= models(
                    self.common_constraints@.subrange(0, i as int),
                ).push(self.common_constraints@[i as int]@));
            }
            i = i + 1;
        }
        assert(self.common_constraints@.subrange(0, self.common_constraints@.len() as int) =~= self.common_constraints@);
        intent.parsed_goal = goal;
        intent.constraints = constraints;
        intent.requirements = requirements;
        intent.missing_information = missing;
        intent.confidence = confidence;
        intent
    }
}

/// Texts separated by a comma and a space.
pub open spec fn comma_joined(items: Seq<Seq<char>>) -> Seq<char>
    decreases items.len(),
{
    if items.len() == 0 {
        Seq::empty()
    } else if items.len() == 1 {
        items[0]
    } else {
        comma_joined(items.drop_last()) + ", "@ + items.last()
    }
}

/// A list as `{:?}` writes it, given the debug texts of its items: the
/// items between square brackets, separated by a comma and a space.
pub open spec fn debug_list(items: Seq<Seq<char>>) -> Seq<char> {
    "["@ + comma_joined(items) + "]"@
}

/// A list of strings as `{:?}` writes it.
pub open spec fn strings_debug(items: Seq<Seq<char>>) -> Seq<char> {
    debug_list(items.map_values(|s: Seq<char>| str_debug_text(s)))
}

/// A constraint as its derived `Debug` writes it.
pub open spec fn constraint_debug(c: ConstraintModel) -> Seq<char> {
    "Constraint { constraint_type: "@ + constraint_type_name(c.constraint_type) + ", description: "@
        + str_debug_text(c.description) + ", is_mandatory: "@ + (if c.is_mandatory {
        "true"@
    } else {
        "false"@
    }) + ", validation_rules: "@ + strings_debug(c.validation_rules) + " }"@
}

/// A list of constraints as `{:?}` writes it.
pub open spec fn constraints_debug(cs: Seq<ConstraintModel>) -> Seq<char> {
    debug_list(cs.map_values(|c: ConstraintModel| constraint_debug(c)))
}

/// The texts between square brackets, separated by a comma and a space.
fn list_debug(items: &Vec<String>) -> (r: String)
    ensures
        r@ == debug_list(texts(items@)),
{
    let mut r = String::from_str("[");
    let mut i: usize = 0;
    while i < items.len()
        invariant
            i <= items@.len(),
            r@ == "["@ + comma_joined(texts(items@.subrange(0, i as int))),
        decreases items@.len() - i,
    {
        let ghost before = r@;
        let ghost done = texts(items@.subrange(0, i as int));
        if i > 0 {
            r.append(", ");
        }
        r.append(items[i].as_str());
        proof {
            let next = texts(items@.subrange(0, i as int + 1));
            assert(next.drop_last() =~= done);
            assert(next.last() == items@[i as int]@);
            if i == 0 {
                assert(done =~= Seq::<Seq<char>>::empty());
                assert(r@ =~= "["@ + comma_joined(next));
            } else {
                assert(r@ =~= "["@ + (comma_joined(done) + ", "@ + items@[i as int]@));
            }
        }
        i = i + 1;
    }
    assert(items@.subrange(0, items@.len() as int) =~= items@);
    r.append("]");
    r
}

/// Writes a list of strings as `{:?}` does.
fn strings_debug_of(v: &Vec<String>) -> (r: String)
    ensures
        r@ == strings_debug(texts(v@)),
{
    let mut parts: Vec<String> = Vec::new();
    let mut i: usize = 0;
    while i < v.len()
        invariant
            i <= v@.len(),
            texts(parts@) == texts(v@.subrange(0, i as int)).map_values(|s: Seq<char>| str_debug_text(s)),
        decreases v@.len() - i,
    {
        let d = str_debug(v[i].as_str());
        let ghost before = parts@;
        parts.push(d);
        proof {
            assert(texts(parts@) =~= texts(before).push(d@));
            assert(texts(v@.subrange(0, i as int + 1)).map_values(|s: Seq<char>| str_debug_text(s)) =~= texts(
                v@.subrange(0, i as int),
            ).map_values(|s: Seq<char>| str_debug_text(s)).push(str_debug_text(v@[i as int]@)));
        }
        i = i + 1;
    }
    assert(v@.subrange(0, v@.len() as int) =~= v@);
    list_debug(&parts)
}

/// Writes a constraint as its derived `Debug` does.
fn constraint_debug_of(c: &Constraint) -> (r: String)
    ensures
        r@ == constraint_debug(c@),
{
    let mut r = String::from_str("Constraint { constraint_type: ");
    let t = constraint_type_text(c.constraint_type);
    r.append(t.as_str());
    r.append(", description: ");
    let d = str_debug(c.description.as_str());
    r.append(d.as_str());
    r.append(", is_mandatory: ");
    if c.is_mandatory {
        r.append("true");
    } else {
        r.append("false");
    }
    r.append(", validation_rules: ");
    let v = strings_debug_of(&c.validation_rules);
    r.append(v.as_str());
    r.append(" }");
    r
}

/// Writes a list of constraints as `{:?}` does.
fn constraints_debug_of(v: &Vec<Constraint>) -> (r: String)
    ensures
        r@ == constraints_debug(models(v@)),
{
    let mut parts: Vec<String> = Vec::new();
    let mut i: usize = 0;
    while i < v.len()
        invariant
            i <= v@.len(),
            texts(parts@) == models(v@.subrange(0, i as int)).map_values(|c: ConstraintModel| constraint_debug(c)),
        decreases v@.len() - i,
    {
        let d = constraint_debug_of(&v[i]);
        let ghost before = parts@;
        parts.push(d);
        proof {
            assert(texts(parts@) =~= texts(before).push(d@));
            assert(models(v@.subrange(0, i as int + 1)).map_values(|c: ConstraintModel| constraint_debug(c)) =~= models(
                v@.subrange(0, i as int),
            ).map_values(|c: ConstraintModel| constraint_debug(c)).push(constraint_debug(v@[i as int]@)));
        }
        i = i + 1;
    }
    assert(v@.subrange(0, v@.len() as int) =~= v@);
    list_debug(&parts)
}

/// The warnings an intent's validation gives: those of its optional
/// constraints, then, when it cannot be executed and misses information,
/// the list of what is missing.
pub open spec fn intent_warnings(intent: Intent, passes: Seq<bool>) -> Seq<Seq<char>> {
    optional_warnings(models(intent.constraints@), passes) + if !executable(intent) && intent.missing_information@.len() > 0 {
        seq!["Missing information: "@ + strings_debug(texts(intent.missing_information@))]
    } else {
        Seq::empty()
    }
}

/// The name of a constraint type as it appears in JSON.
pub open spec fn constraint_type_name(t: ConstraintType) -> Seq<char> {
    match t {
        ConstraintType::Security => "Security"@,
        ConstraintType::Compliance => "Compliance"@,
        ConstraintType::Permission => "Permission"@,
        ConstraintType::Resource => "Resource"@,
        ConstraintType::Time => "Time"@,
        ConstraintType::Custom => "Custom"@,
    }
}

/// A JSON array of strings.
pub open spec fn strings_json(s: Seq<Seq<char>>) -> JsonModel {
    JsonModel::Array(s.map_values(|x: Seq<char>| JsonModel::String(x)))
}

/// A constraint as a JSON object, its members in key order.
pub open spec fn constraint_json(c: ConstraintModel) -> JsonModel {
    JsonModel::Object(
        seq![
            ("constraint_type"@, JsonModel::String(constraint_type_name(c.constraint_type))),
            ("description"@, JsonModel::String(c.description)),
            ("is_mandatory"@, JsonModel::Bool(c.is_mandatory)),
            ("validation_rules"@, strings_json(c.validation_rules)),
        ],
    )
}

/// The metadata of the task an intent becomes, its members in key order:
/// the confidence's name, the constraints, and the intent's id.
pub open spec fn intent_metadata(confidence: IntentConfidence, constraints: Seq<ConstraintModel>, id: Seq<char>) -> JsonModel {
    JsonModel::Object(
        seq![
            ("confidence"@, JsonModel::String(confidence_name(confidence))),
            ("constraints"@, JsonModel::Array(constraints.map_values(|c: ConstraintModel| constraint_json(c)))),
            ("intent_id"@, JsonModel::String(id)),
        ],
    )
}

pub open spec fn confidence_name(c: IntentConfidence) -> Seq<char> {
    match c {
        IntentConfidence::Low => "Low"@,
        IntentConfidence::Medium => "Medium"@,
        IntentConfidence::High => "High"@,
        IntentConfidence::VeryHigh => "VeryHigh"@,
    }
}

/// The priority of the task an intent becomes: the surer the reading, the
/// more urgent (1 for very high confidence, 3 high, 5 medium, 8 low).
pub open spec fn confidence_priority(c: IntentConfidence) -> u8 {
    match c {
        IntentConfidence::VeryHigh => 1,
        IntentConfidence::High => 3,
        IntentConfidence::Medium => 5,
        IntentConfidence::Low => 8,
    }
}

fn text_json(s: &String) -> (r: JsonValue)
    ensures
        r@ == JsonModel::String(s@),
{
    JsonValue::String(s.clone())
}

fn key_json(k: &str, v: JsonValue) -> (r: (String, JsonValue))
    ensures
        r.0@ == k@,
        r.1 == v,
{
    (String::from_str(k), v)
}

/// A JSON array of the strings.
fn strings_to_json(v: &Vec<String>) -> (r: JsonValue)
    ensures
        r@ == strings_json(texts(v@)),
{
    let mut items: Vec<JsonValue> = Vec::new();
    let mut i: usize = 0;
    while i < v.len()
        invariant
            i <= v@.len(),
            items_model(items@) == texts(v@.subrange(0, i as int)).map_values(|x: Seq<char>| JsonModel::String(x)),
        decreases v@.len() - i,
    {
        let item = text_json(&v[i]);
        let ghost before = items@;
        items.push(item);
        proof {
            assert(items@.drop_last() =~= before);
            assert(texts(v@.subrange(0, i as int + 1)).map_values(|x: Seq<char>| JsonModel::String(x)) =~= texts(
                v@.subrange(0, i as int),
            ).map_values(|x: Seq<char>| JsonModel::String(x)).push(JsonModel::String(v@[i as int]@)));
        }
        i = i + 1;
    }
    assert(v@.subrange(0, v@.len() as int) =~= v@);
    JsonValue::Array(items)
}

fn constraint_type_text(t: ConstraintType) -> (r: String)
    ensures
        r@ == constraint_type_name(t),
{
    match t {
        ConstraintType::Security => String::from_str("Security"),
        ConstraintType::Compliance => String::from_str("Compliance"),
        ConstraintType::Permission => String::from_str("Permission"),
        ConstraintType::Resource => String::from_str("Resource"),
        ConstraintType::Time => String::from_str("Time"),
        ConstraintType::Custom => String::from_str("Custom"),
    }
}

/// The constraint as a JSON object.
fn constraint_to_json(c: &Constraint) -> (r: JsonValue)
    ensures
        r@ == constraint_json(c@),
{
    let mut members: Vec<(String, JsonValue)> = Vec::new();
    members.push(key_json("constraint_type", JsonValue::String(constraint_type_text(c.constraint_type))));
    members.push(key_json("description", text_json(&c.description)));
    members.push(key_json("is_mandatory", JsonValue::Bool(c.is_mandatory)));
    members.push(key_json("validation_rules", strings_to_json(&c.validation_rules)));
    proof {
        lemma_members_model(members@);
        assert(members_model(members@) =~= seq![
            ("constraint_type"@, JsonModel::String(constraint_type_name(c.constraint_type))),
            ("description"@, JsonModel::String(c.description@)),
            ("is_mandatory"@, JsonModel::Bool(c.is_mandatory)),
            ("validation_rules"@, strings_json(c@.validation_rules)),
        ]);
    }
    JsonValue::Object(members)
}

/// The metadata of the task an intent becomes.
fn intent_metadata_json(confidence: IntentConfidence, constraints: &Vec<Constraint>, id: &String) -> (r: JsonValue)
    ensures
        r@ == intent_metadata(confidence, models(constraints@), id@),
{
    let mut items: Vec<JsonValue> = Vec::new();
    let mut i: usize = 0;
    while i < constraints.len()
        invariant
            i <= constraints@.len(),
            items_model(items@) == models(constraints@.subrange(0, i as int)).map_values(|c: ConstraintModel| constraint_json(c)),
        decreases constraints@.len() - i,
    {
        let item = constraint_to_json(&constraints[i]);
        let ghost before = items@;
        items.push(item);
        proof {
            assert(items@.drop_last() =~= before);
            assert(models(constraints@.subrange(0, i as int + 1)).map_values(|c: ConstraintModel| constraint_json(c)) =~= models(
                constraints@.subrange(0, i as int),
            ).map_values(|c: ConstraintModel| constraint_json(c)).push(constraint_json(constraints@[i as int]@)));
        }
        i = i + 1;
    }
    assert(constraints@.subrange(0, constraints@.len() as int) =~= constraints@);
    let mut members: Vec<(String, JsonValue)> = Vec::new();
    members.push(key_json("confidence", JsonValue::String(String::from_str(confidence.name()))));
    members.push(key_json("constraints", JsonValue::Array(items)));
    members.push(key_json("intent_id", text_json(id)));
    proof {
        lemma_members_model(members@);
        assert(members_model(members@) =~= seq![
            ("confidence"@, JsonModel::String(confidence_name(confidence))),
            ("constraints"@, JsonModel::Array(models(constraints@).map_values(|c: ConstraintModel| constraint_json(c)))),
            ("intent_id"@, JsonModel::String(id@)),
        ]);
    }
    JsonValue::Object(members)
}

impl IntentParser {
    /// Validates an intent: its constraints are judged by the verdicts of
    /// their rules (`passes[i]` for constraint `i`); an intent that cannot
    /// be executed is invalid too, and when it misses information the list
    /// of what is missing is added as a warning.
    pub fn validate_intent(&self, intent: &Intent, passes: &Vec<bool>) -> (r: ValidationResult)
        requires
            passes@.len() == intent.constraints@.len(),
        ensures
            r.is_valid == (violated(models(intent.constraints@), passes@).len() == 0 && executable(*intent)),
            models(r.violated_constraints@) == violated(models(intent.constraints@), passes@),
            texts(r.warnings@) == intent_warnings(*intent, passes@),
    {
        let mut result = validate_constraints(&intent.constraints, passes);
        if !intent.is_executable() {
            result.is_valid = false;
            if intent.has_missing_information() {
                let mut w = String::from_str("Missing information: ");
                let listed = strings_debug_of(&intent.missing_information);
                w.append(listed.as_str());
                let ghost before = result.warnings@;
                result.add_warning(w);
                proof {
                    assert(texts(result.warnings@) =~= texts(before).push(w@));
                }
            }
        }
        proof {
            assert(texts(result.warnings@) =~= intent_warnings(*intent, passes@));
        }
        result
    }

    /// Turns a valid intent into a pending task for its goal, with a
    /// priority from its confidence and metadata naming the intent, its
    /// confidence and its constraints; an invalid intent is refused with an
    /// intent validation error listing the violated constraints.
    pub fn to_task(&self, intent: Intent, passes: &Vec<bool>) -> (r: Result<Task, AetherisError>)
        requires
            passes@.len() == intent.constraints@.len(),
        ensures
            if violated(models(intent.constraints@), passes@).len() == 0 && executable(intent) {
                r matches Ok(t) && t.description@ == intent.parsed_goal@ && t.title@ == intent.parsed_goal@
                    && t.priority == confidence_priority(intent.confidence)
                    && t.metadata@ == intent_metadata(intent.confidence, models(intent.constraints@), intent.intent_id@)
                    && t.status == TaskStatus::Pending && t.created_at == t.updated_at && t.tags@.len() == 0
                    && t.result is None && t.id@.len() == 36
            } else {
                r matches Err(AetherisError::IntentValidation(m)) && m@ == "Intent validation failed: "@
                    + constraints_debug(violated(models(intent.constraints@), passes@))
            },
    {
        let validation = self.validate_intent(&intent, passes);
        if !validation.is_valid {
            let mut m = String::from_str("Intent validation failed: ");
            let listed = constraints_debug_of(&validation.violated_constraints);
            m.append(listed.as_str());
            return Err(AetherisError::IntentValidation(m));
        }
        let priority: u8 = match intent.confidence {
            IntentConfidence::VeryHigh => 1,
            IntentConfidence::High => 3,
            IntentConfidence::Medium => 5,
            IntentConfidence::Low => 8,
        };
        let metadata = intent_metadata_json(intent.confidence, &intent.constraints, &intent.intent_id);
        let mut task = Task::new(intent.parsed_goal, priority);
        task.metadata = metadata;
        Ok(task)
    }

    /// What the intent still misses.
    pub fn ask_for_missing_info(&self, intent: &Intent) -> (r: Vec<String>)
        ensures
            r@ == intent.missing_information@,
    {
        clone_strings(&intent.missing_information)
    }
}

/// The member of an object with the key (the first, if several).
pub open spec fn member_of(v: JsonModel, key: Seq<char>) -> Option<JsonModel> {
    match v {
        JsonModel::Object(m) => match key_index(m, key) {
            Some(j) => Some(m[j].1),
            None => None,
        },
        _ => None,
    }
}

/// The text of a string value.
pub open spec fn text_of(v: Option<JsonModel>) -> Option<Seq<char>> {
    match v {
        Some(JsonModel::String(s)) => Some(s),
        _ => None,
    }
}

/// The value of a boolean.
pub open spec fn flag_of(v: Option<JsonModel>) -> Option<bool> {
    match v {
        Some(JsonModel::Bool(b)) => Some(b),
        _ => None,
    }
}

/// The items of an array.
pub open spec fn items_of(v: Option<JsonModel>) -> Option<Seq<JsonModel>> {
    match v {
        Some(JsonModel::Array(a)) => Some(a),
        _ => None,
    }
}

pub open spec fn is_digit(c: char) -> bool {
    '0' <= c <= '9'
}

/// The number the decimal digits spell.
pub open spec fn digits_value(t: Seq<char>) -> nat
    decreases t.len(),
{
    if t.len() == 0 {
        0
    } else {
        digits_value(t.drop_last()) * 10 + ((t.last() as u32) - ('0' as u32)) as nat
    }
}

/// The value of a number that is a whole number fitting 64 bits without a
/// sign: its text is all digits.
pub open spec fn count_of(v: Option<JsonModel>) -> Option<nat> {
    match v {
        Some(JsonModel::Number(t)) => if t.len() > 0 && (forall|i: int| 0 <= i < t.len() ==> is_digit(#[trigger] t[i]))
            && digits_value(t) <= u64::MAX {
            Some(digits_value(t))
        } else {
            None
        },
        _ => None,
    }
}

/// The constraint type a (lowered) type name gives; unknown names are custom.
pub open spec fn constraint_type_named(lower: Seq<char>) -> ConstraintType {
    if lower == "security"@ {
        ConstraintType::Security
    } else if lower == "compliance"@ {
        ConstraintType::Compliance
    } else if lower == "permission"@ {
        ConstraintType::Permission
    } else if lower == "resource"@ {
        ConstraintType::Resource
    } else if lower == "time"@ {
        ConstraintType::Time
    } else {
        ConstraintType::Custom
    }
}

/// The constraints the first `k` items describe: each item with a string
/// type, a string description and a boolean mandatory flag.
pub open spec fn reply_constraints(items: Seq<JsonModel>, k: int) -> Seq<ConstraintModel>
    decreases k,
{
    if k <= 0 {
        Seq::empty()
    } else {
        let r = reply_constraints(items, k - 1);
        let it = items[k - 1];
        match (text_of(member_of(it, "type"@)), text_of(member_of(it, "description"@)), flag_of(member_of(it, "is_mandatory"@))) {
            (Some(t), Some(d), Some(m)) => r.push(rule_constraint(constraint_type_named(lowercase(t)), d, m)),
            _ => r,
        }
    }
}

/// The texts of the first `k` items that are strings.
pub open spec fn reply_texts(items: Seq<JsonModel>, k: int) -> Seq<Seq<char>>
    decreases k,
{
    if k <= 0 {
        Seq::empty()
    } else {
        let r = reply_texts(items, k - 1);
        match items[k - 1] {
            JsonModel::String(s) => r.push(s),
            _ => r,
        }
    }
}

/// All the items' texts of an array member (none when it is not an array).
pub open spec fn reply_list(reply: JsonModel, key: Seq<char>) -> Seq<Seq<char>> {
    match items_of(member_of(reply, key)) {
        Some(items) => reply_texts(items, items.len() as int),
        None => Seq::empty(),
    }
}

/// The member with the key.
pub(crate) fn member<'a>(v: &'a JsonValue, key: &str) -> (r: Option<&'a JsonValue>)
    ensures
        match r {
            Some(x) => member_of(v@, key@) == Some(x@),
            None => member_of(v@, key@) is None,
        },
{
    match v {
        JsonValue::Object(m) => {
            proof {
                lemma_members_model(m@);
                lemma_key_index(members_model(m@), key@);
            }
            match find_key(m, key) {
                Some(j) => {
                    assert(members_model(m@)[j as int].1 == m@[j as int].1@);
                    Some(&m[j].1)
                },
                None => None,
            }
        },
        _ => None,
    }
}

/// The items of an array value.
pub(crate) fn array_items<'a>(v: Option<&'a JsonValue>) -> (r: Option<&'a Vec<JsonValue>>)
    ensures
        match r {
            Some(a) => items_of(match v { Some(x) => Some(x@), None => None }) == Some(items_model(a@)),
            None => items_of(match v { Some(x) => Some(x@), None => None }) is None,
        },
{
    match v {
        Some(JsonValue::Array(a)) => Some(a),
        Some(JsonValue::Null) => None,
        Some(JsonValue::Bool(_)) => None,
        Some(JsonValue::Number(_)) => None,
        Some(JsonValue::String(_)) => None,
        Some(JsonValue::Object(m)) => {
            assert(v.unwrap()@ == JsonModel::Object(members_model(m@)));
            None
        },
        None => None,
    }
}

pub(crate) fn text_value<'a>(v: Option<&'a JsonValue>) -> (r: Option<&'a String>)
    ensures
        match r {
            Some(s) => text_of(match v { Some(x) => Some(x@), None => None }) == Some(s@),
            None => text_of(match v { Some(x) => Some(x@), None => None }) is None,
        },
{
    match v {
        Some(JsonValue::String(s)) => Some(s),
        _ => None,
    }
}

fn flag_value(v: Option<&JsonValue>) -> (r: Option<bool>)
    ensures
        r == flag_of(match v { Some(x) => Some(x@), None => None }),
{
    match v {
        Some(JsonValue::Bool(b)) => Some(*b),
        _ => None,
    }
}

/// The value of a whole number written in decimal digits, if it fits.
pub(crate) fn count_value(v: Option<&JsonValue>) -> (r: Option<u64>)
    ensures
        match r {
            Some(n) => count_of(match v { Some(x) => Some(x@), None => None }) == Some(n as nat),
            None => count_of(match v { Some(x) => Some(x@), None => None }) is None,
        },
{
    match v {
        Some(JsonValue::Number(t)) => {
            assert(v.unwrap()@ == JsonModel::Number(t@));
            let s = t.as_str();
            let n = s.unicode_len();
            if n == 0 {
                return None;
            }
            let mut acc: u64 = 0;
            let mut i: usize = 0;
            while i < n
                invariant
                    n == s@.len(),
                    s@ == t@,
                    v matches Some(x) && x@ == JsonModel::Number(s@),
                    i <= n,
                    forall|q: int| 0 <= q < i ==> is_digit(#[trigger] s@[q]),
                    acc as nat == digits_value(s@.take(i as int)),
                decreases n - i,
            {
                let c = s.get_char(i);
                proof {
                    assert(s@.take(i as int + 1).drop_last() =~= s@.take(i as int));
                }
                if !('0' <= c && c <= '9') {
                    assert(!is_digit(s@[i as int]));
                    assert(!(forall|q: int| 0 <= q < s@.len() ==> is_digit(#[trigger] s@[q])));
                    return None;
                }
                let d = (c as u32 - '0' as u32) as u64;
                assert(digits_value(s@.take(i as int + 1)) == acc * 10 + d);
                if acc > (u64::MAX - d) / 10 {
                    proof {
                        assert(digits_value(s@.take(i as int + 1)) > u64::MAX) by (nonlinear_arith)
                            requires
                                digits_value(s@.take(i as int + 1)) == acc * 10 + d,
                                acc > (u64::MAX - d) / 10,
                                d <= 9,
                        ;
                        if forall|q: int| 0 <= q < s@.len() ==> is_digit(#[trigger] s@[q]) {
                            lemma_digits_grow(s@, i as int + 1);
                        }
                    }
                    return None;
                }
                assert(acc * 10 + d <= u64::MAX) by (nonlinear_arith)
                    requires
                        acc <= (u64::MAX - d) / 10,
                        d <= 9,
                ;
                acc = acc * 10 + d;
                i = i + 1;
            }
            assert(s@.take(n as int) =~= s@);
            Some(acc)
        },
        _ => None,
    }
}

/// The value of digits only grows as digits are added.
proof fn lemma_digits_grow(t: Seq<char>, k: int)
    requires
        0 <= k <= t.len(),
        forall|q: int| 0 <= q < t.len() ==> is_digit(#[trigger] t[q]),
    ensures
        digits_value(t.take(k)) <= digits_value(t),
    decreases t.len() - k,
{
    if k < t.len() {
        lemma_digits_grow(t, k + 1);
        assert(t.take(k + 1).drop_last() =~= t.take(k));
        assert(digits_value(t.take(k + 1)) >= digits_value(t.take(k))) by (nonlinear_arith)
            requires
                digits_value(t.take(k + 1)) == digits_value(t.take(k)) * 10 + ((t[k] as u32) - ('0' as u32)) as nat,
        ;
    } else {
        assert(t.take(k) =~= t);
    }
}

fn push_texts(out: &mut Vec<String>, items: &Vec<JsonValue>)
    ensures
        texts(final(out)@) == texts(old(out)@) + reply_texts(items_model(items@), items@.len() as int),
{
    proof {
        lemma_items_model(items@);
    }
    let ghost start = out@;
    let mut k: usize = 0;
    while k < items.len()
        invariant
            k <= items@.len(),
            items_model(items@).len() == items@.len(),
            forall|q: int| 0 <= q < items@.len() ==> #[trigger] items_model(items@)[q] == items@[q]@,
            texts(out@) == texts(start) + reply_texts(items_model(items@), k as int),
        decreases items@.len() - k,
    {
        match &items[k] {
            JsonValue::String(s) => {
                let ghost before = out@;
                out.push(s.clone());
                proof {
                    assert(texts(out@) =~= texts(before).push(s@));
                }
            },
            _ => {},
        }
        proof {
            assert(texts(out@) =~= texts(start) + reply_texts(items_model(items@), k as int + 1));
        }
        k = k + 1;
    }
}

fn constraint_type_from(name: &str) -> (t: ConstraintType)
    ensures
        t == constraint_type_named(lowercase(name@)),
{
    let lowered = to_lowercase(name);
    let l = lowered.as_str();
    if str_eq(l, "security") {
        ConstraintType::Security
    } else if str_eq(l, "compliance") {
        ConstraintType::Compliance
    } else if str_eq(l, "permission") {
        ConstraintType::Permission
    } else if str_eq(l, "resource") {
        ConstraintType::Resource
    } else if str_eq(l, "time") {
        ConstraintType::Time
    } else {
        ConstraintType::Custom
    }
}

impl IntentParser {
    /// Fills the intent from a model's reply, a JSON object: a string
    /// `goal` becomes the goal; each item of `constraints` with a string
    /// `type` (letter case aside: security, compliance, permission,
    /// resource, time, anything else custom), a string `description` and a
    /// boolean `is_mandatory` becomes a constraint; the strings of
    /// `requirements` and `missing_information` are added; a whole
    /// `confidence_score` sets the confidence. Members that are missing or
    /// of another shape change nothing.
    pub fn apply_llm_reply(&self, intent: Intent, reply: &JsonValue) -> (r: Intent)
        ensures
            r.intent_id == intent.intent_id,
            r.raw_input == intent.raw_input,
            r.created_at == intent.created_at,
            r.parsed_goal@ == match text_of(member_of(reply@, "goal"@)) {
                Some(g) => g,
                None => intent.parsed_goal@,
            },
            models(r.constraints@) == models(intent.constraints@) + match items_of(member_of(reply@, "constraints"@)) {
                Some(items) => reply_constraints(items, items.len() as int),
                None => Seq::empty(),
            },
            texts(r.requirements@) == texts(intent.requirements@) + reply_list(reply@, "requirements"@),
            texts(r.missing_information@) == texts(intent.missing_information@) + reply_list(reply@, "missing_information"@),
            r.confidence == match count_of(member_of(reply@, "confidence_score"@)) {
                Some(n) => confidence_of_score(n as int),
                None => intent.confidence,
            },
    {
        let mut intent = intent;
        match text_value(member(reply, "goal")) {
            Some(g) => {
                intent.parsed_goal = g.clone();
            },
            None => {},
        }
        let ghost start_constraints = intent.constraints@;
        let ghost frame = intent;
        match array_items(member(reply, "constraints")) {
            Some(items) => {
                proof {
                    lemma_items_model(items@);
                }
                let mut k: usize = 0;
                while k < items.len()
                    invariant
                        k <= items@.len(),
                        items_model(items@).len() == items@.len(),
                        forall|q: int| 0 <= q < items@.len() ==> #[trigger] items_model(items@)[q] == items@[q]@,
                        models(intent.constraints@) == models(start_constraints) + reply_constraints(items_model(items@), k as int),
                        intent == (Intent { constraints: intent.constraints, ..frame }),
                    decreases items@.len() - k,
                {
                    let it = &items[k];
                    let t = text_value(member(it, "type"));
                    let d = text_value(member(it, "description"));
                    let m = flag_value(member(it, "is_mandatory"));
                    match (t, d, m) {
                        (Some(t), Some(d), Some(m)) => {
                            let c = Constraint::new(constraint_type_from(t.as_str()), d.clone(), m);
                            let ghost before = intent.constraints@;
                            intent.constraints.push(c);
                            proof {
                                assert(texts(c.validation_rules@) =~= Seq::<Seq<char>>::empty());
                                assert(models(intent.constraints@) =~= models(before).push(c@));
                            }
                        },
                        _ => {},
                    }
                    proof {
                        assert(models(intent.constraints@) =~= models(start_constraints) + reply_constraints(items_model(items@), k as int + 1));
                    }
                    k = k + 1;
                }
            },
            _ => {
                proof {
                    assert(models(intent.constraints@) =~= models(start_constraints) + Seq::<ConstraintModel>::empty());
                }
            },
        }
        let ghost start_req = intent.requirements@;
        assert(start_req == frame.requirements@);
        match array_items(member(reply, "requirements")) {
            Some(items) => {
                proof {
                    lemma_items_model(items@);
                }
                push_texts(&mut intent.requirements, items);
                assert(texts(intent.requirements@) == texts(start_req) + reply_list(reply@, "requirements"@));
            },
            _ => {
                proof {
                    assert(texts(intent.requirements@) =~= texts(start_req) + Seq::<Seq<char>>::empty());
                }
            },
        }
        let ghost start_missing = intent.missing_information@;
        match array_items(member(reply, "missing_information")) {
            Some(items) => {
                proof {
                    lemma_items_model(items@);
                }
                push_texts(&mut intent.missing_information, items);
                assert(texts(intent.missing_information@) == texts(start_missing) + reply_list(reply@, "missing_information"@));
            },
            _ => {
                proof {
                    assert(texts(intent.missing_information@) =~= texts(start_missing) + Seq::<Seq<char>>::empty());
                }
            },
        }
        match count_value(member(reply, "confidence_score")) {
            Some(n) => {
                intent.confidence = confidence_from_score(n);
            },
            None => {},
        }
        intent
    }
}

} // verus!
