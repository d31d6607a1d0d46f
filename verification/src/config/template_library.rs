//! Configuration templates: what they hold, how the values of their
//! variables are checked and filled in, and a library that indexes,
//! searches and rates them. Times are milliseconds since the Unix epoch.

use vstd::prelude::*;
use crate::json::{JsonValue, JsonModel, members_model, lemma_members_model, key_index, lemma_key_index, find_key};
use crate::text::{byte_len, utf8_len, str_eq, occurs_at, contains_text, matches_at, push_char};
use crate::json::items_model;
use crate::error::AetherisError;
use crate::runtime::{new_uuid, now_millis};
use crate::engine::types::texts;
use crate::text::{contains, to_lowercase, lowercase};

verus! {

broadcast use vstd::std_specs::vec::group_vec_axioms, vstd::seq::group_seq_axioms;

/// What a template configures.
#[derive(Debug, Clone)]
pub enum TemplateType {
    AetherisConfig,
    Soul,
    Skill,
    Agent,
    SecurityPolicy,
    Plugin,
    Custom(String),
}

/// The type of a template variable.
#[derive(Debug, Clone, Copy, PartialEq, Eq, Structural)]
pub enum VariableType {
    String,
    Number,
    Boolean,
    Array,
    Object,
}

/// How a template variable is checked.
#[derive(Debug, Clone, Copy, PartialEq, Eq, Structural)]
pub enum ValidationRuleType {
    MinLength,
    MaxLength,
    MinValue,
    MaxValue,
    Pattern,
    Enum,
    Custom,
}

/// A check on a variable's value: its kind, its parameters by name, and
/// the message given when the value fails it.
#[derive(Debug)]
pub struct ValidationRule {
    pub rule_type: ValidationRuleType,
    pub parameters: Vec<(String, JsonValue)>,
    pub error_message: String,
}

/// A value of a template that a user fills in.
#[derive(Debug)]
pub struct TemplateVariable {
    pub name: String,
    pub description: String,
    pub variable_type: VariableType,
    pub required: bool,
    pub default_value: Option<JsonValue>,
    pub validation_rules: Vec<ValidationRule>,
}

/// The value's shape is the variable's type.
pub open spec fn type_fits(t: VariableType, v: JsonModel) -> bool {
    match (t, v) {
        (VariableType::String, JsonModel::String(_)) => true,
        (VariableType::Number, JsonModel::Number(_)) => true,
        (VariableType::Boolean, JsonModel::Bool(_)) => true,
        (VariableType::Array, JsonModel::Array(_)) => true,
        (VariableType::Object, JsonModel::Object(_)) => true,
        _ => false,
    }
}

/// Whether the value's shape is the variable's type.
pub fn variable_type_matches(t: VariableType, value: &JsonValue) -> (r: bool)
    ensures
        r == type_fits(t, value@),
{
    match (t, value) {
        (VariableType::String, JsonValue::String(_)) => true,
        (VariableType::Number, JsonValue::Number(_)) => true,
        (VariableType::Boolean, JsonValue::Bool(_)) => true,
        (VariableType::Array, JsonValue::Array(a)) => {
            proof {
                lemma_members_model(Seq::<(String, JsonValue)>::empty());
            }
            true
        },
        (VariableType::Object, JsonValue::Object(_)) => true,
        _ => false,
    }
}

/// A decimal digit.
pub open spec fn is_digit(c: char) -> bool {
    '0' <= c && c <= '9'
}

/// The value of a run of decimal digits.
pub open spec fn digits_value(t: Seq<char>) -> int
    decreases t.len(),
{
    if t.len() == 0 {
        0
    } else {
        digits_value(t.drop_last()) * 10 + (t.last() as int - '0' as int)
    }
}

/// A JSON value as an unsigned 64-bit integer: a number written with
/// decimal digits alone, that fits.
pub open spec fn json_u64(v: JsonModel) -> Option<int> {
    match v {
        JsonModel::Number(t) => if t.len() > 0 && (forall|i: int| 0 <= i < t.len() ==> is_digit(#[trigger] t[i]))
            && digits_value(t) <= u64::MAX {
            Some(digits_value(t))
        } else {
            None
        },
        _ => None,
    }
}

proof fn lemma_digits_grow(t: Seq<char>, k: int)
    requires
        0 <= k <= t.len(),
        forall|i: int| 0 <= i < t.len() ==> is_digit(#[trigger] t[i]),
    ensures
        digits_value(t.subrange(0, k)) <= digits_value(t),
        0 <= digits_value(t),
    decreases t.len(),
{
    if t.len() > 0 {
        let u = t.drop_last();
        assert forall|i: int| 0 <= i < u.len() implies is_digit(#[trigger] u[i]) by {
            assert(u[i] == t[i]);
        }
        assert(is_digit(t[t.len() - 1]));
        if k < t.len() {
            lemma_digits_grow(u, k);
            assert(u.subrange(0, k) =~= t.subrange(0, k));
        } else {
            lemma_digits_grow(u, 0);
            assert(t.subrange(0, k) =~= t);
        }
    } else {
        assert(t.subrange(0, k) =~= t);
    }
}

/// The value as an unsigned 64-bit integer, when it is a number written
/// with decimal digits alone that fits.
pub fn json_as_u64(value: &JsonValue) -> (r: Option<u64>)
    ensures
        match json_u64(value@) {
            Some(n) => 0 <= n <= u64::MAX && r == Some(n as u64),
            None => r is None,
        },
{
    match value {
        JsonValue::Number(t) => {
            assert(value@ == JsonModel::Number(t@));
            let n = t.unicode_len();
            if n == 0 {
                return None;
            }
            let mut acc: u64 = 0;
            let mut i: usize = 0;
            while i < n
                invariant
                    n == t@.len(),
                    value@ == JsonModel::Number(t@),
                    i <= n,
                    forall|k: int| 0 <= k < i ==> is_digit(#[trigger] t@[k]),
                    acc == digits_value(t@.subrange(0, i as int)),
                decreases n - i,
            {
                let c = t.get_char(i);
                if !('0' <= c && c <= '9') {
                    assert(!is_digit(t@[i as int]));
                    assert(!(forall|k: int| 0 <= k < t@.len() ==> is_digit(#[trigger] t@[k])));
                    assert(json_u64(value@) is None);
                    return None;
                }
                let d = (c as u32 - '0' as u32) as u64;
                proof {
                    assert(t@.subrange(0, i as int + 1).drop_last() =~= t@.subrange(0, i as int));
                    assert(t@.subrange(0, i as int + 1).last() == c);
                }
                if acc > (u64::MAX - d) / 10 {
                    proof {
                        assert(acc * 10 + d > u64::MAX) by (nonlinear_arith)
                            requires
                                acc > (u64::MAX - d) / 10,
                                d <= 9,
                        ;
                        assert(digits_value(t@.subrange(0, i as int + 1)) == acc * 10 + d);
                        if forall|k: int| 0 <= k < t@.len() ==> is_digit(#[trigger] t@[k]) {
                            lemma_digits_grow(t@, i as int + 1);
                        }
                        assert(json_u64(value@) is None);
                    }
                    return None;
                }
                acc = acc * 10 + d;
                i = i + 1;
            }
            assert(t@.subrange(0, i as int) =~= t@);
            proof {
                lemma_digits_grow(t@, 0);
            }
            Some(acc)
        },
        _ => None,
    }
}


/// The text `regex::Regex::new` gives when it refuses a pattern; none when
/// it accepts it.
pub uninterp spec fn regex_new_error(pattern: Seq<char>) -> Option<Seq<char>>;

/// Whether the regular expression of an accepted pattern matches somewhere
/// in the text, as `regex::Regex::is_match` answers.
pub uninterp spec fn regex_is_match(pattern: Seq<char>, text: Seq<char>) -> bool;

/// Compiles a pattern with `regex::Regex::new` and, when it compiles,
/// tells whether it matches somewhere in the text with `is_match`; when it
/// does not, gives the error's text. Both are functions of the pattern and
/// the text alone; what they are is left to the regex crate.
#[verifier::external_body]
pub(crate) fn regex_check(pattern: &str, text: &str) -> (r: Result<bool, String>)
    ensures
        match regex_new_error(pattern@) {
            Some(e) => r is Err && r->Err_0@ == e,
            None => r == Ok::<bool, String>(regex_is_match(pattern@, text@)),
        },
{
    match regex::Regex::new(pattern) {
        Ok(re) => Ok(re.is_match(text)),
        Err(e) => Err(e.to_string()),
    }
}

/// What a rule says of a value: it passes, it fails (with the rule's
/// message), the pattern is refused (with that message), or the value is
/// to be compared with a bound as a number (the value, the bound, and
/// whether the bound is a minimum).
pub enum RuleOutcome {
    Pass,
    Fail,
    BadPattern(Seq<char>),
    Compare(Seq<char>, Seq<char>, bool),
}

/// The value of a named parameter.
pub open spec fn param(params: Seq<(Seq<char>, JsonModel)>, key: Seq<char>) -> Option<JsonModel> {
    match key_index(params, key) {
        Some(i) => Some(params[i].1),
        None => None,
    }
}

/// A length bound: a string's length in bytes, an array's in items,
/// against the parameter read as an unsigned integer; anything else, or
/// no usable parameter, passes.
pub open spec fn length_outcome(bound: Option<JsonModel>, v: JsonModel, minimum: bool) -> RuleOutcome {
    match bound {
        Some(b) => match json_u64(b) {
            Some(n) => {
                let len = match v {
                    JsonModel::String(s) => Some(utf8_len(s) as int),
                    JsonModel::Array(a) => Some(a.len() as int),
                    _ => None,
                };
                match len {
                    Some(l) => if (minimum && l < n) || (!minimum && l > n) { RuleOutcome::Fail } else { RuleOutcome::Pass },
                    None => RuleOutcome::Pass,
                }
            },
            None => RuleOutcome::Pass,
        },
        None => RuleOutcome::Pass,
    }
}

/// What a rule of the given kind and parameters says of a value.
pub open spec fn rule_outcome(t: ValidationRuleType, params: Seq<(Seq<char>, JsonModel)>, v: JsonModel) -> RuleOutcome {
    match t {
        ValidationRuleType::MinLength => length_outcome(param(params, "min"@), v, true),
        ValidationRuleType::MaxLength => length_outcome(param(params, "max"@), v, false),
        ValidationRuleType::MinValue => match (param(params, "min"@), v) {
            (Some(JsonModel::Number(b)), JsonModel::Number(x)) => RuleOutcome::Compare(x, b, true),
            _ => RuleOutcome::Pass,
        },
        ValidationRuleType::MaxValue => match (param(params, "max"@), v) {
            (Some(JsonModel::Number(b)), JsonModel::Number(x)) => RuleOutcome::Compare(x, b, false),
            _ => RuleOutcome::Pass,
        },
        ValidationRuleType::Pattern => match (param(params, "pattern"@), v) {
            (Some(JsonModel::String(p)), JsonModel::String(x)) => match regex_new_error(p) {
                Some(e) => RuleOutcome::BadPattern("Invalid pattern: "@ + e),
                None => if regex_is_match(p, x) { RuleOutcome::Pass } else { RuleOutcome::Fail },
            },
            _ => RuleOutcome::Pass,
        },
        ValidationRuleType::Enum => match param(params, "options"@) {
            Some(JsonModel::Array(opts)) => if opts.contains(v) { RuleOutcome::Pass } else { RuleOutcome::Fail },
            _ => RuleOutcome::Pass,
        },
        ValidationRuleType::Custom => RuleOutcome::Pass,
    }
}

/// A rule that still needs a numeric comparison: the value's and the
/// bound's number texts, and whether the bound is a minimum.
#[derive(Debug)]
pub enum RuleCheck {
    Passes,
    CompareNumbers(String, String, bool),
}

fn get_param<'a>(rule: &'a ValidationRule, key: &str) -> (r: Option<&'a JsonValue>)
    ensures
        match param(members_model(rule.parameters@), key@) {
            Some(m) => r is Some && r->Some_0@ == m,
            None => r is None,
        },
{
    proof {
        lemma_members_model(rule.parameters@);
        lemma_key_index(members_model(rule.parameters@), key@);
    }
    match find_key(&rule.parameters, key) {
        Some(i) => Some(&rule.parameters[i].1),
        None => None,
    }
}

fn length_check(bound: Option<&JsonValue>, value: &JsonValue, minimum: bool) -> (r: bool)
    ensures
        r == (length_outcome(match bound { Some(b) => Some(b@), None => None }, value@, minimum) == RuleOutcome::Pass),
{
    match bound {
        Some(b) => match json_as_u64(b) {
            Some(n) => {
                let len: Option<usize> = match value {
                    JsonValue::String(s) => {
                        assert(value@ == JsonModel::String(s@));
                        Some(byte_len(s.as_str()))
                    },
                    JsonValue::Array(a) => {
                        proof {
                            crate::json::lemma_items_model(a@);
                        }
                        assert(value@ == JsonModel::Array(crate::json::items_model(a@)));
                        Some(a.len())
                    },
                    _ => None,
                };
                match len {
                    Some(l) => !((minimum && (l as u64) < n) || (!minimum && (l as u64) > n)),
                    None => true,
                }
            },
            None => true,
        },
        None => true,
    }
}

/// Checks a value against a rule of its variable. A length rule fails a
/// string or an array outside its bound; a pattern rule fails a string the
/// pattern does not match, and a pattern that does not compile is refused;
/// an enumeration rule fails a value not among its options; the failures
/// give the rule's message. A value bound on a number is left as a
/// comparison to make; everything else passes.
pub fn apply_validation_rule(var: &TemplateVariable, value: &JsonValue, rule: &ValidationRule) -> (r: Result<RuleCheck, AetherisError>)
    ensures
        match rule_outcome(rule.rule_type, members_model(rule.parameters@), value@) {
            RuleOutcome::Pass => r matches Ok(RuleCheck::Passes),
            RuleOutcome::Fail => r matches Err(AetherisError::Validation(m)) && m@ == rule.error_message@,
            RuleOutcome::BadPattern(m) => r matches Err(AetherisError::Validation(x)) && x@ == m,
            RuleOutcome::Compare(x, b, minimum) => r matches Ok(RuleCheck::CompareNumbers(rx, rb, rm))
                && rx@ == x && rb@ == b && rm == minimum,
        },
{
    let fail = || -> (e: AetherisError)
        ensures
            e matches AetherisError::Validation(m) && m@ == rule.error_message@,
    { AetherisError::Validation(rule.error_message.clone()) };
    match rule.rule_type {
        ValidationRuleType::MinLength => {
            if length_check(get_param(rule, "min"), value, true) {
                Ok(RuleCheck::Passes)
            } else {
                Err(fail())
            }
        },
        ValidationRuleType::MaxLength => {
            if length_check(get_param(rule, "max"), value, false) {
                Ok(RuleCheck::Passes)
            } else {
                Err(fail())
            }
        },
        ValidationRuleType::MinValue => match (get_param(rule, "min"), value) {
            (Some(JsonValue::Number(b)), JsonValue::Number(x)) => Ok(RuleCheck::CompareNumbers(x.clone(), b.clone(), true)),
            _ => Ok(RuleCheck::Passes),
        },
        ValidationRuleType::MaxValue => match (get_param(rule, "max"), value) {
            (Some(JsonValue::Number(b)), JsonValue::Number(x)) => Ok(RuleCheck::CompareNumbers(x.clone(), b.clone(), false)),
            _ => Ok(RuleCheck::Passes),
        },
        ValidationRuleType::Pattern => match (get_param(rule, "pattern"), value) {
            (Some(JsonValue::String(p)), JsonValue::String(x)) => match regex_check(p.as_str(), x.as_str()) {
                Ok(true) => Ok(RuleCheck::Passes),
                Ok(false) => Err(fail()),
                Err(e) => {
                    let mut m = String::from_str("Invalid pattern: ");
                    m.append(e.as_str());
                    Err(AetherisError::Validation(m))
                },
            },
            _ => Ok(RuleCheck::Passes),
        },
        ValidationRuleType::Enum => match get_param(rule, "options") {
            Some(JsonValue::Array(opts)) => {
                proof {
                    crate::json::lemma_items_model(opts@);
                }
                let mut found = false;
                let mut i: usize = 0;
                while i < opts.len()
                    invariant
                        i <= opts@.len(),
                        crate::json::items_model(opts@).len() == opts@.len(),
                        forall|k: int| 0 <= k < opts@.len() ==> #[trigger] crate::json::items_model(opts@)[k] == opts@[k]@,
                        found == exists|k: int| 0 <= k < i && crate::json::items_model(opts@)[k] == value@,
                    decreases opts@.len() - i,
                {
                    let same = opts[i].equals(value);
                    proof {
                        assert(crate::json::items_model(opts@)[i as int] == opts@[i as int]@);
                    }
                    if same {
                        found = true;
                    }
                    i = i + 1;
                }
                if found {
                    Ok(RuleCheck::Passes)
                } else {
                    Err(fail())
                }
            },
            _ => Ok(RuleCheck::Passes),
        },
        ValidationRuleType::Custom => Ok(RuleCheck::Passes),
    }
}


/// The text with each occurrence of `pat` from position `i` on replaced
/// by `rep`, occurrences found left to right without overlap.
pub open spec fn replace_from(s: Seq<char>, pat: Seq<char>, rep: Seq<char>, i: int) -> Seq<char>
    decreases s.len() - i,
{
    if i < 0 || i >= s.len() {
        Seq::empty()
    } else if pat.len() > 0 && occurs_at(s, pat, i) {
        rep + replace_from(s, pat, rep, i + pat.len())
    } else {
        seq![s[i]] + replace_from(s, pat, rep, i + 1)
    }
}

/// The text with every occurrence of `pat` replaced by `rep`, left to
/// right without overlap.
pub open spec fn replace_all(s: Seq<char>, pat: Seq<char>, rep: Seq<char>) -> Seq<char> {
    replace_from(s, pat, rep, 0)
}

/// The placeholder of a variable: its name between double braces.
pub open spec fn placeholder(name: Seq<char>) -> Seq<char> {
    "{{"@ + name + "}}"@
}

/// A text with the variables filled in one after the other: each text
/// variable's placeholder replaced by its value; other variables leave it
/// as it is.
pub open spec fn fill_text(s: Seq<char>, vars: Seq<(Seq<char>, JsonModel)>) -> Seq<char>
    decreases vars.len(),
{
    if vars.len() == 0 {
        s
    } else {
        let t = fill_text(s, vars.drop_last());
        match vars.last().1 {
            JsonModel::String(rep) => replace_all(t, placeholder(vars.last().0), rep),
            _ => t,
        }
    }
}

/// A value with the variables filled into every text inside it.
pub open spec fn filled(v: JsonModel, vars: Seq<(Seq<char>, JsonModel)>) -> JsonModel
    decreases v, 0int,
{
    match v {
        JsonModel::String(s) => JsonModel::String(fill_text(s, vars)),
        JsonModel::Array(items) => JsonModel::Array(filled_items(items, vars, items.len() as int)),
        JsonModel::Object(m) => JsonModel::Object(filled_members(m, vars, m.len() as int)),
        _ => v,
    }
}

/// The first `k` items, filled.
pub open spec fn filled_items(items: Seq<JsonModel>, vars: Seq<(Seq<char>, JsonModel)>, k: int) -> Seq<JsonModel>
    decreases items, k,
{
    if k <= 0 || k > items.len() {
        Seq::empty()
    } else {
        proof {
            assert(decreases_to!(items => items[k - 1]));
        }
        filled_items(items, vars, k - 1).push(filled(items[k - 1], vars))
    }
}

/// The first `k` members, their values filled.
pub open spec fn filled_members(m: Seq<(Seq<char>, JsonModel)>, vars: Seq<(Seq<char>, JsonModel)>, k: int) -> Seq<(Seq<char>, JsonModel)>
    decreases m, k,
{
    if k <= 0 || k > m.len() {
        Seq::empty()
    } else {
        proof {
            assert(decreases_to!(m => m[k - 1]));
        }
        filled_members(m, vars, k - 1).push((m[k - 1].0, filled(m[k - 1].1, vars)))
    }
}

/// The text with every occurrence of `pat` replaced by `rep`.
pub(crate) fn replace_all_text(s: &str, pat: &str, rep: &str) -> (r: String)
    requires
        pat@.len() > 0,
    ensures
        r@ == replace_all(s@, pat@, rep@),
{
    let n = s.unicode_len();
    let m = pat.unicode_len();
    let mut r = String::new();
    let mut i: usize = 0;
    proof {
        reveal_strlit("");
    }
    while i < n
        invariant
            n == s@.len(),
            m == pat@.len(),
            m > 0,
            i <= n,
            r@ + replace_from(s@, pat@, rep@, i as int) == replace_all(s@, pat@, rep@),
        decreases n - i,
    {
        let ghost before = r@;
        if m <= n - i && matches_at(s, pat, i) {
            r.append(rep);
            proof {
                assert(replace_from(s@, pat@, rep@, i as int) == rep@ + replace_from(s@, pat@, rep@, i + m));
                assert(r@ + replace_from(s@, pat@, rep@, (i + m) as int) =~= before + replace_from(s@, pat@, rep@, i as int));
            }
            i = i + m;
        } else {
            let c = s.get_char(i);
            push_char(&mut r, c);
            proof {
                assert(!occurs_at(s@, pat@, i as int));
                assert(replace_from(s@, pat@, rep@, i as int) == seq![s@[i as int]] + replace_from(s@, pat@, rep@, i + 1));
                assert(r@ + replace_from(s@, pat@, rep@, (i + 1) as int) =~= before + replace_from(s@, pat@, rep@, i as int));
            }
            i = i + 1;
        }
    }
    assert(replace_from(s@, pat@, rep@, i as int) =~= Seq::<char>::empty());
    assert(r@ =~= r@ + Seq::<char>::empty());
    r
}

/// The text with the variables filled in.
fn fill_text_exec(s: &str, vars: &Vec<(String, JsonValue)>) -> (r: String)
    ensures
        r@ == fill_text(s@, members_model(vars@)),
{
    proof {
        lemma_members_model(vars@);
    }
    let mut r = String::from_str(s);
    let mut i: usize = 0;
    while i < vars.len()
        invariant
            i <= vars@.len(),
            members_model(vars@).len() == vars@.len(),
            forall|k: int| 0 <= k < vars@.len() ==> #[trigger] members_model(vars@)[k] == (vars@[k].0@, vars@[k].1@),
            r@ == fill_text(s@, members_model(vars@).subrange(0, i as int)),
        decreases vars@.len() - i,
    {
        let ghost mm = members_model(vars@);
        proof {
            assert(mm.subrange(0, i as int + 1).drop_last() =~= mm.subrange(0, i as int));
            assert(mm.subrange(0, i as int + 1).last() == mm[i as int]);
        }
        match &vars[i].1 {
            JsonValue::String(rep) => {
                let mut pat = String::from_str("{{");
                pat.append(vars[i].0.as_str());
                pat.append("}}");
                assert(pat@ =~= placeholder(vars@[i as int].0@));
                proof {
                    reveal_strlit("{{");
                    assert(pat@.len() > 0);
                }
                r = replace_all_text(r.as_str(), pat.as_str(), rep.as_str());
            },
            _ => {},
        }
        i = i + 1;
    }
    assert(members_model(vars@).subrange(0, i as int) =~= members_model(vars@));
    r
}

fn filled_value(v: &JsonValue, vars: &Vec<(String, JsonValue)>) -> (r: JsonValue)
    ensures
        r@ == filled(v@, members_model(vars@)),
    decreases *v,
{
    let ghost vm = members_model(vars@);
    match v {
        JsonValue::String(s) => JsonValue::String(fill_text_exec(s.as_str(), vars)),
        JsonValue::Array(a) => {
            let mut items: Vec<JsonValue> = Vec::new();
            let mut i: usize = 0;
            proof {
                crate::json::lemma_items_model(a@);
            }
            while i < a.len()
                invariant
                    i <= a@.len(),
                    vm == members_model(vars@),
                    items_model(a@).len() == a@.len(),
                    forall|k: int| 0 <= k < a@.len() ==> #[trigger] items_model(a@)[k] == a@[k]@,
                    items_model(items@) == filled_items(items_model(a@), vm, i as int),
                    decreases_to!(*v => a),
                decreases a@.len() - i,
            {
                assert(decreases_to!(*v => a@[i as int]));
                let x = filled_value(&a[i], vars);
                let ghost before = items@;
                items.push(x);
                proof {
                    assert(items@.drop_last() =~= before);
                }
                i = i + 1;
            }
            JsonValue::Array(items)
        },
        JsonValue::Object(m) => {
            let mut members: Vec<(String, JsonValue)> = Vec::new();
            let mut i: usize = 0;
            proof {
                lemma_members_model(m@);
            }
            while i < m.len()
                invariant
                    i <= m@.len(),
                    vm == members_model(vars@),
                    members_model(m@).len() == m@.len(),
                    forall|k: int| 0 <= k < m@.len() ==> #[trigger] members_model(m@)[k] == (m@[k].0@, m@[k].1@),
                    members_model(members@) == filled_members(members_model(m@), vm, i as int),
                    decreases_to!(*v => m),
                decreases m@.len() - i,
            {
                assert(decreases_to!(*v => m@[i as int].1));
                let x = filled_value(&m[i].1, vars);
                let k = m[i].0.clone();
                let ghost before = members@;
                members.push((k, x));
                proof {
                    assert(members@.drop_last() =~= before);
                }
                i = i + 1;
            }
            JsonValue::Object(members)
        },
        JsonValue::Null => JsonValue::Null,
        JsonValue::Bool(b) => JsonValue::Bool(*b),
        JsonValue::Number(n) => JsonValue::Number(n.clone()),
    }
}

/// Fills the variables into every text inside the content: each text
/// variable's placeholder, its name between double braces, is replaced by
/// its value, variable after variable in the given order.
pub fn substitute_variables(content: &mut JsonValue, variables: &Vec<(String, JsonValue)>) -> (r: Result<(), AetherisError>)
    ensures
        r is Ok,
        final(content)@ == filled(old(content)@, members_model(variables@)),
{
    let filled_content = filled_value(content, variables);
    *content = filled_content;
    Ok(())
}


/// What the rule at a position says of a value.
pub open spec fn outcome_at(rules: Seq<ValidationRule>, k: int, v: JsonModel) -> RuleOutcome {
    rule_outcome(rules[k].rule_type, members_model(rules[k].parameters@), v)
}

/// The first rule, from position `k` on, that does not simply pass the
/// value.
pub open spec fn first_stop(rules: Seq<ValidationRule>, v: JsonModel, k: int) -> Option<int>
    decreases rules.len() - k,
{
    if k < 0 || k >= rules.len() {
        None
    } else if outcome_at(rules, k, v) != RuleOutcome::Pass {
        Some(k)
    } else {
        first_stop(rules, v, k + 1)
    }
}

/// A numeric comparison a variable's check is waiting for: the position of
/// its rule, the value's and the bound's number texts, and whether the
/// bound is a minimum.
#[derive(Debug)]
pub struct PendingComparison {
    pub rule_index: usize,
    pub value: String,
    pub bound: String,
    pub minimum: bool,
}

/// Checks a variable's value, from the rule at `from` on, in order: at the
/// start, that the value has the variable's type; then each rule, up to
/// the first that fails (its error), or that needs a numeric comparison
/// (given back to be made, the check to resume after it). `None` when all
/// the rules pass.
pub fn validation_step(var: &TemplateVariable, value: &JsonValue, from: usize) -> (r: Result<Option<PendingComparison>, AetherisError>)
    ensures
        if from == 0 && !type_fits(var.variable_type, value@) {
            r matches Err(AetherisError::Validation(m)) && m@ == "Variable '"@ + var.name@ + "' has incorrect type"@
        } else {
            match first_stop(var.validation_rules@, value@, from as int) {
                None => r matches Ok(None),
                Some(j) => match outcome_at(var.validation_rules@, j, value@) {
                    RuleOutcome::Fail => r matches Err(AetherisError::Validation(m)) && m@ == var.validation_rules@[j].error_message@,
                    RuleOutcome::BadPattern(x) => r matches Err(AetherisError::Validation(m)) && m@ == x,
                    RuleOutcome::Compare(x, b, minimum) => r matches Ok(Some(p)) && p.rule_index == j && p.value@ == x
                        && p.bound@ == b && p.minimum == minimum,
                    RuleOutcome::Pass => false,
                },
            }
        },
{
    if from == 0 && !variable_type_matches(var.variable_type, value) {
        let mut m = String::from_str("Variable '");
        m.append(var.name.as_str());
        m.append("' has incorrect type");
        return Err(AetherisError::Validation(m));
    }
    let rules = &var.validation_rules;
    if from >= rules.len() {
        return Ok(None);
    }
    let mut k: usize = from;
    while k < rules.len()
        invariant
            from <= k <= rules@.len(),
            rules@ == var.validation_rules@,
            !(from == 0 && !type_fits(var.variable_type, value@)),
            first_stop(rules@, value@, from as int) == first_stop(rules@, value@, k as int),
        decreases rules@.len() - k,
    {
        let checked = apply_validation_rule(var, value, &rules[k]);
        proof {
            assert(outcome_at(rules@, k as int, value@) == rule_outcome(rules@[k as int].rule_type, members_model(rules@[k as int].parameters@), value@));
        }
        match checked {
            Err(e) => {
                return Err(e);
            },
            Ok(RuleCheck::CompareNumbers(x, b, minimum)) => {
                return Ok(Some(PendingComparison { rule_index: k, value: x, bound: b, minimum }));
            },
            Ok(RuleCheck::Passes) => {},
        }
        k = k + 1;
    }
    Ok(None)
}

/// A variable's value among the given ones: the first with its name; a
/// required variable without one is refused.
pub fn variable_value<'a>(var: &TemplateVariable, variables: &'a Vec<(String, JsonValue)>) -> (r: Result<Option<&'a JsonValue>, AetherisError>)
    ensures
        match key_index(members_model(variables@), var.name@) {
            Some(i) => r matches Ok(Some(v)) && v@ == members_model(variables@)[i].1,
            None => if var.required {
                r matches Err(AetherisError::Validation(m)) && m@ == "Required variable '"@ + var.name@ + "' is missing"@
            } else {
                r matches Ok(None)
            },
        },
{
    proof {
        lemma_members_model(variables@);
        lemma_key_index(members_model(variables@), var.name@);
    }
    match find_key(variables, var.name.as_str()) {
        Some(i) => Ok(Some(&variables[i].1)),
        None => {
            if var.required {
                let mut m = String::from_str("Required variable '");
                m.append(var.name.as_str());
                m.append("' is missing");
                Err(AetherisError::Validation(m))
            } else {
                Ok(None)
            }
        },
    }
}


/// An example of filling in a template.
#[derive(Debug)]
pub struct TemplateExample {
    pub name: String,
    pub description: String,
    pub variables: Vec<(String, JsonValue)>,
    pub expected_output: JsonValue,
}

/// A configuration template. Its rating is the average of its ratings:
/// their total over their count (the total alone before any rating).
#[derive(Debug)]
pub struct ConfigTemplate {
    pub template_id: String,
    pub name: String,
    pub description: String,
    pub template_type: TemplateType,
    pub version: String,
    pub author: String,
    pub created_at: i64,
    pub updated_at: i64,
    pub tags: Vec<String>,
    pub categories: Vec<String>,
    pub content: JsonValue,
    pub variables: Vec<TemplateVariable>,
    pub examples: Vec<TemplateExample>,
    pub is_official: bool,
    pub is_published: bool,
    pub download_count: u64,
    pub rating_total: u64,
    pub rating_count: u32,
}

/// A user's rating of a template, from 1 to 5.
#[derive(Debug)]
pub struct TemplateRating {
    pub rating_id: String,
    pub template_id: String,
    pub user_id: String,
    pub rating: u8,
    pub comment: Option<String>,
    pub created_at: i64,
}

/// A template type as a key: its variant, and the name of a custom type.
pub open spec fn template_type_key(t: TemplateType) -> (int, Seq<char>) {
    match t {
        TemplateType::AetherisConfig => (0, Seq::empty()),
        TemplateType::Soul => (1, Seq::empty()),
        TemplateType::Skill => (2, Seq::empty()),
        TemplateType::Agent => (3, Seq::empty()),
        TemplateType::SecurityPolicy => (4, Seq::empty()),
        TemplateType::Plugin => (5, Seq::empty()),
        TemplateType::Custom(s) => (6, s@),
    }
}

impl TemplateType {
    /// Whether two types are the same, custom ones by name.
    pub fn same(&self, other: &TemplateType) -> (r: bool)
        ensures
            r == (template_type_key(*self) == template_type_key(*other)),
    {
        match (self, other) {
            (TemplateType::AetherisConfig, TemplateType::AetherisConfig) => true,
            (TemplateType::Soul, TemplateType::Soul) => true,
            (TemplateType::Skill, TemplateType::Skill) => true,
            (TemplateType::Agent, TemplateType::Agent) => true,
            (TemplateType::SecurityPolicy, TemplateType::SecurityPolicy) => true,
            (TemplateType::Plugin, TemplateType::Plugin) => true,
            (TemplateType::Custom(a), TemplateType::Custom(b)) => str_eq(a.as_str(), b.as_str()),
            _ => false,
        }
    }

    /// A copy of the type.
    pub fn duplicate(&self) -> (r: TemplateType)
        ensures
            r == *self,
    {
        match self {
            TemplateType::AetherisConfig => TemplateType::AetherisConfig,
            TemplateType::Soul => TemplateType::Soul,
            TemplateType::Skill => TemplateType::Skill,
            TemplateType::Agent => TemplateType::Agent,
            TemplateType::SecurityPolicy => TemplateType::SecurityPolicy,
            TemplateType::Plugin => TemplateType::Plugin,
            TemplateType::Custom(s) => TemplateType::Custom(s.clone()),
        }
    }
}

/// The ids filed under a key, in the order they were filed.
pub open spec fn filed<K, V>(index: Seq<(K, Seq<V>)>, key: K) -> Seq<V>
    decreases index.len(),
{
    if index.len() == 0 {
        Seq::empty()
    } else if index[0].0 == key {
        index[0].1
    } else {
        filed(index.skip(1), key)
    }
}

/// An index after filing an id under a key: at the end of the key's
/// entry, made if there is none.
pub open spec fn file_under<K, V>(index: Seq<(K, Seq<V>)>, key: K, id: V) -> Seq<(K, Seq<V>)>
    decreases index.len(),
{
    if index.len() == 0 {
        seq![(key, seq![id])]
    } else if index[0].0 == key {
        index.update(0, (key, index[0].1.push(id)))
    } else {
        seq![index[0]] + file_under(index.skip(1), key, id)
    }
}

/// An index after filing an id under each of the keys in turn.
pub open spec fn file_under_each(index: Seq<(Seq<char>, Seq<Seq<char>>)>, keys: Seq<Seq<char>>, id: Seq<char>) -> Seq<(Seq<char>, Seq<Seq<char>>)>
    decreases keys.len(),
{
    if keys.len() == 0 {
        index
    } else {
        file_under(file_under_each(index, keys.drop_last(), id), keys.last(), id)
    }
}

/// One step of a search for a key from a position of an index.
proof fn lemma_filed_step<K, V>(index: Seq<(K, Seq<V>)>, key: K, i: int)
    requires
        0 <= i < index.len(),
    ensures
        filed(index.skip(i), key) == (if index[i].0 == key { index[i].1 } else { filed(index.skip(i + 1), key) }),
        index.skip(0) == index,
{
    assert(index.skip(i)[0] == index[i]);
    assert(index.skip(i).skip(1) =~= index.skip(i + 1));
    assert(index.skip(0) =~= index);
}

/// The model of a library.
pub struct LibraryModel {
    pub templates: Seq<ConfigTemplate>,
    pub ratings: Seq<(Seq<char>, Seq<TemplateRating>)>,
    pub type_index: Seq<((int, Seq<char>), Seq<Seq<char>>)>,
    pub tag_index: Seq<(Seq<char>, Seq<Seq<char>>)>,
    pub category_index: Seq<(Seq<char>, Seq<Seq<char>>)>,
    pub author_index: Seq<(Seq<char>, Seq<Seq<char>>)>,
}

/// Templates by id, indexed by type, tag, category and author, with their
/// ratings.
#[derive(Debug)]
pub struct ConfigTemplateLibrary {
    templates: Vec<ConfigTemplate>,
    ratings: Vec<(String, Vec<TemplateRating>)>,
    type_index: Vec<(TemplateType, Vec<String>)>,
    tag_index: Vec<(String, Vec<String>)>,
    category_index: Vec<(String, Vec<String>)>,
    author_index: Vec<(String, Vec<String>)>,
}

impl View for ConfigTemplateLibrary {
    type V = LibraryModel;

    closed spec fn view(&self) -> LibraryModel {
        LibraryModel {
            templates: self.templates@,
            ratings: self.ratings@.map_values(|e: (String, Vec<TemplateRating>)| (e.0@, e.1@)),
            type_index: self.type_index@.map_values(|e: (TemplateType, Vec<String>)| (template_type_key(e.0), texts(e.1@))),
            tag_index: self.tag_index@.map_values(|e: (String, Vec<String>)| (e.0@, texts(e.1@))),
            category_index: self.category_index@.map_values(|e: (String, Vec<String>)| (e.0@, texts(e.1@))),
            author_index: self.author_index@.map_values(|e: (String, Vec<String>)| (e.0@, texts(e.1@))),
        }
    }
}

/// The position of the template with the given id.
pub open spec fn template_pos(ts: Seq<ConfigTemplate>, id: Seq<char>) -> Option<int> {
    if exists|i: int| 0 <= i < ts.len() && #[trigger] ts[i].template_id@ == id {
        Some(choose|i: int| 0 <= i < ts.len() && #[trigger] ts[i].template_id@ == id)
    } else {
        None
    }
}

/// No two templates share an id.
pub open spec fn distinct_template_ids(ts: Seq<ConfigTemplate>) -> bool {
    forall|i: int, j: int| 0 <= i < j < ts.len() ==> #[trigger] ts[i].template_id@ != #[trigger] ts[j].template_id@
}

/// The published templates, in order.
pub open spec fn published(ts: Seq<ConfigTemplate>) -> Seq<ConfigTemplate>
    decreases ts.len(),
{
    if ts.len() == 0 {
        Seq::empty()
    } else if ts.last().is_published {
        published(ts.drop_last()).push(ts.last())
    } else {
        published(ts.drop_last())
    }
}

/// The published templates with the given ids, in their order, skipping
/// ids with no template.
pub open spec fn published_with_ids(ts: Seq<ConfigTemplate>, ids: Seq<Seq<char>>) -> Seq<ConfigTemplate>
    decreases ids.len(),
{
    if ids.len() == 0 {
        Seq::empty()
    } else {
        let rest = published_with_ids(ts, ids.drop_last());
        match template_pos(ts, ids.last()) {
            Some(p) => if ts[p].is_published { rest.push(ts[p]) } else { rest },
            None => rest,
        }
    }
}

proof fn lemma_filed_file_under<K, V>(index: Seq<(K, Seq<V>)>, key: K, id: V, other: K)
    ensures
        filed(file_under(index, key, id), key) == filed(index, key).push(id),
        other != key ==> filed(file_under(index, key, id), other) == filed(index, other),
    decreases index.len(),
{
    let f = file_under(index, key, id);
    if index.len() > 0 {
        if index[0].0 != key {
            lemma_filed_file_under(index.skip(1), key, id, other);
            assert(f.skip(1) =~= file_under(index.skip(1), key, id));
            assert(f[0] == index[0]);
            if other != key {
                if index[0].0 == other {
                    assert(filed(f, other) == f[0].1);
                } else {
                    assert(filed(f, other) == filed(f.skip(1), other));
                    assert(filed(index, other) == filed(index.skip(1), other));
                }
            }
        } else {
            assert(f.skip(1) =~= index.skip(1));
            assert(f[0].0 == key);
            if other != key {
                assert(filed(f, other) == filed(f.skip(1), other));
                assert(filed(index, other) == filed(index.skip(1), other));
            }
        }
    } else {
        assert(f.skip(1) =~= Seq::<(K, Seq<V>)>::empty());
        assert(f[0].0 == key);
        if other != key {
            assert(filed(f, other) == filed(f.skip(1), other));
        }
    }
}

impl ConfigTemplateLibrary {
    /// Template ids are distinct.
    pub open spec fn wf(&self) -> bool {
        distinct_template_ids(self@.templates)
    }

    /// An empty library.
    pub fn new() -> (l: ConfigTemplateLibrary)
        ensures
            l.wf(),
            l@.templates.len() == 0,
            l@.ratings.len() == 0,
            l@.type_index.len() == 0,
            l@.tag_index.len() == 0,
            l@.category_index.len() == 0,
            l@.author_index.len() == 0,
    {
        ConfigTemplateLibrary {
            templates: Vec::new(),
            ratings: Vec::new(),
            type_index: Vec::new(),
            tag_index: Vec::new(),
            category_index: Vec::new(),
            author_index: Vec::new(),
        }
    }

    fn find_template(&self, id: &str) -> (r: Option<usize>)
        requires
            self.wf(),
        ensures
            template_pos(self@.templates, id@) == match r {
                Some(i) => Some(i as int),
                None => None::<int>,
            },
            r matches Some(i) ==> i < self@.templates.len(),
    {
        let mut i: usize = 0;
        while i < self.templates.len()
            invariant
                self.wf(),
                i <= self@.templates.len(),
                forall|j: int| 0 <= j < i ==> self@.templates[j].template_id@ != id@,
            decreases self@.templates.len() - i,
        {
            if str_eq(self.templates[i].template_id.as_str(), id) {
                proof {
                    let p = choose|p: int| 0 <= p < self@.templates.len() && #[trigger] self@.templates[p].template_id@ == id@;
                    if p > i {
                        assert(self@.templates[i as int].template_id@ != self@.templates[p].template_id@);
                    }
                }
                return Some(i);
            }
            i = i + 1;
        }
        None
    }

    /// The template with the given id.
    pub fn get_template(&self, template_id: &str) -> (r: Option<&ConfigTemplate>)
        requires
            self.wf(),
        ensures
            match template_pos(self@.templates, template_id@) {
                Some(p) => r == Some(&self@.templates[p]),
                None => r is None,
            },
    {
        match self.find_template(template_id) {
            Some(i) => Some(&self.templates[i]),
            None => None,
        }
    }

    /// Adds a template, with an id no other template has, and files its id
    /// under its type, each of its tags and categories, and its author.
    pub fn register_template(&mut self, template: ConfigTemplate) -> (r: Result<(), AetherisError>)
        requires
            old(self).wf(),
        ensures
            final(self).wf(),
            match template_pos(old(self)@.templates, template.template_id@) {
                Some(_) => r matches Err(AetherisError::Validation(m))
                    && m@ == "Template with ID '"@ + template.template_id@ + "' already exists"@
                    && final(self)@ == old(self)@,
                None => r is Ok && final(self)@ == (LibraryModel {
                    templates: old(self)@.templates.push(template),
                    type_index: file_under(old(self)@.type_index, template_type_key(template.template_type), template.template_id@),
                    tag_index: file_under_each(old(self)@.tag_index, texts(template.tags@), template.template_id@),
                    category_index: file_under_each(old(self)@.category_index, texts(template.categories@), template.template_id@),
                    author_index: file_under(old(self)@.author_index, template.author@, template.template_id@),
                    ..old(self)@
                }),
            },
    {
        let ghost old_m = self@;
        if self.find_template(template.template_id.as_str()).is_some() {
            let mut m = String::from_str("Template with ID '");
            m.append(template.template_id.as_str());
            m.append("' already exists");
            return Err(AetherisError::Validation(m));
        }
        let ghost t = template;
        let id = template.template_id.clone();
        let ttype = template.template_type.duplicate();
        let tags = crate::engine::types::clone_strings(&template.tags);
        let categories = crate::engine::types::clone_strings(&template.categories);
        let author = template.author.clone();
        self.templates.push(template);
        proof {
            assert forall|a: int, b: int| 0 <= a < b < self@.templates.len() implies #[trigger] self@.templates[a].template_id@
                != #[trigger] self@.templates[b].template_id@ by {
                if b == self@.templates.len() - 1 {
                    assert(old_m.templates[a].template_id@ != t.template_id@);
                } else {
                    assert(old_m.templates[a].template_id@ != old_m.templates[b].template_id@);
                }
            }
        }
        file_type(&mut self.type_index, ttype, id.as_str());
        let ghost after_type = self@;
        let mut i: usize = 0;
        while i < tags.len()
            invariant
                i <= tags@.len(),
                self@.tag_index == file_under_each(old_m.tag_index, texts(tags@).subrange(0, i as int), id@),
                self@ == (LibraryModel { tag_index: self@.tag_index, ..after_type }),
            decreases tags@.len() - i,
        {
            file_text(&mut self.tag_index, tags[i].as_str(), id.as_str());
            proof {
                assert(texts(tags@)[i as int] == tags@[i as int]@);
                assert(texts(tags@).subrange(0, i as int + 1).drop_last() =~= texts(tags@).subrange(0, i as int));
            }
            i = i + 1;
        }
        assert(texts(tags@).subrange(0, i as int) =~= texts(tags@));
        let ghost after_tags = self@;
        let mut i: usize = 0;
        while i < categories.len()
            invariant
                i <= categories@.len(),
                self@.category_index == file_under_each(old_m.category_index, texts(categories@).subrange(0, i as int), id@),
                self@ == (LibraryModel { category_index: self@.category_index, ..after_tags }),
            decreases categories@.len() - i,
        {
            file_text(&mut self.category_index, categories[i].as_str(), id.as_str());
            proof {
                assert(texts(categories@)[i as int] == categories@[i as int]@);
                assert(texts(categories@).subrange(0, i as int + 1).drop_last() =~= texts(categories@).subrange(0, i as int));
            }
            i = i + 1;
        }
        assert(texts(categories@).subrange(0, i as int) =~= texts(categories@));
        file_text(&mut self.author_index, author.as_str(), id.as_str());
        Ok(())
    }
}

/// Files an id under a text key, at the end of the key's entry, made if
/// there is none.
fn file_text(index: &mut Vec<(String, Vec<String>)>, key: &str, id: &str)
    ensures
        final(index)@.map_values(|e: (String, Vec<String>)| (e.0@, texts(e.1@)))
            == file_under(old(index)@.map_values(|e: (String, Vec<String>)| (e.0@, texts(e.1@))), key@, id@),
{
    let ghost m0 = index@.map_values(|e: (String, Vec<String>)| (e.0@, texts(e.1@)));
    let mut i: usize = 0;
    while i < index.len()
        invariant
            i <= index@.len(),
            index@ == old(index)@,
            m0 == index@.map_values(|e: (String, Vec<String>)| (e.0@, texts(e.1@))),
            forall|j: int| 0 <= j < i ==> index@[j].0@ != key@,
        decreases index@.len() - i,
    {
        if str_eq(index[i].0.as_str(), key) {
            let mut ids = crate::engine::types::clone_strings(&index[i].1);
            let ghost before_ids = ids@;
            ids.push(id.to_string());
            let k = index[i].0.clone();
            proof {
                assert(m0[i as int] == (index@[i as int].0@, texts(index@[i as int].1@)));
                assert(texts(ids@) =~= texts(before_ids).push(id@));
            }
            index.set(i, (k, ids));
            proof {
                lemma_file_under_at(m0, key@, id@, i as int);
                assert(index@.map_values(|e: (String, Vec<String>)| (e.0@, texts(e.1@)))
                    =~= m0.update(i as int, (key@, m0[i as int].1.push(id@))));
            }
            return;
        }
        i = i + 1;
    }
    let ids = vec![id.to_string()];
    index.push((key.to_string(), ids));
    proof {
        lemma_file_under_end(m0, key@, id@);
        assert(texts(ids@) =~= seq![id@]);
        assert(index@.map_values(|e: (String, Vec<String>)| (e.0@, texts(e.1@))) =~= m0.push((key@, seq![id@])));
    }
}

/// Files an id under a type key.
fn file_type(index: &mut Vec<(TemplateType, Vec<String>)>, key: TemplateType, id: &str)
    ensures
        final(index)@.map_values(|e: (TemplateType, Vec<String>)| (template_type_key(e.0), texts(e.1@)))
            == file_under(old(index)@.map_values(|e: (TemplateType, Vec<String>)| (template_type_key(e.0), texts(e.1@))), template_type_key(key), id@),
{
    let ghost m0 = index@.map_values(|e: (TemplateType, Vec<String>)| (template_type_key(e.0), texts(e.1@)));
    let ghost tk = template_type_key(key);
    let mut i: usize = 0;
    while i < index.len()
        invariant
            i <= index@.len(),
            index@ == old(index)@,
            tk == template_type_key(key),
            m0 == index@.map_values(|e: (TemplateType, Vec<String>)| (template_type_key(e.0), texts(e.1@))),
            forall|j: int| 0 <= j < i ==> template_type_key(index@[j].0) != tk,
        decreases index@.len() - i,
    {
        if index[i].0.same(&key) {
            let mut ids = crate::engine::types::clone_strings(&index[i].1);
            let ghost before_ids = ids@;
            ids.push(id.to_string());
            proof {
                assert(m0[i as int] == (template_type_key(index@[i as int].0), texts(index@[i as int].1@)));
                assert(texts(ids@) =~= texts(before_ids).push(id@));
            }
            index.set(i, (key, ids));
            proof {
                lemma_file_under_at(m0, tk, id@, i as int);
                assert(index@.map_values(|e: (TemplateType, Vec<String>)| (template_type_key(e.0), texts(e.1@)))
                    =~= m0.update(i as int, (tk, m0[i as int].1.push(id@))));
            }
            return;
        }
        i = i + 1;
    }
    let ids = vec![id.to_string()];
    index.push((key, ids));
    proof {
        lemma_file_under_end(m0, tk, id@);
        assert(texts(ids@) =~= seq![id@]);
        assert(index@.map_values(|e: (TemplateType, Vec<String>)| (template_type_key(e.0), texts(e.1@))) =~= m0.push((tk, seq![id@])));
    }
}

proof fn lemma_file_under_at<K, V>(index: Seq<(K, Seq<V>)>, key: K, id: V, i: int)
    requires
        0 <= i < index.len(),
        index[i].0 == key,
        forall|j: int| 0 <= j < i ==> index[j].0 != key,
    ensures
        file_under(index, key, id) == index.update(i, (key, index[i].1.push(id))),
    decreases i,
{
    if i > 0 {
        lemma_file_under_at(index.skip(1), key, id, i - 1);
        assert(file_under(index, key, id) =~= index.update(i, (key, index[i].1.push(id))));
    }
}

proof fn lemma_file_under_end<K, V>(index: Seq<(K, Seq<V>)>, key: K, id: V)
    requires
        forall|j: int| 0 <= j < index.len() ==> index[j].0 != key,
    ensures
        file_under(index, key, id) == index.push((key, seq![id])),
    decreases index.len(),
{
    if index.len() > 0 {
        lemma_file_under_end(index.skip(1), key, id);
        assert(file_under(index, key, id) =~= index.push((key, seq![id])));
    }
}


/// The template matches a search: the text, in lower case, occurs in its
/// name, description, id or author, or in one of its tags or categories,
/// each in lower case.
pub open spec fn search_match(t: ConfigTemplate, lq: Seq<char>) -> bool {
    ||| contains_text(lowercase(t.name@), lq)
    ||| contains_text(lowercase(t.description@), lq)
    ||| contains_text(lowercase(t.template_id@), lq)
    ||| contains_text(lowercase(t.author@), lq)
    ||| exists|i: int| 0 <= i < t.tags@.len() && contains_text(lowercase(#[trigger] t.tags@[i]@), lq)
    ||| exists|i: int| 0 <= i < t.categories@.len() && contains_text(lowercase(#[trigger] t.categories@[i]@), lq)
}

/// The published templates that match a search, in order.
pub open spec fn search_hits(ts: Seq<ConfigTemplate>, lq: Seq<char>) -> Seq<ConfigTemplate>
    decreases ts.len(),
{
    if ts.len() == 0 {
        Seq::empty()
    } else if ts.last().is_published && search_match(ts.last(), lq) {
        search_hits(ts.drop_last(), lq).push(ts.last())
    } else {
        search_hits(ts.drop_last(), lq)
    }
}

proof fn lemma_hit_found(ts: Seq<ConfigTemplate>, lq: Seq<char>, j: int)
    requires
        0 <= j < ts.len(),
        ts[j].is_published,
        search_match(ts[j], lq),
    ensures
        search_hits(ts, lq).contains(ts[j]),
    decreases ts.len(),
{
    if j == ts.len() - 1 {
        assert(search_hits(ts, lq).last() == ts[j]);
    } else {
        assert(ts.drop_last()[j] == ts[j]);
        lemma_hit_found(ts.drop_last(), lq, j);
        let k = choose|k: int| 0 <= k < search_hits(ts.drop_last(), lq).len() && search_hits(ts.drop_last(), lq)[k] == ts[j];
        if ts.last().is_published && search_match(ts.last(), lq) {
            assert(search_hits(ts, lq)[k] == ts[j]);
        }
    }
}

/// A search finds every published template whose name, description, id or
/// author, or one of whose tags or categories, contains the query, each
/// compared in lower case (`lq` is the lowered query).
pub proof fn law_search_finds_matching_fields(ts: Seq<ConfigTemplate>, lq: Seq<char>, j: int, k: int)
    requires
        0 <= j < ts.len(),
        ts[j].is_published,
        contains_text(lowercase(ts[j].name@), lq) || contains_text(lowercase(ts[j].description@), lq)
            || contains_text(lowercase(ts[j].template_id@), lq) || contains_text(lowercase(ts[j].author@), lq)
            || (0 <= k < ts[j].tags@.len() && contains_text(lowercase(ts[j].tags@[k]@), lq))
            || (0 <= k < ts[j].categories@.len() && contains_text(lowercase(ts[j].categories@[k]@), lq)),
    ensures
        search_hits(ts, lq).contains(ts[j]),
{
    lemma_hit_found(ts, lq, j);
}

/// Only published templates are found, and each found template has its
/// name, description, id or author, or one of its tags or categories,
/// containing the query, each compared in lower case.
pub proof fn law_search_finds_only_matches(ts: Seq<ConfigTemplate>, lq: Seq<char>, i: int)
    requires
        0 <= i < search_hits(ts, lq).len(),
    ensures
        ({
            let t = search_hits(ts, lq)[i];
            &&& t.is_published
            &&& contains_text(lowercase(t.name@), lq) || contains_text(lowercase(t.description@), lq)
                || contains_text(lowercase(t.template_id@), lq) || contains_text(lowercase(t.author@), lq)
                || (exists|k: int| 0 <= k < t.tags@.len() && contains_text(lowercase(#[trigger] t.tags@[k]@), lq))
                || (exists|k: int| 0 <= k < t.categories@.len() && contains_text(lowercase(#[trigger] t.categories@[k]@), lq))
        }),
    decreases ts.len(),
{
    if ts.len() > 0 {
        let r = search_hits(ts.drop_last(), lq);
        if i < r.len() {
            law_search_finds_only_matches(ts.drop_last(), lq, i);
        }
    }
}

fn any_contains(list: &Vec<String>, lq: &str) -> (r: bool)
    ensures
        r == exists|i: int| 0 <= i < list@.len() && contains_text(lowercase(#[trigger] list@[i]@), lq@),
{
    let mut i: usize = 0;
    while i < list.len()
        invariant
            i <= list@.len(),
            forall|k: int| 0 <= k < i ==> !contains_text(lowercase(#[trigger] list@[k]@), lq@),
        decreases list@.len() - i,
    {
        let low = to_lowercase(list[i].as_str());
        if contains(low.as_str(), lq) {
            return true;
        }
        i = i + 1;
    }
    false
}

fn template_matches(t: &ConfigTemplate, lq: &str) -> (r: bool)
    ensures
        r == search_match(*t, lq@),
{
    let a = to_lowercase(t.name.as_str());
    if contains(a.as_str(), lq) {
        return true;
    }
    let b = to_lowercase(t.description.as_str());
    if contains(b.as_str(), lq) {
        return true;
    }
    let c = to_lowercase(t.template_id.as_str());
    if contains(c.as_str(), lq) {
        return true;
    }
    let d = to_lowercase(t.author.as_str());
    if contains(d.as_str(), lq) {
        return true;
    }
    any_contains(&t.tags, lq) || any_contains(&t.categories, lq)
}

/// The entry filed under a text key, none when there is none.
fn filed_entry<'a>(index: &'a Vec<(String, Vec<String>)>, key: &str) -> (r: Option<&'a Vec<String>>)
    ensures
        match r {
            Some(ids) => texts(ids@) == filed(index@.map_values(|e: (String, Vec<String>)| (e.0@, texts(e.1@))), key@),
            None => filed(index@.map_values(|e: (String, Vec<String>)| (e.0@, texts(e.1@))), key@).len() == 0,
        },
{
    let ghost m = index@.map_values(|e: (String, Vec<String>)| (e.0@, texts(e.1@)));
    assert(m.skip(0) =~= m);
    let mut i: usize = 0;
    while i < index.len()
        invariant
            i <= index@.len(),
            m == index@.map_values(|e: (String, Vec<String>)| (e.0@, texts(e.1@))),
            filed(m, key@) == filed(m.skip(i as int), key@),
        decreases index@.len() - i,
    {
        proof {
            lemma_filed_step(m, key@, i as int);
        }
        if str_eq(index[i].0.as_str(), key) {
            return Some(&index[i].1);
        }
        i = i + 1;
    }
    assert(m.skip(i as int) =~= Seq::<(Seq<char>, Seq<Seq<char>>)>::empty());
    None
}

impl ConfigTemplateLibrary {
    /// The published templates, in the order they were added.
    pub fn list_templates(&self) -> (r: Vec<&ConfigTemplate>)
        ensures
            r@.len() == published(self@.templates).len(),
            forall|i: int| 0 <= i < r@.len() ==> *#[trigger] r@[i] == published(self@.templates)[i],
    {
        let ghost ts = self@.templates;
        let mut r: Vec<&ConfigTemplate> = Vec::new();
        let mut i: usize = 0;
        while i < self.templates.len()
            invariant
                i <= ts.len(),
                ts == self@.templates,
                r@.len() == published(ts.subrange(0, i as int)).len(),
                forall|k: int| 0 <= k < r@.len() ==> *#[trigger] r@[k] == published(ts.subrange(0, i as int))[k],
            decreases ts.len() - i,
        {
            assert(ts.subrange(0, i as int + 1).drop_last() =~= ts.subrange(0, i as int));
            if self.templates[i].is_published {
                r.push(&self.templates[i]);
            }
            i = i + 1;
        }
        assert(ts.subrange(0, i as int) =~= ts);
        r
    }

    fn published_of(&self, ids: &Vec<String>) -> (r: Vec<&ConfigTemplate>)
        requires
            self.wf(),
        ensures
            r@.len() == published_with_ids(self@.templates, texts(ids@)).len(),
            forall|i: int| 0 <= i < r@.len() ==> *#[trigger] r@[i] == published_with_ids(self@.templates, texts(ids@))[i],
    {
        let ghost ts = self@.templates;
        let ghost tids = texts(ids@);
        let mut r: Vec<&ConfigTemplate> = Vec::new();
        let mut i: usize = 0;
        while i < ids.len()
            invariant
                self.wf(),
                i <= ids@.len(),
                ts == self@.templates,
                tids == texts(ids@),
                r@.len() == published_with_ids(ts, tids.subrange(0, i as int)).len(),
                forall|k: int| 0 <= k < r@.len() ==> *#[trigger] r@[k] == published_with_ids(ts, tids.subrange(0, i as int))[k],
            decreases ids@.len() - i,
        {
            assert(tids.subrange(0, i as int + 1).drop_last() =~= tids.subrange(0, i as int));
            assert(tids.subrange(0, i as int + 1).last() == ids@[i as int]@);
            match self.find_template(ids[i].as_str()) {
                Some(p) => {
                    if self.templates[p].is_published {
                        r.push(&self.templates[p]);
                    }
                },
                None => {},
            }
            i = i + 1;
        }
        assert(tids.subrange(0, i as int) =~= tids);
        r
    }

    /// The published templates of a type, in the order they were added.
    pub fn get_templates_by_type(&self, template_type: &TemplateType) -> (r: Vec<&ConfigTemplate>)
        requires
            self.wf(),
        ensures
            r@.len() == published_with_ids(self@.templates, filed(self@.type_index, template_type_key(*template_type))).len(),
            forall|i: int| 0 <= i < r@.len() ==> *#[trigger] r@[i]
                == published_with_ids(self@.templates, filed(self@.type_index, template_type_key(*template_type)))[i],
    {
        let ghost m = self@.type_index;
        assert(m.skip(0) =~= m);
        let mut i: usize = 0;
        while i < self.type_index.len()
            invariant
                self.wf(),
                i <= self.type_index@.len(),
                m == self@.type_index,
                filed(m, template_type_key(*template_type)) == filed(m.skip(i as int), template_type_key(*template_type)),
            decreases self.type_index@.len() - i,
        {
            proof {
                lemma_filed_step(m, template_type_key(*template_type), i as int);
            }
            if self.type_index[i].0.same(template_type) {
                return self.published_of(&self.type_index[i].1);
            }
            i = i + 1;
        }
        assert(m.skip(i as int) =~= Seq::<((int, Seq<char>), Seq<Seq<char>>)>::empty());
        let r: Vec<&ConfigTemplate> = Vec::new();
        r
    }

    fn published_under(&self, index: &Vec<(String, Vec<String>)>, key: &str) -> (r: Vec<&ConfigTemplate>)
        requires
            self.wf(),
        ensures
            r@.len() == published_with_ids(self@.templates, filed(index@.map_values(|e: (String, Vec<String>)| (e.0@, texts(e.1@))), key@)).len(),
            forall|i: int| 0 <= i < r@.len() ==> *#[trigger] r@[i]
                == published_with_ids(self@.templates, filed(index@.map_values(|e: (String, Vec<String>)| (e.0@, texts(e.1@))), key@))[i],
    {
        match filed_entry(index, key) {
            Some(ids) => self.published_of(ids),
            None => {
                let r: Vec<&ConfigTemplate> = Vec::new();
                proof {
                    let ids = filed(index@.map_values(|e: (String, Vec<String>)| (e.0@, texts(e.1@))), key@);
                    assert(ids =~= Seq::<Seq<char>>::empty());
                }
                r
            },
        }
    }

    /// The published templates with a tag, in the order they were tagged.
    pub fn get_templates_by_tag(&self, tag: &str) -> (r: Vec<&ConfigTemplate>)
        requires
            self.wf(),
        ensures
            r@.len() == published_with_ids(self@.templates, filed(self@.tag_index, tag@)).len(),
            forall|i: int| 0 <= i < r@.len() ==> *#[trigger] r@[i] == published_with_ids(self@.templates, filed(self@.tag_index, tag@))[i],
    {
        self.published_under(&self.tag_index, tag)
    }

    /// The published templates in a category, in the order they were filed.
    pub fn get_templates_by_category(&self, category: &str) -> (r: Vec<&ConfigTemplate>)
        requires
            self.wf(),
        ensures
            r@.len() == published_with_ids(self@.templates, filed(self@.category_index, category@)).len(),
            forall|i: int| 0 <= i < r@.len() ==> *#[trigger] r@[i]
                == published_with_ids(self@.templates, filed(self@.category_index, category@))[i],
    {
        self.published_under(&self.category_index, category)
    }

    /// The published templates of an author, in the order they were added.
    pub fn get_templates_by_author(&self, author: &str) -> (r: Vec<&ConfigTemplate>)
        requires
            self.wf(),
        ensures
            r@.len() == published_with_ids(self@.templates, filed(self@.author_index, author@)).len(),
            forall|i: int| 0 <= i < r@.len() ==> *#[trigger] r@[i]
                == published_with_ids(self@.templates, filed(self@.author_index, author@))[i],
    {
        self.published_under(&self.author_index, author)
    }

    /// The published templates matching a search, in the order they were
    /// added: the query, in lower case, occurs in the lower-case name,
    /// description, id, author, or one of the tags or categories.
    pub fn search_templates(&self, query: &str) -> (r: Vec<&ConfigTemplate>)
        ensures
            r@.len() == search_hits(self@.templates, lowercase(query@)).len(),
            forall|i: int| 0 <= i < r@.len() ==> *#[trigger] r@[i] == search_hits(self@.templates, lowercase(query@))[i],
    {
        let lq = to_lowercase(query);
        let ghost ts = self@.templates;
        let mut r: Vec<&ConfigTemplate> = Vec::new();
        let mut i: usize = 0;
        while i < self.templates.len()
            invariant
                i <= ts.len(),
                ts == self@.templates,
                lq@ == lowercase(query@),
                r@.len() == search_hits(ts.subrange(0, i as int), lq@).len(),
                forall|k: int| 0 <= k < r@.len() ==> *#[trigger] r@[k] == search_hits(ts.subrange(0, i as int), lq@)[k],
            decreases ts.len() - i,
        {
            assert(ts.subrange(0, i as int + 1).drop_last() =~= ts.subrange(0, i as int));
            if self.templates[i].is_published && template_matches(&self.templates[i], lq.as_str()) {
                r.push(&self.templates[i]);
            }
            i = i + 1;
        }
        assert(ts.subrange(0, i as int) =~= ts);
        r
    }

    /// How many templates there are.
    pub fn template_count(&self) -> (n: usize)
        ensures
            n == self@.templates.len(),
    {
        self.templates.len()
    }

    /// How many templates are published.
    pub fn published_template_count(&self) -> (n: usize)
        ensures
            n == published(self@.templates).len(),
    {
        self.list_templates().len()
    }

    /// Counts a download of a template; nothing changes for an unknown id.
    pub fn record_download(&mut self, template_id: &str)
        requires
            old(self).wf(),
            match template_pos(old(self)@.templates, template_id@) {
                Some(p) => old(self)@.templates[p].download_count < u64::MAX,
                None => true,
            },
        ensures
            final(self).wf(),
            match template_pos(old(self)@.templates, template_id@) {
                Some(p) => final(self)@.templates.len() == old(self)@.templates.len()
                    && final(self)@.templates[p] == (ConfigTemplate {
                        download_count: (old(self)@.templates[p].download_count + 1) as u64,
                        ..old(self)@.templates[p]
                    })
                    && forall|q: int| 0 <= q < old(self)@.templates.len() && q != p ==> final(self)@.templates[q] == old(self)@.templates[q],
                None => final(self)@ == old(self)@,
            } && final(self)@.ratings == old(self)@.ratings && final(self)@.type_index == old(self)@.type_index
                && final(self)@.tag_index == old(self)@.tag_index && final(self)@.category_index == old(self)@.category_index
                && final(self)@.author_index == old(self)@.author_index,
    {
        let ghost old_m = self@;
        match self.find_template(template_id) {
            Some(p) => {
                let mut t = self.templates.remove(p);
                t.download_count = t.download_count + 1;
                self.templates.insert(p, t);
                proof {
                    assert forall|a: int, b: int| 0 <= a < b < self@.templates.len() implies #[trigger] self@.templates[a].template_id@
                        != #[trigger] self@.templates[b].template_id@ by {
                        assert(old_m.templates[a].template_id@ != old_m.templates[b].template_id@);
                    }
                }
            },
            None => {},
        }
    }
}


/// The total of the scores of ratings.
pub open spec fn rating_sum(s: Seq<TemplateRating>) -> int
    decreases s.len(),
{
    if s.len() == 0 {
        0
    } else {
        rating_sum(s.drop_last()) + s.last().rating
    }
}

/// The total of the scores of ratings.
fn sum_ratings(rs: &Vec<TemplateRating>) -> (t: u64)
    requires
        rs@.len() <= u32::MAX,
    ensures
        t == rating_sum(rs@),
{
    let mut t: u64 = 0;
    let mut i: usize = 0;
    while i < rs.len()
        invariant
            i <= rs@.len(),
            rs@.len() <= u32::MAX,
            t == rating_sum(rs@.subrange(0, i as int)),
            t <= 255 * i,
        decreases rs@.len() - i,
    {
        assert(rs@.subrange(0, i as int + 1).drop_last() =~= rs@.subrange(0, i as int));
        t = t + rs[i].rating as u64;
        i = i + 1;
    }
    assert(rs@.subrange(0, i as int) =~= rs@);
    t
}

/// Adds a rating at the end of the entry of a key, made if there is none;
/// gives the total and the count of the key's ratings after it.
fn add_rating(index: &mut Vec<(String, Vec<TemplateRating>)>, key: &str, r: TemplateRating) -> (tc: (u64, usize))
    requires
        filed(old(index)@.map_values(|e: (String, Vec<TemplateRating>)| (e.0@, e.1@)), key@).len() < u32::MAX,
    ensures
        final(index)@.map_values(|e: (String, Vec<TemplateRating>)| (e.0@, e.1@))
            == file_under(old(index)@.map_values(|e: (String, Vec<TemplateRating>)| (e.0@, e.1@)), key@, r),
        tc.0 == rating_sum(filed(final(index)@.map_values(|e: (String, Vec<TemplateRating>)| (e.0@, e.1@)), key@)),
        tc.1 == filed(final(index)@.map_values(|e: (String, Vec<TemplateRating>)| (e.0@, e.1@)), key@).len(),
{
    let ghost m0 = index@.map_values(|e: (String, Vec<TemplateRating>)| (e.0@, e.1@));
    let ghost rr = r;
    proof {
        lemma_filed_file_under(m0, key@, r, key@);
    }
    assert(m0.skip(0) =~= m0);
    let mut i: usize = 0;
    while i < index.len()
        invariant
            i <= index@.len(),
            index@ == old(index)@,
            rr == r,
            m0 == index@.map_values(|e: (String, Vec<TemplateRating>)| (e.0@, e.1@)),
            filed(m0, key@).len() < u32::MAX,
            filed(file_under(m0, key@, r), key@) == filed(m0, key@).push(r),
            filed(m0, key@) == filed(m0.skip(i as int), key@),
            forall|j: int| 0 <= j < i ==> index@[j].0@ != key@,
        decreases index@.len() - i,
    {
        proof {
            lemma_filed_step(m0, key@, i as int);
        }
        if str_eq(index[i].0.as_str(), key) {
            let (k, mut rs) = index.remove(i);
            proof {
                assert(m0[i as int] == (k@, rs@));
            }
            rs.push(r);
            let t = sum_ratings(&rs);
            let n = rs.len();
            index.insert(i, (k, rs));
            proof {
                lemma_file_under_at(m0, key@, rr, i as int);
                assert(index@.map_values(|e: (String, Vec<TemplateRating>)| (e.0@, e.1@))
                    =~= m0.update(i as int, (key@, m0[i as int].1.push(rr))));
            }
            return (t, n);
        }
        i = i + 1;
    }
    assert(m0.skip(i as int) =~= Seq::<(Seq<char>, Seq<TemplateRating>)>::empty());
    let rs = vec![r];
    assert(rs@ =~= seq![rr]);
    assert(filed(m0, key@).push(rr) =~= seq![rr]);
    let t = sum_ratings(&rs);
    index.push((key.to_string(), rs));
    proof {
        lemma_file_under_end(m0, key@, rr);
        assert(index@.map_values(|e: (String, Vec<TemplateRating>)| (e.0@, e.1@)) =~= m0.push((key@, seq![rr])));
    }
    (t, 1)
}

/// Rating a template adds the rating last to that template's ratings and
/// leaves every other template's ratings as they were; the total the
/// template then holds is the old total plus the new score over one more
/// rating, so its average is the arithmetic mean of all its ratings.
pub proof fn law_rating_added(
    ratings: Seq<(Seq<char>, Seq<TemplateRating>)>,
    template_id: Seq<char>,
    tr: TemplateRating,
    other: Seq<char>,
)
    ensures
        filed(file_under(ratings, template_id, tr), template_id) == filed(ratings, template_id).push(tr),
        other != template_id ==> filed(file_under(ratings, template_id, tr), other) == filed(ratings, other),
        rating_sum(filed(file_under(ratings, template_id, tr), template_id)) == rating_sum(filed(ratings, template_id))
            + tr.rating,
        filed(file_under(ratings, template_id, tr), template_id).len() == filed(ratings, template_id).len() + 1,
{
    lemma_filed_file_under(ratings, template_id, tr, other);
    assert(filed(ratings, template_id).push(tr).drop_last() =~= filed(ratings, template_id));
}

impl ConfigTemplateLibrary {
    /// Rates a template from 1 to 5: the rating is added to the ratings of
    /// the template id, and the template, if there is one, takes their
    /// total and count.
    pub fn rate_template(&mut self, template_id: &str, user_id: String, rating: u8, comment: Option<String>) -> (r: Result<(), AetherisError>)
        requires
            old(self).wf(),
            filed(old(self)@.ratings, template_id@).len() < u32::MAX,
        ensures
            final(self).wf(),
            !(1 <= rating <= 5) ==> (r matches Err(AetherisError::Validation(m))
                && m@ == "Rating must be between 1 and 5"@ && final(self)@ == old(self)@),
            1 <= rating <= 5 ==> r is Ok
                && (exists|tr: TemplateRating| tr.template_id@ == template_id@ && tr.user_id@ == user_id@
                    && tr.rating == rating && tr.comment == comment
                    && #[trigger] file_under(old(self)@.ratings, template_id@, tr) == final(self)@.ratings)
                && final(self)@.templates.len() == old(self)@.templates.len()
                && match template_pos(old(self)@.templates, template_id@) {
                    Some(p) => final(self)@.templates[p] == (ConfigTemplate {
                            rating_total: rating_sum(filed(final(self)@.ratings, template_id@)) as u64,
                            rating_count: filed(final(self)@.ratings, template_id@).len() as u32,
                            ..old(self)@.templates[p]
                        })
                        && forall|q: int| 0 <= q < old(self)@.templates.len() && q != p
                            ==> final(self)@.templates[q] == old(self)@.templates[q],
                    None => final(self)@.templates == old(self)@.templates,
                }
                && final(self)@.type_index == old(self)@.type_index
                && final(self)@.tag_index == old(self)@.tag_index
                && final(self)@.category_index == old(self)@.category_index
                && final(self)@.author_index == old(self)@.author_index,
    {
        if rating < 1 || rating > 5 {
            return Err(AetherisError::Validation(String::from_str("Rating must be between 1 and 5")));
        }
        let ghost old_m = self@;
        let tr = TemplateRating {
            rating_id: new_uuid(),
            template_id: template_id.to_string(),
            user_id,
            rating,
            comment,
            created_at: now_millis(),
        };
        let ghost g = tr;
        let (total, count) = add_rating(&mut self.ratings, template_id, tr);
        assert(file_under(old_m.ratings, template_id@, g) == self@.ratings);
        match self.find_template(template_id) {
            Some(p) => {
                let mut t = self.templates.remove(p);
                t.rating_total = total;
                t.rating_count = count as u32;
                self.templates.insert(p, t);
                proof {
                    assert forall|a: int, b: int| 0 <= a < b < self@.templates.len() implies #[trigger] self@.templates[a].template_id@
                        != #[trigger] self@.templates[b].template_id@ by {
                        assert(old_m.templates[a].template_id@ != old_m.templates[b].template_id@);
                    }
                }
            },
            None => {},
        }
        Ok(())
    }

    /// The ratings of a template, in the order they were given.
    pub fn get_template_ratings(&self, template_id: &str) -> (r: Vec<&TemplateRating>)
        ensures
            r@.len() == filed(self@.ratings, template_id@).len(),
            forall|i: int| 0 <= i < r@.len() ==> *#[trigger] r@[i] == filed(self@.ratings, template_id@)[i],
    {
        let ghost m = self@.ratings;
        assert(m.skip(0) =~= m);
        let mut i: usize = 0;
        while i < self.ratings.len()
            invariant
                i <= self.ratings@.len(),
                m == self@.ratings,
                filed(m, template_id@) == filed(m.skip(i as int), template_id@),
            decreases self.ratings@.len() - i,
        {
            proof {
                lemma_filed_step(m, template_id@, i as int);
            }
            if str_eq(self.ratings[i].0.as_str(), template_id) {
                let mut r: Vec<&TemplateRating> = Vec::new();
                let mut k: usize = 0;
                while k < self.ratings[i].1.len()
                    invariant
                        i < self.ratings@.len(),
                        k <= self.ratings@[i as int].1@.len(),
                        r@.len() == k,
                        forall|j: int| 0 <= j < k ==> *#[trigger] r@[j] == self.ratings@[i as int].1@[j],
                    decreases self.ratings@[i as int].1@.len() - k,
                {
                    r.push(&self.ratings[i].1[k]);
                    k = k + 1;
                }
                return r;
            }
            i = i + 1;
        }
        assert(m.skip(i as int) =~= Seq::<(Seq<char>, Seq<TemplateRating>)>::empty());
        Vec::new()
    }
}


/// The numerator of a template's average rating.
pub open spec fn rating_num(t: ConfigTemplate) -> int {
    t.rating_total as int
}

/// The denominator of a template's average rating.
pub open spec fn rating_den(t: ConfigTemplate) -> int {
    if t.rating_count == 0 {
        1
    } else {
        t.rating_count as int
    }
}

/// The first template has the higher average rating.
pub open spec fn rated_above(a: ConfigTemplate, b: ConfigTemplate) -> bool {
    rating_num(a) * rating_den(b) > rating_num(b) * rating_den(a)
}

/// One template ranks before another: among the most downloaded, by
/// downloads and then by average rating; among the top rated, by average
/// rating and then by the number of ratings.
pub open spec fn ranks_before(by_downloads: bool, a: ConfigTemplate, b: ConfigTemplate) -> bool {
    if by_downloads {
        a.download_count > b.download_count || (a.download_count == b.download_count && rated_above(a, b))
    } else {
        rated_above(a, b) || (!rated_above(a, b) && !rated_above(b, a) && a.rating_count > b.rating_count)
    }
}

/// In a stable ranking of templates, the one at position i comes before the
/// one at position j: it ranks before it, or they rank alike and i is
/// earlier.
pub open spec fn stable_before(by_downloads: bool, ts: Seq<ConfigTemplate>, i: int, j: int) -> bool {
    ranks_before(by_downloads, ts[i], ts[j]) || (!ranks_before(by_downloads, ts[j], ts[i]) && i < j)
}

/// a/b <= c/d <= e/f gives a/b <= e/f, for positive denominators.
proof fn lemma_fraction_le_trans(a: int, b: int, c: int, d: int, e: int, f: int)
    requires
        b > 0,
        d > 0,
        f > 0,
        a * d <= c * b,
        c * f <= e * d,
    ensures
        a * f <= e * b,
{
    assert(a * d * f <= c * b * f) by (nonlinear_arith)
        requires
            a * d <= c * b,
            f > 0,
    ;
    assert(c * f * b <= e * d * b) by (nonlinear_arith)
        requires
            c * f <= e * d,
            b > 0,
    ;
    assert(a * f * d <= e * b * d) by (nonlinear_arith)
        requires
            a * d * f <= c * b * f,
            c * f * b <= e * d * b,
    ;
    assert(a * f <= e * b) by (nonlinear_arith)
        requires
            a * f * d <= e * b * d,
            d > 0,
    ;
}

/// Ranking by average rating is a strict weak order: when x is above y,
/// any z is below x or above y.
proof fn lemma_rated_above(x: ConfigTemplate, y: ConfigTemplate, z: ConfigTemplate)
    ensures
        rated_above(x, y) ==> !rated_above(y, x),
        rated_above(x, y) ==> rated_above(x, z) || rated_above(z, y),
{
    if rated_above(x, y) && !rated_above(x, z) && !rated_above(z, y) {
        lemma_fraction_le_trans(rating_num(x), rating_den(x), rating_num(z), rating_den(z), rating_num(y), rating_den(y));
    }
}

/// Each ranking is a strict weak order: asymmetric, and when x ranks before
/// y, any z ranks after x or before y.
proof fn lemma_ranks_before(by_downloads: bool, x: ConfigTemplate, y: ConfigTemplate, z: ConfigTemplate)
    ensures
        ranks_before(by_downloads, x, y) ==> !ranks_before(by_downloads, y, x),
        ranks_before(by_downloads, x, y) ==> ranks_before(by_downloads, x, z) || ranks_before(by_downloads, z, y),
{
    lemma_rated_above(x, y, z);
    lemma_rated_above(y, x, z);
    lemma_rated_above(x, z, y);
    lemma_rated_above(z, x, y);
    lemma_rated_above(y, z, x);
    lemma_rated_above(z, y, x);
}

/// Whether the first template has the higher average rating.
fn rated_above_exec(a: &ConfigTemplate, b: &ConfigTemplate) -> (r: bool)
    ensures
        r == rated_above(*a, *b),
{
    let da: u128 = if a.rating_count == 0 { 1 } else { a.rating_count as u128 };
    let db: u128 = if b.rating_count == 0 { 1 } else { b.rating_count as u128 };
    let ta: u128 = a.rating_total as u128;
    let tb: u128 = b.rating_total as u128;
    assert(ta * db <= 0xffff_ffff_ffff_ffffu128 * 0xffff_ffffu128) by (nonlinear_arith)
        requires
            ta <= 0xffff_ffff_ffff_ffffu128,
            db <= 0xffff_ffffu128,
    ;
    assert(tb * da <= 0xffff_ffff_ffff_ffffu128 * 0xffff_ffffu128) by (nonlinear_arith)
        requires
            tb <= 0xffff_ffff_ffff_ffffu128,
            da <= 0xffff_ffffu128,
    ;
    ta * db > tb * da
}

/// Whether one template ranks before another.
fn ranks_before_exec(by_downloads: bool, a: &ConfigTemplate, b: &ConfigTemplate) -> (r: bool)
    ensures
        r == ranks_before(by_downloads, *a, *b),
{
    if by_downloads {
        a.download_count > b.download_count || (a.download_count == b.download_count && rated_above_exec(a, b))
    } else {
        let ab = rated_above_exec(a, b);
        let ba = rated_above_exec(b, a);
        ab || (!ab && !ba && a.rating_count > b.rating_count)
    }
}

/// A sequence of positions holds the given one.
pub open spec fn holds_position(order: Seq<usize>, j: int) -> bool {
    exists|m: int| 0 <= m < order.len() && #[trigger] order[m] == j
}

/// The positions of templates in a stable ranking: each position once, in
/// ranking order.
fn rank_order(by_downloads: bool, ts: &Vec<&ConfigTemplate>, Ghost(s): Ghost<Seq<ConfigTemplate>>) -> (order: Vec<usize>)
    requires
        s.len() == ts@.len(),
        forall|i: int| 0 <= i < s.len() ==> *#[trigger] ts@[i] == s[i],
    ensures
        order@.len() == s.len(),
        forall|m: int| 0 <= m < order@.len() ==> #[trigger] order@[m] < s.len(),
        forall|j: int| 0 <= j < s.len() ==> #[trigger] holds_position(order@, j),
        forall|a: int, b: int| 0 <= a < b < order@.len() ==> stable_before(by_downloads, s, #[trigger] order@[a] as int, #[trigger] order@[b] as int),
{
    let mut order: Vec<usize> = Vec::new();
    let mut i: usize = 0;
    while i < ts.len()
        invariant
            i <= ts@.len(),
            s.len() == ts@.len(),
            forall|q: int| 0 <= q < s.len() ==> *#[trigger] ts@[q] == s[q],
            order@.len() == i,
            forall|m: int| 0 <= m < order@.len() ==> #[trigger] order@[m] < i,
            forall|j: int| 0 <= j < i ==> #[trigger] holds_position(order@, j),
            forall|a: int, b: int| 0 <= a < b < order@.len() ==> stable_before(by_downloads, s, #[trigger] order@[a] as int, #[trigger] order@[b] as int),
        decreases ts@.len() - i,
    {
        let mut k: usize = 0;
        while k < order.len()
            invariant
                i < ts@.len(),
                s.len() == ts@.len(),
                forall|q: int| 0 <= q < s.len() ==> *#[trigger] ts@[q] == s[q],
                k <= order@.len(),
                forall|m: int| 0 <= m < order@.len() ==> #[trigger] order@[m] < i,
                forall|m: int| 0 <= m < k ==> !ranks_before(by_downloads, s[i as int], s[#[trigger] order@[m] as int]),
            ensures
                k <= order@.len(),
                forall|m: int| 0 <= m < k ==> !ranks_before(by_downloads, s[i as int], s[#[trigger] order@[m] as int]),
                k < order@.len() ==> ranks_before(by_downloads, s[i as int], s[order@[k as int] as int]),
            decreases order@.len() - k,
        {
            if ranks_before_exec(by_downloads, ts[i], ts[order[k]]) {
                break;
            }
            k = k + 1;
        }
        let ghost old_order = order@;
        order.insert(k, i);
        proof {
            old_order.insert_ensures(k as int, i);
            assert(order@ == old_order.insert(k as int, i));
            assert forall|m: int| 0 <= m < order@.len() implies #[trigger] order@[m] < i + 1 by {
                if m > k {
                    assert(order@[m] == old_order[m - 1]);
                }
            }
            assert forall|j: int| 0 <= j < i + 1 implies #[trigger] holds_position(order@, j) by {
                if j == i {
                    assert(order@[k as int] == j);
                } else {
                    assert(holds_position(old_order, j));
                    let m0 = choose|m: int| 0 <= m < old_order.len() && #[trigger] old_order[m] == j;
                    if m0 < k {
                        assert(order@[m0] == j);
                    } else {
                        assert(order@[m0 + 1] == j);
                    }
                }
            }
            assert forall|a: int, b: int| 0 <= a < b < order@.len() implies stable_before(by_downloads, s, #[trigger] order@[a] as int, #[trigger] order@[b] as int) by {
                if b < k {
                    assert(stable_before(by_downloads, s, old_order[a] as int, old_order[b] as int));
                } else if b == k {
                    assert(!ranks_before(by_downloads, s[i as int], s[old_order[a] as int]));
                    assert(old_order[a] < i);
                } else if a < k {
                    assert(stable_before(by_downloads, s, old_order[a] as int, old_order[b - 1] as int));
                } else if a == k {
                    let ok = old_order[k as int] as int;
                    let om = old_order[b - 1] as int;
                    assert(ranks_before(by_downloads, s[i as int], s[ok]));
                    if b - 1 > k {
                        assert(stable_before(by_downloads, s, ok, om));
                        lemma_ranks_before(by_downloads, s[ok], s[om], s[i as int]);
                        lemma_ranks_before(by_downloads, s[i as int], s[ok], s[om]);
                    }
                    assert(ranks_before(by_downloads, s[i as int], s[om]));
                    lemma_ranks_before(by_downloads, s[i as int], s[om], s[om]);
                } else {
                    assert(stable_before(by_downloads, s, old_order[a - 1] as int, old_order[b - 1] as int));
                }
            }
        }
        i = i + 1;
    }
    order
}


/// r is the first `limit` of the templates ts in a stable ranking, taken
/// from the positions idx of ts: as many as there are up to the limit, in
/// ranking order, and every template left out ranks after all of them.
pub open spec fn top_ranked(by_downloads: bool, ts: Seq<ConfigTemplate>, limit: int, r: Seq<&ConfigTemplate>, idx: Seq<int>) -> bool {
    &&& r.len() == (if limit < ts.len() { limit } else { ts.len() as int })
    &&& idx.len() == r.len()
    &&& forall|k: int| 0 <= k < idx.len() ==> 0 <= #[trigger] idx[k] < ts.len() && *r[k] == ts[idx[k]]
    &&& forall|k: int, l: int| 0 <= k < l < idx.len() ==> stable_before(by_downloads, ts, #[trigger] idx[k], #[trigger] idx[l])
    &&& forall|i: int, k: int| 0 <= i < ts.len() && !idx.contains(i) && 0 <= k < idx.len()
        ==> #[trigger] stable_before(by_downloads, ts, idx[k], i)
}

impl ConfigTemplateLibrary {
    /// The first `limit` published templates in a stable ranking.
    fn ranked(&self, by_downloads: bool, limit: usize) -> (r: Vec<&ConfigTemplate>)
        ensures
            exists|idx: Seq<int>| top_ranked(by_downloads, published(self@.templates), limit as int, r@, idx),
    {
        let pubs = self.list_templates();
        let ghost s = published(self@.templates);
        let order = rank_order(by_downloads, &pubs, Ghost(s));
        let n: usize = if limit < order.len() { limit } else { order.len() };
        let mut r: Vec<&ConfigTemplate> = Vec::new();
        let mut k: usize = 0;
        while k < n
            invariant
                n <= order@.len(),
                order@.len() == s.len(),
                pubs@.len() == s.len(),
                forall|q: int| 0 <= q < s.len() ==> *#[trigger] pubs@[q] == s[q],
                forall|m: int| 0 <= m < order@.len() ==> #[trigger] order@[m] < s.len(),
                k <= n,
                r@.len() == k,
                forall|j: int| 0 <= j < k ==> *#[trigger] r@[j] == s[order@[j] as int],
            decreases n - k,
        {
            r.push(pubs[order[k]]);
            k = k + 1;
        }
        let ghost idx = Seq::new(n as nat, |j: int| order@[j] as int);
        proof {
            assert forall|i: int, k: int| 0 <= i < s.len() && !idx.contains(i) && 0 <= k < idx.len()
                implies #[trigger] stable_before(by_downloads, s, idx[k], i) by {
                assert(holds_position(order@, i));
                let m = choose|m: int| 0 <= m < order@.len() && #[trigger] order@[m] == i;
                if m < n {
                    assert(idx[m] == i);
                }
                assert(stable_before(by_downloads, s, order@[k] as int, order@[m] as int));
            }
            assert forall|k: int, l: int| 0 <= k < l < idx.len() implies stable_before(by_downloads, s, #[trigger] idx[k], #[trigger] idx[l]) by {
                assert(stable_before(by_downloads, s, order@[k] as int, order@[l] as int));
            }
            assert(top_ranked(by_downloads, s, limit as int, r@, idx));
        }
        r
    }

    /// The `limit` most downloaded published templates, ties broken by
    /// average rating and then by the order they were added.
    pub fn get_popular_templates(&self, limit: usize) -> (r: Vec<&ConfigTemplate>)
        ensures
            exists|idx: Seq<int>| top_ranked(true, published(self@.templates), limit as int, r@, idx),
    {
        self.ranked(true, limit)
    }

    /// The `limit` best rated published templates, ties broken by the
    /// number of ratings and then by the order they were added.
    pub fn get_top_rated_templates(&self, limit: usize) -> (r: Vec<&ConfigTemplate>)
        ensures
            exists|idx: Seq<int>| top_ranked(false, published(self@.templates), limit as int, r@, idx),
    {
        self.ranked(false, limit)
    }
}

/// A template registered under an id no template has is the one found
/// under that id afterwards, and ids stay distinct.
pub proof fn law_registered_template_is_found(ts: Seq<ConfigTemplate>, t: ConfigTemplate)
    requires
        distinct_template_ids(ts),
        template_pos(ts, t.template_id@) is None,
    ensures
        template_pos(ts.push(t), t.template_id@) == Some(ts.len() as int),
        distinct_template_ids(ts.push(t)),
{
    let s = ts.push(t);
    assert(s[ts.len() as int].template_id@ == t.template_id@);
    let p = choose|i: int| 0 <= i < s.len() && #[trigger] s[i].template_id@ == t.template_id@;
    if p < ts.len() {
        assert(ts[p].template_id@ == t.template_id@);
    }
    assert forall|a: int, b: int| 0 <= a < b < s.len() implies #[trigger] s[a].template_id@ != #[trigger] s[b].template_id@ by {
        if b == ts.len() {
            assert(ts[a].template_id@ != t.template_id@);
        } else {
            assert(ts[a].template_id@ != ts[b].template_id@);
        }
    }
}


/// An index after setting the value of a key: the key's first entry takes
/// it, or a new entry at the end when there is none.
pub open spec fn replace_entry<K, V>(index: Seq<(K, V)>, key: K, v: V) -> Seq<(K, V)>
    decreases index.len(),
{
    if index.len() == 0 {
        seq![(key, v)]
    } else if index[0].0 == key {
        index.update(0, (key, v))
    } else {
        seq![index[0]] + replace_entry(index.skip(1), key, v)
    }
}

proof fn lemma_replace_entry_at<K, V>(index: Seq<(K, V)>, key: K, v: V, i: int)
    requires
        0 <= i < index.len(),
        index[i].0 == key,
        forall|j: int| 0 <= j < i ==> index[j].0 != key,
    ensures
        replace_entry(index, key, v) == index.update(i, (key, v)),
    decreases i,
{
    if i > 0 {
        lemma_replace_entry_at(index.skip(1), key, v, i - 1);
        assert(replace_entry(index, key, v) =~= index.update(i, (key, v)));
    }
}

proof fn lemma_replace_entry_end<K, V>(index: Seq<(K, V)>, key: K, v: V)
    requires
        forall|j: int| 0 <= j < index.len() ==> index[j].0 != key,
    ensures
        replace_entry(index, key, v) == index.push((key, v)),
    decreases index.len(),
{
    if index.len() > 0 {
        lemma_replace_entry_end(index.skip(1), key, v);
        assert(replace_entry(index, key, v) =~= index.push((key, v)));
    }
}

/// The templates after putting one: it replaces the template with its id,
/// or else comes last.
pub open spec fn put_template(ts: Seq<ConfigTemplate>, t: ConfigTemplate) -> Seq<ConfigTemplate> {
    match template_pos(ts, t.template_id@) {
        Some(p) => ts.update(p, t),
        None => ts.push(t),
    }
}

fn replace_ids(index: &mut Vec<(String, Vec<String>)>, key: String, ids: Vec<String>)
    ensures
        final(index)@.map_values(|e: (String, Vec<String>)| (e.0@, texts(e.1@)))
            == replace_entry(old(index)@.map_values(|e: (String, Vec<String>)| (e.0@, texts(e.1@))), key@, texts(ids@)),
{
    let ghost m0 = index@.map_values(|e: (String, Vec<String>)| (e.0@, texts(e.1@)));
    let ghost v = texts(ids@);
    let ghost k = key@;
    let mut i: usize = 0;
    while i < index.len()
        invariant
            i <= index@.len(),
            index@ == old(index)@,
            k == key@,
            v == texts(ids@),
            m0 == index@.map_values(|e: (String, Vec<String>)| (e.0@, texts(e.1@))),
            forall|j: int| 0 <= j < i ==> index@[j].0@ != key@,
        decreases index@.len() - i,
    {
        if str_eq(index[i].0.as_str(), key.as_str()) {
            index.set(i, (key, ids));
            proof {
                lemma_replace_entry_at(m0, k, v, i as int);
                assert(index@.map_values(|e: (String, Vec<String>)| (e.0@, texts(e.1@))) =~= m0.update(i as int, (k, v)));
            }
            return;
        }
        i = i + 1;
    }
    index.push((key, ids));
    proof {
        lemma_replace_entry_end(m0, k, v);
        assert(index@.map_values(|e: (String, Vec<String>)| (e.0@, texts(e.1@))) =~= m0.push((k, v)));
    }
}

fn replace_type_ids(index: &mut Vec<(TemplateType, Vec<String>)>, key: TemplateType, ids: Vec<String>)
    ensures
        final(index)@.map_values(|e: (TemplateType, Vec<String>)| (template_type_key(e.0), texts(e.1@)))
            == replace_entry(old(index)@.map_values(|e: (TemplateType, Vec<String>)| (template_type_key(e.0), texts(e.1@))), template_type_key(key), texts(ids@)),
{
    let ghost m0 = index@.map_values(|e: (TemplateType, Vec<String>)| (template_type_key(e.0), texts(e.1@)));
    let ghost v = texts(ids@);
    let ghost k = template_type_key(key);
    let mut i: usize = 0;
    while i < index.len()
        invariant
            i <= index@.len(),
            index@ == old(index)@,
            k == template_type_key(key),
            v == texts(ids@),
            m0 == index@.map_values(|e: (TemplateType, Vec<String>)| (template_type_key(e.0), texts(e.1@))),
            forall|j: int| 0 <= j < i ==> template_type_key(index@[j].0) != k,
        decreases index@.len() - i,
    {
        if index[i].0.same(&key) {
            index.set(i, (key, ids));
            proof {
                lemma_replace_entry_at(m0, k, v, i as int);
                assert(index@.map_values(|e: (TemplateType, Vec<String>)| (template_type_key(e.0), texts(e.1@))) =~= m0.update(i as int, (k, v)));
            }
            return;
        }
        i = i + 1;
    }
    index.push((key, ids));
    proof {
        lemma_replace_entry_end(m0, k, v);
        assert(index@.map_values(|e: (TemplateType, Vec<String>)| (template_type_key(e.0), texts(e.1@))) =~= m0.push((k, v)));
    }
}

fn replace_ratings(index: &mut Vec<(String, Vec<TemplateRating>)>, key: String, ratings: Vec<TemplateRating>)
    ensures
        final(index)@.map_values(|e: (String, Vec<TemplateRating>)| (e.0@, e.1@))
            == replace_entry(old(index)@.map_values(|e: (String, Vec<TemplateRating>)| (e.0@, e.1@)), key@, ratings@),
{
    let ghost m0 = index@.map_values(|e: (String, Vec<TemplateRating>)| (e.0@, e.1@));
    let ghost v = ratings@;
    let ghost k = key@;
    let mut i: usize = 0;
    while i < index.len()
        invariant
            i <= index@.len(),
            index@ == old(index)@,
            k == key@,
            v == ratings@,
            m0 == index@.map_values(|e: (String, Vec<TemplateRating>)| (e.0@, e.1@)),
            forall|j: int| 0 <= j < i ==> index@[j].0@ != key@,
        decreases index@.len() - i,
    {
        if str_eq(index[i].0.as_str(), key.as_str()) {
            index.set(i, (key, ratings));
            proof {
                lemma_replace_entry_at(m0, k, v, i as int);
                assert(index@.map_values(|e: (String, Vec<TemplateRating>)| (e.0@, e.1@)) =~= m0.update(i as int, (k, v)));
            }
            return;
        }
        i = i + 1;
    }
    index.push((key, ratings));
    proof {
        lemma_replace_entry_end(m0, k, v);
        assert(index@.map_values(|e: (String, Vec<TemplateRating>)| (e.0@, e.1@)) =~= m0.push((k, v)));
    }
}

impl ConfigTemplateLibrary {
    /// Puts a template as it was stored: it replaces the template with its
    /// id, or else comes last; no index changes.
    pub fn insert_template(&mut self, template: ConfigTemplate)
        requires
            old(self).wf(),
        ensures
            final(self).wf(),
            final(self)@ == (LibraryModel { templates: put_template(old(self)@.templates, template), ..old(self)@ }),
    {
        let ghost before = self.templates@;
        let ghost t = template;
        match self.find_template(template.template_id.as_str()) {
            Some(i) => {
                self.templates.set(i, template);
                proof {
                    assert forall|a: int, b: int| 0 <= a < b < self@.templates.len() implies #[trigger] self@.templates[a].template_id@
                        != #[trigger] self@.templates[b].template_id@ by {
                        if a == i {
                            assert(before[i as int].template_id@ == t.template_id@);
                            assert(before[a].template_id@ != before[b].template_id@);
                        } else if b == i {
                            assert(before[i as int].template_id@ == t.template_id@);
                            assert(before[a].template_id@ != before[b].template_id@);
                        } else {
                            assert(before[a].template_id@ != before[b].template_id@);
                        }
                    }
                }
            },
            None => {
                self.templates.push(template);
                proof {
                    assert forall|a: int, b: int| 0 <= a < b < self@.templates.len() implies #[trigger] self@.templates[a].template_id@
                        != #[trigger] self@.templates[b].template_id@ by {
                        if b == before.len() {
                            assert(before[a].template_id@ != t.template_id@);
                        } else {
                            assert(before[a].template_id@ != before[b].template_id@);
                        }
                    }
                }
            },
        }
    }

    /// Sets the ratings kept under a template id.
    pub fn set_ratings(&mut self, template_id: String, ratings: Vec<TemplateRating>)
        ensures
            final(self).wf() == old(self).wf(),
            final(self)@ == (LibraryModel { ratings: replace_entry(old(self)@.ratings, template_id@, ratings@), ..old(self)@ }),
    {
        replace_ratings(&mut self.ratings, template_id, ratings);
    }

    /// Sets the ids filed under a type.
    pub fn set_type_index(&mut self, template_type: TemplateType, template_ids: Vec<String>)
        ensures
            final(self).wf() == old(self).wf(),
            final(self)@ == (LibraryModel {
                type_index: replace_entry(old(self)@.type_index, template_type_key(template_type), texts(template_ids@)),
                ..old(self)@
            }),
    {
        replace_type_ids(&mut self.type_index, template_type, template_ids);
    }

    /// Sets the ids filed under a tag.
    pub fn set_tag_index(&mut self, tag: String, template_ids: Vec<String>)
        ensures
            final(self).wf() == old(self).wf(),
            final(self)@ == (LibraryModel { tag_index: replace_entry(old(self)@.tag_index, tag@, texts(template_ids@)), ..old(self)@ }),
    {
        replace_ids(&mut self.tag_index, tag, template_ids);
    }

    /// Sets the ids filed under a category.
    pub fn set_category_index(&mut self, category: String, template_ids: Vec<String>)
        ensures
            final(self).wf() == old(self).wf(),
            final(self)@ == (LibraryModel {
                category_index: replace_entry(old(self)@.category_index, category@, texts(template_ids@)),
                ..old(self)@
            }),
    {
        replace_ids(&mut self.category_index, category, template_ids);
    }

    /// Sets the ids filed under an author.
    pub fn set_author_index(&mut self, author: String, template_ids: Vec<String>)
        ensures
            final(self).wf() == old(self).wf(),
            final(self)@ == (LibraryModel { author_index: replace_entry(old(self)@.author_index, author@, texts(template_ids@)), ..old(self)@ }),
    {
        replace_ids(&mut self.author_index, author, template_ids);
    }

    /// Every template, published or not, in the order added.
    pub fn all_templates(&self) -> (r: &Vec<ConfigTemplate>)
        ensures
            r@ == self@.templates,
    {
        &self.templates
    }

    /// The ratings, by template id.
    pub fn rating_entries(&self) -> (r: &Vec<(String, Vec<TemplateRating>)>)
        ensures
            r@.map_values(|e: (String, Vec<TemplateRating>)| (e.0@, e.1@)) == self@.ratings,
    {
        &self.ratings
    }

    /// The ids filed under each type.
    pub fn type_index_entries(&self) -> (r: &Vec<(TemplateType, Vec<String>)>)
        ensures
            r@.map_values(|e: (TemplateType, Vec<String>)| (template_type_key(e.0), texts(e.1@))) == self@.type_index,
    {
        &self.type_index
    }

    /// The ids filed under each tag.
    pub fn tag_index_entries(&self) -> (r: &Vec<(String, Vec<String>)>)
        ensures
            r@.map_values(|e: (String, Vec<String>)| (e.0@, texts(e.1@))) == self@.tag_index,
    {
        &self.tag_index
    }

    /// The ids filed under each category.
    pub fn category_index_entries(&self) -> (r: &Vec<(String, Vec<String>)>)
        ensures
            r@.map_values(|e: (String, Vec<String>)| (e.0@, texts(e.1@))) == self@.category_index,
    {
        &self.category_index
    }

    /// The ids filed under each author.
    pub fn author_index_entries(&self) -> (r: &Vec<(String, Vec<String>)>)
        ensures
            r@.map_values(|e: (String, Vec<String>)| (e.0@, texts(e.1@))) == self@.author_index,
    {
        &self.author_index
    }
}


/// An index after setting each of the entries in turn.
pub open spec fn replace_all_entries<K, V>(index: Seq<(K, V)>, es: Seq<(K, V)>) -> Seq<(K, V)>
    decreases es.len(),
{
    if es.len() == 0 {
        index
    } else {
        let (k, v) = es.last();
        replace_entry(replace_all_entries(index, es.drop_last()), k, v)
    }
}

/// The templates after putting each of them in turn.
pub open spec fn put_all_templates(ts: Seq<ConfigTemplate>, more: Seq<ConfigTemplate>) -> Seq<ConfigTemplate>
    decreases more.len(),
{
    if more.len() == 0 {
        ts
    } else {
        put_template(put_all_templates(ts, more.drop_last()), more.last())
    }
}

/// Setting the saved entries of an index, one after the other, in an empty
/// index gives the index back, when its keys are distinct.
pub proof fn law_saved_index_loads_back<K, V>(es: Seq<(K, V)>)
    requires
        forall|i: int, j: int| 0 <= i < j < es.len() ==> #[trigger] es[i].0 != #[trigger] es[j].0,
    ensures
        replace_all_entries(Seq::<(K, V)>::empty(), es) == es,
    decreases es.len(),
{
    if es.len() > 0 {
        let init = es.drop_last();
        law_saved_index_loads_back(init);
        assert forall|j: int| 0 <= j < init.len() implies init[j].0 != es.last().0 by {
            assert(es[j].0 != es[es.len() - 1].0);
        }
        lemma_replace_entry_end(init, es.last().0, es.last().1);
        assert(init.push(es.last()) =~= es);
    }
}

/// Putting the saved templates, one after the other, in an empty library
/// gives them back, when their ids are distinct.
pub proof fn law_saved_templates_load_back(ts: Seq<ConfigTemplate>)
    requires
        distinct_template_ids(ts),
    ensures
        put_all_templates(Seq::empty(), ts) == ts,
    decreases ts.len(),
{
    if ts.len() > 0 {
        let init = ts.drop_last();
        assert(distinct_template_ids(init)) by {
            assert forall|a: int, b: int| 0 <= a < b < init.len() implies #[trigger] init[a].template_id@ != #[trigger] init[b].template_id@ by {
                assert(ts[a].template_id@ != ts[b].template_id@);
            }
        }
        law_saved_templates_load_back(init);
        if template_pos(init, ts.last().template_id@) is Some {
            let p = choose|i: int| 0 <= i < init.len() && #[trigger] init[i].template_id@ == ts.last().template_id@;
            assert(ts[p].template_id@ != ts[ts.len() - 1].template_id@);
        }
        assert(init.push(ts.last()) =~= ts);
    }
}

} // verus!
