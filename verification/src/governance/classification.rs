//! Classifying data by sensitivity, from its metadata or from its content,
//! choosing among the classifiers' results, and the registries of tags,
//! strategies and review tasks.

use vstd::prelude::*;
use crate::engine::types::texts;
use crate::runtime::{new_uuid, now_millis};
use crate::text::{str_eq, contains, contains_text, to_lowercase, lowercase};
use crate::config::template_library::{regex_check, regex_new_error, regex_is_match};
use crate::error::AetherisError;

verus! {

broadcast use vstd::std_specs::vec::group_vec_axioms, vstd::seq::group_seq_axioms;

/// How sensitive data is, from public to restricted.
#[derive(Debug, Clone, Copy, PartialEq, Eq, Structural)]
pub enum DataClassification {
    Public,
    Internal,
    Confidential,
    Restricted,
}

/// A named classification label.
#[derive(Debug, Clone)]
pub struct ClassificationTag {
    pub id: String,
    pub name: String,
    pub description: String,
    pub classification: DataClassification,
    pub created_at: i64,
}

impl ClassificationTag {
    /// A tag with a fresh id, stamped with the current time.
    pub fn new(name: String, description: String, classification: DataClassification) -> (t: ClassificationTag)
        ensures
            t.name == name,
            t.description == description,
            t.classification == classification,
            t.id@.len() == 36,
    {
        ClassificationTag { id: new_uuid(), name, description, classification, created_at: now_millis() }
    }
}

/// What a classifier concluded about a piece of data. The confidence is in
/// thousandths.
#[derive(Debug, Clone)]
pub struct ClassificationResult {
    pub data_id: String,
    pub classification: DataClassification,
    pub confidence_permille: u32,
    pub tags: Vec<String>,
    pub classified_by: String,
    pub classified_at: i64,
    pub needs_review: bool,
}

/// Classifies data by the keys of its metadata: each rule maps a key to a
/// classification; data whose metadata has none of the keys gets the
/// default classification.
#[derive(Debug, Clone)]
pub struct MetadataBasedClassifier {
    rules: Vec<(String, DataClassification)>,
    default_classification: DataClassification,
}

/// The position of the rule for a key.
pub open spec fn rule_pos(rules: Seq<(String, DataClassification)>, key: Seq<char>) -> Option<int> {
    if exists|i: int| 0 <= i < rules.len() && #[trigger] rules[i].0@ == key {
        Some(choose|i: int| 0 <= i < rules.len() && #[trigger] rules[i].0@ == key)
    } else {
        None
    }
}

/// No two rules share a key.
pub open spec fn distinct_rule_keys(rules: Seq<(String, DataClassification)>) -> bool {
    forall|i: int, j: int| 0 <= i < j < rules.len() ==> #[trigger] rules[i].0@ != #[trigger] rules[j].0@
}

/// The tag a matched metadata entry gives: the key, a colon, the value.
pub open spec fn entry_tag(key: Seq<char>, value: Seq<char>) -> Seq<char> {
    key + ":"@ + value
}

/// The classification the metadata entries, taken in order, give: the
/// rule of the last entry whose key has one, else the default.
pub open spec fn classification_of(c: MetadataBasedClassifier, meta: Seq<(Seq<char>, Seq<char>)>) -> DataClassification
    decreases meta.len(),
{
    if meta.len() == 0 {
        c.default_of()
    } else if c.rule_of(meta.last().0) is Some {
        c.rule_of(meta.last().0)->0
    } else {
        classification_of(c, meta.drop_last())
    }
}

/// The tags the metadata entries give: one for each entry whose key has a
/// rule, in order.
pub open spec fn tags_of(c: MetadataBasedClassifier, meta: Seq<(Seq<char>, Seq<char>)>) -> Seq<Seq<char>>
    decreases meta.len(),
{
    if meta.len() == 0 {
        Seq::empty()
    } else if c.rule_of(meta.last().0) is Some {
        tags_of(c, meta.drop_last()).push(entry_tag(meta.last().0, meta.last().1))
    } else {
        tags_of(c, meta.drop_last())
    }
}

/// The texts of metadata pairs.
pub open spec fn pair_texts(meta: Seq<(String, String)>) -> Seq<(Seq<char>, Seq<char>)> {
    meta.map_values(|p: (String, String)| (p.0@, p.1@))
}

impl MetadataBasedClassifier {
    /// The classifier's invariant: rule keys are distinct.
    pub closed spec fn wf(&self) -> bool {
        distinct_rule_keys(self.rules@)
    }

    /// The classification the rule for `key` gives, if there is one.
    pub closed spec fn rule_of(&self, key: Seq<char>) -> Option<DataClassification> {
        match rule_pos(self.rules@, key) {
            Some(i) => Some(self.rules@[i].1),
            None => None,
        }
    }

    /// The classification of data that matches no rule.
    pub closed spec fn default_of(&self) -> DataClassification {
        self.default_classification
    }

    /// A classifier with rules for `sensitivity` (confidential) and
    /// `restricted` (restricted), internal by default.
    pub fn new() -> (c: MetadataBasedClassifier)
        ensures
            c.wf(),
            forall|k: Seq<char>| #[trigger] c.rule_of(k) == (if k == "sensitivity"@ {
                Some(DataClassification::Confidential)
            } else if k == "restricted"@ {
                Some(DataClassification::Restricted)
            } else {
                None
            }),
            c.default_of() == DataClassification::Internal,
    {
        let mut rules: Vec<(String, DataClassification)> = Vec::new();
        rules.push((String::from_str("sensitivity"), DataClassification::Confidential));
        rules.push((String::from_str("restricted"), DataClassification::Restricted));
        let c = MetadataBasedClassifier { rules, default_classification: DataClassification::Internal };
        proof {
            reveal_strlit("sensitivity");
            reveal_strlit("restricted");
            assert(c.rules@[0].0@[0] != c.rules@[1].0@[0]);
            assert forall|k: Seq<char>| #[trigger] c.rule_of(k) == (if k == "sensitivity"@ {
                Some(DataClassification::Confidential)
            } else if k == "restricted"@ {
                Some(DataClassification::Restricted)
            } else {
                None
            }) by {
                if k == "sensitivity"@ {
                    assert(c.rules@[0].0@ == k);
                } else if k == "restricted"@ {
                    assert(c.rules@[1].0@ == k);
                }
            }
        }
        c
    }

    /// The classifier `new` makes.
    pub fn default() -> (c: MetadataBasedClassifier)
        ensures
            c.wf(),
            forall|k: Seq<char>| #[trigger] c.rule_of(k) == (if k == "sensitivity"@ {
                Some(DataClassification::Confidential)
            } else if k == "restricted"@ {
                Some(DataClassification::Restricted)
            } else {
                None
            }),
            c.default_of() == DataClassification::Internal,
    {
        MetadataBasedClassifier::new()
    }

    /// The classifier's name.
    pub fn name(&self) -> (r: &'static str)
        ensures
            r@ == "MetadataBasedClassifier"@,
    {
        "MetadataBasedClassifier"
    }

    fn find_rule(&self, key: &str) -> (r: Option<usize>)
        requires
            self.wf(),
        ensures
            match r {
                Some(i) => i < self.rules@.len() && self.rules@[i as int].0@ == key@ && self.rule_of(key@) == Some(self.rules@[i as int].1),
                None => self.rule_of(key@) is None,
            },
    {
        let mut j: usize = 0;
        while j < self.rules.len()
            invariant
                self.wf(),
                j <= self.rules@.len(),
                forall|q: int| 0 <= q < j ==> self.rules@[q].0@ != key@,
            decreases self.rules@.len() - j,
        {
            if str_eq(self.rules[j].0.as_str(), key) {
                proof {
                    assert(self.rules@[j as int].0@ == key@);
                    let p = choose|p: int| 0 <= p < self.rules@.len() && #[trigger] self.rules@[p].0@ == key@;
                    if p != j {
                        if p > j {
                            assert(self.rules@[j as int].0@ != self.rules@[p].0@);
                        }
                    }
                }
                return Some(j);
            }
            j = j + 1;
        }
        None
    }

    /// Maps the key to the classification, replacing its earlier rule.
    pub fn add_rule(&mut self, metadata_key: String, classification: DataClassification)
        requires
            old(self).wf(),
        ensures
            final(self).wf(),
            forall|k: Seq<char>| #[trigger] final(self).rule_of(k) == (if k == metadata_key@ {
                Some(classification)
            } else {
                old(self).rule_of(k)
            }),
            final(self).default_of() == old(self).default_of(),
    {
        let ghost key = metadata_key@;
        let ghost before = self.rules@;
        match self.find_rule(metadata_key.as_str()) {
            Some(i) => {
                self.rules.set(i, (metadata_key, classification));
                proof {
                    assert forall|a: int, b: int| 0 <= a < b < self.rules@.len() implies #[trigger] self.rules@[a].0@
                        != #[trigger] self.rules@[b].0@ by {
                        assert(before[a].0@ != before[b].0@);
                    }
                    assert forall|k: Seq<char>| #[trigger] self.rule_of(k) == (if k == key {
                        Some(classification)
                    } else {
                        old(self).rule_of(k)
                    }) by {
                        if k == key {
                            assert(self.rules@[i as int].0@ == k);
                        } else {
                            if rule_pos(before, k) is Some {
                                let q = choose|q: int| 0 <= q < before.len() && #[trigger] before[q].0@ == k;
                                assert(self.rules@[q].0@ == k);
                            }
                            if rule_pos(self.rules@, k) is Some {
                                let q = choose|q: int| 0 <= q < self.rules@.len() && #[trigger] self.rules@[q].0@ == k;
                                assert(before[q].0@ == k);
                            }
                        }
                    }
                }
            },
            None => {
                self.rules.push((metadata_key, classification));
                proof {
                    assert forall|a: int, b: int| 0 <= a < b < self.rules@.len() implies #[trigger] self.rules@[a].0@
                        != #[trigger] self.rules@[b].0@ by {
                        if b < before.len() {
                            assert(before[a].0@ != before[b].0@);
                        } else {
                            assert(before[a].0@ != key);
                        }
                    }
                    assert forall|k: Seq<char>| #[trigger] self.rule_of(k) == (if k == key {
                        Some(classification)
                    } else {
                        old(self).rule_of(k)
                    }) by {
                        if k == key {
                            assert(self.rules@[before.len() as int].0@ == k);
                        } else {
                            if rule_pos(before, k) is Some {
                                let q = choose|q: int| 0 <= q < before.len() && #[trigger] before[q].0@ == k;
                                assert(self.rules@[q].0@ == k);
                            }
                            if rule_pos(self.rules@, k) is Some {
                                let q = choose|q: int| 0 <= q < self.rules@.len() && #[trigger] self.rules@[q].0@ == k;
                                assert(before[q].0@ == k);
                            }
                        }
                    }
                }
            },
        }
    }

    /// Sets the classification of data whose metadata matches no rule.
    pub fn set_default(&mut self, classification: DataClassification)
        ensures
            final(self).wf() == old(self).wf(),
            forall|k: Seq<char>| #[trigger] final(self).rule_of(k) == old(self).rule_of(k),
            final(self).default_of() == classification,
    {
        self.default_classification = classification;
    }

    /// Classifies data by its metadata entries, taken in the order given:
    /// the last entry whose key has a rule decides, with a confidence of
    /// 950 thousandths; with no such entry the default applies at 700. Each
    /// matched entry gives a tag `key:value`. A result under 800 thousandths
    /// needs review.
    pub fn classify(&self, metadata: Option<&Vec<(String, String)>>) -> (r: ClassificationResult)
        requires
            self.wf(),
        ensures
            ({
                let meta = match metadata { Some(m) => pair_texts(m@), None => Seq::empty() };
                &&& r.classification == classification_of(*self, meta)
                &&& texts(r.tags@) == tags_of(*self, meta)
                &&& r.confidence_permille == (if tags_of(*self, meta).len() > 0 { 950u32 } else { 700u32 })
                &&& r.needs_review == (r.confidence_permille < 800)
                &&& r.classified_by@ == "MetadataBasedClassifier"@
                &&& r.data_id@.len() == 36
            }),
    {
        let mut classification = self.default_classification;
        let mut confidence: u32 = 700;
        let mut tags: Vec<String> = Vec::new();
        match metadata {
            Some(meta) => {
                let mut i: usize = 0;
                assert(texts(tags@) =~= Seq::<Seq<char>>::empty());
                assert(pair_texts(meta@.subrange(0, 0)) =~= Seq::<(Seq<char>, Seq<char>)>::empty());
                while i < meta.len()
                    invariant
                        self.wf(),
                        i <= meta@.len(),
                        classification == classification_of(*self, pair_texts(meta@.subrange(0, i as int))),
                        texts(tags@) == tags_of(*self, pair_texts(meta@.subrange(0, i as int))),
                        confidence == (if tags@.len() > 0 { 950u32 } else { 700u32 }),
                    decreases meta@.len() - i,
                {
                    let ghost pre = pair_texts(meta@.subrange(0, i as int));
                    let ghost post = pair_texts(meta@.subrange(0, i as int + 1));
                    proof {
                        assert(post.drop_last() =~= pre);
                        assert(post.last() == (meta@[i as int].0@, meta@[i as int].1@));
                    }
                    match self.find_rule(meta[i].0.as_str()) {
                        Some(j) => {
                            classification = self.rules[j].1;
                            confidence = 950;
                            let mut tag = meta[i].0.clone();
                            tag.append(":");
                            tag.append(meta[i].1.as_str());
                            let ghost before = tags@;
                            tags.push(tag);
                            proof {
                                assert(texts(tags@) =~= texts(before).push(entry_tag(meta@[i as int].0@, meta@[i as int].1@)));
                            }
                        },
                        None => {},
                    }
                    i = i + 1;
                }
                proof {
                    assert(meta@.subrange(0, meta@.len() as int) =~= meta@);
                }
            },
            None => {
                proof {
                    assert(texts(tags@) =~= Seq::<Seq<char>>::empty());
                }
            },
        }
        assert(texts(tags@).len() == tags@.len());
        ClassificationResult {
            data_id: new_uuid(),
            classification,
            confidence_permille: confidence,
            tags,
            classified_by: String::from_str("MetadataBasedClassifier"),
            classified_at: now_millis(),
            needs_review: confidence < 800,
        }
    }
}

/// Where a review of a classification stands.
#[derive(Debug, Clone, Copy, PartialEq, Eq, Structural)]
pub enum ReviewStatus {
    Pending,
    Approved,
    Rejected,
    Escalated,
}

/// A classification waiting for a human decision, or carrying one.
#[derive(Debug, Clone)]
pub struct ReviewTask {
    pub id: String,
    pub data_id: String,
    pub current_classification: DataClassification,
    pub suggested_classification: DataClassification,
    pub reviewer: Option<String>,
    pub status: ReviewStatus,
    pub created_at: i64,
    pub reviewed_at: Option<i64>,
}

impl ReviewTask {
    /// A pending review of the data's classification, with a fresh id.
    pub fn new(data_id: String, current: DataClassification, suggested: DataClassification) -> (t: ReviewTask)
        ensures
            t.data_id == data_id,
            t.current_classification == current,
            t.suggested_classification == suggested,
            t.reviewer is None,
            t.status == ReviewStatus::Pending,
            t.reviewed_at is None,
            t.id@.len() == 36,
    {
        ReviewTask {
            id: new_uuid(),
            data_id,
            current_classification: current,
            suggested_classification: suggested,
            reviewer: None,
            status: ReviewStatus::Pending,
            created_at: now_millis(),
            reviewed_at: None,
        }
    }

    /// Records the decision, who made it and when.
    pub fn review(&mut self, status: ReviewStatus, reviewer: String)
        ensures
            final(self).status == status,
            final(self).reviewer == Some(reviewer),
            final(self).reviewed_at is Some,
            final(self).id == old(self).id,
            final(self).data_id == old(self).data_id,
            final(self).current_classification == old(self).current_classification,
            final(self).suggested_classification == old(self).suggested_classification,
            final(self).created_at == old(self).created_at,
    {
        self.status = status;
        self.reviewer = Some(reviewer);
        self.reviewed_at = Some(now_millis());
    }
}


/// How a classification ranks: restricted highest, public lowest.
pub open spec fn priority(c: DataClassification) -> int {
    match c {
        DataClassification::Restricted => 4,
        DataClassification::Confidential => 3,
        DataClassification::Internal => 2,
        DataClassification::Public => 1,
    }
}

fn priority_of(c: DataClassification) -> (r: u8)
    ensures
        r == priority(c),
{
    match c {
        DataClassification::Restricted => 4,
        DataClassification::Confidential => 3,
        DataClassification::Internal => 2,
        DataClassification::Public => 1,
    }
}

/// The highest classification the patterns, taken in order, find in the
/// data, starting from public; the first pattern the regex crate refuses
/// stops the scan with its error.
pub open spec fn pattern_scan(patterns: Seq<(DataClassification, Seq<char>)>, data: Seq<char>) -> Result<DataClassification, Seq<char>>
    decreases patterns.len(),
{
    if patterns.len() == 0 {
        Ok(DataClassification::Public)
    } else {
        match pattern_scan(patterns.drop_last(), data) {
            Err(e) => Err(e),
            Ok(h) => {
                let (c, p) = patterns.last();
                match regex_new_error(p) {
                    Some(e) => Err("Invalid pattern: "@ + e),
                    None => if regex_is_match(p, data) && priority(c) > priority(h) { Ok(c) } else { Ok(h) },
                }
            },
        }
    }
}

/// The keywords, in order, that occur in the data (both in lower case),
/// leaving out those of the classification the patterns found.
pub open spec fn keyword_tags(keywords: Seq<(DataClassification, Seq<char>)>, data: Seq<char>, found: DataClassification) -> Seq<Seq<char>>
    decreases keywords.len(),
{
    if keywords.len() == 0 {
        Seq::empty()
    } else {
        let rest = keyword_tags(keywords.drop_last(), data, found);
        let (c, k) = keywords.last();
        if c != found && contains_text(lowercase(data), lowercase(k)) {
            rest.push(k)
        } else {
            rest
        }
    }
}

/// The texts of classified entries.
pub open spec fn classed_texts(s: Seq<(DataClassification, String)>) -> Seq<(DataClassification, Seq<char>)> {
    s.map_values(|e: (DataClassification, String)| (e.0, e.1@))
}

/// Classifies data by its content: regular expressions find the highest
/// classification, and keywords found in the text become tags.
#[derive(Debug, Clone)]
pub struct ContentBasedClassifier {
    patterns: Vec<(DataClassification, String)>,
    keywords: Vec<(DataClassification, String)>,
}

impl ContentBasedClassifier {
    /// The patterns, with their classifications, in the order added.
    pub closed spec fn patterns_of(&self) -> Seq<(DataClassification, Seq<char>)> {
        classed_texts(self.patterns@)
    }

    /// The keywords, with their classifications, in the order added.
    pub closed spec fn keywords_of(&self) -> Seq<(DataClassification, Seq<char>)> {
        classed_texts(self.keywords@)
    }

    /// A classifier with a pattern for restricted data (passwords, credit
    /// cards, social security and passport numbers) and one for
    /// confidential data, and keywords for both.
    pub fn new() -> (c: ContentBasedClassifier)
        ensures
            c.patterns_of() == seq![
                (DataClassification::Restricted, "(?i)password|credit\\s*card|social\\s*security|ssn|passport"@),
                (DataClassification::Confidential, "(?i)confidential|secret|proprietary"@),
            ],
            c.keywords_of() == seq![
                (DataClassification::Restricted, "password"@),
                (DataClassification::Restricted, "credit card"@),
                (DataClassification::Restricted, "ssn"@),
                (DataClassification::Confidential, "confidential"@),
                (DataClassification::Confidential, "internal use only"@),
            ],
    {
        let mut patterns: Vec<(DataClassification, String)> = Vec::new();
        patterns.push((DataClassification::Restricted, String::from_str("(?i)password|credit\\s*card|social\\s*security|ssn|passport")));
        patterns.push((DataClassification::Confidential, String::from_str("(?i)confidential|secret|proprietary")));
        let mut keywords: Vec<(DataClassification, String)> = Vec::new();
        keywords.push((DataClassification::Restricted, String::from_str("password")));
        keywords.push((DataClassification::Restricted, String::from_str("credit card")));
        keywords.push((DataClassification::Restricted, String::from_str("ssn")));
        keywords.push((DataClassification::Confidential, String::from_str("confidential")));
        keywords.push((DataClassification::Confidential, String::from_str("internal use only")));
        let c = ContentBasedClassifier { patterns, keywords };
        assert(c.patterns_of() =~= seq![
            (DataClassification::Restricted, "(?i)password|credit\\s*card|social\\s*security|ssn|passport"@),
            (DataClassification::Confidential, "(?i)confidential|secret|proprietary"@),
        ]);
        assert(c.keywords_of() =~= seq![
            (DataClassification::Restricted, "password"@),
            (DataClassification::Restricted, "credit card"@),
            (DataClassification::Restricted, "ssn"@),
            (DataClassification::Confidential, "confidential"@),
            (DataClassification::Confidential, "internal use only"@),
        ]);
        c
    }

    /// The classifier `new` makes.
    pub fn default() -> (c: ContentBasedClassifier)
        ensures
            c.patterns_of() == seq![
                (DataClassification::Restricted, "(?i)password|credit\\s*card|social\\s*security|ssn|passport"@),
                (DataClassification::Confidential, "(?i)confidential|secret|proprietary"@),
            ],
            c.keywords_of() == seq![
                (DataClassification::Restricted, "password"@),
                (DataClassification::Restricted, "credit card"@),
                (DataClassification::Restricted, "ssn"@),
                (DataClassification::Confidential, "confidential"@),
                (DataClassification::Confidential, "internal use only"@),
            ],
    {
        ContentBasedClassifier::new()
    }

    /// The classifier's name.
    pub fn name(&self) -> (r: &'static str)
        ensures
            r@ == "ContentBasedClassifier"@,
    {
        "ContentBasedClassifier"
    }

    /// Adds a pattern for a classification, after the others.
    pub fn add_pattern(&mut self, classification: DataClassification, pattern: String)
        ensures
            final(self).patterns_of() == old(self).patterns_of().push((classification, pattern@)),
            final(self).keywords_of() == old(self).keywords_of(),
    {
        self.patterns.push((classification, pattern));
        assert(self.patterns_of() =~= old(self).patterns_of().push((classification, pattern@)));
    }

    /// Adds a keyword for a classification, after the others.
    pub fn add_keyword(&mut self, classification: DataClassification, keyword: String)
        ensures
            final(self).keywords_of() == old(self).keywords_of().push((classification, keyword@)),
            final(self).patterns_of() == old(self).patterns_of(),
    {
        self.keywords.push((classification, keyword));
        assert(self.keywords_of() =~= old(self).keywords_of().push((classification, keyword@)));
    }

    /// Classifies data by its content: the highest classification among
    /// the patterns that match it (public when none does), with a
    /// confidence of 900 thousandths when one above public matched and 0
    /// otherwise; the keywords found in the text, ignoring case, become
    /// tags, except those of the classification found. A result under 800
    /// thousandths needs review. A pattern the regex crate refuses gives
    /// its error.
    pub fn classify(&self, data: &str) -> (r: Result<ClassificationResult, AetherisError>)
        ensures
            match pattern_scan(self.patterns_of(), data@) {
                Err(e) => r matches Err(AetherisError::Validation(m)) && m@ == e,
                Ok(h) => r matches Ok(res) && ({
                    &&& res.classification == h
                    &&& res.confidence_permille == (if h != DataClassification::Public { 900u32 } else { 0u32 })
                    &&& res.needs_review == (res.confidence_permille < 800)
                    &&& texts(res.tags@) == keyword_tags(self.keywords_of(), data@, h)
                    &&& res.classified_by@ == "ContentBasedClassifier"@
                    &&& res.data_id@.len() == 36
                }),
            },
    {
        let ghost ps = self.patterns_of();
        let mut highest = DataClassification::Public;
        let mut i: usize = 0;
        assert(ps.subrange(0, 0) =~= Seq::<(DataClassification, Seq<char>)>::empty());
        while i < self.patterns.len()
            invariant
                i <= self.patterns@.len(),
                ps == self.patterns_of(),
                ps.len() == self.patterns@.len(),
                pattern_scan(ps.subrange(0, i as int), data@) == Ok::<DataClassification, Seq<char>>(highest),
            decreases self.patterns@.len() - i,
        {
            let ghost pre = ps.subrange(0, i as int);
            assert(ps.subrange(0, i as int + 1).drop_last() =~= pre);
            assert(ps.subrange(0, i as int + 1).last() == (self.patterns@[i as int].0, self.patterns@[i as int].1@));
            match regex_check(self.patterns[i].1.as_str(), data) {
                Err(e) => {
                    let mut m = String::from_str("Invalid pattern: ");
                    m.append(e.as_str());
                    proof {
                        lemma_scan_error_sticks(ps, data@, i as int + 1);
                        assert(ps.subrange(0, ps.len() as int) =~= ps);
                    }
                    return Err(AetherisError::Validation(m));
                },
                Ok(matched) => {
                    if matched && priority_of(self.patterns[i].0) > priority_of(highest) {
                        highest = self.patterns[i].0;
                    }
                },
            }
            i = i + 1;
        }
        assert(ps.subrange(0, i as int) =~= ps);
        let confidence: u32 = if priority_of(highest) > 1 { 900 } else { 0 };
        let lower = to_lowercase(data);
        let ghost ks = self.keywords_of();
        let mut tags: Vec<String> = Vec::new();
        let mut k: usize = 0;
        assert(texts(tags@) =~= keyword_tags(ks.subrange(0, 0), data@, highest));
        while k < self.keywords.len()
            invariant
                k <= self.keywords@.len(),
                ks == self.keywords_of(),
                ks.len() == self.keywords@.len(),
                lower@ == lowercase(data@),
                texts(tags@) == keyword_tags(ks.subrange(0, k as int), data@, highest),
            decreases self.keywords@.len() - k,
        {
            assert(ks.subrange(0, k as int + 1).drop_last() =~= ks.subrange(0, k as int));
            assert(ks.subrange(0, k as int + 1).last() == (self.keywords@[k as int].0, self.keywords@[k as int].1@));
            if self.keywords[k].0 != highest {
                let lk = to_lowercase(self.keywords[k].1.as_str());
                if contains(lower.as_str(), lk.as_str()) {
                    let ghost before = tags@;
                    tags.push(self.keywords[k].1.clone());
                    assert(texts(tags@) =~= texts(before).push(self.keywords@[k as int].1@));
                }
            }
            k = k + 1;
        }
        assert(ks.subrange(0, k as int) =~= ks);
        Ok(ClassificationResult {
            data_id: new_uuid(),
            classification: highest,
            confidence_permille: confidence,
            tags,
            classified_by: String::from_str("ContentBasedClassifier"),
            classified_at: now_millis(),
            needs_review: confidence < 800,
        })
    }
}

/// Once the scan of a prefix fails, the scan of every longer prefix fails
/// the same way.
proof fn lemma_scan_error_sticks(ps: Seq<(DataClassification, Seq<char>)>, data: Seq<char>, i: int)
    requires
        0 <= i <= ps.len(),
        pattern_scan(ps.subrange(0, i), data) is Err,
    ensures
        pattern_scan(ps.subrange(0, ps.len() as int), data) == pattern_scan(ps.subrange(0, i), data),
    decreases ps.len() - i,
{
    if i < ps.len() {
        assert(ps.subrange(0, i + 1).drop_last() =~= ps.subrange(0, i));
        lemma_scan_error_sticks(ps, data, i + 1);
    }
}


/// A named set of classifiers to run, with the confidence at which a
/// result is approved without review, in thousandths.
#[derive(Debug, Clone)]
pub struct ClassificationStrategy {
    pub id: String,
    pub name: String,
    pub description: String,
    pub classifiers: Vec<String>,
    pub auto_approve_threshold_permille: u32,
    pub created_at: i64,
    pub updated_at: i64,
}

impl ClassificationStrategy {
    /// A strategy with a fresh id that runs the content and the metadata
    /// classifiers and approves from 850 thousandths.
    pub fn new(name: String, description: String) -> (s: ClassificationStrategy)
        ensures
            s.name == name,
            s.description == description,
            texts(s.classifiers@) == seq!["ContentBasedClassifier"@, "MetadataBasedClassifier"@],
            s.auto_approve_threshold_permille == 850,
            s.created_at == s.updated_at,
            s.id@.len() == 36,
    {
        let now = now_millis();
        let mut classifiers: Vec<String> = Vec::new();
        classifiers.push(String::from_str("ContentBasedClassifier"));
        classifiers.push(String::from_str("MetadataBasedClassifier"));
        assert(texts(classifiers@) =~= seq!["ContentBasedClassifier"@, "MetadataBasedClassifier"@]);
        ClassificationStrategy {
            id: new_uuid(),
            name,
            description,
            classifiers,
            auto_approve_threshold_permille: 850,
            created_at: now,
            updated_at: now,
        }
    }
}

impl ReviewTask {
    /// A copy of the task.
    pub fn duplicate(&self) -> (r: ReviewTask)
        ensures
            r == *self,
    {
        ReviewTask {
            id: self.id.clone(),
            data_id: self.data_id.clone(),
            current_classification: self.current_classification,
            suggested_classification: self.suggested_classification,
            reviewer: match &self.reviewer {
                Some(x) => Some(x.clone()),
                None => None,
            },
            status: self.status,
            created_at: self.created_at,
            reviewed_at: self.reviewed_at,
        }
    }
}

/// The entries of a keyed list, their keys as texts.
pub open spec fn keyed<T>(v: Seq<(String, T)>) -> Seq<(Seq<char>, T)> {
    v.map_values(|e: (String, T)| (e.0@, e.1))
}

/// The position of the entry with the given key.
pub open spec fn key_pos<T>(s: Seq<(Seq<char>, T)>, key: Seq<char>) -> Option<int> {
    if exists|i: int| 0 <= i < s.len() && #[trigger] s[i].0 == key {
        Some(choose|i: int| 0 <= i < s.len() && #[trigger] s[i].0 == key)
    } else {
        None
    }
}

/// No two entries share a key.
pub open spec fn distinct_keys<T>(s: Seq<(Seq<char>, T)>) -> bool {
    forall|i: int, j: int| 0 <= i < j < s.len() ==> #[trigger] s[i].0 != #[trigger] s[j].0
}

/// The entries after putting one: it replaces the entry with its key, or
/// else comes last.
pub open spec fn put_keyed<T>(s: Seq<(Seq<char>, T)>, key: Seq<char>, x: T) -> Seq<(Seq<char>, T)> {
    match key_pos(s, key) {
        Some(p) => s.update(p, (key, x)),
        None => s.push((key, x)),
    }
}

pub(crate) fn find_keyed<T>(v: &Vec<(String, T)>, key: &str) -> (r: Option<usize>)
    requires
        distinct_keys(keyed(v@)),
    ensures
        key_pos(keyed(v@), key@) == match r {
            Some(i) => Some(i as int),
            None => None::<int>,
        },
        r matches Some(i) ==> i < v@.len(),
{
    let ghost m = keyed(v@);
    let mut i: usize = 0;
    while i < v.len()
        invariant
            i <= v@.len(),
            m == keyed(v@),
            distinct_keys(m),
            forall|j: int| 0 <= j < i ==> m[j].0 != key@,
        decreases v@.len() - i,
    {
        if str_eq(v[i].0.as_str(), key) {
            proof {
                assert(m[i as int].0 == key@);
                let p = choose|p: int| 0 <= p < m.len() && #[trigger] m[p].0 == key@;
                if p > i {
                    assert(m[i as int].0 != m[p].0);
                }
            }
            return Some(i);
        }
        i = i + 1;
    }
    None
}

pub(crate) fn put_keyed_exec<T>(v: &mut Vec<(String, T)>, key: String, x: T)
    requires
        distinct_keys(keyed(old(v)@)),
    ensures
        distinct_keys(keyed(final(v)@)),
        keyed(final(v)@) == put_keyed(keyed(old(v)@), key@, x),
{
    let ghost m = keyed(v@);
    let ghost k = key@;
    let ghost g = x;
    match find_keyed(v, key.as_str()) {
        Some(i) => {
            v.set(i, (key, x));
            proof {
                assert(keyed(v@) =~= m.update(i as int, (k, g)));
                assert forall|a: int, b: int| 0 <= a < b < keyed(v@).len() implies #[trigger] keyed(v@)[a].0
                    != #[trigger] keyed(v@)[b].0 by {
                    assert(m[a].0 != m[b].0);
                }
            }
        },
        None => {
            v.push((key, x));
            proof {
                assert(keyed(v@) =~= m.push((k, g)));
                assert forall|a: int, b: int| 0 <= a < b < keyed(v@).len() implies #[trigger] keyed(v@)[a].0
                    != #[trigger] keyed(v@)[b].0 by {
                    if b < m.len() {
                        assert(m[a].0 != m[b].0);
                    } else {
                        assert(m[a].0 != k);
                    }
                }
            }
        },
    }
}

fn keyed_values<T>(v: &Vec<(String, T)>) -> (r: Vec<&T>)
    ensures
        r@.len() == v@.len(),
        forall|i: int| 0 <= i < r@.len() ==> *#[trigger] r@[i] == v@[i].1,
{
    let mut r: Vec<&T> = Vec::new();
    let mut i: usize = 0;
    while i < v.len()
        invariant
            i <= v@.len(),
            r@.len() == i,
            forall|j: int| 0 <= j < i ==> *#[trigger] r@[j] == v@[j].1,
        decreases v@.len() - i,
    {
        r.push(&v[i].1);
        i = i + 1;
    }
    r
}

/// The model of a classification manager: the names of its classifiers,
/// and its tags, strategies and review tasks by id.
pub struct ManagerModel {
    pub classifiers: Seq<Seq<char>>,
    pub tags: Seq<(Seq<char>, ClassificationTag)>,
    pub strategies: Seq<(Seq<char>, ClassificationStrategy)>,
    pub review_tasks: Seq<(Seq<char>, ReviewTask)>,
}

/// The names of the classifiers a classification runs: those of the
/// strategy that are registered, in the strategy's order; all the
/// registered ones, in order, when there is no such strategy.
pub open spec fn classifiers_run(m: ManagerModel, strategy_id: Option<Seq<char>>) -> Seq<Seq<char>> {
    match strategy_id {
        Some(sid) => match key_pos(m.strategies, sid) {
            Some(p) => registered_only(texts(m.strategies[p].1.classifiers@), m.classifiers),
            None => m.classifiers,
        },
        None => m.classifiers,
    }
}

/// The names that are registered, in order.
pub open spec fn registered_only(names: Seq<Seq<char>>, registered: Seq<Seq<char>>) -> Seq<Seq<char>>
    decreases names.len(),
{
    if names.len() == 0 {
        Seq::empty()
    } else if registered.contains(names.last()) {
        registered_only(names.drop_last(), registered).push(names.last())
    } else {
        registered_only(names.drop_last(), registered)
    }
}

/// The position of the result a classification keeps: the last of those
/// with the highest confidence.
pub open spec fn best_pos(rs: Seq<ClassificationResult>) -> int
    decreases rs.len(),
{
    if rs.len() <= 1 {
        0
    } else {
        let b = best_pos(rs.drop_last());
        if rs.last().confidence_permille >= rs[b].confidence_permille { rs.len() - 1 } else { b }
    }
}

/// Tags, strategies and review tasks of data classification, with the
/// names of the classifiers that can be run.
#[derive(Debug)]
pub struct ClassificationManager {
    classifiers: Vec<String>,
    tags: Vec<(String, ClassificationTag)>,
    strategies: Vec<(String, ClassificationStrategy)>,
    review_tasks: Vec<(String, ReviewTask)>,
}

impl View for ClassificationManager {
    type V = ManagerModel;

    closed spec fn view(&self) -> ManagerModel {
        ManagerModel {
            classifiers: texts(self.classifiers@),
            tags: keyed(self.tags@),
            strategies: keyed(self.strategies@),
            review_tasks: keyed(self.review_tasks@),
        }
    }
}

impl ClassificationManager {
    /// Ids are distinct in each registry, as are classifier names.
    pub open spec fn wf(&self) -> bool {
        &&& distinct_keys(self@.tags)
        &&& distinct_keys(self@.strategies)
        &&& distinct_keys(self@.review_tasks)
        &&& self@.classifiers.no_duplicates()
    }

    /// A manager with the content and the metadata classifiers and no
    /// tags, strategies or review tasks.
    pub fn new() -> (m: ClassificationManager)
        ensures
            m.wf(),
            m@.classifiers == seq!["ContentBasedClassifier"@, "MetadataBasedClassifier"@],
            m@.tags.len() == 0,
            m@.strategies.len() == 0,
            m@.review_tasks.len() == 0,
    {
        let mut classifiers: Vec<String> = Vec::new();
        classifiers.push(String::from_str("ContentBasedClassifier"));
        classifiers.push(String::from_str("MetadataBasedClassifier"));
        let m = ClassificationManager { classifiers, tags: Vec::new(), strategies: Vec::new(), review_tasks: Vec::new() };
        proof {
            reveal_strlit("ContentBasedClassifier");
            reveal_strlit("MetadataBasedClassifier");
            assert(m@.classifiers =~= seq!["ContentBasedClassifier"@, "MetadataBasedClassifier"@]);
            assert(m@.classifiers[0][0] != m@.classifiers[1][0]);
        }
        m
    }

    /// The manager `new` makes.
    pub fn default() -> (m: ClassificationManager)
        ensures
            m.wf(),
            m@.classifiers == seq!["ContentBasedClassifier"@, "MetadataBasedClassifier"@],
            m@.tags.len() == 0,
            m@.strategies.len() == 0,
            m@.review_tasks.len() == 0,
    {
        ClassificationManager::new()
    }

    /// Registers a classifier's name; a name already there stays once.
    pub fn register_classifier(&mut self, name: String)
        requires
            old(self).wf(),
        ensures
            final(self).wf(),
            final(self)@.classifiers == (if old(self)@.classifiers.contains(name@) {
                old(self)@.classifiers
            } else {
                old(self)@.classifiers.push(name@)
            }),
            final(self)@.tags == old(self)@.tags,
            final(self)@.strategies == old(self)@.strategies,
            final(self)@.review_tasks == old(self)@.review_tasks,
    {
        let ghost before = self@.classifiers;
        let mut i: usize = 0;
        while i < self.classifiers.len()
            invariant
                self.wf(),
                i <= self.classifiers@.len(),
                before == self@.classifiers,
                before.len() == self.classifiers@.len(),
                forall|j: int| 0 <= j < i ==> before[j] != name@,
            decreases self.classifiers@.len() - i,
        {
            if str_eq(self.classifiers[i].as_str(), name.as_str()) {
                assert(before[i as int] == name@);
                return;
            }
            i = i + 1;
        }
        self.classifiers.push(name);
        assert(self@.classifiers =~= before.push(name@));
    }

    /// The names of the classifiers to run for a classification: those of
    /// the given strategy that are registered, or all of them.
    pub fn classifiers_for(&self, strategy_id: Option<&str>) -> (r: Vec<String>)
        requires
            self.wf(),
        ensures
            texts(r@) == classifiers_run(self@, match strategy_id { Some(s) => Some(s@), None => None }),
    {
        let ghost m = self@;
        match strategy_id {
            Some(sid) => match find_keyed(&self.strategies, sid) {
                Some(p) => {
                    let names = &self.strategies[p].1.classifiers;
                    let ghost ns = texts(names@);
                    let mut r: Vec<String> = Vec::new();
                    let mut i: usize = 0;
                    assert(registered_only(ns.subrange(0, 0), m.classifiers) =~= Seq::<Seq<char>>::empty());
                    while i < names.len()
                        invariant
                            i <= names@.len(),
                            m == self@,
                            ns == texts(names@),
                            texts(r@) == registered_only(ns.subrange(0, i as int), m.classifiers),
                        decreases names@.len() - i,
                    {
                        let ghost pre = ns.subrange(0, i as int);
                        assert(ns.subrange(0, i as int + 1).drop_last() =~= pre);
                        assert(ns.subrange(0, i as int + 1).last() == ns[i as int]);
                        let mut known = false;
                        let mut j: usize = 0;
                        while j < self.classifiers.len()
                            invariant
                                j <= self.classifiers@.len(),
                                i < names@.len(),
                                m == self@,
                                m.classifiers.len() == self.classifiers@.len(),
                                known == exists|q: int| 0 <= q < j && m.classifiers[q] == names@[i as int]@,
                            decreases self.classifiers@.len() - j,
                        {
                            assert(m.classifiers[j as int] == self.classifiers@[j as int]@);
                            if str_eq(self.classifiers[j].as_str(), names[i].as_str()) {
                                known = true;
                            }
                            j = j + 1;
                        }
                        assert(known == m.classifiers.contains(ns[i as int]));
                        if known {
                            let ghost before = r@;
                            r.push(names[i].clone());
                            assert(texts(r@) =~= texts(before).push(ns[i as int]));
                        }
                        i = i + 1;
                    }
                    assert(ns.subrange(0, i as int) =~= ns);
                    r
                },
                None => {
                    let r = crate::engine::types::clone_strings(&self.classifiers);
                    assert(texts(r@) =~= m.classifiers);
                    r
                },
            },
            None => {
                let r = crate::engine::types::clone_strings(&self.classifiers);
                assert(texts(r@) =~= m.classifiers);
                r
            },
        }
    }

    /// Adds a tag, replacing the tag with its id.
    pub fn add_tag(&mut self, tag: ClassificationTag)
        requires
            old(self).wf(),
        ensures
            final(self).wf(),
            final(self)@ == (ManagerModel { tags: put_keyed(old(self)@.tags, tag.id@, tag), ..old(self)@ }),
    {
        let id = tag.id.clone();
        put_keyed_exec(&mut self.tags, id, tag);
    }

    /// The tag with the given id.
    pub fn get_tag(&self, tag_id: &str) -> (r: Option<&ClassificationTag>)
        requires
            self.wf(),
        ensures
            match key_pos(self@.tags, tag_id@) {
                Some(p) => r == Some(&self@.tags[p].1),
                None => r is None,
            },
    {
        match find_keyed(&self.tags, tag_id) {
            Some(i) => Some(&self.tags[i].1),
            None => None,
        }
    }

    /// The tags, in the order their ids were first added.
    pub fn list_tags(&self) -> (r: Vec<&ClassificationTag>)
        ensures
            r@.len() == self@.tags.len(),
            forall|i: int| 0 <= i < r@.len() ==> *#[trigger] r@[i] == self@.tags[i].1,
    {
        keyed_values(&self.tags)
    }

    /// Adds a strategy, replacing the strategy with its id.
    pub fn add_strategy(&mut self, strategy: ClassificationStrategy)
        requires
            old(self).wf(),
        ensures
            final(self).wf(),
            final(self)@ == (ManagerModel { strategies: put_keyed(old(self)@.strategies, strategy.id@, strategy), ..old(self)@ }),
    {
        let id = strategy.id.clone();
        put_keyed_exec(&mut self.strategies, id, strategy);
    }

    /// The strategy with the given id.
    pub fn get_strategy(&self, strategy_id: &str) -> (r: Option<&ClassificationStrategy>)
        requires
            self.wf(),
        ensures
            match key_pos(self@.strategies, strategy_id@) {
                Some(p) => r == Some(&self@.strategies[p].1),
                None => r is None,
            },
    {
        match find_keyed(&self.strategies, strategy_id) {
            Some(i) => Some(&self.strategies[i].1),
            None => None,
        }
    }

    /// The strategies, in the order their ids were first added.
    pub fn list_strategies(&self) -> (r: Vec<&ClassificationStrategy>)
        ensures
            r@.len() == self@.strategies.len(),
            forall|i: int| 0 <= i < r@.len() ==> *#[trigger] r@[i] == self@.strategies[i].1,
    {
        keyed_values(&self.strategies)
    }

    /// Opens a pending review of a data item's classification, kept under
    /// a fresh id, and gives a copy of it.
    pub fn create_review_task(
        &mut self,
        data_id: String,
        current_classification: DataClassification,
        suggested_classification: DataClassification,
    ) -> (t: ReviewTask)
        requires
            old(self).wf(),
        ensures
            final(self).wf(),
            t.data_id == data_id,
            t.current_classification == current_classification,
            t.suggested_classification == suggested_classification,
            t.reviewer is None,
            t.status == ReviewStatus::Pending,
            t.reviewed_at is None,
            final(self)@ == (ManagerModel { review_tasks: put_keyed(old(self)@.review_tasks, t.id@, t), ..old(self)@ }),
    {
        let task = ReviewTask::new(data_id, current_classification, suggested_classification);
        let copy = task.duplicate();
        let id = task.id.clone();
        put_keyed_exec(&mut self.review_tasks, id, task);
        copy
    }

    /// Records the decision on a review task and gives a copy of it; none
    /// for an unknown id.
    pub fn review_task(&mut self, task_id: String, status: ReviewStatus, reviewer: String) -> (r: Option<ReviewTask>)
        requires
            old(self).wf(),
        ensures
            final(self).wf(),
            match key_pos(old(self)@.review_tasks, task_id@) {
                Some(p) => r matches Some(t) && ({
                    &&& t.status == status
                    &&& t.reviewer == Some(reviewer)
                    &&& t.reviewed_at is Some
                    &&& t.id == old(self)@.review_tasks[p].1.id
                    &&& t.data_id == old(self)@.review_tasks[p].1.data_id
                    &&& t.current_classification == old(self)@.review_tasks[p].1.current_classification
                    &&& t.suggested_classification == old(self)@.review_tasks[p].1.suggested_classification
                    &&& t.created_at == old(self)@.review_tasks[p].1.created_at
                    &&& final(self)@ == (ManagerModel {
                        review_tasks: old(self)@.review_tasks.update(p, (task_id@, t)),
                        ..old(self)@
                    })
                }),
                None => r is None && final(self)@ == old(self)@,
            },
    {
        let ghost m = self@;
        match find_keyed(&self.review_tasks, task_id.as_str()) {
            Some(i) => {
                let (k, mut task) = self.review_tasks.remove(i);
                task.review(status, reviewer);
                let copy = task.duplicate();
                self.review_tasks.insert(i, (k, task));
                proof {
                    assert(keyed(self.review_tasks@) =~= m.review_tasks.update(i as int, (task_id@, copy)));
                    assert forall|a: int, b: int| 0 <= a < b < self@.review_tasks.len() implies #[trigger] self@.review_tasks[a].0
                        != #[trigger] self@.review_tasks[b].0 by {
                        assert(m.review_tasks[a].0 != m.review_tasks[b].0);
                    }
                }
                Some(copy)
            },
            None => None,
        }
    }

    /// The review tasks, in the order they were opened.
    pub fn list_review_tasks(&self) -> (r: Vec<&ReviewTask>)
        ensures
            r@.len() == self@.review_tasks.len(),
            forall|i: int| 0 <= i < r@.len() ==> *#[trigger] r@[i] == self@.review_tasks[i].1,
    {
        keyed_values(&self.review_tasks)
    }

    /// The review task with the given id.
    pub fn get_review_task(&self, task_id: &str) -> (r: Option<&ReviewTask>)
        requires
            self.wf(),
        ensures
            match key_pos(self@.review_tasks, task_id@) {
                Some(p) => r == Some(&self@.review_tasks[p].1),
                None => r is None,
            },
    {
        match find_keyed(&self.review_tasks, task_id) {
            Some(i) => Some(&self.review_tasks[i].1),
            None => None,
        }
    }
}

/// The result a classification keeps from those its classifiers gave: the
/// last of those with the highest confidence; with none, an internal
/// classification at 500 thousandths by "Default" that needs review.
pub fn best_result(results: Vec<ClassificationResult>) -> (r: ClassificationResult)
    ensures
        results@.len() > 0 ==> r == results@[best_pos(results@)],
        results@.len() == 0 ==> ({
            &&& r.classification == DataClassification::Internal
            &&& r.confidence_permille == 500
            &&& r.tags@.len() == 0
            &&& r.classified_by@ == "Default"@
            &&& r.needs_review
            &&& r.data_id@.len() == 36
        }),
{
    let mut results = results;
    if results.len() == 0 {
        return ClassificationResult {
            data_id: new_uuid(),
            classification: DataClassification::Internal,
            confidence_permille: 500,
            tags: Vec::new(),
            classified_by: String::from_str("Default"),
            classified_at: now_millis(),
            needs_review: true,
        };
    }
    let ghost rs = results@;
    let mut best: usize = 0;
    let mut i: usize = 1;
    assert(best_pos(rs.subrange(0, 1)) == 0);
    while i < results.len()
        invariant
            1 <= i <= results@.len(),
            rs == results@,
            best < i,
            best == best_pos(rs.subrange(0, i as int)),
        decreases results@.len() - i,
    {
        assert(rs.subrange(0, i as int + 1).drop_last() =~= rs.subrange(0, i as int));
        assert(rs.subrange(0, i as int)[best as int] == rs[best as int]);
        if results[i].confidence_permille >= results[best].confidence_permille {
            best = i;
        }
        i = i + 1;
    }
    assert(rs.subrange(0, i as int) =~= rs);
    results.swap_remove(best)
}

} // verus!
