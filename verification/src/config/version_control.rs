//! Versioned configurations: each version of a configuration with its
//! tags, the changes between two versions, branches, and merge requests
//! with their approvals. Times are milliseconds since the Unix epoch; the
//! store lives in memory, and its owner saves and loads it.

use vstd::prelude::*;
use crate::json::{JsonValue, JsonModel, items_model, members_model, lemma_items_model, lemma_members_model, key_index, lemma_key_index, find_key, json_model_of};
use crate::text::{decimal, u64_to_text, str_eq, contains_text_in};
use crate::engine::types::{texts, opt_text, clone_strings};
use crate::error::AetherisError;
use crate::runtime::{new_uuid, now_millis};

verus! {

broadcast use vstd::std_specs::vec::group_vec_axioms, vstd::seq::group_seq_axioms;

/// What a versioned configuration is.
#[derive(Debug, Clone)]
pub enum ConfigType {
    Aetheris,
    Soul,
    Skill,
    Agent,
    Security,
    Custom(String),
}

/// How a version came about.
#[derive(Debug, Clone, Copy, PartialEq, Eq, Structural)]
pub enum DiffType {
    Created,
    Modified,
    Deleted,
    Restored,
}

/// What happened to a value between two versions.
#[derive(Debug, Clone, Copy, PartialEq, Eq, Structural)]
pub enum ChangeType {
    Added,
    Modified,
    Removed,
}

/// Where a merge request stands.
#[derive(Debug, Clone, Copy, PartialEq, Eq, Structural)]
pub enum MergeRequestStatus {
    Draft,
    Open,
    Approved,
    Rejected,
    Merged,
    Closed,
}

/// One change between two versions of a configuration: where it is (a
/// dotted path, with `[i]` for array items), the values before and after,
/// and what kind of change it is.
#[derive(Debug)]
pub struct ConfigChange {
    pub path: String,
    pub old_value: Option<JsonValue>,
    pub new_value: Option<JsonValue>,
    pub change_type: ChangeType,
}

/// The model of a change.
pub struct ChangeModel {
    pub path: Seq<char>,
    pub old_value: Option<JsonModel>,
    pub new_value: Option<JsonModel>,
    pub change_type: ChangeType,
}

pub open spec fn opt_model(v: Option<JsonValue>) -> Option<JsonModel> {
    match v {
        Some(x) => Some(x@),
        None => None,
    }
}

impl View for ConfigChange {
    type V = ChangeModel;

    open spec fn view(&self) -> ChangeModel {
        ChangeModel {
            path: self.path@,
            old_value: opt_model(self.old_value),
            new_value: opt_model(self.new_value),
            change_type: self.change_type,
        }
    }
}

/// The models of a sequence of changes.
pub open spec fn change_models(s: Seq<ConfigChange>) -> Seq<ChangeModel> {
    s.map_values(|c: ConfigChange| c@)
}

/// The path of a member: the key alone at the top, else after a dot.
pub open spec fn member_path(path: Seq<char>, key: Seq<char>) -> Seq<char> {
    if path.len() == 0 {
        key
    } else {
        path + "."@ + key
    }
}

/// The path of an array item: the index in brackets.
pub open spec fn item_path(path: Seq<char>, i: nat) -> Seq<char> {
    path + "["@ + decimal(i) + "]"@
}

pub open spec fn change(path: Seq<char>, old: Option<JsonModel>, new: Option<JsonModel>, t: ChangeType) -> ChangeModel {
    ChangeModel { path, old_value: old, new_value: new, change_type: t }
}

/// The removals for the first `k` members of the old object whose keys the
/// new object lacks, in order.
pub open spec fn removed_members(om: Seq<(Seq<char>, JsonModel)>, nm: Seq<(Seq<char>, JsonModel)>, path: Seq<char>, k: int) -> Seq<ChangeModel>
    decreases k,
{
    if k <= 0 {
        Seq::empty()
    } else {
        let r = removed_members(om, nm, path, k - 1);
        if key_index(nm, om[k - 1].0) is None {
            r.push(change(member_path(path, om[k - 1].0), Some(om[k - 1].1), None, ChangeType::Removed))
        } else {
            r
        }
    }
}

/// The additions for the first `k` members of the new object whose keys the
/// old object lacks, in order.
pub open spec fn added_members(om: Seq<(Seq<char>, JsonModel)>, nm: Seq<(Seq<char>, JsonModel)>, path: Seq<char>, k: int) -> Seq<ChangeModel>
    decreases k,
{
    if k <= 0 {
        Seq::empty()
    } else {
        let r = added_members(om, nm, path, k - 1);
        if key_index(om, nm[k - 1].0) is None {
            r.push(change(member_path(path, nm[k - 1].0), None, Some(nm[k - 1].1), ChangeType::Added))
        } else {
            r
        }
    }
}

/// The removals of the old array's items from position `from` up to `k`.
pub open spec fn removed_items(oa: Seq<JsonModel>, path: Seq<char>, from: int, k: int) -> Seq<ChangeModel>
    decreases k - from,
{
    if k <= from {
        Seq::empty()
    } else {
        removed_items(oa, path, from, k - 1).push(change(item_path(path, (k - 1) as nat), Some(oa[k - 1]), None, ChangeType::Removed))
    }
}

/// The additions of the new array's items from position `from` up to `k`.
pub open spec fn added_items(na: Seq<JsonModel>, path: Seq<char>, from: int, k: int) -> Seq<ChangeModel>
    decreases k - from,
{
    if k <= from {
        Seq::empty()
    } else {
        added_items(na, path, from, k - 1).push(change(item_path(path, (k - 1) as nat), None, Some(na[k - 1]), ChangeType::Added))
    }
}

/// The changes inside the first `k` members of the old object whose keys
/// the new object has too, in order.
pub open spec fn common_members(om: Seq<(Seq<char>, JsonModel)>, nm: Seq<(Seq<char>, JsonModel)>, path: Seq<char>, k: int) -> Seq<ChangeModel>
    decreases om, k,
{
    if k <= 0 || k > om.len() {
        Seq::empty()
    } else {
        let r = common_members(om, nm, path, k - 1);
        match key_index(nm, om[k - 1].0) {
            Some(j) => if 0 <= j < nm.len() {
                proof {
                    assert(decreases_to!(om => om[k - 1]));
                }
                r + json_diff(om[k - 1].1, nm[j].1, member_path(path, om[k - 1].0))
            } else {
                r
            },
            None => r,
        }
    }
}

/// The changes inside the first `k` items the two arrays both have.
pub open spec fn zipped_items(oa: Seq<JsonModel>, na: Seq<JsonModel>, path: Seq<char>, k: int) -> Seq<ChangeModel>
    decreases oa, k,
{
    if k <= 0 || k > oa.len() || k > na.len() {
        Seq::empty()
    } else {
        zipped_items(oa, na, path, k - 1) + json_diff(oa[k - 1], na[k - 1], item_path(path, (k - 1) as nat))
    }
}

/// The changes from `old` to `new` at `path`: none when they are equal;
/// between two objects, the removed members, the added members, then the
/// changes inside the members both have; between two arrays, the changes
/// inside the items both have, then the removed or added items at the end;
/// otherwise one modification.
pub open spec fn json_diff(old: JsonModel, new: JsonModel, path: Seq<char>) -> Seq<ChangeModel>
    decreases old, 0int,
{
    if old == new {
        Seq::empty()
    } else {
        match (old, new) {
            (JsonModel::Object(om), JsonModel::Object(nm)) => removed_members(om, nm, path, om.len() as int) + added_members(
                om,
                nm,
                path,
                nm.len() as int,
            ) + common_members(om, nm, path, om.len() as int),
            (JsonModel::Array(oa), JsonModel::Array(na)) => {
                let m = if oa.len() < na.len() { oa.len() } else { na.len() };
                zipped_items(oa, na, path, m as int) + removed_items(oa, path, na.len() as int, oa.len() as int)
                    + added_items(na, path, oa.len() as int, na.len() as int)
            },
            _ => seq![change(path, Some(old), Some(new), ChangeType::Modified)],
        }
    }
}

/// The changes from an old value (if any) to a new one: without an old
/// value, one addition of the whole new value.
pub open spec fn config_diff(old: Option<JsonModel>, new: JsonModel, path: Seq<char>) -> Seq<ChangeModel> {
    match old {
        None => seq![change(path, None, Some(new), ChangeType::Added)],
        Some(o) => json_diff(o, new, path),
    }
}

/// The path of a member.
fn member_path_text(path: &str, key: &str) -> (r: String)
    ensures
        r@ == member_path(path@, key@),
{
    if path.unicode_len() == 0 {
        String::from_str(key)
    } else {
        let mut r = String::from_str(path);
        r.append(".");
        r.append(key);
        r
    }
}

/// The path of an array item.
fn item_path_text(path: &str, i: usize) -> (r: String)
    ensures
        r@ == item_path(path@, i as nat),
{
    let mut r = String::from_str(path);
    r.append("[");
    let digits = u64_to_text(i as u64);
    r.append(digits.as_str());
    r.append("]");
    r
}

fn push_change(changes: &mut Vec<ConfigChange>, c: ConfigChange)
    ensures
        change_models(final(changes)@) == change_models(old(changes)@).push(c@),
{
    let ghost before = changes@;
    changes.push(c);
    proof {
        assert(change_models(changes@) =~= change_models(before).push(c@));
    }
}

fn opt_dup(v: &JsonValue) -> (r: Option<JsonValue>)
    ensures
        opt_model(r) == Some(v@),
{
    Some(v.duplicate())
}

/// Appends to `changes` the changes from `prev` to `next` at `path`.
fn compare_json_values(prev: &JsonValue, next: &JsonValue, path: &str, changes: &mut Vec<ConfigChange>)
    ensures
        change_models(final(changes)@) == change_models(old(changes)@) + json_diff(prev@, next@, path@),
    decreases prev,
{
    let ghost start = changes@;
    if prev.equals(next) {
        assert(change_models(changes@) =~= change_models(start) + json_diff(prev@, next@, path@));
        return;
    }
    match (prev, next) {
        (JsonValue::Object(om), JsonValue::Object(nm)) => {
            let ghost omm = members_model(om@);
            let ghost nmm = members_model(nm@);
            proof {
                lemma_members_model(om@);
                lemma_members_model(nm@);
                assert(prev@ == JsonModel::Object(omm));
                assert(next@ == JsonModel::Object(nmm));
            }
            let mut k: usize = 0;
            while k < om.len()
                invariant
                    k <= om@.len(),
                    omm == members_model(om@),
                    nmm == members_model(nm@),
                    omm.len() == om@.len(),
                    forall|q: int| 0 <= q < om@.len() ==> #[trigger] omm[q] == (om@[q].0@, json_model_of(om@[q].1)),
                    change_models(changes@) == change_models(start) + removed_members(omm, nmm, path@, k as int),
                decreases om@.len() - k,
            {
                if find_key(nm, om[k].0.as_str()).is_none() {
                    push_change(changes, ConfigChange {
                        path: member_path_text(path, om[k].0.as_str()),
                        old_value: opt_dup(&om[k].1),
                        new_value: None,
                        change_type: ChangeType::Removed,
                    });
                }
                proof {
                    assert(change_models(changes@) =~= change_models(start) + removed_members(omm, nmm, path@, k as int + 1));
                }
                k = k + 1;
            }
            let ghost after_removed = changes@;
            let mut k: usize = 0;
            while k < nm.len()
                invariant
                    k <= nm@.len(),
                    omm == members_model(om@),
                    nmm == members_model(nm@),
                    nmm.len() == nm@.len(),
                    forall|q: int| 0 <= q < nm@.len() ==> #[trigger] nmm[q] == (nm@[q].0@, json_model_of(nm@[q].1)),
                    change_models(changes@) == change_models(after_removed) + added_members(omm, nmm, path@, k as int),
                decreases nm@.len() - k,
            {
                if find_key(om, nm[k].0.as_str()).is_none() {
                    push_change(changes, ConfigChange {
                        path: member_path_text(path, nm[k].0.as_str()),
                        old_value: None,
                        new_value: opt_dup(&nm[k].1),
                        change_type: ChangeType::Added,
                    });
                }
                proof {
                    assert(change_models(changes@) =~= change_models(after_removed) + added_members(omm, nmm, path@, k as int + 1));
                }
                k = k + 1;
            }
            let ghost after_added = changes@;
            let mut k: usize = 0;
            while k < om.len()
                invariant
                    k <= om@.len(),
                    omm == members_model(om@),
                    nmm == members_model(nm@),
                    omm.len() == om@.len(),
                    nmm.len() == nm@.len(),
                    forall|q: int| 0 <= q < om@.len() ==> #[trigger] omm[q] == (om@[q].0@, json_model_of(om@[q].1)),
                    forall|q: int| 0 <= q < nm@.len() ==> #[trigger] nmm[q] == (nm@[q].0@, json_model_of(nm@[q].1)),
                    change_models(changes@) == change_models(after_added) + common_members(omm, nmm, path@, k as int),
                    decreases_to!(*prev => om),
                decreases om@.len() - k,
            {
                assert(decreases_to!(*prev => om@[k as int].1));
                proof {
                    lemma_key_index(nmm, om@[k as int].0@);
                }
                match find_key(nm, om[k].0.as_str()) {
                    Some(j) => {
                        let sub = member_path_text(path, om[k].0.as_str());
                        let ghost before = changes@;
                        compare_json_values(&om[k].1, &nm[j].1, sub.as_str(), changes);
                        proof {
                            assert(common_members(omm, nmm, path@, k as int + 1) =~= common_members(omm, nmm, path@, k as int)
                                + json_diff(om@[k as int].1@, nm@[j as int].1@, sub@));
                            assert(change_models(changes@) =~= change_models(after_added) + common_members(omm, nmm, path@, k as int + 1));
                        }
                    },
                    None => {
                        proof {
                            assert(common_members(omm, nmm, path@, k as int + 1) =~= common_members(omm, nmm, path@, k as int));
                        }
                    },
                }
                k = k + 1;
            }
            proof {
                assert(change_models(changes@) =~= change_models(start) + json_diff(prev@, next@, path@));
            }
        },
        (JsonValue::Array(oa), JsonValue::Array(na)) => {
            let ghost oam = items_model(oa@);
            let ghost nam = items_model(na@);
            proof {
                lemma_items_model(oa@);
                lemma_items_model(na@);
                assert(prev@ == JsonModel::Array(oam));
                assert(next@ == JsonModel::Array(nam));
            }
            let m = if oa.len() < na.len() { oa.len() } else { na.len() };
            let mut k: usize = 0;
            while k < m
                invariant
                    k <= m,
                    m <= oa@.len(),
                    m <= na@.len(),
                    m == (if oa@.len() < na@.len() { oa@.len() } else { na@.len() }),
                    oam == items_model(oa@),
                    nam == items_model(na@),
                    oam.len() == oa@.len(),
                    nam.len() == na@.len(),
                    forall|q: int| 0 <= q < oa@.len() ==> #[trigger] oam[q] == json_model_of(oa@[q]),
                    forall|q: int| 0 <= q < na@.len() ==> #[trigger] nam[q] == json_model_of(na@[q]),
                    change_models(changes@) == change_models(start) + zipped_items(oam, nam, path@, k as int),
                    decreases_to!(*prev => oa),
                decreases m - k,
            {
                assert(decreases_to!(*prev => oa@[k as int]));
                let sub = item_path_text(path, k);
                compare_json_values(&oa[k], &na[k], sub.as_str(), changes);
                proof {
                    assert(zipped_items(oam, nam, path@, k as int + 1) =~= zipped_items(oam, nam, path@, k as int)
                        + json_diff(oa@[k as int]@, na@[k as int]@, sub@));
                    assert(change_models(changes@) =~= change_models(start) + zipped_items(oam, nam, path@, k as int + 1));
                }
                k = k + 1;
            }
            let ghost after_zip = changes@;
            let mut k: usize = na.len();
            while k < oa.len()
                invariant
                    na@.len() <= k <= oa@.len() || (k == na@.len() && oa@.len() <= na@.len()),
                    oam == items_model(oa@),
                    oam.len() == oa@.len(),
                    forall|q: int| 0 <= q < oa@.len() ==> #[trigger] oam[q] == json_model_of(oa@[q]),
                    change_models(changes@) == change_models(after_zip) + removed_items(oam, path@, na@.len() as int, k as int),
                decreases oa@.len() - k,
            {
                push_change(changes, ConfigChange {
                    path: item_path_text(path, k),
                    old_value: opt_dup(&oa[k]),
                    new_value: None,
                    change_type: ChangeType::Removed,
                });
                proof {
                    assert(change_models(changes@) =~= change_models(after_zip) + removed_items(oam, path@, na@.len() as int, k as int + 1));
                }
                k = k + 1;
            }
            proof {
                if oa@.len() <= na@.len() {
                    assert(removed_items(oam, path@, na@.len() as int, oa@.len() as int) =~= Seq::<ChangeModel>::empty());
                    assert(removed_items(oam, path@, na@.len() as int, k as int) =~= Seq::<ChangeModel>::empty());
                }
            }
            let ghost after_removed = changes@;
            let mut k: usize = oa.len();
            while k < na.len()
                invariant
                    oa@.len() <= k <= na@.len() || (k == oa@.len() && na@.len() <= oa@.len()),
                    nam == items_model(na@),
                    nam.len() == na@.len(),
                    forall|q: int| 0 <= q < na@.len() ==> #[trigger] nam[q] == json_model_of(na@[q]),
                    change_models(changes@) == change_models(after_removed) + added_items(nam, path@, oa@.len() as int, k as int),
                decreases na@.len() - k,
            {
                push_change(changes, ConfigChange {
                    path: item_path_text(path, k),
                    old_value: None,
                    new_value: opt_dup(&na[k]),
                    change_type: ChangeType::Added,
                });
                proof {
                    assert(change_models(changes@) =~= change_models(after_removed) + added_items(nam, path@, oa@.len() as int, k as int + 1));
                }
                k = k + 1;
            }
            proof {
                if na@.len() <= oa@.len() {
                    assert(added_items(nam, path@, oa@.len() as int, na@.len() as int) =~= Seq::<ChangeModel>::empty());
                    assert(added_items(nam, path@, oa@.len() as int, k as int) =~= Seq::<ChangeModel>::empty());
                }
                assert(change_models(changes@) =~= change_models(start) + json_diff(prev@, next@, path@));
            }
        },
        _ => {
            push_change(changes, ConfigChange {
                path: String::from_str(path),
                old_value: opt_dup(prev),
                new_value: opt_dup(next),
                change_type: ChangeType::Modified,
            });
            proof {
                assert(!(prev@ is Object && next@ is Object));
                assert(!(prev@ is Array && next@ is Array));
                assert(change_models(changes@) =~= change_models(start) + json_diff(prev@, next@, path@));
            }
        },
    }
}

/// The changes from an old configuration (if there is one) to a new one,
/// from the top: without an old one, the whole new configuration is one
/// addition; otherwise nothing when they are equal, and else the removed,
/// added and changed members of objects, the changed, removed and added
/// items of arrays, and the modified values, each at its path.
pub fn calculate_changes(old_data: Option<&JsonValue>, new_data: &JsonValue) -> (r: Vec<ConfigChange>)
    ensures
        change_models(r@) == config_diff(
            match old_data { Some(o) => Some(o@), None => None },
            new_data@,
            Seq::empty(),
        ),
{
    let mut changes: Vec<ConfigChange> = Vec::new();
    proof {
        reveal_strlit("");
    }
    match old_data {
        None => {
            push_change(&mut changes, ConfigChange {
                path: String::new(),
                old_value: None,
                new_value: opt_dup(new_data),
                change_type: ChangeType::Added,
            });
            assert(change_models(changes@) =~= seq![change(Seq::empty(), None, Some(new_data@), ChangeType::Added)]);
        },
        Some(o) => {
            let top = String::new();
            compare_json_values(o, new_data, top.as_str(), &mut changes);
            assert(change_models(changes@) =~= json_diff(o@, new_data@, Seq::empty()));
        },
    }
    changes
}


/// A configuration type as a key: its variant, and the name of a custom
/// type.
pub open spec fn type_key(t: ConfigType) -> (int, Seq<char>) {
    match t {
        ConfigType::Aetheris => (0, Seq::empty()),
        ConfigType::Soul => (1, Seq::empty()),
        ConfigType::Skill => (2, Seq::empty()),
        ConfigType::Agent => (3, Seq::empty()),
        ConfigType::Security => (4, Seq::empty()),
        ConfigType::Custom(s) => (5, s@),
    }
}

impl ConfigType {
    /// Whether two types are the same, custom ones by name.
    pub fn same(&self, other: &ConfigType) -> (r: bool)
        ensures
            r == (type_key(*self) == type_key(*other)),
    {
        match (self, other) {
            (ConfigType::Aetheris, ConfigType::Aetheris) => true,
            (ConfigType::Soul, ConfigType::Soul) => true,
            (ConfigType::Skill, ConfigType::Skill) => true,
            (ConfigType::Agent, ConfigType::Agent) => true,
            (ConfigType::Security, ConfigType::Security) => true,
            (ConfigType::Custom(a), ConfigType::Custom(b)) => str_eq(a.as_str(), b.as_str()),
            _ => false,
        }
    }

    /// A copy of the type.
    pub fn duplicate(&self) -> (r: ConfigType)
        ensures
            type_key(r) == type_key(*self),
    {
        match self {
            ConfigType::Aetheris => ConfigType::Aetheris,
            ConfigType::Soul => ConfigType::Soul,
            ConfigType::Skill => ConfigType::Skill,
            ConfigType::Agent => ConfigType::Agent,
            ConfigType::Security => ConfigType::Security,
            ConfigType::Custom(s) => ConfigType::Custom(s.clone()),
        }
    }
}

/// Where the first of the given ids equal to `id` is.
pub open spec fn first_pos(ids: Seq<Seq<char>>, id: Seq<char>) -> Option<int>
    decreases ids.len(),
{
    if ids.len() == 0 {
        None
    } else {
        match first_pos(ids.drop_last(), id) {
            Some(i) => Some(i),
            None => if ids.last() == id {
                Some(ids.len() - 1)
            } else {
                None
            },
        }
    }
}

pub proof fn lemma_first_pos(ids: Seq<Seq<char>>, id: Seq<char>)
    ensures
        match first_pos(ids, id) {
            Some(p) => 0 <= p < ids.len() && ids[p] == id && forall|k: int| 0 <= k < p ==> ids[k] != id,
            None => forall|k: int| 0 <= k < ids.len() ==> ids[k] != id,
        },
    decreases ids.len(),
{
    if ids.len() > 0 {
        lemma_first_pos(ids.drop_last(), id);
        assert forall|k: int| 0 <= k < ids.len() - 1 implies #[trigger] ids[k] == ids.drop_last()[k] by {}
    }
}

proof fn lemma_first_pos_prefix(ids: Seq<Seq<char>>, j: int, id: Seq<char>)
    requires
        0 <= j <= ids.len(),
        first_pos(ids.subrange(0, j), id) is Some,
    ensures
        first_pos(ids, id) == first_pos(ids.subrange(0, j), id),
    decreases ids.len() - j,
{
    if j < ids.len() {
        assert(ids.subrange(0, j + 1).drop_last() =~= ids.subrange(0, j));
        lemma_first_pos_prefix(ids, j + 1, id);
    } else {
        assert(ids.subrange(0, j) =~= ids);
    }
}

/// One version of a configuration.
#[derive(Debug)]
pub struct ConfigVersion {
    pub version_id: String,
    pub config_type: ConfigType,
    pub config_id: String,
    pub version_number: u32,
    pub config_data: JsonValue,
    pub author: String,
    pub message: String,
    pub created_at: i64,
    pub parent_version: Option<String>,
    pub tags: Vec<String>,
    pub is_immutable: bool,
}

/// The model of a version.
pub struct VersionModel {
    pub version_id: Seq<char>,
    pub config_type: (int, Seq<char>),
    pub config_id: Seq<char>,
    pub version_number: u32,
    pub config_data: JsonModel,
    pub author: Seq<char>,
    pub message: Seq<char>,
    pub created_at: i64,
    pub parent_version: Option<Seq<char>>,
    pub tags: Seq<Seq<char>>,
    pub is_immutable: bool,
}

impl View for ConfigVersion {
    type V = VersionModel;

    open spec fn view(&self) -> VersionModel {
        VersionModel {
            version_id: self.version_id@,
            config_type: type_key(self.config_type),
            config_id: self.config_id@,
            version_number: self.version_number,
            config_data: self.config_data@,
            author: self.author@,
            message: self.message@,
            created_at: self.created_at,
            parent_version: opt_text(self.parent_version),
            tags: texts(self.tags@),
            is_immutable: self.is_immutable,
        }
    }
}

impl ConfigVersion {
    /// A copy of the version.
    pub fn duplicate(&self) -> (r: ConfigVersion)
        ensures
            r@ == self@,
    {
        ConfigVersion {
            version_id: self.version_id.clone(),
            config_type: self.config_type.duplicate(),
            config_id: self.config_id.clone(),
            version_number: self.version_number,
            config_data: self.config_data.duplicate(),
            author: self.author.clone(),
            message: self.message.clone(),
            created_at: self.created_at,
            parent_version: match &self.parent_version {
                Some(p) => Some(p.clone()),
                None => None,
            },
            tags: clone_strings(&self.tags),
            is_immutable: self.is_immutable,
        }
    }
}

/// A line of development of configurations, by name, with the version at
/// its head (empty for none).
#[derive(Debug)]
pub struct ConfigBranch {
    pub branch_id: String,
    pub name: String,
    pub description: String,
    pub created_at: i64,
    pub created_by: String,
    pub head_version: String,
    pub is_protected: bool,
}

impl ConfigBranch {
    /// A copy of the branch.
    pub fn duplicate(&self) -> (r: ConfigBranch)
        ensures
            r == *self,
    {
        ConfigBranch {
            branch_id: self.branch_id.clone(),
            name: self.name.clone(),
            description: self.description.clone(),
            created_at: self.created_at,
            created_by: self.created_by.clone(),
            head_version: self.head_version.clone(),
            is_protected: self.is_protected,
        }
    }
}

/// A request to merge one branch into another, with who approved it.
#[derive(Debug)]
pub struct ConfigMergeRequest {
    pub request_id: String,
    pub title: String,
    pub description: String,
    pub source_branch: String,
    pub target_branch: String,
    pub created_by: String,
    pub created_at: i64,
    pub status: MergeRequestStatus,
    pub approved_by: Vec<String>,
    pub approvals_required: u32,
}

/// The model of a merge request.
pub struct MergeModel {
    pub request_id: Seq<char>,
    pub title: Seq<char>,
    pub description: Seq<char>,
    pub source_branch: Seq<char>,
    pub target_branch: Seq<char>,
    pub created_by: Seq<char>,
    pub created_at: i64,
    pub status: MergeRequestStatus,
    pub approved_by: Seq<Seq<char>>,
    pub approvals_required: u32,
}

impl View for ConfigMergeRequest {
    type V = MergeModel;

    open spec fn view(&self) -> MergeModel {
        MergeModel {
            request_id: self.request_id@,
            title: self.title@,
            description: self.description@,
            source_branch: self.source_branch@,
            target_branch: self.target_branch@,
            created_by: self.created_by@,
            created_at: self.created_at,
            status: self.status,
            approved_by: texts(self.approved_by@),
            approvals_required: self.approvals_required,
        }
    }
}

impl ConfigMergeRequest {
    /// A copy of the request.
    pub fn duplicate(&self) -> (r: ConfigMergeRequest)
        ensures
            r@ == self@,
    {
        ConfigMergeRequest {
            request_id: self.request_id.clone(),
            title: self.title.clone(),
            description: self.description.clone(),
            source_branch: self.source_branch.clone(),
            target_branch: self.target_branch.clone(),
            created_by: self.created_by.clone(),
            created_at: self.created_at,
            status: self.status,
            approved_by: clone_strings(&self.approved_by),
            approvals_required: self.approvals_required,
        }
    }
}

/// The changes between two versions, and how the newer came about.
#[derive(Debug)]
pub struct ConfigDiff {
    pub old_version: Option<String>,
    pub new_version: String,
    pub changes: Vec<ConfigChange>,
    pub diff_type: DiffType,
}

/// The model of the version store.
pub struct VcsModel {
    pub versions: Seq<VersionModel>,
    pub branches: Seq<ConfigBranch>,
    pub merge_requests: Seq<MergeModel>,
    pub version_index: Seq<((int, Seq<char>), Seq<char>, Seq<Seq<char>>)>,
    pub tag_index: Seq<(Seq<char>, Seq<Seq<char>>)>,
}

/// The versions of configurations, their branches and merge requests, with
/// the versions of each configuration in the order they were made and the
/// versions carrying each tag.
#[derive(Debug)]
pub struct ConfigVersionControl {
    versions: Vec<ConfigVersion>,
    branches: Vec<ConfigBranch>,
    merge_requests: Vec<ConfigMergeRequest>,
    version_index: Vec<(ConfigType, String, Vec<String>)>,
    tag_index: Vec<(String, Vec<String>)>,
}

impl View for ConfigVersionControl {
    type V = VcsModel;

    closed spec fn view(&self) -> VcsModel {
        VcsModel {
            versions: self.versions@.map_values(|v: ConfigVersion| v@),
            branches: self.branches@,
            merge_requests: self.merge_requests@.map_values(|m: ConfigMergeRequest| m@),
            version_index: self.version_index@.map_values(
                |e: (ConfigType, String, Vec<String>)| (type_key(e.0), e.1@, texts(e.2@)),
            ),
            tag_index: self.tag_index@.map_values(|e: (String, Vec<String>)| (e.0@, texts(e.1@))),
        }
    }
}

/// The ids of the stored versions.
pub open spec fn version_ids(vs: Seq<VersionModel>) -> Seq<Seq<char>> {
    vs.map_values(|v: VersionModel| v.version_id)
}

/// The stored version with the given id.
pub open spec fn version_at(vs: Seq<VersionModel>, id: Seq<char>) -> Option<VersionModel> {
    match first_pos(version_ids(vs), id) {
        Some(p) => Some(vs[p]),
        None => None,
    }
}

/// The versions after storing one: it replaces a stored version with the
/// same id, or else comes last.
pub open spec fn store_version(vs: Seq<VersionModel>, v: VersionModel) -> Seq<VersionModel> {
    match first_pos(version_ids(vs), v.version_id) {
        Some(p) => vs.update(p, v),
        None => vs.push(v),
    }
}

/// Where the index entry of a configuration is.
pub open spec fn index_pos(vi: Seq<((int, Seq<char>), Seq<char>, Seq<Seq<char>>)>, t: (int, Seq<char>), id: Seq<char>) -> Option<int> {
    if exists|i: int| 0 <= i < vi.len() && vi[i].0 == t && vi[i].1 == id {
        Some(choose|i: int| 0 <= i < vi.len() && vi[i].0 == t && vi[i].1 == id)
    } else {
        None
    }
}

/// The ids of a configuration's versions, in the order they were made.
pub open spec fn index_ids(vi: Seq<((int, Seq<char>), Seq<char>, Seq<Seq<char>>)>, t: (int, Seq<char>), id: Seq<char>) -> Seq<Seq<char>> {
    match index_pos(vi, t, id) {
        Some(p) => vi[p].2,
        None => Seq::empty(),
    }
}

/// No configuration has two entries in the index, and no tag two entries
/// in the tag index.
pub open spec fn distinct_keys(m: VcsModel) -> bool {
    &&& forall|i: int, j: int| 0 <= i < j < m.version_index.len() ==>
        !(m.version_index[i].0 == m.version_index[j].0 && m.version_index[i].1 == m.version_index[j].1)
    &&& forall|i: int, j: int| 0 <= i < j < m.tag_index.len() ==> m.tag_index[i].0 != m.tag_index[j].0
    &&& forall|i: int, j: int| 0 <= i < j < m.branches.len() ==> m.branches[i].name@ != m.branches[j].name@
}

/// The index after a new version of a configuration: its id joins the
/// configuration's entry, which is made if there is none.
pub open spec fn index_add(vi: Seq<((int, Seq<char>), Seq<char>, Seq<Seq<char>>)>, t: (int, Seq<char>), id: Seq<char>, v: Seq<char>)
    -> Seq<((int, Seq<char>), Seq<char>, Seq<Seq<char>>)> {
    match index_pos(vi, t, id) {
        Some(p) => vi.update(p, (t, id, vi[p].2.push(v))),
        None => vi.push((t, id, seq![v])),
    }
}

impl ConfigVersionControl {
    /// The invariant of the store.
    pub closed spec fn wf(&self) -> bool {
        distinct_keys(self@)
    }

    /// An empty store.
    pub fn new() -> (s: ConfigVersionControl)
        ensures
            s.wf(),
            s@.versions.len() == 0,
            s@.branches.len() == 0,
            s@.merge_requests.len() == 0,
            s@.version_index.len() == 0,
            s@.tag_index.len() == 0,
    {
        ConfigVersionControl {
            versions: Vec::new(),
            branches: Vec::new(),
            merge_requests: Vec::new(),
            version_index: Vec::new(),
            tag_index: Vec::new(),
        }
    }

    /// An empty store.
    pub fn default() -> (s: ConfigVersionControl)
        ensures
            s.wf(),
            s@.versions.len() == 0,
            s@.branches.len() == 0,
            s@.merge_requests.len() == 0,
            s@.version_index.len() == 0,
            s@.tag_index.len() == 0,
    {
        ConfigVersionControl::new()
    }

    fn find_version(&self, version_id: &str) -> (r: Option<usize>)
        ensures
            match r {
                Some(p) => first_pos(version_ids(self@.versions), version_id@) == Some(p as int) && p < self.versions@.len(),
                None => first_pos(version_ids(self@.versions), version_id@) is None,
            },
    {
        let ghost ids = version_ids(self@.versions);
        let mut i: usize = 0;
        while i < self.versions.len()
            invariant
                i <= self.versions@.len(),
                ids == version_ids(self@.versions),
                ids.len() == self.versions@.len(),
                first_pos(ids.subrange(0, i as int), version_id@) is None,
            decreases self.versions@.len() - i,
        {
            assert(ids.subrange(0, i as int + 1).drop_last() =~= ids.subrange(0, i as int));
            assert(ids[i as int] == self.versions@[i as int].version_id@);
            if str_eq(self.versions[i].version_id.as_str(), version_id) {
                proof {
                    assert(first_pos(ids.subrange(0, i as int + 1), version_id@) == Some(i as int));
                    lemma_first_pos_prefix(ids, i as int + 1, version_id@);
                }
                return Some(i);
            }
            i = i + 1;
        }
        assert(ids.subrange(0, i as int) =~= ids);
        None
    }

    fn find_index(&self, config_type: &ConfigType, config_id: &str) -> (r: Option<usize>)
        requires
            self.wf(),
        ensures
            match r {
                Some(p) => index_pos(self@.version_index, type_key(*config_type), config_id@) == Some(p as int),
                None => index_pos(self@.version_index, type_key(*config_type), config_id@) is None,
            },
            r is Some ==> r->Some_0 < self.version_index@.len(),
            r is Some ==> self@.version_index[r->Some_0 as int].0 == type_key(*config_type)
                && self@.version_index[r->Some_0 as int].1 == config_id@,
    {
        let ghost vi = self@.version_index;
        let mut i: usize = 0;
        while i < self.version_index.len()
            invariant
                i <= self.version_index@.len(),
                vi == self@.version_index,
                vi.len() == self.version_index@.len(),
                self.wf(),
                forall|k: int| 0 <= k < i ==> !(vi[k].0 == type_key(*config_type) && vi[k].1 == config_id@),
            decreases self.version_index@.len() - i,
        {
            assert(vi[i as int] == (type_key(self.version_index@[i as int].0), self.version_index@[i as int].1@, texts(self.version_index@[i as int].2@)));
            if self.version_index[i].0.same(config_type) && str_eq(self.version_index[i].1.as_str(), config_id) {
                proof {
                    let t = type_key(*config_type);
                    assert(vi[i as int].0 == t && vi[i as int].1 == config_id@);
                    let c = choose|c: int| 0 <= c < vi.len() && vi[c].0 == t && vi[c].1 == config_id@;
                    assert(distinct_keys(self@));
                    if c < i as int {
                        assert(!(vi[c].0 == vi[i as int].0 && vi[c].1 == vi[i as int].1));
                    } else if c > i as int {
                        assert(!(vi[i as int].0 == vi[c].0 && vi[i as int].1 == vi[c].1));
                    }
                }
                return Some(i);
            }
            i = i + 1;
        }
        None
    }

    /// The stored version with the given id.
    pub fn get_version(&self, version_id: &str) -> (r: Option<ConfigVersion>)
        ensures
            match version_at(self@.versions, version_id@) {
                Some(v) => r is Some && r->Some_0@ == v,
                None => r is None,
            },
    {
        match self.find_version(version_id) {
            Some(p) => Some(self.versions[p].duplicate()),
            None => None,
        }
    }

    /// Stores a new version of a configuration: numbered one past the
    /// versions it already has, with a fresh id, made now, with no tags and
    /// not immutable. It joins the configuration's versions.
    pub fn create_version(
        &mut self,
        config_type: ConfigType,
        config_id: String,
        config_data: JsonValue,
        author: String,
        message: String,
        parent_version: Option<String>,
    ) -> (v: ConfigVersion)
        requires
            old(self).wf(),
            index_ids(old(self)@.version_index, type_key(config_type), config_id@).len() < u32::MAX,
        ensures
            final(self).wf(),
            v@.version_number == index_ids(old(self)@.version_index, type_key(config_type), config_id@).len() + 1,
            v@.config_type == type_key(config_type),
            v@.config_id == config_id@,
            v@.config_data == config_data@,
            v@.author == author@,
            v@.message == message@,
            v@.parent_version == opt_text(parent_version),
            v@.tags.len() == 0,
            !v@.is_immutable,
            v@.version_id.len() == 36,
            final(self)@.versions == store_version(old(self)@.versions, v@),
            final(self)@.version_index == index_add(old(self)@.version_index, type_key(config_type), config_id@, v@.version_id),
            final(self)@.branches == old(self)@.branches,
            final(self)@.merge_requests == old(self)@.merge_requests,
            final(self)@.tag_index == old(self)@.tag_index,
            index_ids(final(self)@.version_index, type_key(config_type), config_id@) == index_ids(
                old(self)@.version_index,
                type_key(config_type),
                config_id@,
            ).push(v@.version_id),
            version_at(final(self)@.versions, v@.version_id) == Some(v@),
            !version_ids(old(self)@.versions).contains(v@.version_id) ==> final(self)@.versions == old(self)@.versions.push(v@),
    {
        let ghost old_m = self@;
        let ghost t = type_key(config_type);
        let key_pos = self.find_index(&config_type, config_id.as_str());
        let n = match key_pos {
            Some(p) => self.version_index[p].2.len(),
            None => 0,
        };
        proof {
            if let Some(p) = key_pos {
                assert(old_m.version_index[p as int].2 == texts(self.version_index@[p as int].2@));
            }
        }
        let version_id = new_uuid();
        let version = ConfigVersion {
            version_id: version_id.clone(),
            config_type: config_type.duplicate(),
            config_id: config_id.clone(),
            version_number: n as u32 + 1,
            config_data,
            author,
            message,
            created_at: now_millis(),
            parent_version,
            tags: Vec::new(),
            is_immutable: false,
        };
        let ghost vm = version@;
        assert(vm.tags =~= Seq::<Seq<char>>::empty());
        match self.find_version(version_id.as_str()) {
            Some(p) => {
                self.versions.set(p, version.duplicate());
                assert(self@.versions =~= old_m.versions.update(p as int, vm));
            },
            None => {
                self.versions.push(version.duplicate());
                assert(self@.versions =~= old_m.versions.push(vm));
            },
        }
        match key_pos {
            Some(p) => {
                let mut ids = clone_strings(&self.version_index[p].2);
                ids.push(version_id);
                let entry = (config_type, config_id, ids);
                self.version_index.set(p, entry);
                proof {
                    assert(texts(ids@) =~= old_m.version_index[p as int].2.push(vm.version_id));
                    assert(self@.version_index =~= old_m.version_index.update(p as int, (t, config_id@, old_m.version_index[p as int].2.push(vm.version_id))));
                }
            },
            None => {
                let mut ids: Vec<String> = Vec::new();
                ids.push(version_id);
                self.version_index.push((config_type, config_id, ids));
                proof {
                    assert(texts(ids@) =~= seq![vm.version_id]);
                    assert(self@.version_index =~= old_m.version_index.push((t, config_id@, seq![vm.version_id])));
                }
            },
        }
        proof {
            let vi = self@.version_index;
            assert(self@.branches == old_m.branches);
            assert(self@.tag_index =~= old_m.tag_index);
            assert(self@.merge_requests =~= old_m.merge_requests);
            assert forall|i: int, j: int| 0 <= i < j < vi.len() implies !(vi[i].0 == vi[j].0 && vi[i].1 == vi[j].1) by {
                if key_pos is None {
                    if j == vi.len() - 1 {
                        assert(old_m.version_index.len() == j);
                        assert(!(old_m.version_index[i].0 == t && old_m.version_index[i].1 == config_id@));
                    } else {
                        assert(vi[i] == old_m.version_index[i]);
                        assert(vi[j] == old_m.version_index[j]);
                    }
                } else {
                    assert(vi[i].0 == old_m.version_index[i].0 && vi[i].1 == old_m.version_index[i].1);
                    assert(vi[j].0 == old_m.version_index[j].0 && vi[j].1 == old_m.version_index[j].1);
                }
            }
            law_new_version_is_latest(old_m, vm, t, config_id@);
        }
        version
    }

    /// How many versions are stored.
    pub fn version_count(&self) -> (n: usize)
        ensures
            n == self@.versions.len(),
    {
        self.versions.len()
    }

    /// The latest version of a configuration.
    pub fn get_latest_version(&self, config_type: &ConfigType, config_id: &str) -> (r: Option<ConfigVersion>)
        requires
            self.wf(),
        ensures
            ({
                let ids = index_ids(self@.version_index, type_key(*config_type), config_id@);
                if ids.len() == 0 {
                    r is None
                } else {
                    match version_at(self@.versions, ids.last()) {
                        Some(v) => r is Some && r->Some_0@ == v,
                        None => r is None,
                    }
                }
            }),
    {
        match self.find_index(config_type, config_id) {
            Some(p) => {
                let ids = &self.version_index[p].2;
                proof {
                    assert(index_ids(self@.version_index, type_key(*config_type), config_id@) == texts(ids@));
                }
                if ids.len() == 0 {
                    None
                } else {
                    self.get_version(ids[ids.len() - 1].as_str())
                }
            },
            None => None,
        }
    }

    /// The versions of a configuration, in the order they were made.
    pub fn list_versions(&self, config_type: &ConfigType, config_id: &str) -> (r: Vec<ConfigVersion>)
        requires
            self.wf(),
        ensures
            r@.map_values(|v: ConfigVersion| v@)
                == versions_of(self@.versions, index_ids(self@.version_index, type_key(*config_type), config_id@)),
    {
        match self.find_index(config_type, config_id) {
            Some(p) => {
                proof {
                    assert(index_ids(self@.version_index, type_key(*config_type), config_id@) == texts(self.version_index@[p as int].2@));
                }
                self.versions_with_ids(&self.version_index[p].2)
            },
            None => {
                let r: Vec<ConfigVersion> = Vec::new();
                assert(r@.map_values(|v: ConfigVersion| v@) =~= Seq::<VersionModel>::empty());
                r
            },
        }
    }

    fn versions_with_ids(&self, ids: &Vec<String>) -> (r: Vec<ConfigVersion>)
        ensures
            r@.map_values(|v: ConfigVersion| v@) == versions_of(self@.versions, texts(ids@)),
    {
        let mut r: Vec<ConfigVersion> = Vec::new();
        let mut i: usize = 0;
        while i < ids.len()
            invariant
                i <= ids@.len(),
                r@.map_values(|v: ConfigVersion| v@) == versions_of(self@.versions, texts(ids@).subrange(0, i as int)),
            decreases ids@.len() - i,
        {
            assert(texts(ids@).subrange(0, i as int + 1).drop_last() =~= texts(ids@).subrange(0, i as int));
            assert(texts(ids@)[i as int] == ids@[i as int]@);
            let ghost before = r@;
            match self.get_version(ids[i].as_str()) {
                Some(v) => {
                    r.push(v);
                    assert(r@.map_values(|v: ConfigVersion| v@) =~= before.map_values(|v: ConfigVersion| v@).push(r@.last()@));
                },
                None => {},
            }
            i = i + 1;
        }
        assert(texts(ids@).subrange(0, i as int) =~= texts(ids@));
        r
    }

    /// The changes from one version to another. Without the old version,
    /// the new one counts as created and is one addition; without the new
    /// one, the answer is that it was not found.
    pub fn compare_versions(&self, old_version_id: &str, new_version_id: &str) -> (r: Result<ConfigDiff, AetherisError>)
        ensures
            match version_at(self@.versions, new_version_id@) {
                None => r is Err && is_not_found(r->Err_0, "New version not found: "@ + new_version_id@),
                Some(nv) => r is Ok && {
                    let d = r->Ok_0;
                    let ov = version_at(self@.versions, old_version_id@);
                    &&& d.new_version@ == nv.version_id
                    &&& opt_text(d.old_version) == match ov { Some(o) => Some(o.version_id), None => None::<Seq<char>> }
                    &&& d.diff_type == if ov is None { DiffType::Created } else { DiffType::Modified }
                    &&& change_models(d.changes@) == config_diff(
                        match ov { Some(o) => Some(o.config_data), None => None::<JsonModel> },
                        nv.config_data,
                        Seq::empty(),
                    )
                    &&& old_version_id@ == new_version_id@ ==> d.changes@.len() == 0
                },
            },
    {
        let old_pos = self.find_version(old_version_id);
        match self.find_version(new_version_id) {
            None => Err(not_found("New version not found: ", new_version_id)),
            Some(np) => {
                let nv = &self.versions[np];
                let (old_version, diff_type, changes) = match old_pos {
                    Some(op) => {
                        let ov = &self.versions[op];
                        (Some(ov.version_id.clone()), DiffType::Modified, calculate_changes(Some(&ov.config_data), &nv.config_data))
                    },
                    None => (None, DiffType::Created, calculate_changes(None, &nv.config_data)),
                };
                proof {
                    law_no_changes_without_difference(self@.versions[np as int].config_data, Seq::empty());
                }
                Ok(ConfigDiff { old_version, new_version: nv.version_id.clone(), changes, diff_type })
            },
        }
    }

    /// Stores, as a new version of its configuration, a copy of an earlier
    /// version's data, by the given author, noting where it came from.
    pub fn restore_version(&mut self, version_id: &str, author: String) -> (r: Result<ConfigVersion, AetherisError>)
        requires
            old(self).wf(),
            match version_at(old(self)@.versions, version_id@) {
                Some(v) => index_ids(old(self)@.version_index, v.config_type, v.config_id).len() < u32::MAX,
                None => true,
            },
        ensures
            final(self).wf(),
            match version_at(old(self)@.versions, version_id@) {
                None => r is Err && is_not_found(r->Err_0, "Version not found: "@ + version_id@) && final(self)@ == old(self)@,
                Some(v) => r is Ok && {
                    let nv = r->Ok_0@;
                    &&& nv.config_type == v.config_type
                    &&& nv.config_id == v.config_id
                    &&& nv.config_data == v.config_data
                    &&& nv.author == author@
                    &&& nv.message == "Restored from version: "@ + version_id@
                    &&& nv.parent_version == Some(version_id@)
                    &&& nv.version_number == index_ids(old(self)@.version_index, v.config_type, v.config_id).len() + 1
                    &&& nv.tags.len() == 0
                    &&& !nv.is_immutable
                    &&& final(self)@.versions == store_version(old(self)@.versions, nv)
                    &&& final(self)@.version_index == index_add(old(self)@.version_index, v.config_type, v.config_id, nv.version_id)
                    &&& final(self)@.branches == old(self)@.branches
                    &&& final(self)@.merge_requests == old(self)@.merge_requests
                    &&& final(self)@.tag_index == old(self)@.tag_index
                },
            },
    {
        match self.find_version(version_id) {
            None => Err(not_found("Version not found: ", version_id)),
            Some(p) => {
                let v = self.versions[p].duplicate();
                let mut message = String::from_str("Restored from version: ");
                message.append(version_id);
                let restored = self.create_version(
                    v.config_type,
                    v.config_id,
                    v.config_data,
                    author,
                    message,
                    Some(version_id.to_string()),
                );
                Ok(restored)
            },
        }
    }

    fn find_branch(&self, name: &str) -> (r: Option<usize>)
        ensures
            match r {
                Some(p) => first_pos(branch_names(self@.branches), name@) == Some(p as int) && p < self.branches@.len(),
                None => first_pos(branch_names(self@.branches), name@) is None,
            },
    {
        let ghost ids = branch_names(self@.branches);
        let mut i: usize = 0;
        while i < self.branches.len()
            invariant
                i <= self.branches@.len(),
                ids == branch_names(self@.branches),
                ids.len() == self.branches@.len(),
                first_pos(ids.subrange(0, i as int), name@) is None,
            decreases self.branches@.len() - i,
        {
            assert(ids.subrange(0, i as int + 1).drop_last() =~= ids.subrange(0, i as int));
            if str_eq(self.branches[i].name.as_str(), name) {
                proof {
                    assert(first_pos(ids.subrange(0, i as int + 1), name@) == Some(i as int));
                    lemma_first_pos_prefix(ids, i as int + 1, name@);
                }
                return Some(i);
            }
            i = i + 1;
        }
        assert(ids.subrange(0, i as int) =~= ids);
        None
    }

    /// Makes a branch with a fresh id, created now, not protected, whose
    /// head is that of the branch it starts from (none without one). A
    /// name already taken, or a starting branch that does not exist, is
    /// refused.
    pub fn create_branch(
        &mut self,
        name: String,
        description: String,
        created_by: String,
        from_branch: Option<String>,
    ) -> (r: Result<ConfigBranch, AetherisError>)
        requires
            old(self).wf(),
        ensures
            final(self).wf(),
            if first_pos(branch_names(old(self)@.branches), name@) is Some {
                r is Err && is_validation(r->Err_0, "Branch already exists: "@ + name@) && final(self)@ == old(self)@
            } else if from_branch is Some && first_pos(branch_names(old(self)@.branches), from_branch->Some_0@) is None {
                r is Err && is_not_found(r->Err_0, "Branch not found: "@ + from_branch->Some_0@) && final(self)@ == old(self)@
            } else {
                r is Ok && {
                    let b = r->Ok_0;
                    &&& b.name == name
                    &&& b.description == description
                    &&& b.created_by == created_by
                    &&& b.head_version@ == match from_branch {
                        Some(f) => old(self)@.branches[first_pos(branch_names(old(self)@.branches), f@)->Some_0].head_version@,
                        None => Seq::<char>::empty(),
                    }
                    &&& !b.is_protected
                    &&& b.branch_id@.len() == 36
                    &&& final(self)@ == (VcsModel { branches: old(self)@.branches.push(b), ..old(self)@ })
                }
            },
    {
        let ghost old_m = self@;
        if self.find_branch(name.as_str()).is_some() {
            let mut m = String::from_str("Branch already exists: ");
            m.append(name.as_str());
            return Err(AetherisError::Validation(m));
        }
        let head_version = match &from_branch {
            Some(f) => match self.find_branch(f.as_str()) {
                Some(p) => self.branches[p].head_version.clone(),
                None => {
                    return Err(not_found("Branch not found: ", f.as_str()));
                },
            },
            None => String::new(),
        };
        let branch = ConfigBranch {
            branch_id: new_uuid(),
            name,
            description,
            created_at: now_millis(),
            created_by,
            head_version,
            is_protected: false,
        };
        self.branches.push(branch.duplicate());
        proof {
            let bs = self@.branches;
            lemma_first_pos(branch_names(old_m.branches), branch.name@);
            assert(bs =~= old_m.branches.push(branch));
            assert forall|i: int, j: int| 0 <= i < j < bs.len() implies bs[i].name@ != bs[j].name@ by {
                if j == bs.len() - 1 {
                    assert(branch_names(old_m.branches)[i] == old_m.branches[i].name@);
                }
            }
            assert(self@ == (VcsModel { branches: old_m.branches.push(branch), ..old_m }));
        }
        Ok(branch)
    }

    /// The branch with the given name.
    pub fn get_branch(&self, name: &str) -> (r: Option<ConfigBranch>)
        ensures
            match first_pos(branch_names(self@.branches), name@) {
                Some(p) => r == Some(self@.branches[p]),
                None => r is None,
            },
    {
        match self.find_branch(name) {
            Some(p) => Some(self.branches[p].duplicate()),
            None => None,
        }
    }

    /// All branches, in the order they were made.
    pub fn list_branches(&self) -> (r: Vec<ConfigBranch>)
        ensures
            r@ == self@.branches,
    {
        let mut r: Vec<ConfigBranch> = Vec::new();
        let mut i: usize = 0;
        while i < self.branches.len()
            invariant
                i <= self.branches@.len(),
                r@ == self.branches@.subrange(0, i as int),
            decreases self.branches@.len() - i,
        {
            r.push(self.branches[i].duplicate());
            i = i + 1;
        }
        assert(r@ =~= self.branches@);
        r
    }

    /// How many branches there are.
    pub fn branch_count(&self) -> (n: usize)
        ensures
            n == self@.branches.len(),
    {
        self.branches.len()
    }

    fn find_merge_request(&self, request_id: &str) -> (r: Option<usize>)
        ensures
            match r {
                Some(p) => first_pos(request_ids(self@.merge_requests), request_id@) == Some(p as int) && p < self.merge_requests@.len(),
                None => first_pos(request_ids(self@.merge_requests), request_id@) is None,
            },
    {
        let ghost ids = request_ids(self@.merge_requests);
        let mut i: usize = 0;
        while i < self.merge_requests.len()
            invariant
                i <= self.merge_requests@.len(),
                ids == request_ids(self@.merge_requests),
                ids.len() == self.merge_requests@.len(),
                first_pos(ids.subrange(0, i as int), request_id@) is None,
            decreases self.merge_requests@.len() - i,
        {
            assert(ids.subrange(0, i as int + 1).drop_last() =~= ids.subrange(0, i as int));
            assert(ids[i as int] == self.merge_requests@[i as int].request_id@);
            if str_eq(self.merge_requests[i].request_id.as_str(), request_id) {
                proof {
                    assert(first_pos(ids.subrange(0, i as int + 1), request_id@) == Some(i as int));
                    lemma_first_pos_prefix(ids, i as int + 1, request_id@);
                }
                return Some(i);
            }
            i = i + 1;
        }
        assert(ids.subrange(0, i as int) =~= ids);
        None
    }

    /// Opens a merge request with a fresh id, made now, approved by no one.
    pub fn create_merge_request(
        &mut self,
        title: String,
        description: String,
        source_branch: String,
        target_branch: String,
        created_by: String,
        approvals_required: u32,
    ) -> (r: ConfigMergeRequest)
        requires
            old(self).wf(),
        ensures
            final(self).wf(),
            r@.title == title@,
            r@.description == description@,
            r@.source_branch == source_branch@,
            r@.target_branch == target_branch@,
            r@.created_by == created_by@,
            r@.status == MergeRequestStatus::Open,
            r@.approved_by.len() == 0,
            r@.approvals_required == approvals_required,
            r@.request_id.len() == 36,
            final(self)@ == (VcsModel { merge_requests: store_request(old(self)@.merge_requests, r@), ..old(self)@ }),
    {
        let ghost old_m = self@;
        let request = ConfigMergeRequest {
            request_id: new_uuid(),
            title,
            description,
            source_branch,
            target_branch,
            created_by,
            created_at: now_millis(),
            status: MergeRequestStatus::Open,
            approved_by: Vec::new(),
            approvals_required,
        };
        let ghost rm = request@;
        assert(rm.approved_by =~= Seq::<Seq<char>>::empty());
        match self.find_merge_request(request.request_id.as_str()) {
            Some(p) => {
                self.merge_requests.set(p, request.duplicate());
                assert(self@.merge_requests =~= old_m.merge_requests.update(p as int, rm));
            },
            None => {
                self.merge_requests.push(request.duplicate());
                assert(self@.merge_requests =~= old_m.merge_requests.push(rm));
            },
        }
        assert(self@.versions =~= old_m.versions);
        assert(self@.version_index =~= old_m.version_index);
        assert(self@.tag_index =~= old_m.tag_index);
        request
    }

    /// Records an approval of a merge request by a user who has not yet
    /// approved it; with enough approvals the request is approved.
    pub fn approve_merge_request(&mut self, request_id: &str, approved_by: String) -> (r: Result<(), AetherisError>)
        requires
            old(self).wf(),
        ensures
            final(self).wf(),
            match first_pos(request_ids(old(self)@.merge_requests), request_id@) {
                None => r is Err && is_not_found(r->Err_0, "Merge request not found: "@ + request_id@) && final(self)@ == old(self)@,
                Some(p) => {
                    let m = old(self)@.merge_requests[p];
                    if m.approved_by.contains(approved_by@) {
                        r is Err && is_validation(r->Err_0, "Already approved by this user"@) && final(self)@ == old(self)@
                    } else {
                        r is Ok && final(self)@ == (VcsModel {
                            merge_requests: old(self)@.merge_requests.update(p, approve(m, approved_by@)),
                            ..old(self)@
                        })
                    }
                },
            },
    {
        let ghost old_m = self@;
        match self.find_merge_request(request_id) {
            None => Err(not_found("Merge request not found: ", request_id)),
            Some(p) => {
                if contains_text_in(&self.merge_requests[p].approved_by, approved_by.as_str()) {
                    return Err(AetherisError::Validation(String::from_str("Already approved by this user")));
                }
                let mut m = self.merge_requests[p].duplicate();
                let ghost before = m@;
                m.approved_by.push(approved_by);
                assert(texts(m.approved_by@) =~= before.approved_by.push(texts(m.approved_by@).last()));
                if m.approved_by.len() as u32 >= m.approvals_required {
                    m.status = MergeRequestStatus::Approved;
                }
                self.merge_requests.set(p, m);
                proof {
                    assert(self@.merge_requests =~= old_m.merge_requests.update(p as int, approve(old_m.merge_requests[p as int], texts(m.approved_by@).last())));
                    assert(self@.versions =~= old_m.versions);
                    assert(self@.version_index =~= old_m.version_index);
                    assert(self@.tag_index =~= old_m.tag_index);
                }
                Ok(())
            },
        }
    }

    /// Marks an approved merge request merged.
    pub fn merge_merge_request(&mut self, request_id: &str, merged_by: String) -> (r: Result<(), AetherisError>)
        requires
            old(self).wf(),
        ensures
            final(self).wf(),
            match first_pos(request_ids(old(self)@.merge_requests), request_id@) {
                None => r is Err && is_not_found(r->Err_0, "Merge request not found: "@ + request_id@) && final(self)@ == old(self)@,
                Some(p) => {
                    let m = old(self)@.merge_requests[p];
                    if m.status != MergeRequestStatus::Approved {
                        r is Err && is_validation(r->Err_0, "Merge request is not approved"@) && final(self)@ == old(self)@
                    } else {
                        r is Ok && final(self)@ == (VcsModel {
                            merge_requests: old(self)@.merge_requests.update(p, MergeModel { status: MergeRequestStatus::Merged, ..m }),
                            ..old(self)@
                        })
                    }
                },
            },
    {
        let ghost old_m = self@;
        match self.find_merge_request(request_id) {
            None => Err(not_found("Merge request not found: ", request_id)),
            Some(p) => {
                if self.merge_requests[p].status != MergeRequestStatus::Approved {
                    return Err(AetherisError::Validation(String::from_str("Merge request is not approved")));
                }
                let mut m = self.merge_requests[p].duplicate();
                m.status = MergeRequestStatus::Merged;
                self.merge_requests.set(p, m);
                proof {
                    assert(self@.merge_requests =~= old_m.merge_requests.update(
                        p as int,
                        MergeModel { status: MergeRequestStatus::Merged, ..old_m.merge_requests[p as int] },
                    ));
                    assert(self@.versions =~= old_m.versions);
                    assert(self@.version_index =~= old_m.version_index);
                    assert(self@.tag_index =~= old_m.tag_index);
                }
                Ok(())
            },
        }
    }

    /// The merge request with the given id.
    pub fn get_merge_request(&self, request_id: &str) -> (r: Option<ConfigMergeRequest>)
        ensures
            match first_pos(request_ids(self@.merge_requests), request_id@) {
                Some(p) => r is Some && r->Some_0@ == self@.merge_requests[p],
                None => r is None,
            },
    {
        match self.find_merge_request(request_id) {
            Some(p) => Some(self.merge_requests[p].duplicate()),
            None => None,
        }
    }

    /// The merge requests, all of them or those in the given state, in the
    /// order they were made.
    pub fn list_merge_requests(&self, status: Option<MergeRequestStatus>) -> (r: Vec<ConfigMergeRequest>)
        ensures
            r@.map_values(|m: ConfigMergeRequest| m@) == requests_in(self@.merge_requests, status),
    {
        let ghost ms = self@.merge_requests;
        let mut r: Vec<ConfigMergeRequest> = Vec::new();
        let mut i: usize = 0;
        while i < self.merge_requests.len()
            invariant
                i <= self.merge_requests@.len(),
                ms == self@.merge_requests,
                ms.len() == self.merge_requests@.len(),
                r@.map_values(|m: ConfigMergeRequest| m@) == requests_in(ms.subrange(0, i as int), status),
            decreases self.merge_requests@.len() - i,
        {
            assert(ms.subrange(0, i as int + 1).drop_last() =~= ms.subrange(0, i as int));
            assert(ms[i as int] == self.merge_requests@[i as int]@);
            let keep = match status {
                Some(s) => self.merge_requests[i].status == s,
                None => true,
            };
            if keep {
                let ghost before = r@;
                r.push(self.merge_requests[i].duplicate());
                assert(r@.map_values(|m: ConfigMergeRequest| m@) =~= before.map_values(|m: ConfigMergeRequest| m@).push(ms[i as int]));
            }
            i = i + 1;
        }
        assert(ms.subrange(0, i as int) =~= ms);
        r
    }

    /// How many merge requests there are.
    pub fn merge_request_count(&self) -> (n: usize)
        ensures
            n == self@.merge_requests.len(),
    {
        self.merge_requests.len()
    }

    fn find_tag(&self, tag: &str) -> (r: Option<usize>)
        ensures
            match r {
                Some(p) => first_pos(tag_keys(self@.tag_index), tag@) == Some(p as int) && p < self.tag_index@.len(),
                None => first_pos(tag_keys(self@.tag_index), tag@) is None,
            },
    {
        let ghost ids = tag_keys(self@.tag_index);
        let mut i: usize = 0;
        while i < self.tag_index.len()
            invariant
                i <= self.tag_index@.len(),
                ids == tag_keys(self@.tag_index),
                ids.len() == self.tag_index@.len(),
                first_pos(ids.subrange(0, i as int), tag@) is None,
            decreases self.tag_index@.len() - i,
        {
            assert(ids.subrange(0, i as int + 1).drop_last() =~= ids.subrange(0, i as int));
            assert(ids[i as int] == self.tag_index@[i as int].0@);
            if str_eq(self.tag_index[i].0.as_str(), tag) {
                proof {
                    assert(first_pos(ids.subrange(0, i as int + 1), tag@) == Some(i as int));
                    lemma_first_pos_prefix(ids, i as int + 1, tag@);
                }
                return Some(i);
            }
            i = i + 1;
        }
        assert(ids.subrange(0, i as int) =~= ids);
        None
    }

    /// Tags a version. A tag the version already has changes nothing.
    pub fn add_tag(&mut self, version_id: &str, tag: String) -> (r: Result<(), AetherisError>)
        requires
            old(self).wf(),
        ensures
            final(self).wf(),
            match first_pos(version_ids(old(self)@.versions), version_id@) {
                None => r is Err && is_not_found(r->Err_0, "Version not found: "@ + version_id@) && final(self)@ == old(self)@,
                Some(p) => r is Ok && if old(self)@.versions[p].tags.contains(tag@) {
                    final(self)@ == old(self)@
                } else {
                    final(self)@ == (VcsModel {
                        versions: old(self)@.versions.update(p, VersionModel { tags: old(self)@.versions[p].tags.push(tag@), ..old(self)@.versions[p] }),
                        tag_index: tag_add(old(self)@.tag_index, tag@, version_id@),
                        ..old(self)@
                    })
                },
            },
    {
        let ghost old_m = self@;
        match self.find_version(version_id) {
            None => Err(not_found("Version not found: ", version_id)),
            Some(p) => {
                if contains_text_in(&self.versions[p].tags, tag.as_str()) {
                    return Ok(());
                }
                let mut v = self.versions[p].duplicate();
                let ghost before = v@;
                v.tags.push(tag.clone());
                assert(texts(v.tags@) =~= before.tags.push(tag@));
                self.versions.set(p, v);
                assert(self@.versions =~= old_m.versions.update(p as int, VersionModel { tags: before.tags.push(tag@), ..before }));
                match self.find_tag(tag.as_str()) {
                    Some(q) => {
                        let mut ids = clone_strings(&self.tag_index[q].1);
                        ids.push(version_id.to_string());
                        self.tag_index.set(q, (tag, ids));
                        proof {
                            assert(texts(ids@) =~= old_m.tag_index[q as int].1.push(version_id@));
                            assert(self@.tag_index =~= old_m.tag_index.update(q as int, (tag@, old_m.tag_index[q as int].1.push(version_id@))));
                        }
                    },
                    None => {
                        let mut ids: Vec<String> = Vec::new();
                        ids.push(version_id.to_string());
                        let ghost tag_text = tag@;
                        self.tag_index.push((tag, ids));
                        proof {
                            assert(texts(ids@) =~= seq![version_id@]);
                            assert(self@.tag_index =~= old_m.tag_index.push((tag_text, seq![version_id@])));
                        }
                    },
                }
                proof {
                    let ti = self@.tag_index;
                    lemma_first_pos(tag_keys(old_m.tag_index), tag@);
                    assert(self@.version_index =~= old_m.version_index);
                    assert(self@.merge_requests =~= old_m.merge_requests);
                    assert forall|i: int, j: int| 0 <= i < j < ti.len() implies ti[i].0 != ti[j].0 by {
                        assert(ti[i].0 == tag_keys(ti)[i]);
                        if j == old_m.tag_index.len() {
                            assert(tag_keys(old_m.tag_index)[i] == old_m.tag_index[i].0);
                        } else {
                            assert(ti[i].0 == old_m.tag_index[i].0);
                            assert(ti[j].0 == old_m.tag_index[j].0);
                        }
                    }
                }
                Ok(())
            },
        }
    }

    /// The versions carrying a tag, in the order they were tagged.
    pub fn get_versions_by_tag(&self, tag: &str) -> (r: Vec<ConfigVersion>)
        ensures
            r@.map_values(|v: ConfigVersion| v@) == versions_of(self@.versions, tag_ids(self@.tag_index, tag@)),
    {
        match self.find_tag(tag) {
            Some(q) => {
                assert(tag_ids(self@.tag_index, tag@) == texts(self.tag_index@[q as int].1@));
                self.versions_with_ids(&self.tag_index[q].1)
            },
            None => {
                let r: Vec<ConfigVersion> = Vec::new();
                assert(r@.map_values(|v: ConfigVersion| v@) =~= Seq::<VersionModel>::empty());
                r
            },
        }
    }
}

/// The tags of the tag index.
pub open spec fn tag_keys(ti: Seq<(Seq<char>, Seq<Seq<char>>)>) -> Seq<Seq<char>> {
    ti.map_values(|e: (Seq<char>, Seq<Seq<char>>)| e.0)
}

/// The ids of the versions carrying a tag, in the order they were tagged.
pub open spec fn tag_ids(ti: Seq<(Seq<char>, Seq<Seq<char>>)>, tag: Seq<char>) -> Seq<Seq<char>> {
    match first_pos(tag_keys(ti), tag) {
        Some(q) => ti[q].1,
        None => Seq::empty(),
    }
}

/// The tag index after a version is tagged: its id joins the tag's entry,
/// which is made if there is none.
pub open spec fn tag_add(ti: Seq<(Seq<char>, Seq<Seq<char>>)>, tag: Seq<char>, id: Seq<char>) -> Seq<(Seq<char>, Seq<Seq<char>>)> {
    match first_pos(tag_keys(ti), tag) {
        Some(q) => ti.update(q, (tag, ti[q].1.push(id))),
        None => ti.push((tag, seq![id])),
    }
}

/// The names of the branches.
pub open spec fn branch_names(bs: Seq<ConfigBranch>) -> Seq<Seq<char>> {
    bs.map_values(|b: ConfigBranch| b.name@)
}

/// The ids of the merge requests.
pub open spec fn request_ids(ms: Seq<MergeModel>) -> Seq<Seq<char>> {
    ms.map_values(|m: MergeModel| m.request_id)
}

/// The merge requests after storing one: it replaces a stored request with
/// the same id, or else comes last.
pub open spec fn store_request(ms: Seq<MergeModel>, m: MergeModel) -> Seq<MergeModel> {
    match first_pos(request_ids(ms), m.request_id) {
        Some(p) => ms.update(p, m),
        None => ms.push(m),
    }
}

/// A merge request after a user's approval: the user joins its approvers,
/// and with as many approvals as it requires it is approved.
pub open spec fn approve(m: MergeModel, user: Seq<char>) -> MergeModel {
    let approvers = m.approved_by.push(user);
    MergeModel {
        approved_by: approvers,
        status: if approvers.len() as u32 >= m.approvals_required { MergeRequestStatus::Approved } else { m.status },
        ..m
    }
}

/// The merge requests in the given state (all of them without one), in
/// order.
pub open spec fn requests_in(ms: Seq<MergeModel>, status: Option<MergeRequestStatus>) -> Seq<MergeModel>
    decreases ms.len(),
{
    if ms.len() == 0 {
        Seq::empty()
    } else {
        let rest = requests_in(ms.drop_last(), status);
        match status {
            Some(s) => if ms.last().status == s { rest.push(ms.last()) } else { rest },
            None => rest.push(ms.last()),
        }
    }
}

/// The stored versions with the given ids, in their order, skipping ids
/// that are not stored.
pub open spec fn versions_of(vs: Seq<VersionModel>, ids: Seq<Seq<char>>) -> Seq<VersionModel>
    decreases ids.len(),
{
    if ids.len() == 0 {
        Seq::empty()
    } else {
        let rest = versions_of(vs, ids.drop_last());
        match version_at(vs, ids.last()) {
            Some(v) => rest.push(v),
            None => rest,
        }
    }
}

/// The error says that something was not found, with the given message.
pub open spec fn is_not_found(e: AetherisError, msg: Seq<char>) -> bool {
    match e {
        AetherisError::NotFound(m) => m@ == msg,
        _ => false,
    }
}

/// The error says that a request is invalid, with the given message.
pub open spec fn is_validation(e: AetherisError, msg: Seq<char>) -> bool {
    match e {
        AetherisError::Validation(m) => m@ == msg,
        _ => false,
    }
}

fn not_found(prefix: &str, what: &str) -> (e: AetherisError)
    ensures
        is_not_found(e, prefix@ + what@),
{
    let mut m = String::from_str(prefix);
    m.append(what);
    AetherisError::NotFound(m)
}


/// A version just stored is the one stored under its id.
pub proof fn lemma_store_version(vs: Seq<VersionModel>, v: VersionModel)
    ensures
        version_at(store_version(vs, v), v.version_id) == Some(v),
{
    let ids = version_ids(vs);
    lemma_first_pos(ids, v.version_id);
    let vs2 = store_version(vs, v);
    let ids2 = version_ids(vs2);
    lemma_first_pos(ids2, v.version_id);
    match first_pos(ids, v.version_id) {
        Some(p) => {
            assert(ids2[p] == v.version_id);
            assert forall|k: int| 0 <= k < p implies ids2[k] != v.version_id by {
                assert(ids2[k] == ids[k]);
            }
        },
        None => {
            assert(ids2[ids.len() as int] == v.version_id);
            assert forall|k: int| 0 <= k < ids.len() implies ids2[k] != v.version_id by {
                assert(ids2[k] == ids[k]);
            }
        },
    }
}

/// After a new version of a configuration, the configuration's versions
/// are its earlier ones followed by the new one, and those of every other
/// configuration are as they were.
pub proof fn lemma_index_add(
    vi: Seq<((int, Seq<char>), Seq<char>, Seq<Seq<char>>)>,
    t: (int, Seq<char>),
    id: Seq<char>,
    v: Seq<char>,
    t2: (int, Seq<char>),
    id2: Seq<char>,
)
    requires
        forall|i: int, j: int| 0 <= i < j < vi.len() ==> !(vi[i].0 == vi[j].0 && vi[i].1 == vi[j].1),
    ensures
        index_ids(index_add(vi, t, id, v), t, id) == index_ids(vi, t, id).push(v),
        !(t2 == t && id2 == id) ==> index_ids(index_add(vi, t, id, v), t2, id2) == index_ids(vi, t2, id2),
{
    let vi2 = index_add(vi, t, id, v);
    match index_pos(vi, t, id) {
        Some(p) => {
            assert(vi2[p].0 == t && vi2[p].1 == id);
            let c = choose|c: int| 0 <= c < vi2.len() && vi2[c].0 == t && vi2[c].1 == id;
            if c != p {
                assert(vi2[c] == vi[c]);
                if c < p {
                    assert(!(vi[c].0 == vi[p].0 && vi[c].1 == vi[p].1));
                } else {
                    assert(!(vi[p].0 == vi[c].0 && vi[p].1 == vi[c].1));
                }
            }
            if !(t2 == t && id2 == id) {
                if exists|i: int| 0 <= i < vi.len() && vi[i].0 == t2 && vi[i].1 == id2 {
                    let c1 = choose|i: int| 0 <= i < vi.len() && vi[i].0 == t2 && vi[i].1 == id2;
                    assert(vi2[c1] == vi[c1]);
                    let c2 = choose|i: int| 0 <= i < vi2.len() && vi2[i].0 == t2 && vi2[i].1 == id2;
                    assert(vi2[c2] == vi[c2]);
                    if c1 < c2 {
                        assert(!(vi[c1].0 == vi[c2].0 && vi[c1].1 == vi[c2].1));
                    } else if c2 < c1 {
                        assert(!(vi[c2].0 == vi[c1].0 && vi[c2].1 == vi[c1].1));
                    }
                } else {
                    assert forall|i: int| 0 <= i < vi2.len() implies !(vi2[i].0 == t2 && vi2[i].1 == id2) by {
                        if i != p {
                            assert(vi2[i] == vi[i]);
                        }
                    }
                }
            }
        },
        None => {
            let n = vi.len() as int;
            assert(vi2[n].0 == t && vi2[n].1 == id);
            let c = choose|c: int| 0 <= c < vi2.len() && vi2[c].0 == t && vi2[c].1 == id;
            if c != n {
                assert(vi2[c] == vi[c]);
            }
            if !(t2 == t && id2 == id) {
                if exists|i: int| 0 <= i < vi.len() && vi[i].0 == t2 && vi[i].1 == id2 {
                    let c1 = choose|i: int| 0 <= i < vi.len() && vi[i].0 == t2 && vi[i].1 == id2;
                    assert(vi2[c1] == vi[c1]);
                    let c2 = choose|i: int| 0 <= i < vi2.len() && vi2[i].0 == t2 && vi2[i].1 == id2;
                    assert(c2 != n);
                    assert(vi2[c2] == vi[c2]);
                    if c1 < c2 {
                        assert(!(vi[c1].0 == vi[c2].0 && vi[c1].1 == vi[c2].1));
                    } else if c2 < c1 {
                        assert(!(vi[c2].0 == vi[c1].0 && vi[c2].1 == vi[c1].1));
                    }
                } else {
                    assert forall|i: int| 0 <= i < vi2.len() implies !(vi2[i].0 == t2 && vi2[i].1 == id2) by {
                        if i != n {
                            assert(vi2[i] == vi[i]);
                        }
                    }
                }
            }
        },
    }
}

/// The version just made of a configuration is its latest: the
/// configuration's versions are the earlier ones followed by it, and it is
/// stored under its id; when its id was not in use yet, the store holds one
/// version more, the new one last. Other configurations keep their
/// versions.
pub proof fn law_new_version_is_latest(m: VcsModel, v: VersionModel, t2: (int, Seq<char>), id2: Seq<char>)
    requires
        distinct_keys(m),
    ensures
        ({
            let ids = index_ids(index_add(m.version_index, v.config_type, v.config_id, v.version_id), v.config_type, v.config_id);
            &&& ids == index_ids(m.version_index, v.config_type, v.config_id).push(v.version_id)
            &&& ids.len() == index_ids(m.version_index, v.config_type, v.config_id).len() + 1
            &&& ids.last() == v.version_id
            &&& version_at(store_version(m.versions, v), ids.last()) == Some(v)
        }),
        !version_ids(m.versions).contains(v.version_id) ==> store_version(m.versions, v) == m.versions.push(v),
        !(t2 == v.config_type && id2 == v.config_id) ==> index_ids(
            index_add(m.version_index, v.config_type, v.config_id, v.version_id),
            t2,
            id2,
        ) == index_ids(m.version_index, t2, id2),
{
    lemma_index_add(m.version_index, v.config_type, v.config_id, v.version_id, t2, id2);
    lemma_store_version(m.versions, v);
    lemma_first_pos(version_ids(m.versions), v.version_id);
    if !version_ids(m.versions).contains(v.version_id) {
        if let Some(p) = first_pos(version_ids(m.versions), v.version_id) {
            assert(version_ids(m.versions)[p] == v.version_id);
        }
    }
}

/// Creating a version whose id is not in use yet stores one version more:
/// the configuration's versions are the earlier ones followed by it, it is
/// the one stored under its id, and the count of stored versions grows by
/// one.
pub proof fn law_create_adds_one_version(m: VcsModel, v: VersionModel)
    requires
        distinct_keys(m),
        !version_ids(m.versions).contains(v.version_id),
    ensures
        store_version(m.versions, v).len() == m.versions.len() + 1,
        store_version(m.versions, v) == m.versions.push(v),
        version_at(store_version(m.versions, v), v.version_id) == Some(v),
        index_ids(index_add(m.version_index, v.config_type, v.config_id, v.version_id), v.config_type, v.config_id)
            == index_ids(m.version_index, v.config_type, v.config_id).push(v.version_id),
{
    law_new_version_is_latest(m, v, v.config_type, v.config_id);
}

/// Once a user has approved a merge request, the user is among its
/// approvers, so a second approval by the same user is refused.
pub proof fn law_approval_recorded(m: MergeModel, user: Seq<char>)
    ensures
        approve(m, user).approved_by.contains(user),
        approve(m, user).approved_by.len() == m.approved_by.len() + 1,
{
    assert(approve(m, user).approved_by[m.approved_by.len() as int] == user);
}

/// An approval makes the user the last approver; the request is then
/// approved exactly when it has as many approvals as it requires, and
/// otherwise keeps its state. Nothing else of it changes. (The count is
/// compared as a `u32`, so this holds while the approvers fit in one.)
pub proof fn law_approval_outcome(m: MergeModel, user: Seq<char>)
    requires
        m.approved_by.len() + 1 <= u32::MAX,
    ensures
        approve(m, user) == (MergeModel {
            approved_by: m.approved_by.push(user),
            status: if m.approved_by.len() + 1 >= m.approvals_required {
                MergeRequestStatus::Approved
            } else {
                m.status
            },
            ..m
        }),
{
}

/// A configuration compared with itself has no changes.
pub proof fn law_no_changes_without_difference(v: JsonModel, path: Seq<char>)
    ensures
        config_diff(Some(v), v, path).len() == 0,
{
}

} // verus!
