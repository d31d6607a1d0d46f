//! A JSON document held as plain values, with its mathematical model.
//!
//! Numbers are held by their canonical decimal text, which keeps their
//! identity: two numbers are equal exactly when their texts are. Object
//! members keep the order in which they were given.

use vstd::prelude::*;
use crate::text::str_eq;

verus! {

broadcast use vstd::std_specs::vec::group_vec_axioms, vstd::seq::group_seq_axioms;

/// A JSON value.
#[derive(Debug)]
pub enum JsonValue {
    Null,
    Bool(bool),
    Number(String),
    String(String),
    Array(Vec<JsonValue>),
    Object(Vec<(String, JsonValue)>),
}

/// The mathematical model of a JSON value.
pub enum JsonModel {
    Null,
    Bool(bool),
    Number(Seq<char>),
    String(Seq<char>),
    Array(Seq<JsonModel>),
    Object(Seq<(Seq<char>, JsonModel)>),
}

/// The models of a sequence of values, element by element.
pub open spec fn items_model(s: Seq<JsonValue>) -> Seq<JsonModel>
    decreases s,
{
    if s.len() == 0 {
        Seq::empty()
    } else {
        items_model(s.drop_last()).push(json_model(s.last()))
    }
}

/// The models of a sequence of object members, member by member.
pub open spec fn members_model(s: Seq<(String, JsonValue)>) -> Seq<(Seq<char>, JsonModel)>
    decreases s,
{
    if s.len() == 0 {
        Seq::empty()
    } else {
        members_model(s.drop_last()).push((s.last().0@, json_model(s.last().1)))
    }
}

/// The model of a value.
pub open spec fn json_model(v: JsonValue) -> JsonModel
    decreases v,
{
    match v {
        JsonValue::Null => JsonModel::Null,
        JsonValue::Bool(b) => JsonModel::Bool(b),
        JsonValue::Number(n) => JsonModel::Number(n@),
        JsonValue::String(s) => JsonModel::String(s@),
        JsonValue::Array(items) => JsonModel::Array(items_model(items@)),
        JsonValue::Object(members) => JsonModel::Object(members_model(members@)),
    }
}

impl View for JsonValue {
    type V = JsonModel;

    open spec fn view(&self) -> JsonModel {
        json_model(*self)
    }
}

pub proof fn lemma_items_model(s: Seq<JsonValue>)
    ensures
        items_model(s).len() == s.len(),
        forall|i: int| 0 <= i < s.len() ==> #[trigger] items_model(s)[i] == json_model(s[i]),
    decreases s.len(),
{
    if s.len() > 0 {
        lemma_items_model(s.drop_last());
    }
}

pub proof fn lemma_members_model(s: Seq<(String, JsonValue)>)
    ensures
        members_model(s).len() == s.len(),
        forall|i: int|
            0 <= i < s.len() ==> #[trigger] members_model(s)[i] == (s[i].0@, json_model(s[i].1)),
    decreases s.len(),
{
    if s.len() > 0 {
        lemma_members_model(s.drop_last());
    }
}

impl JsonValue {
    /// An empty object.
    pub fn empty_object() -> (r: JsonValue)
        ensures
            r@ == JsonModel::Object(Seq::empty()),
    {
        JsonValue::Object(Vec::new())
    }

    /// Whether two values are equal, as JSON equality compares them.
    pub fn equals(&self, other: &JsonValue) -> (r: bool)
        ensures
            r == (self@ == other@),
        decreases *self,
    {
        match (self, other) {
            (JsonValue::Null, JsonValue::Null) => true,
            (JsonValue::Bool(a), JsonValue::Bool(b)) => *a == *b,
            (JsonValue::Number(a), JsonValue::Number(b)) => a.eq(b),
            (JsonValue::String(a), JsonValue::String(b)) => a.eq(b),
            (JsonValue::Array(a), JsonValue::Array(b)) => {
                proof {
                    lemma_items_model(a@);
                    lemma_items_model(b@);
                    assert(self@ == JsonModel::Array(items_model(a@)));
                    assert(other@ == JsonModel::Array(items_model(b@)));
                }
                if a.len() != b.len() {
                    assert(items_model(a@).len() != items_model(b@).len());
                    return false;
                }
                let mut i: usize = 0;
                while i < a.len()
                    invariant
                        a.len() == b.len(),
                        i <= a.len(),
                        items_model(a@).len() == a.len(),
                        items_model(b@).len() == b.len(),
                        forall|j: int| 0 <= j < a.len() ==> #[trigger] items_model(a@)[j] == json_model(a@[j]),
                        forall|j: int| 0 <= j < b.len() ==> #[trigger] items_model(b@)[j] == json_model(b@[j]),
                        forall|j: int| 0 <= j < i ==> json_model(a@[j]) == json_model(b@[j]),
                        decreases_to!(*self => a),
                        self@ == JsonModel::Array(items_model(a@)),
                        other@ == JsonModel::Array(items_model(b@)),
                    decreases a.len() - i,
                {
                    assert(decreases_to!(*self => a@[i as int]));
                    if !a[i].equals(&b[i]) {
                        assert(items_model(a@)[i as int] != items_model(b@)[i as int]);
                        return false;
                    }
                    i = i + 1;
                }
                assert(items_model(a@) =~= items_model(b@));
                true
            },
            (JsonValue::Object(a), JsonValue::Object(b)) => {
                proof {
                    lemma_members_model(a@);
                    lemma_members_model(b@);
                    assert(self@ == JsonModel::Object(members_model(a@)));
                    assert(other@ == JsonModel::Object(members_model(b@)));
                }
                if a.len() != b.len() {
                    assert(members_model(a@).len() != members_model(b@).len());
                    return false;
                }
                let mut i: usize = 0;
                while i < a.len()
                    invariant
                        a.len() == b.len(),
                        i <= a.len(),
                        members_model(a@).len() == a.len(),
                        members_model(b@).len() == b.len(),
                        forall|j: int|
                            0 <= j < a.len() ==> #[trigger] members_model(a@)[j] == (
                                a@[j].0@,
                                json_model(a@[j].1),
                            ),
                        forall|j: int|
                            0 <= j < b.len() ==> #[trigger] members_model(b@)[j] == (
                                b@[j].0@,
                                json_model(b@[j].1),
                            ),
                        forall|j: int|
                            0 <= j < i ==> a@[j].0@ == b@[j].0@ && json_model(a@[j].1)
                                == json_model(b@[j].1),
                        decreases_to!(*self => a),
                        self@ == JsonModel::Object(members_model(a@)),
                        other@ == JsonModel::Object(members_model(b@)),
                    decreases a.len() - i,
                {
                    assert(decreases_to!(*self => a@[i as int].1));
                    if !a[i].0.eq(&b[i].0) || !a[i].1.equals(&b[i].1) {
                        assert(members_model(a@)[i as int] != members_model(b@)[i as int]);
                        return false;
                    }
                    i = i + 1;
                }
                assert(members_model(a@) =~= members_model(b@));
                true
            },
            _ => {
                assert(self@ != other@) by {
                    match (self, other) {
                        (JsonValue::Null, _) => assert(self@ is Null && !(other@ is Null)),
                        (JsonValue::Bool(_), _) => assert(self@ is Bool && !(other@ is Bool)),
                        (JsonValue::Number(_), _) => assert(self@ is Number && !(other@ is Number)),
                        (JsonValue::String(_), _) => assert(self@ is String && !(other@ is String)),
                        (JsonValue::Array(_), _) => assert(self@ is Array && !(other@ is Array)),
                        (JsonValue::Object(_), _) => assert(self@ is Object && !(other@ is Object)),
                    }
                }
                false
            },
        }
    }
}

impl JsonValue {
    /// A copy of the value.
    pub fn duplicate(&self) -> (r: JsonValue)
        ensures
            r@ == self@,
        decreases *self,
    {
        match self {
            JsonValue::Null => JsonValue::Null,
            JsonValue::Bool(b) => JsonValue::Bool(*b),
            JsonValue::Number(n) => JsonValue::Number(n.clone()),
            JsonValue::String(t) => JsonValue::String(t.clone()),
            JsonValue::Array(a) => {
                let mut items: Vec<JsonValue> = Vec::new();
                let mut i: usize = 0;
                while i < a.len()
                    invariant
                        i <= a@.len(),
                        items_model(items@) == items_model(a@.subrange(0, i as int)),
                        decreases_to!(*self => a),
                    decreases a@.len() - i,
                {
                    assert(decreases_to!(*self => a@[i as int]));
                    let v = a[i].duplicate();
                    let ghost before = items@;
                    items.push(v);
                    proof {
                        assert(items@.drop_last() =~= before);
                        assert(a@.subrange(0, i as int + 1).drop_last() =~= a@.subrange(0, i as int));
                    }
                    i = i + 1;
                }
                assert(a@.subrange(0, a@.len() as int) =~= a@);
                JsonValue::Array(items)
            },
            JsonValue::Object(m) => {
                let mut members: Vec<(String, JsonValue)> = Vec::new();
                let mut i: usize = 0;
                while i < m.len()
                    invariant
                        i <= m@.len(),
                        members_model(members@) == members_model(m@.subrange(0, i as int)),
                        decreases_to!(*self => m),
                    decreases m@.len() - i,
                {
                    assert(decreases_to!(*self => m@[i as int].1));
                    let v = m[i].1.duplicate();
                    let k = m[i].0.clone();
                    let ghost before = members@;
                    members.push((k, v));
                    proof {
                        assert(members@.drop_last() =~= before);
                        assert(m@.subrange(0, i as int + 1).drop_last() =~= m@.subrange(0, i as int));
                    }
                    i = i + 1;
                }
                assert(m@.subrange(0, m@.len() as int) =~= m@);
                JsonValue::Object(members)
            },
        }
    }
}

/// The position of the first member with the key.
pub open spec fn key_index(m: Seq<(Seq<char>, JsonModel)>, key: Seq<char>) -> Option<int>
    decreases m.len(),
{
    if m.len() == 0 {
        None
    } else if m[0].0 == key {
        Some(0)
    } else {
        match key_index(m.skip(1), key) {
            Some(i) => Some(i + 1),
            None => None,
        }
    }
}


pub proof fn lemma_key_index(m: Seq<(Seq<char>, JsonModel)>, key: Seq<char>)
    ensures
        match key_index(m, key) {
            Some(j) => 0 <= j < m.len() && m[j].0 == key && forall|i: int| 0 <= i < j ==> m[i].0 != key,
            None => forall|i: int| 0 <= i < m.len() ==> m[i].0 != key,
        },
    decreases m.len(),
{
    if m.len() > 0 {
        lemma_key_index(m.skip(1), key);
        assert forall|i: int| 1 <= i < m.len() implies m[i] == m.skip(1)[i - 1] by {}
    }
}

/// The position of the first member with the key.
pub fn find_key(m: &Vec<(String, JsonValue)>, key: &str) -> (r: Option<usize>)
    ensures
        key_index(members_model(m@), key@) == match r {
            Some(j) => Some(j as int),
            None => None::<int>,
        },
{
    proof {
        lemma_members_model(m@);
        lemma_key_index(members_model(m@), key@);
    }
    let mut j: usize = 0;
    while j < m.len()
        invariant
            j <= m@.len(),
            members_model(m@).len() == m@.len(),
            forall|q: int| 0 <= q < m@.len() ==> #[trigger] members_model(m@)[q] == (m@[q].0@, json_model_of(m@[q].1)),
            forall|q: int| 0 <= q < j ==> m@[q].0@ != key@,
        decreases m@.len() - j,
    {
        if str_eq(m[j].0.as_str(), key) {
            proof {
                assert(members_model(m@)[j as int].0 == key@);
                lemma_key_index(members_model(m@), key@);
            }
            return Some(j);
        }
        j = j + 1;
    }
    proof {
        lemma_key_index(members_model(m@), key@);
        if key_index(members_model(m@), key@) is Some {
            let q = key_index(members_model(m@), key@)->0;
            assert(members_model(m@)[q].0 == m@[q].0@);
        }
    }
    None
}

pub open spec fn json_model_of(v: JsonValue) -> JsonModel {
    v@
}

} // verus!
