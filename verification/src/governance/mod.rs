//! Data governance: lineage of data through the system, classification of
//! data by sensitivity, masking of sensitive values, and compliance
//! reporting.

pub mod classification;
pub mod lineage;
pub mod masking;
pub mod compliance;

use vstd::prelude::*;
use crate::json::JsonValue;
use crate::runtime::{new_uuid, now_millis};
use crate::text::str_eq;

verus! {

broadcast use vstd::std_specs::vec::group_vec_axioms, vstd::seq::group_seq_axioms;

/// The id of a lineage node.
#[derive(Debug, Clone)]
pub struct LineageNodeId(pub String);

impl PartialEq for LineageNodeId {
    fn eq(&self, other: &Self) -> (r: bool) {
        str_eq(self.0.as_str(), other.0.as_str())
    }
}

impl vstd::std_specs::cmp::PartialEqSpecImpl for LineageNodeId {
    open spec fn obeys_eq_spec() -> bool {
        true
    }

    open spec fn eq_spec(&self, other: &Self) -> bool {
        self.0@ == other.0@
    }
}

impl LineageNodeId {
    /// A fresh random id.
    pub fn new() -> (id: LineageNodeId)
        ensures
            id.0@.len() == 36,
    {
        LineageNodeId(new_uuid())
    }

    /// A fresh random id.
    pub fn default() -> (id: LineageNodeId)
        ensures
            id.0@.len() == 36,
    {
        LineageNodeId::new()
    }

    /// The id with the given text.
    pub fn from_string(s: String) -> (id: LineageNodeId)
        ensures
            id.0 == s,
    {
        LineageNodeId(s)
    }

    /// Two ids are equal when their texts are.
    pub fn same(&self, other: &LineageNodeId) -> (r: bool)
        ensures
            r == (self.0@ == other.0@),
    {
        str_eq(self.0.as_str(), other.0.as_str())
    }
}

/// What a lineage node stands for.
#[derive(Debug, Clone)]
pub enum LineageNodeType {
    DataSource,
    DataTransform,
    DataSink,
    Table,
    Column,
    File,
    Api,
    Agent,
    Task,
    Workflow,
    Custom(String),
}

/// Two node types are the same kind, custom ones with the same name.
pub open spec fn same_node_type(a: LineageNodeType, b: LineageNodeType) -> bool {
    match (a, b) {
        (LineageNodeType::Custom(x), LineageNodeType::Custom(y)) => x@ == y@,
        (LineageNodeType::DataSource, LineageNodeType::DataSource) => true,
        (LineageNodeType::DataTransform, LineageNodeType::DataTransform) => true,
        (LineageNodeType::DataSink, LineageNodeType::DataSink) => true,
        (LineageNodeType::Table, LineageNodeType::Table) => true,
        (LineageNodeType::Column, LineageNodeType::Column) => true,
        (LineageNodeType::File, LineageNodeType::File) => true,
        (LineageNodeType::Api, LineageNodeType::Api) => true,
        (LineageNodeType::Agent, LineageNodeType::Agent) => true,
        (LineageNodeType::Task, LineageNodeType::Task) => true,
        (LineageNodeType::Workflow, LineageNodeType::Workflow) => true,
        _ => false,
    }
}

impl PartialEq for LineageNodeType {
    fn eq(&self, other: &Self) -> (r: bool) {
        match (self, other) {
            (LineageNodeType::Custom(x), LineageNodeType::Custom(y)) => str_eq(x.as_str(), y.as_str()),
            (LineageNodeType::DataSource, LineageNodeType::DataSource) => true,
            (LineageNodeType::DataTransform, LineageNodeType::DataTransform) => true,
            (LineageNodeType::DataSink, LineageNodeType::DataSink) => true,
            (LineageNodeType::Table, LineageNodeType::Table) => true,
            (LineageNodeType::Column, LineageNodeType::Column) => true,
            (LineageNodeType::File, LineageNodeType::File) => true,
            (LineageNodeType::Api, LineageNodeType::Api) => true,
            (LineageNodeType::Agent, LineageNodeType::Agent) => true,
            (LineageNodeType::Task, LineageNodeType::Task) => true,
            (LineageNodeType::Workflow, LineageNodeType::Workflow) => true,
            _ => false,
        }
    }
}

impl vstd::std_specs::cmp::PartialEqSpecImpl for LineageNodeType {
    open spec fn obeys_eq_spec() -> bool {
        true
    }

    open spec fn eq_spec(&self, other: &Self) -> bool {
        same_node_type(*self, *other)
    }
}

/// A node of the lineage graph: a source, table, task or other thing data
/// passes through. Times are milliseconds since the epoch; metadata holds
/// key and value pairs with distinct keys.
#[derive(Debug)]
pub struct LineageNode {
    pub id: LineageNodeId,
    pub node_type: LineageNodeType,
    pub name: String,
    pub description: Option<String>,
    pub metadata: Vec<(String, JsonValue)>,
    pub created_at: i64,
    pub updated_at: i64,
}

/// The position of the metadata entry with the given key.
pub open spec fn key_pos(meta: Seq<(String, JsonValue)>, key: Seq<char>) -> Option<int> {
    if exists|i: int| 0 <= i < meta.len() && #[trigger] meta[i].0@ == key {
        Some(choose|i: int| 0 <= i < meta.len() && #[trigger] meta[i].0@ == key)
    } else {
        None
    }
}

/// No two metadata entries share a key.
pub open spec fn unique_keys(meta: Seq<(String, JsonValue)>) -> bool {
    forall|i: int, j: int| 0 <= i < j < meta.len() ==> #[trigger] meta[i].0@ != #[trigger] meta[j].0@
}

/// Sets `key` to `value` in the metadata: replaces the entry with that key,
/// or adds one at the end.
pub fn insert_metadata(meta: &mut Vec<(String, JsonValue)>, key: String, value: JsonValue)
    requires
        unique_keys(old(meta)@),
    ensures
        unique_keys(final(meta)@),
        match key_pos(old(meta)@, key@) {
            Some(p) => final(meta)@ == old(meta)@.update(p, (key, value)),
            None => final(meta)@ == old(meta)@.push((key, value)),
        },
{
    let mut i: usize = 0;
    while i < meta.len()
        invariant
            i <= meta@.len(),
            meta@ == old(meta)@,
            unique_keys(meta@),
            forall|j: int| 0 <= j < i ==> meta@[j].0@ != key@,
        decreases meta@.len() - i,
    {
        if str_eq(meta[i].0.as_str(), key.as_str()) {
            proof {
                assert(meta@[i as int].0@ == key@);
                let p = choose|p: int| 0 <= p < meta@.len() && #[trigger] meta@[p].0@ == key@;
                if p != i {
                    if p < i {
                    } else {
                        assert(meta@[i as int].0@ != meta@[p].0@);
                    }
                }
            }
            let ghost before = meta@;
            meta.set(i, (key, value));
            proof {
                assert forall|a: int, b: int| 0 <= a < b < meta@.len() implies #[trigger] meta@[a].0@ != #[trigger] meta@[b].0@ by {
                    assert(before[a].0@ != before[b].0@);
                }
            }
            return;
        }
        i = i + 1;
    }
    let ghost before = meta@;
    meta.push((key, value));
    proof {
        assert forall|a: int, b: int| 0 <= a < b < meta@.len() implies #[trigger] meta@[a].0@ != #[trigger] meta@[b].0@ by {
            if b < before.len() {
                assert(before[a].0@ != before[b].0@);
            }
        }
    }
}

impl LineageNode {
    /// A node of the given type and name with a fresh id, no description,
    /// no metadata, stamped with the current time.
    pub fn new(node_type: LineageNodeType, name: String) -> (n: LineageNode)
        ensures
            n.node_type == node_type,
            n.name == name,
            n.description is None,
            n.metadata@.len() == 0,
            n.created_at == n.updated_at,
            n.id.0@.len() == 36,
    {
        let now = now_millis();
        LineageNode {
            id: LineageNodeId::new(),
            node_type,
            name,
            description: None,
            metadata: Vec::new(),
            created_at: now,
            updated_at: now,
        }
    }

    /// The node with this description.
    pub fn with_description(self, description: String) -> (n: LineageNode)
        ensures
            n == (LineageNode { description: Some(description), ..self }),
    {
        LineageNode { description: Some(description), ..self }
    }

    /// The node with `key` set to `value` in its metadata.
    pub fn with_metadata(self, key: String, value: JsonValue) -> (n: LineageNode)
        requires
            unique_keys(self.metadata@),
        ensures
            unique_keys(n.metadata@),
            n == (LineageNode { metadata: n.metadata, ..self }),
            match key_pos(self.metadata@, key@) {
                Some(p) => n.metadata@ == self.metadata@.update(p, (key, value)),
                None => n.metadata@ == self.metadata@.push((key, value)),
            },
    {
        let mut s = self;
        insert_metadata(&mut s.metadata, key, value);
        s
    }
}

/// The id of a lineage edge.
#[derive(Debug, Clone)]
pub struct LineageEdgeId(pub String);

impl PartialEq for LineageEdgeId {
    fn eq(&self, other: &Self) -> (r: bool) {
        str_eq(self.0.as_str(), other.0.as_str())
    }
}

impl vstd::std_specs::cmp::PartialEqSpecImpl for LineageEdgeId {
    open spec fn obeys_eq_spec() -> bool {
        true
    }

    open spec fn eq_spec(&self, other: &Self) -> bool {
        self.0@ == other.0@
    }
}

impl LineageEdgeId {
    /// A fresh random id.
    pub fn new() -> (id: LineageEdgeId)
        ensures
            id.0@.len() == 36,
    {
        LineageEdgeId(new_uuid())
    }

    /// A fresh random id.
    pub fn default() -> (id: LineageEdgeId)
        ensures
            id.0@.len() == 36,
    {
        LineageEdgeId::new()
    }

    /// The id with the given text.
    pub fn from_string(s: String) -> (id: LineageEdgeId)
        ensures
            id.0 == s,
    {
        LineageEdgeId(s)
    }
}

/// How data flows along a lineage edge.
#[derive(Debug, Clone)]
pub enum LineageEdgeType {
    ReadsFrom,
    WritesTo,
    TransformsTo,
    References,
    DependsOn,
    Custom(String),
}

/// Two edge types are the same kind, custom ones with the same name.
pub open spec fn same_edge_type(a: LineageEdgeType, b: LineageEdgeType) -> bool {
    match (a, b) {
        (LineageEdgeType::Custom(x), LineageEdgeType::Custom(y)) => x@ == y@,
        (LineageEdgeType::ReadsFrom, LineageEdgeType::ReadsFrom) => true,
        (LineageEdgeType::WritesTo, LineageEdgeType::WritesTo) => true,
        (LineageEdgeType::TransformsTo, LineageEdgeType::TransformsTo) => true,
        (LineageEdgeType::References, LineageEdgeType::References) => true,
        (LineageEdgeType::DependsOn, LineageEdgeType::DependsOn) => true,
        _ => false,
    }
}

impl PartialEq for LineageEdgeType {
    fn eq(&self, other: &Self) -> (r: bool) {
        match (self, other) {
            (LineageEdgeType::Custom(x), LineageEdgeType::Custom(y)) => str_eq(x.as_str(), y.as_str()),
            (LineageEdgeType::ReadsFrom, LineageEdgeType::ReadsFrom) => true,
            (LineageEdgeType::WritesTo, LineageEdgeType::WritesTo) => true,
            (LineageEdgeType::TransformsTo, LineageEdgeType::TransformsTo) => true,
            (LineageEdgeType::References, LineageEdgeType::References) => true,
            (LineageEdgeType::DependsOn, LineageEdgeType::DependsOn) => true,
            _ => false,
        }
    }
}

impl vstd::std_specs::cmp::PartialEqSpecImpl for LineageEdgeType {
    open spec fn obeys_eq_spec() -> bool {
        true
    }

    open spec fn eq_spec(&self, other: &Self) -> bool {
        same_edge_type(*self, *other)
    }
}

/// An edge of the lineage graph, from the node data comes from to the node
/// it goes to.
#[derive(Debug)]
pub struct LineageEdge {
    pub id: LineageEdgeId,
    pub edge_type: LineageEdgeType,
    pub source_node_id: LineageNodeId,
    pub target_node_id: LineageNodeId,
    pub description: Option<String>,
    pub metadata: Vec<(String, JsonValue)>,
    pub created_at: i64,
}

impl LineageEdge {
    /// An edge of the given type between the nodes, with a fresh id, no
    /// description and no metadata.
    pub fn new(edge_type: LineageEdgeType, source_node_id: LineageNodeId, target_node_id: LineageNodeId) -> (e: LineageEdge)
        ensures
            e.edge_type == edge_type,
            e.source_node_id == source_node_id,
            e.target_node_id == target_node_id,
            e.description is None,
            e.metadata@.len() == 0,
            e.id.0@.len() == 36,
    {
        LineageEdge {
            id: LineageEdgeId::new(),
            edge_type,
            source_node_id,
            target_node_id,
            description: None,
            metadata: Vec::new(),
            created_at: now_millis(),
        }
    }

    /// The edge with this description.
    pub fn with_description(self, description: String) -> (e: LineageEdge)
        ensures
            e == (LineageEdge { description: Some(description), ..self }),
    {
        LineageEdge { description: Some(description), ..self }
    }

    /// The edge with `key` set to `value` in its metadata.
    pub fn with_metadata(self, key: String, value: JsonValue) -> (e: LineageEdge)
        requires
            unique_keys(self.metadata@),
        ensures
            unique_keys(e.metadata@),
            e == (LineageEdge { metadata: e.metadata, ..self }),
            match key_pos(self.metadata@, key@) {
                Some(p) => e.metadata@ == self.metadata@.update(p, (key, value)),
                None => e.metadata@ == self.metadata@.push((key, value)),
            },
    {
        let mut s = self;
        insert_metadata(&mut s.metadata, key, value);
        s
    }
}

/// A lineage graph: its nodes, with distinct ids, and its edges.
#[derive(Debug)]
pub struct DataLineage {
    pub nodes: Vec<LineageNode>,
    pub edges: Vec<LineageEdge>,
}

/// The position of the node with the given id.
pub open spec fn lineage_node_pos(nodes: Seq<LineageNode>, id: Seq<char>) -> Option<int> {
    if exists|i: int| 0 <= i < nodes.len() && #[trigger] nodes[i].id.0@ == id {
        Some(choose|i: int| 0 <= i < nodes.len() && #[trigger] nodes[i].id.0@ == id)
    } else {
        None
    }
}

/// No two nodes share an id.
pub open spec fn distinct_node_ids(nodes: Seq<LineageNode>) -> bool {
    forall|i: int, j: int| 0 <= i < j < nodes.len() ==> #[trigger] nodes[i].id.0@ != #[trigger] nodes[j].id.0@
}

/// The positions of the edges, in order, that the predicate picks.
pub open spec fn edge_positions(edges: Seq<LineageEdge>, id: Seq<char>, outgoing: bool) -> Seq<int>
    decreases edges.len(),
{
    if edges.len() == 0 {
        Seq::empty()
    } else {
        let rest = edge_positions(edges.drop_last(), id, outgoing);
        let e = edges.last();
        if (if outgoing { e.source_node_id.0@ } else { e.target_node_id.0@ }) == id {
            rest.push(edges.len() - 1)
        } else {
            rest
        }
    }
}

impl DataLineage {
    /// The graph is well formed: node ids are distinct.
    pub open spec fn wf(&self) -> bool {
        distinct_node_ids(self.nodes@)
    }

    /// An empty graph.
    pub fn new() -> (l: DataLineage)
        ensures
            l.wf(),
            l.nodes@.len() == 0,
            l.edges@.len() == 0,
    {
        DataLineage { nodes: Vec::new(), edges: Vec::new() }
    }

    fn find(&self, id: &LineageNodeId) -> (r: Option<usize>)
        requires
            self.wf(),
        ensures
            lineage_node_pos(self.nodes@, id.0@) == match r {
                Some(i) => Some(i as int),
                None => None::<int>,
            },
            r matches Some(i) ==> i < self.nodes@.len(),
    {
        let mut i: usize = 0;
        while i < self.nodes.len()
            invariant
                self.wf(),
                i <= self.nodes@.len(),
                forall|j: int| 0 <= j < i ==> self.nodes@[j].id.0@ != id.0@,
            decreases self.nodes@.len() - i,
        {
            if self.nodes[i].id.same(id) {
                proof {
                    assert(self.nodes@[i as int].id.0@ == id.0@);
                    let p = choose|p: int| 0 <= p < self.nodes@.len() && #[trigger] self.nodes@[p].id.0@ == id.0@;
                    if p != i {
                        if p > i {
                            assert(self.nodes@[i as int].id.0@ != self.nodes@[p].id.0@);
                        }
                    }
                }
                return Some(i);
            }
            i = i + 1;
        }
        None
    }

    /// An empty graph.
    pub fn default() -> (l: DataLineage)
        ensures
            l.wf(),
            l.nodes@.len() == 0,
            l.edges@.len() == 0,
    {
        DataLineage::new()
    }

    /// Adds the node, replacing the node with the same id if there is one.
    pub fn add_node(&mut self, node: LineageNode)
        requires
            old(self).wf(),
        ensures
            final(self).wf(),
            final(self).edges == old(self).edges,
            match lineage_node_pos(old(self).nodes@, node.id.0@) {
                Some(p) => final(self).nodes@ == old(self).nodes@.update(p, node),
                None => final(self).nodes@ == old(self).nodes@.push(node),
            },
    {
        let ghost before = self.nodes@;
        match self.find(&node.id) {
            Some(i) => {
                self.nodes.set(i, node);
                proof {
                    assert(before[i as int].id.0@ == node.id.0@);
                    assert forall|a: int, b: int| 0 <= a < b < self.nodes@.len() implies #[trigger] self.nodes@[a].id.0@
                        != #[trigger] self.nodes@[b].id.0@ by {
                        assert(before[a].id.0@ != before[b].id.0@);
                    }
                }
            },
            None => {
                self.nodes.push(node);
                proof {
                    assert forall|a: int, b: int| 0 <= a < b < self.nodes@.len() implies #[trigger] self.nodes@[a].id.0@
                        != #[trigger] self.nodes@[b].id.0@ by {
                        if b < before.len() {
                            assert(before[a].id.0@ != before[b].id.0@);
                        } else {
                            assert(before[a].id.0@ != node.id.0@);
                        }
                    }
                }
            },
        }
    }

    /// Adds the edge at the end.
    pub fn add_edge(&mut self, edge: LineageEdge)
        ensures
            final(self).nodes == old(self).nodes,
            final(self).edges@ == old(self).edges@.push(edge),
    {
        self.edges.push(edge);
    }

    /// The node with the given id.
    pub fn get_node(&self, node_id: &LineageNodeId) -> (r: Option<&LineageNode>)
        requires
            self.wf(),
        ensures
            match lineage_node_pos(self.nodes@, node_id.0@) {
                Some(p) => r == Some(&self.nodes@[p]),
                None => r is None,
            },
    {
        match self.find(node_id) {
            Some(i) => Some(&self.nodes[i]),
            None => None,
        }
    }

    fn edges_at(&self, node_id: &LineageNodeId, outgoing: bool) -> (r: Vec<&LineageEdge>)
        ensures
            r@.len() == edge_positions(self.edges@, node_id.0@, outgoing).len(),
            forall|k: int| 0 <= k < r@.len() ==> *#[trigger] r@[k] == self.edges@[edge_positions(self.edges@, node_id.0@, outgoing)[k]],
    {
        let mut r: Vec<&LineageEdge> = Vec::new();
        let mut i: usize = 0;
        while i < self.edges.len()
            invariant
                i <= self.edges@.len(),
                r@.len() == edge_positions(self.edges@.subrange(0, i as int), node_id.0@, outgoing).len(),
                forall|k: int| 0 <= k < r@.len() ==> *#[trigger] r@[k] == self.edges@[edge_positions(self.edges@.subrange(0, i as int), node_id.0@, outgoing)[k]],
            decreases self.edges@.len() - i,
        {
            let ghost pre = self.edges@.subrange(0, i as int);
            let ghost post = self.edges@.subrange(0, i as int + 1);
            proof {
                assert(post.drop_last() =~= pre);
            }
            let e = &self.edges[i];
            let hit = if outgoing {
                e.source_node_id.same(node_id)
            } else {
                e.target_node_id.same(node_id)
            };
            if hit {
                r.push(e);
            }
            i = i + 1;
        }
        assert(self.edges@.subrange(0, self.edges@.len() as int) =~= self.edges@);
        r
    }

    /// The edges leaving the node, in order.
    pub fn get_outgoing_edges(&self, node_id: &LineageNodeId) -> (r: Vec<&LineageEdge>)
        ensures
            r@.len() == edge_positions(self.edges@, node_id.0@, true).len(),
            forall|k: int| 0 <= k < r@.len() ==> *#[trigger] r@[k] == self.edges@[edge_positions(self.edges@, node_id.0@, true)[k]],
    {
        self.edges_at(node_id, true)
    }

    /// The edges reaching the node, in order.
    pub fn get_incoming_edges(&self, node_id: &LineageNodeId) -> (r: Vec<&LineageEdge>)
        ensures
            r@.len() == edge_positions(self.edges@, node_id.0@, false).len(),
            forall|k: int| 0 <= k < r@.len() ==> *#[trigger] r@[k] == self.edges@[edge_positions(self.edges@, node_id.0@, false)[k]],
    {
        self.edges_at(node_id, false)
    }
}


/// The model of metadata: its keys' texts with their values' models.
pub open spec fn meta_model(meta: Seq<(String, JsonValue)>) -> Seq<(Seq<char>, crate::json::JsonModel)> {
    meta.map_values(|e: (String, JsonValue)| (e.0@, e.1@))
}

/// A copy of metadata, entry by entry.
pub fn duplicate_metadata(meta: &Vec<(String, JsonValue)>) -> (r: Vec<(String, JsonValue)>)
    ensures
        meta_model(r@) == meta_model(meta@),
        forall|i: int| 0 <= i < r@.len() ==> #[trigger] r@[i].0 == meta@[i].0,
        unique_keys(meta@) ==> unique_keys(r@),
{
    let mut r: Vec<(String, JsonValue)> = Vec::new();
    let mut i: usize = 0;
    while i < meta.len()
        invariant
            i <= meta@.len(),
            r@.len() == i,
            forall|k: int| 0 <= k < i ==> #[trigger] r@[k].0 == meta@[k].0 && r@[k].1@ == meta@[k].1@,
        decreases meta@.len() - i,
    {
        r.push((meta[i].0.clone(), meta[i].1.duplicate()));
        i = i + 1;
    }
    assert(meta_model(r@) =~= meta_model(meta@));
    assert(unique_keys(meta@) ==> unique_keys(r@)) by {
        if unique_keys(meta@) {
            assert forall|a: int, b: int| 0 <= a < b < r@.len() implies #[trigger] r@[a].0@ != #[trigger] r@[b].0@ by {
                assert(meta@[a].0@ != meta@[b].0@);
            }
        }
    }
    r
}

/// Two nodes are the same: equal in every field, the metadata by model.
pub open spec fn same_node(a: LineageNode, b: LineageNode) -> bool {
    &&& a.id == b.id
    &&& a.node_type == b.node_type
    &&& a.name == b.name
    &&& a.description == b.description
    &&& meta_model(a.metadata@) == meta_model(b.metadata@)
    &&& a.created_at == b.created_at
    &&& a.updated_at == b.updated_at
}

/// Two edges are the same: equal in every field, the metadata by model.
pub open spec fn same_edge(a: LineageEdge, b: LineageEdge) -> bool {
    &&& a.id == b.id
    &&& a.edge_type == b.edge_type
    &&& a.source_node_id == b.source_node_id
    &&& a.target_node_id == b.target_node_id
    &&& a.description == b.description
    &&& meta_model(a.metadata@) == meta_model(b.metadata@)
    &&& a.created_at == b.created_at
}

impl LineageNodeType {
    /// A copy of the type.
    pub fn duplicate(&self) -> (r: LineageNodeType)
        ensures
            r == *self,
    {
        match self {
            LineageNodeType::DataSource => LineageNodeType::DataSource,
            LineageNodeType::DataTransform => LineageNodeType::DataTransform,
            LineageNodeType::DataSink => LineageNodeType::DataSink,
            LineageNodeType::Table => LineageNodeType::Table,
            LineageNodeType::Column => LineageNodeType::Column,
            LineageNodeType::File => LineageNodeType::File,
            LineageNodeType::Api => LineageNodeType::Api,
            LineageNodeType::Agent => LineageNodeType::Agent,
            LineageNodeType::Task => LineageNodeType::Task,
            LineageNodeType::Workflow => LineageNodeType::Workflow,
            LineageNodeType::Custom(s) => LineageNodeType::Custom(s.clone()),
        }
    }
}

impl LineageEdgeType {
    /// A copy of the type.
    pub fn duplicate(&self) -> (r: LineageEdgeType)
        ensures
            r == *self,
    {
        match self {
            LineageEdgeType::ReadsFrom => LineageEdgeType::ReadsFrom,
            LineageEdgeType::WritesTo => LineageEdgeType::WritesTo,
            LineageEdgeType::TransformsTo => LineageEdgeType::TransformsTo,
            LineageEdgeType::References => LineageEdgeType::References,
            LineageEdgeType::DependsOn => LineageEdgeType::DependsOn,
            LineageEdgeType::Custom(s) => LineageEdgeType::Custom(s.clone()),
        }
    }
}

impl LineageNodeId {
    /// A copy of the id.
    pub fn duplicate(&self) -> (r: LineageNodeId)
        ensures
            r == *self,
    {
        LineageNodeId(self.0.clone())
    }
}

impl LineageEdgeId {
    /// A copy of the id.
    pub fn duplicate(&self) -> (r: LineageEdgeId)
        ensures
            r == *self,
    {
        LineageEdgeId(self.0.clone())
    }
}

impl LineageNode {
    /// A copy of the node.
    pub fn duplicate(&self) -> (r: LineageNode)
        ensures
            same_node(r, *self),
            unique_keys(self.metadata@) ==> unique_keys(r.metadata@),
    {
        let metadata = duplicate_metadata(&self.metadata);
        LineageNode {
            id: self.id.duplicate(),
            node_type: self.node_type.duplicate(),
            name: self.name.clone(),
            description: match &self.description {
                Some(d) => Some(d.clone()),
                None => None,
            },
            metadata,
            created_at: self.created_at,
            updated_at: self.updated_at,
        }
    }
}

impl LineageEdge {
    /// A copy of the edge.
    pub fn duplicate(&self) -> (r: LineageEdge)
        ensures
            same_edge(r, *self),
            unique_keys(self.metadata@) ==> unique_keys(r.metadata@),
    {
        let metadata = duplicate_metadata(&self.metadata);
        LineageEdge {
            id: self.id.duplicate(),
            edge_type: self.edge_type.duplicate(),
            source_node_id: self.source_node_id.duplicate(),
            target_node_id: self.target_node_id.duplicate(),
            description: match &self.description {
                Some(d) => Some(d.clone()),
                None => None,
            },
            metadata,
            created_at: self.created_at,
        }
    }
}

} // verus!
