//! Recording lineage: a store of nodes, edges and the records of their
//! creation; a collector that gathers nodes and edges as data moves and
//! hands them to a store; queries that walk the graph; and the layouts it
//! is drawn in. Times are milliseconds since the Unix epoch.

use vstd::prelude::*;
use crate::governance::{
    DataLineage, LineageEdge, LineageEdgeId, LineageEdgeType, LineageNode, LineageNodeId, LineageNodeType,
    lineage_node_pos, distinct_node_ids, same_node, same_edge, unique_keys, key_pos, insert_metadata,
};
use crate::json::{JsonValue, JsonModel, members_model, items_model};
use crate::error::AetherisError;
use crate::runtime::{new_uuid, now_millis};
use crate::text::{str_eq, contains_text_in, decimal, u64_to_text, str_debug, str_debug_text};
use crate::engine::types::texts;

verus! {

broadcast use vstd::std_specs::vec::group_vec_axioms, vstd::seq::group_seq_axioms;

/// What a lineage record notes.
#[derive(Debug, Clone, Copy, PartialEq, Eq, Structural)]
pub enum LineageRecordType {
    NodeCreated,
    NodeUpdated,
    EdgeCreated,
}

/// A note that a node or an edge was stored.
#[derive(Debug)]
pub struct LineageRecord {
    pub id: String,
    pub record_type: LineageRecordType,
    pub node: Option<LineageNode>,
    pub edge: Option<LineageEdge>,
    pub timestamp: i64,
    pub metadata: JsonValue,
}

impl LineageRecord {
    /// A record of a node with a fresh id, stamped now, with empty
    /// metadata.
    pub fn new_node_record(node: LineageNode, record_type: LineageRecordType) -> (r: LineageRecord)
        ensures
            r.record_type == record_type,
            r.node == Some(node),
            r.edge is None,
            r.metadata@ == JsonModel::Object(Seq::empty()),
            r.id@.len() == 36,
    {
        LineageRecord {
            id: new_uuid(),
            record_type,
            node: Some(node),
            edge: None,
            timestamp: now_millis(),
            metadata: JsonValue::empty_object(),
        }
    }

    /// A record of a new edge with a fresh id, stamped now, with empty
    /// metadata.
    pub fn new_edge_record(edge: LineageEdge) -> (r: LineageRecord)
        ensures
            r.record_type == LineageRecordType::EdgeCreated,
            r.node is None,
            r.edge == Some(edge),
            r.metadata@ == JsonModel::Object(Seq::empty()),
            r.id@.len() == 36,
    {
        LineageRecord {
            id: new_uuid(),
            record_type: LineageRecordType::EdgeCreated,
            node: None,
            edge: Some(edge),
            timestamp: now_millis(),
            metadata: JsonValue::empty_object(),
        }
    }
}

/// The layout a lineage graph is drawn for.
#[derive(Debug, Clone, Copy, PartialEq, Eq, Structural)]
pub enum VisualizationFormat {
    D3Js,
    CytoscapeJs,
    Generic,
}

/// The position of the edge with the given id.
pub open spec fn edge_pos(edges: Seq<LineageEdge>, id: Seq<char>) -> Option<int> {
    if exists|i: int| 0 <= i < edges.len() && #[trigger] edges[i].id.0@ == id {
        Some(choose|i: int| 0 <= i < edges.len() && #[trigger] edges[i].id.0@ == id)
    } else {
        None
    }
}

/// No two edges share an id.
pub open spec fn distinct_edge_ids(edges: Seq<LineageEdge>) -> bool {
    forall|i: int, j: int| 0 <= i < j < edges.len() ==> #[trigger] edges[i].id.0@ != #[trigger] edges[j].id.0@
}

/// The nodes after storing one: it replaces the node with its id, or else
/// comes last.
pub open spec fn put_node(nodes: Seq<LineageNode>, n: LineageNode) -> Seq<LineageNode> {
    match lineage_node_pos(nodes, n.id.0@) {
        Some(p) => nodes.update(p, n),
        None => nodes.push(n),
    }
}

/// The edges after storing one: it replaces the edge with its id, or else
/// comes last.
pub open spec fn put_edge(edges: Seq<LineageEdge>, e: LineageEdge) -> Seq<LineageEdge> {
    match edge_pos(edges, e.id.0@) {
        Some(p) => edges.update(p, e),
        None => edges.push(e),
    }
}

/// What a record is about: its kind and the id of its node or edge.
pub open spec fn record_shape(r: LineageRecord) -> (LineageRecordType, Option<Seq<char>>, Option<Seq<char>>) {
    (
        r.record_type,
        match r.node { Some(n) => Some(n.id.0@), None => None },
        match r.edge { Some(e) => Some(e.id.0@), None => None },
    )
}

/// The model of a store.
pub struct StoreModel {
    pub nodes: Seq<LineageNode>,
    pub edges: Seq<LineageEdge>,
    pub records: Seq<LineageRecord>,
}

/// The lineage graph as recorded: nodes and edges by id, and a record of
/// each storing in order.
#[derive(Debug)]
pub struct LineageStore {
    nodes: Vec<LineageNode>,
    edges: Vec<LineageEdge>,
    records: Vec<LineageRecord>,
}

impl View for LineageStore {
    type V = StoreModel;

    closed spec fn view(&self) -> StoreModel {
        StoreModel { nodes: self.nodes@, edges: self.edges@, records: self.records@ }
    }
}

impl LineageStore {
    /// Node ids and edge ids are distinct.
    pub open spec fn wf(&self) -> bool {
        distinct_node_ids(self@.nodes) && distinct_edge_ids(self@.edges)
    }

    /// An empty store.
    pub fn new() -> (s: LineageStore)
        ensures
            s.wf(),
            s@.nodes.len() == 0,
            s@.edges.len() == 0,
            s@.records.len() == 0,
    {
        LineageStore { nodes: Vec::new(), edges: Vec::new(), records: Vec::new() }
    }

    /// An empty store.
    pub fn default() -> (s: LineageStore)
        ensures
            s.wf(),
            s@.nodes.len() == 0,
            s@.edges.len() == 0,
            s@.records.len() == 0,
    {
        LineageStore::new()
    }

    fn find_node(&self, id: &LineageNodeId) -> (r: Option<usize>)
        requires
            self.wf(),
        ensures
            lineage_node_pos(self@.nodes, id.0@) == match r {
                Some(i) => Some(i as int),
                None => None::<int>,
            },
            r matches Some(i) ==> i < self@.nodes.len(),
    {
        let mut i: usize = 0;
        while i < self.nodes.len()
            invariant
                self.wf(),
                i <= self.nodes@.len(),
                forall|j: int| 0 <= j < i ==> self.nodes@[j].id.0@ != id.0@,
            decreases self.nodes@.len() - i,
        {
            if self.nodes[i].id.same(id) {
                proof {
                    let p = choose|p: int| 0 <= p < self.nodes@.len() && #[trigger] self.nodes@[p].id.0@ == id.0@;
                    if p > i {
                        assert(self.nodes@[i as int].id.0@ != self.nodes@[p].id.0@);
                    }
                }
                return Some(i);
            }
            i = i + 1;
        }
        None
    }

    fn find_edge(&self, id: &LineageEdgeId) -> (r: Option<usize>)
        requires
            self.wf(),
        ensures
            edge_pos(self@.edges, id.0@) == match r {
                Some(i) => Some(i as int),
                None => None::<int>,
            },
            r matches Some(i) ==> i < self@.edges.len(),
    {
        let mut i: usize = 0;
        while i < self.edges.len()
            invariant
                self.wf(),
                i <= self.edges@.len(),
                forall|j: int| 0 <= j < i ==> self.edges@[j].id.0@ != id.0@,
            decreases self.edges@.len() - i,
        {
            if str_eq(self.edges[i].id.0.as_str(), id.0.as_str()) {
                proof {
                    let p = choose|p: int| 0 <= p < self.edges@.len() && #[trigger] self.edges@[p].id.0@ == id.0@;
                    if p > i {
                        assert(self.edges@[i as int].id.0@ != self.edges@[p].id.0@);
                    }
                }
                return Some(i);
            }
            i = i + 1;
        }
        None
    }

    /// Stores a node, replacing the node with its id, and records that it
    /// was created.
    pub fn store_node(&mut self, node: LineageNode) -> (r: Result<LineageNodeId, AetherisError>)
        requires
            old(self).wf(),
        ensures
            final(self).wf(),
            r == Ok::<LineageNodeId, AetherisError>(node.id),
            final(self)@.nodes == put_node(old(self)@.nodes, node),
            final(self)@.edges == old(self)@.edges,
            final(self)@.records.len() == old(self)@.records.len() + 1,
            final(self)@.records.drop_last() == old(self)@.records,
            final(self)@.records.last().record_type == LineageRecordType::NodeCreated,
            final(self)@.records.last().edge is None,
            final(self)@.records.last().node is Some,
            same_node(final(self)@.records.last().node->Some_0, node),
    {
        let ghost before = self.nodes@;
        let ghost old_records = self.records@;
        let node_id = node.id.duplicate();
        let record = LineageRecord::new_node_record(node.duplicate(), LineageRecordType::NodeCreated);
        let ghost n = node;
        match self.find_node(&node.id) {
            Some(i) => {
                self.nodes.set(i, node);
                proof {
                    assert forall|a: int, b: int| 0 <= a < b < self.nodes@.len() implies #[trigger] self.nodes@[a].id.0@
                        != #[trigger] self.nodes@[b].id.0@ by {
                        assert(before[a].id.0@ != before[b].id.0@);
                    }
                }
            },
            None => {
                self.nodes.push(node);
                proof {
                    assert forall|a: int, b: int| 0 <= a < b < self.nodes@.len() implies #[trigger] self.nodes@[a].id.0@
                        != #[trigger] self.nodes@[b].id.0@ by {
                        if b < before.len() {
                            assert(before[a].id.0@ != before[b].id.0@);
                        } else {
                            assert(before[a].id.0@ != n.id.0@);
                        }
                    }
                }
            },
        }
        self.records.push(record);
        assert(self@.records.drop_last() =~= old_records);
        Ok(node_id)
    }

    /// Stores an edge, replacing the edge with its id, and records that it
    /// was created.
    pub fn store_edge(&mut self, edge: LineageEdge) -> (r: Result<LineageEdgeId, AetherisError>)
        requires
            old(self).wf(),
        ensures
            final(self).wf(),
            r == Ok::<LineageEdgeId, AetherisError>(edge.id),
            final(self)@.edges == put_edge(old(self)@.edges, edge),
            final(self)@.nodes == old(self)@.nodes,
            final(self)@.records.len() == old(self)@.records.len() + 1,
            final(self)@.records.drop_last() == old(self)@.records,
            final(self)@.records.last().record_type == LineageRecordType::EdgeCreated,
            final(self)@.records.last().node is None,
            final(self)@.records.last().edge is Some,
            same_edge(final(self)@.records.last().edge->Some_0, edge),
    {
        let ghost before = self.edges@;
        let ghost old_records = self.records@;
        let edge_id = edge.id.duplicate();
        let record = LineageRecord::new_edge_record(edge.duplicate());
        let ghost e = edge;
        match self.find_edge(&edge.id) {
            Some(i) => {
                self.edges.set(i, edge);
                proof {
                    assert forall|a: int, b: int| 0 <= a < b < self.edges@.len() implies #[trigger] self.edges@[a].id.0@
                        != #[trigger] self.edges@[b].id.0@ by {
                        assert(before[a].id.0@ != before[b].id.0@);
                    }
                }
            },
            None => {
                self.edges.push(edge);
                proof {
                    assert forall|a: int, b: int| 0 <= a < b < self.edges@.len() implies #[trigger] self.edges@[a].id.0@
                        != #[trigger] self.edges@[b].id.0@ by {
                        if b < before.len() {
                            assert(before[a].id.0@ != before[b].id.0@);
                        } else {
                            assert(before[a].id.0@ != e.id.0@);
                        }
                    }
                }
            },
        }
        self.records.push(record);
        assert(self@.records.drop_last() =~= old_records);
        Ok(edge_id)
    }

    /// The node with the given id.
    pub fn get_node(&self, node_id: &LineageNodeId) -> (r: Option<&LineageNode>)
        requires
            self.wf(),
        ensures
            match lineage_node_pos(self@.nodes, node_id.0@) {
                Some(p) => r == Some(&self@.nodes[p]),
                None => r is None,
            },
    {
        match self.find_node(node_id) {
            Some(i) => Some(&self.nodes[i]),
            None => None,
        }
    }

    /// All nodes, in the order they were first stored.
    pub fn get_all_nodes(&self) -> (r: Vec<&LineageNode>)
        ensures
            r@.len() == self@.nodes.len(),
            forall|i: int| 0 <= i < r@.len() ==> *#[trigger] r@[i] == self@.nodes[i],
    {
        let mut r: Vec<&LineageNode> = Vec::new();
        let mut i: usize = 0;
        while i < self.nodes.len()
            invariant
                i <= self.nodes@.len(),
                r@.len() == i,
                forall|k: int| 0 <= k < i ==> *#[trigger] r@[k] == self.nodes@[k],
            decreases self.nodes@.len() - i,
        {
            r.push(&self.nodes[i]);
            i = i + 1;
        }
        r
    }

    /// All edges, in the order they were first stored.
    pub fn get_all_edges(&self) -> (r: Vec<&LineageEdge>)
        ensures
            r@.len() == self@.edges.len(),
            forall|i: int| 0 <= i < r@.len() ==> *#[trigger] r@[i] == self@.edges[i],
    {
        let mut r: Vec<&LineageEdge> = Vec::new();
        let mut i: usize = 0;
        while i < self.edges.len()
            invariant
                i <= self.edges@.len(),
                r@.len() == i,
                forall|k: int| 0 <= k < i ==> *#[trigger] r@[k] == self.edges@[k],
            decreases self.edges@.len() - i,
        {
            r.push(&self.edges[i]);
            i = i + 1;
        }
        r
    }

    /// The records, in the order they were made.
    pub fn get_records(&self) -> (r: &Vec<LineageRecord>)
        ensures
            r@ == self@.records,
    {
        &self.records
    }

    /// The whole graph: a copy of every node and every edge, in order.
    pub fn build_full_lineage(&self) -> (l: DataLineage)
        requires
            self.wf(),
        ensures
            l.wf(),
            l.nodes@.len() == self@.nodes.len(),
            forall|i: int| 0 <= i < l.nodes@.len() ==> same_node(#[trigger] l.nodes@[i], self@.nodes[i]),
            l.edges@.len() == self@.edges.len(),
            forall|i: int| 0 <= i < l.edges@.len() ==> same_edge(#[trigger] l.edges@[i], self@.edges[i]),
    {
        let mut nodes: Vec<LineageNode> = Vec::new();
        let mut i: usize = 0;
        while i < self.nodes.len()
            invariant
                self.wf(),
                i <= self.nodes@.len(),
                nodes@.len() == i,
                forall|k: int| 0 <= k < i ==> same_node(#[trigger] nodes@[k], self.nodes@[k]),
            decreases self.nodes@.len() - i,
        {
            nodes.push(self.nodes[i].duplicate());
            i = i + 1;
        }
        let mut edges: Vec<LineageEdge> = Vec::new();
        let mut i: usize = 0;
        while i < self.edges.len()
            invariant
                i <= self.edges@.len(),
                edges@.len() == i,
                forall|k: int| 0 <= k < i ==> same_edge(#[trigger] edges@[k], self.edges@[k]),
            decreases self.edges@.len() - i,
        {
            edges.push(self.edges[i].duplicate());
            i = i + 1;
        }
        let l = DataLineage { nodes, edges };
        proof {
            assert forall|a: int, b: int| 0 <= a < b < l.nodes@.len() implies #[trigger] l.nodes@[a].id.0@
                != #[trigger] l.nodes@[b].id.0@ by {
                assert(same_node(l.nodes@[a], self.nodes@[a]));
                assert(same_node(l.nodes@[b], self.nodes@[b]));
                assert(self.nodes@[a].id.0@ != self.nodes@[b].id.0@);
            }
        }
        l
    }
}

/// The nodes after storing each of `ns` in order.
pub open spec fn put_nodes(nodes: Seq<LineageNode>, ns: Seq<LineageNode>) -> Seq<LineageNode>
    decreases ns.len(),
{
    if ns.len() == 0 {
        nodes
    } else {
        put_node(put_nodes(nodes, ns.drop_last()), ns.last())
    }
}

/// The edges after storing each of `es` in order.
pub open spec fn put_edges(edges: Seq<LineageEdge>, es: Seq<LineageEdge>) -> Seq<LineageEdge>
    decreases es.len(),
{
    if es.len() == 0 {
        edges
    } else {
        put_edge(put_edges(edges, es.drop_last()), es.last())
    }
}

/// `s1` is `s0` after storing the nodes `ns` and then the edges `es`:
/// each stored by id, and each recorded in that order.
pub open spec fn flushed(s0: StoreModel, s1: StoreModel, ns: Seq<LineageNode>, es: Seq<LineageEdge>) -> bool {
    let k = s0.records.len() as int;
    &&& s1.nodes == put_nodes(s0.nodes, ns)
    &&& s1.edges == put_edges(s0.edges, es)
    &&& s1.records.len() == k + ns.len() + es.len()
    &&& forall|x: int| 0 <= x < k ==> #[trigger] record_shape(s1.records[x]) == record_shape(s0.records[x])
    &&& forall|i: int| 0 <= i < ns.len() ==> #[trigger] record_shape(s1.records[k + i])
        == (LineageRecordType::NodeCreated, Some(ns[i].id.0@), None::<Seq<char>>)
    &&& forall|j: int| 0 <= j < es.len() ==> #[trigger] record_shape(s1.records[k + ns.len() + j])
        == (LineageRecordType::EdgeCreated, None::<Seq<char>>, Some(es[j].id.0@))
}

/// A node type as a key: its variant, and the name of a custom type.
pub open spec fn node_type_key(t: LineageNodeType) -> (int, Seq<char>) {
    match t {
        LineageNodeType::DataSource => (0, Seq::empty()),
        LineageNodeType::DataTransform => (1, Seq::empty()),
        LineageNodeType::DataSink => (2, Seq::empty()),
        LineageNodeType::Table => (3, Seq::empty()),
        LineageNodeType::Column => (4, Seq::empty()),
        LineageNodeType::File => (5, Seq::empty()),
        LineageNodeType::Api => (6, Seq::empty()),
        LineageNodeType::Agent => (7, Seq::empty()),
        LineageNodeType::Task => (8, Seq::empty()),
        LineageNodeType::Workflow => (9, Seq::empty()),
        LineageNodeType::Custom(s) => (10, s@),
    }
}

/// What a collected node is remembered by: how it was collected (a source,
/// a transform, a sink, or a node of its own type), its type for the last,
/// and its name.
pub type CacheKey = (int, (int, Seq<char>), Seq<char>);

/// The model of a collector.
pub struct CollectorModel {
    pub pending_nodes: Seq<LineageNode>,
    pub pending_edges: Seq<LineageEdge>,
    pub store: Option<StoreModel>,
    pub auto_flush: bool,
    pub node_cache: Seq<(CacheKey, Seq<char>)>,
    pub context_stack: Seq<Seq<char>>,
}

/// The id remembered for a key, the first one if there are several.
pub open spec fn cached(cache: Seq<(CacheKey, Seq<char>)>, key: CacheKey) -> Option<Seq<char>>
    decreases cache.len(),
{
    if cache.len() == 0 {
        None
    } else {
        match cached(cache.drop_last(), key) {
            Some(id) => Some(id),
            None => if cache.last().0 == key {
                Some(cache.last().1)
            } else {
                None
            },
        }
    }
}

/// `m1` is `m0` after gathering the nodes `ns` and edges `es`: they wait
/// for the next flush, or, when the collector flushes by itself and has a
/// store, everything waiting goes to the store at once.
pub open spec fn gathered(m0: CollectorModel, m1: CollectorModel, ns: Seq<LineageNode>, es: Seq<LineageEdge>) -> bool {
    &&& m1.auto_flush == m0.auto_flush
    &&& m1.node_cache == m0.node_cache
    &&& m1.context_stack == m0.context_stack
    &&& if m0.auto_flush && m0.store is Some {
        &&& m1.pending_nodes.len() == 0
        &&& m1.pending_edges.len() == 0
        &&& m1.store is Some
        &&& flushed(m0.store->Some_0, m1.store->Some_0, m0.pending_nodes + ns, m0.pending_edges + es)
    } else {
        &&& m1.pending_nodes == m0.pending_nodes + ns
        &&& m1.pending_edges == m0.pending_edges + es
        &&& m1.store == m0.store
    }
}

/// A freshly made node of the given type and name, with the given
/// metadata.
pub open spec fn fresh_node(n: LineageNode, t: LineageNodeType, name: Seq<char>, meta: Seq<(String, JsonValue)>) -> bool {
    &&& n.node_type == t
    &&& n.name@ == name
    &&& n.description is None
    &&& crate::governance::meta_model(n.metadata@) == crate::governance::meta_model(meta)
    &&& n.id.0@.len() == 36
}

/// The metadata with a text value set under a key.
pub open spec fn with_text(meta: Seq<(String, JsonValue)>, key: Seq<char>, value: Seq<char>) -> Seq<(Seq<char>, JsonModel)> {
    let m = crate::governance::meta_model(meta);
    match key_pos(meta, key) {
        Some(p) => m.update(p, (key, JsonModel::String(value))),
        None => m.push((key, JsonModel::String(value))),
    }
}

/// Freshly made edges, one for each (type, source, target), in order, with
/// no description or metadata.
pub open spec fn fresh_edges(es: Seq<LineageEdge>, shapes: Seq<(LineageEdgeType, Seq<char>, Seq<char>)>) -> bool {
    &&& es.len() == shapes.len()
    &&& forall|i: int| 0 <= i < es.len() ==> (#[trigger] es[i]).edge_type == shapes[i].0
        && es[i].source_node_id.0@ == shapes[i].1 && es[i].target_node_id.0@ == shapes[i].2
        && es[i].description is None && es[i].metadata@.len() == 0 && es[i].id.0@.len() == 36
}

/// The edges of one type from each of the sources to a target.
pub open spec fn edges_from(t: LineageEdgeType, sources: Seq<LineageNodeId>, target: Seq<char>) -> Seq<(LineageEdgeType, Seq<char>, Seq<char>)> {
    sources.map_values(|s: LineageNodeId| (t, s.0@, target))
}

/// Gathers nodes and edges as data moves through the system, remembering
/// each collected node by how it was collected and its name, and hands
/// them to its store when flushed.
#[derive(Debug)]
pub struct LineageCollector {
    pending_nodes: Vec<LineageNode>,
    pending_edges: Vec<LineageEdge>,
    store: Option<LineageStore>,
    auto_flush: bool,
    node_cache: Vec<(u8, LineageNodeType, String, LineageNodeId)>,
    context_stack: Vec<LineageNodeId>,
}

impl View for LineageCollector {
    type V = CollectorModel;

    closed spec fn view(&self) -> CollectorModel {
        CollectorModel {
            pending_nodes: self.pending_nodes@,
            pending_edges: self.pending_edges@,
            store: match self.store {
                Some(s) => Some(s@),
                None => None,
            },
            auto_flush: self.auto_flush,
            node_cache: self.node_cache@.map_values(
                |e: (u8, LineageNodeType, String, LineageNodeId)| ((e.0 as int, node_type_key(e.1), e.2@), e.3.0@),
            ),
            context_stack: self.context_stack@.map_values(|c: LineageNodeId| c.0@),
        }
    }
}

impl LineageCollector {
    /// The collector's store, when it has one, is well formed.
    pub closed spec fn wf(&self) -> bool {
        match self.store {
            Some(s) => s.wf(),
            None => true,
        }
    }

    /// A collector without a store, nothing gathered, not flushing by
    /// itself.
    pub fn new() -> (c: LineageCollector)
        ensures
            c.wf(),
            c@.pending_nodes.len() == 0,
            c@.pending_edges.len() == 0,
            c@.store is None,
            !c@.auto_flush,
            c@.node_cache.len() == 0,
            c@.context_stack.len() == 0,
    {
        LineageCollector {
            pending_nodes: Vec::new(),
            pending_edges: Vec::new(),
            store: None,
            auto_flush: false,
            node_cache: Vec::new(),
            context_stack: Vec::new(),
        }
    }

    /// A collector without a store, nothing gathered, not flushing by
    /// itself.
    pub fn default() -> (c: LineageCollector)
        ensures
            c.wf(),
            c@.pending_nodes.len() == 0,
            c@.pending_edges.len() == 0,
            c@.store is None,
            !c@.auto_flush,
            c@.node_cache.len() == 0,
            c@.context_stack.len() == 0,
    {
        LineageCollector::new()
    }

    /// A collector handing what it gathers to the given store.
    pub fn with_store(store: LineageStore) -> (c: LineageCollector)
        requires
            store.wf(),
        ensures
            c.wf(),
            c@.pending_nodes.len() == 0,
            c@.pending_edges.len() == 0,
            c@.store == Some(store@),
            !c@.auto_flush,
            c@.node_cache.len() == 0,
            c@.context_stack.len() == 0,
    {
        LineageCollector {
            pending_nodes: Vec::new(),
            pending_edges: Vec::new(),
            store: Some(store),
            auto_flush: false,
            node_cache: Vec::new(),
            context_stack: Vec::new(),
        }
    }

    /// The store, if any.
    pub fn store(&self) -> (s: Option<&LineageStore>)
        requires
            self.wf(),
        ensures
            match s {
                Some(st) => self@.store == Some(st@) && st.wf(),
                None => self@.store is None,
            },
    {
        match &self.store {
            Some(st) => Some(st),
            None => None,
        }
    }

    /// Sets the store.
    pub fn set_store(&mut self, store: LineageStore)
        requires
            store.wf(),
        ensures
            final(self).wf(),
            final(self)@ == (CollectorModel { store: Some(store@), ..old(self)@ }),
    {
        self.store = Some(store);
    }

    /// Sets whether each gathering is flushed at once.
    pub fn set_auto_flush(&mut self, auto_flush: bool)
        requires
            old(self).wf(),
        ensures
            final(self).wf(),
            final(self)@ == (CollectorModel { auto_flush, ..old(self)@ }),
    {
        self.auto_flush = auto_flush;
    }

    /// Enters the context of a node: transforms collected from now on
    /// depend on it.
    pub fn push_context(&mut self, node_id: LineageNodeId)
        requires
            old(self).wf(),
        ensures
            final(self).wf(),
            final(self)@ == (CollectorModel { context_stack: old(self)@.context_stack.push(node_id.0@), ..old(self)@ }),
    {
        let ghost before = self.context_stack@;
        let ghost id = node_id.0@;
        self.context_stack.push(node_id);
        assert(self@.context_stack =~= before.map_values(|c: LineageNodeId| c.0@).push(id));
    }

    /// Leaves the innermost context.
    pub fn pop_context(&mut self) -> (r: Option<LineageNodeId>)
        requires
            old(self).wf(),
        ensures
            final(self).wf(),
            if old(self)@.context_stack.len() == 0 {
                r is None && final(self)@ == old(self)@
            } else {
                r is Some && r->Some_0.0@ == old(self)@.context_stack.last()
                    && final(self)@ == (CollectorModel { context_stack: old(self)@.context_stack.drop_last(), ..old(self)@ })
            },
    {
        let ghost before = self.context_stack@;
        let r = self.context_stack.pop();
        proof {
            if before.len() > 0 {
                assert(self.context_stack@ =~= before.drop_last());
                assert(self@.context_stack =~= before.map_values(|c: LineageNodeId| c.0@).drop_last());
            }
        }
        r
    }

    /// The innermost context.
    pub fn current_context(&self) -> (r: Option<LineageNodeId>)
        ensures
            if self@.context_stack.len() == 0 {
                r is None
            } else {
                r is Some && r->Some_0.0@ == self@.context_stack.last()
            },
    {
        let n = self.context_stack.len();
        if n == 0 {
            None
        } else {
            Some(self.context_stack[n - 1].duplicate())
        }
    }

    /// Hands everything gathered to the store, nodes first, in the order
    /// they were gathered. Without a store nothing happens.
    pub fn flush(&mut self) -> (r: Result<(), AetherisError>)
        requires
            old(self).wf(),
        ensures
            final(self).wf(),
            r is Ok,
            match old(self)@.store {
                None => final(self)@ == old(self)@,
                Some(s0) => {
                    &&& final(self)@.pending_nodes.len() == 0
                    &&& final(self)@.pending_edges.len() == 0
                    &&& final(self)@.store is Some
                    &&& flushed(s0, final(self)@.store->Some_0, old(self)@.pending_nodes, old(self)@.pending_edges)
                    &&& final(self)@.auto_flush == old(self)@.auto_flush
                    &&& final(self)@.node_cache == old(self)@.node_cache
                    &&& final(self)@.context_stack == old(self)@.context_stack
                },
            },
    {
        let ghost m0 = self@;
        match self.store.take() {
            None => {
                assert(self@ =~= m0);
                Ok(())
            },
            Some(mut store) => {
                let ghost s0 = store@;
                let mut nodes: Vec<LineageNode> = Vec::new();
                let mut edges: Vec<LineageEdge> = Vec::new();
                std::mem::swap(&mut nodes, &mut self.pending_nodes);
                std::mem::swap(&mut edges, &mut self.pending_edges);
                let ghost ns = nodes@;
                let ghost es = edges@;
                let ghost k = s0.records.len() as int;
                let node_count = nodes.len();
                let edge_count = edges.len();
                assert(ns.len() == node_count && es.len() == edge_count);
                let mut i: usize = 0;
                while nodes.len() > 0
                    invariant
                        store.wf(),
                        i <= ns.len(),
                        nodes@ == ns.subrange(i as int, ns.len() as int),
                        store@.nodes == put_nodes(s0.nodes, ns.subrange(0, i as int)),
                        store@.edges == s0.edges,
                        store@.records.len() == k + i,
                        k == s0.records.len(),
                        ns.len() <= usize::MAX,
                        forall|x: int| 0 <= x < k ==> #[trigger] record_shape(store@.records[x]) == record_shape(s0.records[x]),
                        forall|q: int| 0 <= q < i ==> #[trigger] record_shape(store@.records[k + q])
                            == (LineageRecordType::NodeCreated, Some(ns[q].id.0@), None::<Seq<char>>),
                    decreases nodes@.len(),
                {
                    let n = nodes.remove(0);
                    let ghost rs = store@.records;
                    assert(ns.subrange(0, i as int + 1) =~= ns.subrange(0, i as int).push(n));
                    assert(ns.subrange(0, i as int + 1).drop_last() =~= ns.subrange(0, i as int));
                    let _ = store.store_node(n);
                    proof {
                        assert(store@.records.drop_last() == rs);
                        assert forall|x: int| 0 <= x < rs.len() implies #[trigger] record_shape(store@.records[x]) == record_shape(rs[x]) by {
                            assert(store@.records.drop_last()[x] == store@.records[x]);
                        }
                        assert forall|q: int| 0 <= q < i + 1 implies #[trigger] record_shape(store@.records[k + q])
                            == (LineageRecordType::NodeCreated, Some(ns[q].id.0@), None::<Seq<char>>) by {
                            if q < i {
                                assert(store@.records.drop_last()[k + q] == store@.records[k + q]);
                                assert(store@.records.drop_last()[k + q] == rs[k + q]);
                            }
                        }
                    }
                    i = i + 1;
                }
                assert(ns.subrange(0, i as int) =~= ns);
                let ghost kn = k + ns.len();
                let mut j: usize = 0;
                while edges.len() > 0
                    invariant
                        store.wf(),
                        j <= es.len(),
                        edges@ == es.subrange(j as int, es.len() as int),
                        store@.nodes == put_nodes(s0.nodes, ns),
                        store@.edges == put_edges(s0.edges, es.subrange(0, j as int)),
                        store@.records.len() == kn + j,
                        kn == k + ns.len(),
                        k == s0.records.len(),
                        es.len() <= usize::MAX,
                        forall|x: int| 0 <= x < k ==> #[trigger] record_shape(store@.records[x]) == record_shape(s0.records[x]),
                        forall|q: int| 0 <= q < ns.len() ==> #[trigger] record_shape(store@.records[k + q])
                            == (LineageRecordType::NodeCreated, Some(ns[q].id.0@), None::<Seq<char>>),
                        forall|q: int| 0 <= q < j ==> #[trigger] record_shape(store@.records[kn + q])
                            == (LineageRecordType::EdgeCreated, None::<Seq<char>>, Some(es[q].id.0@)),
                    decreases edges@.len(),
                {
                    let e = edges.remove(0);
                    let ghost rs = store@.records;
                    assert(es.subrange(0, j as int + 1) =~= es.subrange(0, j as int).push(e));
                    assert(es.subrange(0, j as int + 1).drop_last() =~= es.subrange(0, j as int));
                    let _ = store.store_edge(e);
                    proof {
                        assert(store@.records.drop_last() == rs);
                        assert forall|x: int| 0 <= x < rs.len() implies #[trigger] record_shape(store@.records[x]) == record_shape(rs[x]) by {
                            assert(store@.records.drop_last()[x] == store@.records[x]);
                        }
                        assert forall|q: int| 0 <= q < ns.len() implies #[trigger] record_shape(store@.records[k + q])
                            == (LineageRecordType::NodeCreated, Some(ns[q].id.0@), None::<Seq<char>>) by {
                            assert(record_shape(store@.records[k + q]) == record_shape(rs[k + q]));
                        }
                        assert forall|q: int| 0 <= q < j + 1 implies #[trigger] record_shape(store@.records[kn + q])
                            == (LineageRecordType::EdgeCreated, None::<Seq<char>>, Some(es[q].id.0@)) by {
                            if q < j {
                                assert(store@.records.drop_last()[kn + q] == store@.records[kn + q]);
                                assert(store@.records.drop_last()[kn + q] == rs[kn + q]);
                            }
                        }
                    }
                    j = j + 1;
                }
                assert(es.subrange(0, j as int) =~= es);
                self.store = Some(store);
                proof {
                    let s1 = self@.store->Some_0;
                    assert(s1 == store@);
                    assert forall|q: int| 0 <= q < es.len() implies #[trigger] record_shape(s1.records[k + ns.len() + q])
                        == (LineageRecordType::EdgeCreated, None::<Seq<char>>, Some(es[q].id.0@)) by {
                        assert(record_shape(store@.records[kn + q]) == (LineageRecordType::EdgeCreated, None::<Seq<char>>, Some(es[q].id.0@)));
                    }
                    assert(self@.pending_nodes.len() == 0);
                    assert(self@.node_cache == m0.node_cache);
                }
                Ok(())
            },
        }
    }

    fn gather(&mut self, nodes: Vec<LineageNode>, edges: Vec<LineageEdge>)
        requires
            old(self).wf(),
        ensures
            final(self).wf(),
            gathered(old(self)@, final(self)@, nodes@, edges@),
    {
        let mut nodes = nodes;
        let mut edges = edges;
        self.pending_nodes.append(&mut nodes);
        self.pending_edges.append(&mut edges);
        if self.auto_flush {
            let _ = self.flush();
        }
    }

    fn lookup(&self, kind: u8, node_type: &LineageNodeType, name: &str) -> (r: Option<LineageNodeId>)
        ensures
            match cached(self@.node_cache, (kind as int, node_type_key(*node_type), name@)) {
                Some(id) => r is Some && r->Some_0.0@ == id,
                None => r is None,
            },
    {
        let ghost cache = self@.node_cache;
        let ghost key = (kind as int, node_type_key(*node_type), name@);
        let mut i: usize = 0;
        while i < self.node_cache.len()
            invariant
                i <= self.node_cache@.len(),
                cache == self@.node_cache,
                cache.len() == self.node_cache@.len(),
                key == (kind as int, node_type_key(*node_type), name@),
                cached(cache.subrange(0, i as int), key) is None,
            decreases self.node_cache@.len() - i,
        {
            assert(cache.subrange(0, i as int + 1).drop_last() =~= cache.subrange(0, i as int));
            let e = &self.node_cache[i];
            assert(cache[i as int] == ((e.0 as int, node_type_key(e.1), e.2@), e.3.0@));
            if e.0 == kind && same_type_key(&e.1, node_type) && str_eq(e.2.as_str(), name) {
                proof {
                    assert(cached(cache.subrange(0, i as int + 1), key) == Some(e.3.0@));
                    lemma_cached_prefix(cache, i as int + 1, key);
                }
                return Some(e.3.duplicate());
            }
            i = i + 1;
        }
        assert(cache.subrange(0, i as int) =~= cache);
        None
    }

    fn remember(&mut self, kind: u8, node_type: LineageNodeType, name: String, id: LineageNodeId)
        requires
            old(self).wf(),
        ensures
            final(self).wf(),
            final(self)@ == (CollectorModel {
                node_cache: old(self)@.node_cache.push(((kind as int, node_type_key(node_type), name@), id.0@)),
                ..old(self)@
            }),
    {
        let ghost before = self.node_cache@;
        let ghost entry = ((kind as int, node_type_key(node_type), name@), id.0@);
        self.node_cache.push((kind, node_type, name, id));
        assert(self@.node_cache =~= before.map_values(
            |e: (u8, LineageNodeType, String, LineageNodeId)| ((e.0 as int, node_type_key(e.1), e.2@), e.3.0@),
        ).push(entry));
    }

    /// Collects a data source by name: the id of the source collected under
    /// that name before, or else a new source node with the metadata and
    /// its source type, gathered and remembered by its name.
    pub fn collect_data_source(&mut self, name: String, source_type: String, metadata: Vec<(String, JsonValue)>) -> (r: LineageNodeId)
        requires
            old(self).wf(),
            unique_keys(metadata@),
        ensures
            final(self).wf(),
            match cached(old(self)@.node_cache, (0, node_type_key(LineageNodeType::DataSource), name@)) {
                Some(id) => r.0@ == id && final(self)@ == old(self)@,
                None => exists|n: LineageNode, es: Seq<LineageEdge>| #[trigger] collected(
                    old(self)@,
                    final(self)@,
                    n,
                    es,
                    (0, node_type_key(LineageNodeType::DataSource), name@),
                    node_type_key(LineageNodeType::DataSource),
                    with_text(metadata@, "source_type"@, source_type@),
                    Seq::empty(),
                    r.0@,
                ),
            },
    {
        let key_type = LineageNodeType::DataSource;
        if let Some(id) = self.lookup(0, &key_type, name.as_str()) {
            return id;
        }
        let mut metadata = metadata;
        let ghost meta0 = metadata@;
        let ghost st = source_type@;
        set_text(&mut metadata, "source_type", source_type);
        let mut node = LineageNode::new(LineageNodeType::DataSource, name.clone());
        node.metadata = metadata;
        let node_id = node.id.duplicate();
        let ghost m0 = self@;
        let ghost n = node;
        self.remember(0, LineageNodeType::DataSource, name, node_id.duplicate());
        let ghost m1 = self@;
        let mut nodes: Vec<LineageNode> = Vec::new();
        nodes.push(node);
        let edges: Vec<LineageEdge> = Vec::new();
        self.gather(nodes, edges);
        proof {
            assert(nodes@ =~= seq![n]);
            assert(fresh_edges(Seq::<LineageEdge>::empty(), Seq::empty()));
            assert(collected(m0, self@, n, Seq::empty(), (0, node_type_key(LineageNodeType::DataSource), name@),
                node_type_key(LineageNodeType::DataSource), with_text(meta0, "source_type"@, st), Seq::empty(), node_id.0@));
        }
        node_id
    }

    /// Collects a transform by name: the id of the transform collected
    /// under that name before, or else a new transform node with the
    /// metadata and its transform type, with an edge into it from each
    /// source and, inside a context, an edge from it to the context; all
    /// gathered, and the node remembered by its name.
    pub fn collect_transform(
        &mut self,
        name: String,
        transform_type: String,
        source_nodes: Vec<LineageNodeId>,
        metadata: Vec<(String, JsonValue)>,
    ) -> (r: LineageNodeId)
        requires
            old(self).wf(),
            unique_keys(metadata@),
        ensures
            final(self).wf(),
            match cached(old(self)@.node_cache, (1, node_type_key(LineageNodeType::DataTransform), name@)) {
                Some(id) => r.0@ == id && final(self)@ == old(self)@,
                None => exists|n: LineageNode, es: Seq<LineageEdge>| #[trigger] collected(
                    old(self)@,
                    final(self)@,
                    n,
                    es,
                    (1, node_type_key(LineageNodeType::DataTransform), name@),
                    node_type_key(LineageNodeType::DataTransform),
                    with_text(metadata@, "transform_type"@, transform_type@),
                    transform_edges(source_nodes@, r.0@, old(self)@.context_stack),
                    r.0@,
                ),
            },
    {
        let key_type = LineageNodeType::DataTransform;
        if let Some(id) = self.lookup(1, &key_type, name.as_str()) {
            return id;
        }
        let mut metadata = metadata;
        let ghost meta0 = metadata@;
        let ghost tt = transform_type@;
        set_text(&mut metadata, "transform_type", transform_type);
        let mut node = LineageNode::new(LineageNodeType::DataTransform, name.clone());
        node.metadata = metadata;
        let node_id = node.id.duplicate();
        let ghost m0 = self@;
        let ghost n = node;
        let ghost sources = source_nodes@;
        let mut edges = edges_to(&LineageEdgeType::TransformsTo, source_nodes, &node_id);
        let ghost es0 = edges@;
        match self.current_context() {
            Some(context_id) => {
                edges.push(LineageEdge::new(LineageEdgeType::DependsOn, node_id.duplicate(), context_id));
            },
            None => {},
        }
        let ghost es = edges@;
        let ghost shapes = transform_edges(sources, node_id.0@, m0.context_stack);
        proof {
            assert forall|k: int| 0 <= k < es.len() implies (#[trigger] es[k]).edge_type == shapes[k].0
                && es[k].source_node_id.0@ == shapes[k].1 && es[k].target_node_id.0@ == shapes[k].2
                && es[k].description is None && es[k].metadata@.len() == 0 && es[k].id.0@.len() == 36 by {
                if k < es0.len() {
                    assert(es[k] == es0[k]);
                }
            }
        }
        self.remember(1, LineageNodeType::DataTransform, name, node_id.duplicate());
        let mut nodes: Vec<LineageNode> = Vec::new();
        nodes.push(node);
        self.gather(nodes, edges);
        proof {
            assert(nodes@ =~= seq![n]);
            assert(collected(m0, self@, n, es, (1, node_type_key(LineageNodeType::DataTransform), name@),
                node_type_key(LineageNodeType::DataTransform), with_text(meta0, "transform_type"@, tt), shapes, node_id.0@));
        }
        node_id
    }

    /// Collects a data sink by name: the id of the sink collected under
    /// that name before, or else a new sink node with the metadata and its
    /// sink type, with an edge into it from each source; all gathered, and
    /// the node remembered by its name.
    pub fn collect_data_sink(
        &mut self,
        name: String,
        sink_type: String,
        source_nodes: Vec<LineageNodeId>,
        metadata: Vec<(String, JsonValue)>,
    ) -> (r: LineageNodeId)
        requires
            old(self).wf(),
            unique_keys(metadata@),
        ensures
            final(self).wf(),
            match cached(old(self)@.node_cache, (2, node_type_key(LineageNodeType::DataSink), name@)) {
                Some(id) => r.0@ == id && final(self)@ == old(self)@,
                None => exists|n: LineageNode, es: Seq<LineageEdge>| #[trigger] collected(
                    old(self)@,
                    final(self)@,
                    n,
                    es,
                    (2, node_type_key(LineageNodeType::DataSink), name@),
                    node_type_key(LineageNodeType::DataSink),
                    with_text(metadata@, "sink_type"@, sink_type@),
                    edges_from(LineageEdgeType::WritesTo, source_nodes@, r.0@),
                    r.0@,
                ),
            },
    {
        let key_type = LineageNodeType::DataSink;
        if let Some(id) = self.lookup(2, &key_type, name.as_str()) {
            return id;
        }
        let mut metadata = metadata;
        let ghost meta0 = metadata@;
        let ghost st = sink_type@;
        set_text(&mut metadata, "sink_type", sink_type);
        let mut node = LineageNode::new(LineageNodeType::DataSink, name.clone());
        node.metadata = metadata;
        let node_id = node.id.duplicate();
        let ghost m0 = self@;
        let ghost n = node;
        let ghost sources = source_nodes@;
        let edges = edges_to(&LineageEdgeType::WritesTo, source_nodes, &node_id);
        let ghost es = edges@;
        self.remember(2, LineageNodeType::DataSink, name, node_id.duplicate());
        let mut nodes: Vec<LineageNode> = Vec::new();
        nodes.push(node);
        self.gather(nodes, edges);
        proof {
            assert(nodes@ =~= seq![n]);
            assert(collected(m0, self@, n, es, (2, node_type_key(LineageNodeType::DataSink), name@),
                node_type_key(LineageNodeType::DataSink), with_text(meta0, "sink_type"@, st),
                edges_from(LineageEdgeType::WritesTo, sources, node_id.0@), node_id.0@));
        }
        node_id
    }

    /// Collects a node of its own type by type and name: the id of the node
    /// collected under them before, or else a new node with the metadata,
    /// gathered and remembered.
    pub fn collect_custom_node(
        &mut self,
        node_type: LineageNodeType,
        name: String,
        metadata: Vec<(String, JsonValue)>,
    ) -> (r: LineageNodeId)
        requires
            old(self).wf(),
        ensures
            final(self).wf(),
            custom_collected(old(self)@, final(self)@, node_type_key(node_type), name@, crate::governance::meta_model(metadata@), r.0@),
    {
        if let Some(id) = self.lookup(3, &node_type, name.as_str()) {
            return id;
        }
        let ghost meta = crate::governance::meta_model(metadata@);
        let mut node = LineageNode::new(node_type.duplicate(), name.clone());
        node.metadata = metadata;
        let node_id = node.id.duplicate();
        let ghost m0 = self@;
        let ghost n = node;
        let ghost key = (3int, node_type_key(node_type), name@);
        self.remember(3, node_type, name, node_id.duplicate());
        let mut nodes: Vec<LineageNode> = Vec::new();
        nodes.push(node);
        let edges: Vec<LineageEdge> = Vec::new();
        self.gather(nodes, edges);
        proof {
            assert(nodes@ =~= seq![n]);
            assert(fresh_edges(Seq::<LineageEdge>::empty(), Seq::empty()));
            assert(collected(m0, self@, n, Seq::empty(), key, node_type_key(n.node_type), meta, Seq::empty(), node_id.0@));
        }
        node_id
    }

    /// Collects an edge with a fresh id, gathered.
    pub fn collect_edge(
        &mut self,
        edge_type: LineageEdgeType,
        source_id: LineageNodeId,
        target_id: LineageNodeId,
        description: Option<String>,
    ) -> (r: LineageEdgeId)
        requires
            old(self).wf(),
        ensures
            final(self).wf(),
            edge_collected(old(self)@, final(self)@, (edge_type, source_id.0@, target_id.0@), description, r.0@),
    {
        let mut edge = LineageEdge::new(edge_type, source_id, target_id);
        match description {
            Some(d) => {
                edge = edge.with_description(d);
            },
            None => {},
        }
        let edge_id = edge.id.duplicate();
        let ghost e = edge;
        let ghost m0 = self@;
        let nodes: Vec<LineageNode> = Vec::new();
        let mut edges: Vec<LineageEdge> = Vec::new();
        edges.push(edge);
        self.gather(nodes, edges);
        proof {
            assert(nodes@ =~= Seq::<LineageNode>::empty());
            assert(edges@ =~= seq![e]);
            assert(made_edge(e, (e.edge_type, e.source_node_id.0@, e.target_node_id.0@), description, edge_id.0@));
        }
        edge_id
    }

    /// Collects a reader of a source: a node of type `Custom("DataReader")`
    /// by the reader's name (as `collect_custom_node` does), then an edge
    /// from it reading from the source.
    pub fn collect_data_read(
        &mut self,
        source_id: LineageNodeId,
        reader_name: String,
        metadata: Vec<(String, JsonValue)>,
    ) -> (r: LineageNodeId)
        requires
            old(self).wf(),
        ensures
            final(self).wf(),
            exists|mid: CollectorModel, eid: Seq<char>| #[trigger] custom_collected(
                old(self)@,
                mid,
                (10, "DataReader"@),
                reader_name@,
                crate::governance::meta_model(metadata@),
                r.0@,
            ) && #[trigger] edge_collected(mid, final(self)@, (LineageEdgeType::ReadsFrom, r.0@, source_id.0@), None, eid),
    {
        let reader_id = self.collect_custom_node(
            LineageNodeType::Custom(String::from_str("DataReader")),
            reader_name,
            metadata,
        );
        let ghost mid = self@;
        let edge_id = self.collect_edge(LineageEdgeType::ReadsFrom, reader_id.duplicate(), source_id, None);
        reader_id
    }

    /// Collects a writer into a target: a node of type
    /// `Custom("DataWriter")` by the writer's name (as `collect_custom_node`
    /// does), then, one at a time, an edge from each source into it and an
    /// edge from it to the target.
    pub fn collect_data_write(
        &mut self,
        writer_name: String,
        target_id: LineageNodeId,
        source_nodes: Vec<LineageNodeId>,
        metadata: Vec<(String, JsonValue)>,
    ) -> (r: LineageNodeId)
        requires
            old(self).wf(),
        ensures
            final(self).wf(),
            exists|mid: CollectorModel| #[trigger] custom_collected(
                old(self)@,
                mid,
                (10, "DataWriter"@),
                writer_name@,
                crate::governance::meta_model(metadata@),
                r.0@,
            ) && edges_collected(
                mid,
                final(self)@,
                edges_from(LineageEdgeType::WritesTo, source_nodes@, r.0@).push((LineageEdgeType::WritesTo, r.0@, target_id.0@)),
            ),
    {
        let writer_id = self.collect_custom_node(
            LineageNodeType::Custom(String::from_str("DataWriter")),
            writer_name,
            metadata,
        );
        let ghost mid = self@;
        let ghost shapes = edges_from(LineageEdgeType::WritesTo, source_nodes@, writer_id.0@).push(
            (LineageEdgeType::WritesTo, writer_id.0@, target_id.0@),
        );
        proof {
            lemma_edges_none(mid, shapes.subrange(0, 0));
        }
        let mut i: usize = 0;
        while i < source_nodes.len()
            invariant
                self.wf(),
                i <= source_nodes@.len(),
                shapes == edges_from(LineageEdgeType::WritesTo, source_nodes@, writer_id.0@).push(
                    (LineageEdgeType::WritesTo, writer_id.0@, target_id.0@),
                ),
                edges_collected(mid, self@, shapes.subrange(0, i as int)),
            decreases source_nodes@.len() - i,
        {
            let ghost prev = self@;
            let eid = self.collect_edge(LineageEdgeType::WritesTo, source_nodes[i].duplicate(), writer_id.duplicate(), None);
            proof {
                assert(shapes.subrange(0, i as int + 1).drop_last() =~= shapes.subrange(0, i as int));
                assert(shapes[i as int] == (LineageEdgeType::WritesTo, source_nodes@[i as int].0@, writer_id.0@));
                assert(shapes.subrange(0, i as int + 1).last() == shapes[i as int]);
                lemma_edges_step(mid, prev, self@, shapes.subrange(0, i as int + 1), eid.0@);
            }
            i = i + 1;
        }
        let ghost prev = self@;
        let eid = self.collect_edge(LineageEdgeType::WritesTo, writer_id.duplicate(), target_id, None);
        proof {
            let n = source_nodes@.len() as int;
            assert(shapes.subrange(0, n + 1).drop_last() =~= shapes.subrange(0, n));
            assert(shapes.subrange(0, n + 1) =~= shapes);
            assert(shapes.subrange(0, n + 1).last() == shapes[n]);
            lemma_edges_step(mid, prev, self@, shapes.subrange(0, n + 1), eid.0@);
        }
        writer_id
    }

    /// Takes the gathered nodes, leaving none.
    pub fn take_pending_nodes(&mut self) -> (r: Vec<LineageNode>)
        requires
            old(self).wf(),
        ensures
            final(self).wf(),
            r@ == old(self)@.pending_nodes,
            final(self)@ == (CollectorModel { pending_nodes: Seq::empty(), ..old(self)@ }),
    {
        let mut r: Vec<LineageNode> = Vec::new();
        std::mem::swap(&mut r, &mut self.pending_nodes);
        assert(self@.pending_nodes =~= Seq::<LineageNode>::empty());
        r
    }

    /// Takes the gathered edges, leaving none.
    pub fn take_pending_edges(&mut self) -> (r: Vec<LineageEdge>)
        requires
            old(self).wf(),
        ensures
            final(self).wf(),
            r@ == old(self)@.pending_edges,
            final(self)@ == (CollectorModel { pending_edges: Seq::empty(), ..old(self)@ }),
    {
        let mut r: Vec<LineageEdge> = Vec::new();
        std::mem::swap(&mut r, &mut self.pending_edges);
        assert(self@.pending_edges =~= Seq::<LineageEdge>::empty());
        r
    }

    /// Drops everything gathered.
    pub fn clear(&mut self)
        requires
            old(self).wf(),
        ensures
            final(self).wf(),
            final(self)@ == (CollectorModel { pending_nodes: Seq::empty(), pending_edges: Seq::empty(), ..old(self)@ }),
    {
        self.pending_nodes.clear();
        self.pending_edges.clear();
        assert(self@.pending_nodes =~= Seq::<LineageNode>::empty());
        assert(self@.pending_edges =~= Seq::<LineageEdge>::empty());
    }
}

/// `e` is a freshly made edge of the given shape and description.
pub open spec fn made_edge(e: LineageEdge, shape: (LineageEdgeType, Seq<char>, Seq<char>), description: Option<String>, id: Seq<char>) -> bool {
    &&& e.edge_type == shape.0
    &&& e.source_node_id.0@ == shape.1
    &&& e.target_node_id.0@ == shape.2
    &&& e.description == description
    &&& e.metadata@.len() == 0
    &&& e.id.0@ == id
    &&& id.len() == 36
}

/// `m1` is `m0` after collecting one edge of the given shape and
/// description, with the id `id`.
pub open spec fn edge_collected(
    m0: CollectorModel,
    m1: CollectorModel,
    shape: (LineageEdgeType, Seq<char>, Seq<char>),
    description: Option<String>,
    id: Seq<char>,
) -> bool {
    exists|e: LineageEdge| #[trigger] made_edge(e, shape, description, id) && gathered(m0, m1, Seq::empty(), seq![e])
}

/// `m1` is `m0` after collecting edges of the given shapes, without
/// description, one at a time in order: there are states in between, one
/// edge apart.
pub open spec fn edges_collected(m0: CollectorModel, m1: CollectorModel, shapes: Seq<(LineageEdgeType, Seq<char>, Seq<char>)>) -> bool {
    exists|ms: Seq<CollectorModel>, ids: Seq<Seq<char>>| #[trigger] edge_states(ms, ids, m0, m1, shapes)
}

/// The states `ms` go from `m0` to `m1`, each the one before after
/// collecting one edge of the given shapes with the given ids.
pub open spec fn edge_states(
    ms: Seq<CollectorModel>,
    ids: Seq<Seq<char>>,
    m0: CollectorModel,
    m1: CollectorModel,
    shapes: Seq<(LineageEdgeType, Seq<char>, Seq<char>)>,
) -> bool {
    &&& ms.len() == shapes.len() + 1
    &&& ids.len() == shapes.len()
    &&& ms[0] == m0
    &&& ms.last() == m1
    &&& forall|i: int| 0 <= i < shapes.len() ==> #[trigger] edge_collected(ms[i], ms[i + 1], shapes[i], None, ids[i])
}

proof fn lemma_edges_none(m0: CollectorModel, shapes: Seq<(LineageEdgeType, Seq<char>, Seq<char>)>)
    requires
        shapes.len() == 0,
    ensures
        edges_collected(m0, m0, shapes),
{
    assert(edge_states(seq![m0], Seq::empty(), m0, m0, shapes));
}

proof fn lemma_edges_step(
    m0: CollectorModel,
    mid: CollectorModel,
    m1: CollectorModel,
    shapes: Seq<(LineageEdgeType, Seq<char>, Seq<char>)>,
    eid: Seq<char>,
)
    requires
        shapes.len() > 0,
        edges_collected(m0, mid, shapes.drop_last()),
        edge_collected(mid, m1, shapes.last(), None, eid),
    ensures
        edges_collected(m0, m1, shapes),
{
    let (ms0, ids0) = choose|ms: Seq<CollectorModel>, ids: Seq<Seq<char>>| #[trigger] edge_states(ms, ids, m0, mid, shapes.drop_last());
    let ms = ms0.push(m1);
    let ids = ids0.push(eid);
    let n = shapes.len() - 1;
    assert forall|i: int| 0 <= i < shapes.len() implies #[trigger] edge_collected(ms[i], ms[i + 1], shapes[i], None, ids[i]) by {
        if i < n {
            assert(ms[i] == ms0[i] && ms[i + 1] == ms0[i + 1] && ids[i] == ids0[i]);
            assert(shapes.drop_last()[i] == shapes[i]);
            assert(edge_collected(ms0[i], ms0[i + 1], shapes.drop_last()[i], None, ids0[i]));
        } else {
            assert(ms[i] == ms0.last());
        }
    }
    assert(edge_states(ms, ids, m0, m1, shapes));
}

/// `m1` is `m0` after collecting a node of its own type by name: the node
/// remembered under them, or else a new node with the metadata.
pub open spec fn custom_collected(
    m0: CollectorModel,
    m1: CollectorModel,
    tk: (int, Seq<char>),
    name: Seq<char>,
    meta: Seq<(Seq<char>, JsonModel)>,
    id: Seq<char>,
) -> bool {
    match cached(m0.node_cache, (3, tk, name)) {
        Some(c) => id == c && m1 == m0,
        None => exists|n: LineageNode, es: Seq<LineageEdge>| #[trigger] collected(
            m0,
            m1,
            n,
            es,
            (3, tk, name),
            tk,
            meta,
            Seq::empty(),
            id,
        ),
    }
}

/// The edges of a new transform: from each source into it, and, inside a
/// context, from it to the innermost context.
pub open spec fn transform_edges(sources: Seq<LineageNodeId>, id: Seq<char>, context: Seq<Seq<char>>) -> Seq<(LineageEdgeType, Seq<char>, Seq<char>)> {
    edges_from(LineageEdgeType::TransformsTo, sources, id) + if context.len() == 0 {
        Seq::empty()
    } else {
        seq![(LineageEdgeType::DependsOn, id, context.last())]
    }
}

/// Fresh edges of one type from each source to a target.
fn edges_to(t: &LineageEdgeType, sources: Vec<LineageNodeId>, target: &LineageNodeId) -> (r: Vec<LineageEdge>)
    ensures
        fresh_edges(r@, edges_from(*t, sources@, target.0@)),
{
    let mut r: Vec<LineageEdge> = Vec::new();
    let mut i: usize = 0;
    while i < sources.len()
        invariant
            i <= sources@.len(),
            r@.len() == i,
            forall|k: int| 0 <= k < i ==> (#[trigger] r@[k]).edge_type == *t && r@[k].source_node_id.0@ == sources@[k].0@
                && r@[k].target_node_id.0@ == target.0@ && r@[k].description is None && r@[k].metadata@.len() == 0
                && r@[k].id.0@.len() == 36,
        decreases sources@.len() - i,
    {
        r.push(LineageEdge::new(t.duplicate(), sources[i].duplicate(), target.duplicate()));
        i = i + 1;
    }
    r
}

/// `m1` is `m0` after collecting a new node `n` with edges `es`: `n` has
/// the given type, name, metadata and id and no description; the edges are
/// fresh ones of the given shapes; the node is remembered under the key;
/// and both are gathered.
pub open spec fn collected(
    m0: CollectorModel,
    m1: CollectorModel,
    n: LineageNode,
    es: Seq<LineageEdge>,
    key: CacheKey,
    tk: (int, Seq<char>),
    meta: Seq<(Seq<char>, JsonModel)>,
    shapes: Seq<(LineageEdgeType, Seq<char>, Seq<char>)>,
    id: Seq<char>,
) -> bool {
    &&& node_type_key(n.node_type) == tk
    &&& n.name@ == key.2
    &&& n.description is None
    &&& crate::governance::meta_model(n.metadata@) == meta
    &&& n.id.0@ == id
    &&& id.len() == 36
    &&& fresh_edges(es, shapes)
    &&& gathered(CollectorModel { node_cache: m0.node_cache.push((key, id)), ..m0 }, m1, seq![n], es)
}

proof fn lemma_cached_prefix(cache: Seq<(CacheKey, Seq<char>)>, j: int, key: CacheKey)
    requires
        0 <= j <= cache.len(),
        cached(cache.subrange(0, j), key) is Some,
    ensures
        cached(cache, key) == cached(cache.subrange(0, j), key),
    decreases cache.len() - j,
{
    if j < cache.len() {
        assert(cache.subrange(0, j + 1).drop_last() =~= cache.subrange(0, j));
        lemma_cached_prefix(cache, j + 1, key);
    } else {
        assert(cache.subrange(0, j) =~= cache);
    }
}

/// Sets a text value under a key in metadata.
fn set_text(meta: &mut Vec<(String, JsonValue)>, key: &str, value: String)
    requires
        unique_keys(old(meta)@),
    ensures
        unique_keys(final(meta)@),
        crate::governance::meta_model(final(meta)@) == with_text(old(meta)@, key@, value@),
{
    let ghost m0 = meta@;
    let k = String::from_str(key);
    let ghost vt = value@;
    let v = JsonValue::String(value);
    assert(v@ == JsonModel::String(vt));
    insert_metadata(meta, k, v);
    proof {
        match key_pos(m0, key@) {
            Some(p) => {
                assert(crate::governance::meta_model(meta@) =~= crate::governance::meta_model(m0).update(p, (key@, JsonModel::String(vt))));
            },
            None => {
                assert(crate::governance::meta_model(meta@) =~= crate::governance::meta_model(m0).push((key@, JsonModel::String(vt))));
            },
        }
    }
}

/// Whether two node types have the same key.
fn same_type_key(a: &LineageNodeType, b: &LineageNodeType) -> (r: bool)
    ensures
        r == (node_type_key(*a) == node_type_key(*b)),
{
    match (a, b) {
        (LineageNodeType::DataSource, LineageNodeType::DataSource) => true,
        (LineageNodeType::DataTransform, LineageNodeType::DataTransform) => true,
        (LineageNodeType::DataSink, LineageNodeType::DataSink) => true,
        (LineageNodeType::Table, LineageNodeType::Table) => true,
        (LineageNodeType::Column, LineageNodeType::Column) => true,
        (LineageNodeType::File, LineageNodeType::File) => true,
        (LineageNodeType::Api, LineageNodeType::Api) => true,
        (LineageNodeType::Agent, LineageNodeType::Agent) => true,
        (LineageNodeType::Task, LineageNodeType::Task) => true,
        (LineageNodeType::Workflow, LineageNodeType::Workflow) => true,
        (LineageNodeType::Custom(x), LineageNodeType::Custom(y)) => str_eq(x.as_str(), y.as_str()),
        _ => false,
    }
}

/// The edge leads, in the given direction, from `a` to `b`: upstream from
/// its target to its source, downstream from its source to its target.
pub open spec fn edge_links(e: LineageEdge, a: Seq<char>, b: Seq<char>, upstream: bool) -> bool {
    if upstream {
        e.target_node_id.0@ == a && e.source_node_id.0@ == b
    } else {
        e.source_node_id.0@ == a && e.target_node_id.0@ == b
    }
}

/// In the store, some edge leads from `a` to the stored node `b`.
pub open spec fn linked(s: StoreModel, a: Seq<char>, b: Seq<char>, upstream: bool) -> bool {
    &&& lineage_node_pos(s.nodes, b) is Some
    &&& exists|i: int| 0 <= i < s.edges.len() && #[trigger] edge_links(s.edges[i], a, b, upstream)
}

/// `p` is a walk from `a` to `b` along links of the store.
pub open spec fn walk(s: StoreModel, p: Seq<Seq<char>>, a: Seq<char>, b: Seq<char>, upstream: bool) -> bool {
    &&& p.len() >= 1
    &&& p[0] == a
    &&& p.last() == b
    &&& forall|i: int| 0 <= i < p.len() - 1 ==> #[trigger] linked(s, p[i], p[i + 1], upstream)
}

/// `b` can be reached from `a` along links of the store, in at most
/// `bound` steps when there is a bound.
pub open spec fn reaches(s: StoreModel, a: Seq<char>, b: Seq<char>, upstream: bool, bound: Option<int>) -> bool {
    exists|p: Seq<Seq<char>>| #[trigger] walk(s, p, a, b, upstream) && (bound is Some ==> p.len() - 1 <= bound->Some_0)
}

/// The node is a copy of the stored node with its id.
pub open spec fn stored_copy(s: StoreModel, n: LineageNode) -> bool {
    &&& lineage_node_pos(s.nodes, n.id.0@) is Some
    &&& same_node(n, s.nodes[lineage_node_pos(s.nodes, n.id.0@)->Some_0])
}

/// The ids of the nodes.
pub open spec fn node_ids(ns: Seq<LineageNode>) -> Seq<Seq<char>> {
    ns.map_values(|n: LineageNode| n.id.0@)
}

/// How many of the ids in `u` are not among `v`.
pub open spec fn unvisited(u: Seq<Seq<char>>, v: Seq<Seq<char>>) -> nat
    decreases u.len(),
{
    if u.len() == 0 {
        0
    } else {
        unvisited(u.drop_last(), v) + if v.contains(u.last()) { 0nat } else { 1nat }
    }
}

proof fn lemma_unvisited(u: Seq<Seq<char>>, v1: Seq<Seq<char>>, v2: Seq<Seq<char>>, x: Seq<char>)
    requires
        forall|y: Seq<char>| v1.contains(y) ==> v2.contains(y),
    ensures
        unvisited(u, v2) <= unvisited(u, v1),
        unvisited(u, v1) <= u.len(),
        u.contains(x) && !v1.contains(x) && v2.contains(x) ==> unvisited(u, v2) < unvisited(u, v1),
        u.contains(x) && !v2.contains(x) ==> unvisited(u, v2) >= 1,
    decreases u.len(),
{
    if u.len() > 0 {
        lemma_unvisited(u.drop_last(), v1, v2, x);
        if u.contains(x) && !v2.contains(x) {
            let k = choose|k: int| 0 <= k < u.len() && u[k] == x;
            if k < u.len() - 1 {
                assert(u.drop_last()[k] == x);
            }
        }
        if u.contains(x) && !v1.contains(x) && v2.contains(x) {
            let k = choose|k: int| 0 <= k < u.len() && u[k] == x;
            if k < u.len() - 1 {
                assert(u.drop_last()[k] == x);
            }
        }
    }
}

/// Everything reachable from a member of a set closed under links is in
/// the set.
proof fn lemma_closed_reach(s: StoreModel, v: Seq<Seq<char>>, p: Seq<Seq<char>>, a: Seq<char>, b: Seq<char>, upstream: bool)
    requires
        walk(s, p, a, b, upstream),
        v.contains(a),
        forall|x: Seq<char>, y: Seq<char>| v.contains(x) && #[trigger] linked(s, x, y, upstream) ==> v.contains(y),
    ensures
        v.contains(b),
    decreases p.len(),
{
    if p.len() > 1 {
        let q = p.drop_last();
        let k = p.len() - 2;
        assert(linked(s, p[k], p[k + 1], upstream));
        assert forall|i: int| 0 <= i < q.len() - 1 implies #[trigger] linked(s, q[i], q[i + 1], upstream) by {
            assert(linked(s, p[i], p[i + 1], upstream));
        }
        assert(walk(s, q, a, q.last(), upstream));
        lemma_closed_reach(s, v, q, a, q.last(), upstream);
    }
}

/// The state of a walk over the graph, as the walk's invariant needs it:
/// the results are stored copies reached from the start within the bound,
/// other than the start; every visited node is the start or a result;
/// without a bound, the results are distinct and visited.
pub open spec fn walk_state(
    s: StoreModel,
    start: Seq<char>,
    upstream: bool,
    max_depth: Option<usize>,
    res: Seq<LineageNode>,
    v: Seq<Seq<char>>,
) -> bool {
    &&& forall|i: int| 0 <= i < res.len() ==> stored_copy(s, #[trigger] res[i])
    &&& forall|i: int| 0 <= i < res.len() ==> reaches(s, start, #[trigger] res[i].id.0@, upstream, bound_of(max_depth))
    &&& forall|i: int| 0 <= i < res.len() ==> (#[trigger] res[i]).id.0@ != start
    &&& forall|x: Seq<char>| #[trigger] v.contains(x) ==> x == start || node_ids(res).contains(x)
    &&& max_depth is None ==> forall|i: int, j: int| 0 <= i < j < res.len() ==> #[trigger] res[i].id.0@ != #[trigger] res[j].id.0@
}

/// The bound on steps from the start that a depth allows: one more than
/// the depth.
pub open spec fn bound_of(max_depth: Option<usize>) -> Option<int> {
    match max_depth {
        Some(d) => Some(d + 1),
        None => None,
    }
}

/// Every visited node outside `stack` has its linked nodes visited.
pub open spec fn closed_except(s: StoreModel, v: Seq<Seq<char>>, stack: Set<Seq<char>>, upstream: bool) -> bool {
    forall|x: Seq<char>, y: Seq<char>| v.contains(x) && !stack.contains(x) && #[trigger] linked(s, x, y, upstream) ==> v.contains(y)
}

/// The node ids of the store, and the start.
pub open spec fn walk_universe(s: StoreModel, start: Seq<char>) -> Seq<Seq<char>> {
    node_ids(s.nodes).push(start)
}

/// A node belongs to the lineage of `start`: it is the start, stored, or
/// a node upstream or downstream of it.
pub open spec fn in_lineage(s: StoreModel, start: Seq<char>, id: Seq<char>) -> bool {
    if id == start {
        lineage_node_pos(s.nodes, id) is Some
    } else {
        reaches(s, start, id, true, None) || reaches(s, start, id, false, None)
    }
}

/// The edges, in order, whose two ends belong to the lineage of `start`.
pub open spec fn lineage_edges(s: StoreModel, es: Seq<LineageEdge>, start: Seq<char>) -> Seq<LineageEdge>
    decreases es.len(),
{
    if es.len() == 0 {
        Seq::empty()
    } else {
        let rest = lineage_edges(s, es.drop_last(), start);
        let e = es.last();
        if in_lineage(s, start, e.source_node_id.0@) && in_lineage(s, start, e.target_node_id.0@) {
            rest.push(e)
        } else {
            rest
        }
    }
}

proof fn lemma_node_pos_put(nodes: Seq<LineageNode>, n: LineageNode, id: Seq<char>)
    requires
        distinct_node_ids(nodes),
    ensures
        (lineage_node_pos(put_node(nodes, n), id) is Some) == (lineage_node_pos(nodes, id) is Some || n.id.0@ == id),
{
    let m = put_node(nodes, n);
    match lineage_node_pos(nodes, n.id.0@) {
        Some(p) => {
            if lineage_node_pos(nodes, id) is Some {
                let k = choose|k: int| 0 <= k < nodes.len() && #[trigger] nodes[k].id.0@ == id;
                if k == p {
                    assert(m[k].id.0@ == id);
                } else {
                    assert(m[k] == nodes[k]);
                }
            }
            if n.id.0@ == id {
                assert(m[p].id.0@ == id);
            }
            if lineage_node_pos(m, id) is Some {
                let k = choose|k: int| 0 <= k < m.len() && #[trigger] m[k].id.0@ == id;
                if k != p {
                    assert(m[k] == nodes[k]);
                }
            }
        },
        None => {
            if lineage_node_pos(nodes, id) is Some {
                let k = choose|k: int| 0 <= k < nodes.len() && #[trigger] nodes[k].id.0@ == id;
                assert(m[k] == nodes[k]);
            }
            if n.id.0@ == id {
                assert(m[nodes.len() as int].id.0@ == id);
            }
            if lineage_node_pos(m, id) is Some {
                let k = choose|k: int| 0 <= k < m.len() && #[trigger] m[k].id.0@ == id;
                if k < nodes.len() {
                    assert(m[k] == nodes[k]);
                }
            }
        },
    }
}

/// Some node has the id.
pub open spec fn has_node(nodes: Seq<LineageNode>, id: Seq<char>) -> bool {
    lineage_node_pos(nodes, id) is Some
}

impl LineageStore {
    fn add_copies(l: &mut DataLineage, ns: &Vec<LineageNode>, Ghost(s): Ghost<StoreModel>)
        requires
            old(l).wf(),
            forall|i: int| 0 <= i < old(l).nodes@.len() ==> stored_copy(s, #[trigger] old(l).nodes@[i]),
            forall|i: int| 0 <= i < ns@.len() ==> stored_copy(s, #[trigger] ns@[i]),
        ensures
            final(l).wf(),
            final(l).edges == old(l).edges,
            forall|i: int| 0 <= i < final(l).nodes@.len() ==> stored_copy(s, #[trigger] final(l).nodes@[i]),
            forall|id: Seq<char>| #[trigger] has_node(final(l).nodes@, id) == (has_node(old(l).nodes@, id) || node_ids(ns@).contains(id)),
    {
        let ghost start_nodes = l.nodes@;
        let mut i: usize = 0;
        while i < ns.len()
            invariant
                l.wf(),
                l.edges == old(l).edges,
                i <= ns@.len(),
                start_nodes == old(l).nodes@,
                forall|k: int| 0 <= k < ns@.len() ==> stored_copy(s, #[trigger] ns@[k]),
                forall|k: int| 0 <= k < l.nodes@.len() ==> stored_copy(s, #[trigger] l.nodes@[k]),
                forall|id: Seq<char>| #[trigger] has_node(l.nodes@, id) == (has_node(start_nodes, id)
                    || node_ids(ns@.subrange(0, i as int)).contains(id)),
            decreases ns@.len() - i,
        {
            let ghost before = l.nodes@;
            let n = ns[i].duplicate();
            let ghost ng = n;
            l.add_node(n);
            proof {
                assert(l.nodes@ == put_node(before, ng));
                assert(node_ids(ns@.subrange(0, i as int + 1)) =~= node_ids(ns@.subrange(0, i as int)).push(ng.id.0@));
                assert forall|id: Seq<char>| #[trigger] has_node(l.nodes@, id) == (has_node(start_nodes, id)
                    || node_ids(ns@.subrange(0, i as int + 1)).contains(id)) by {
                    lemma_node_pos_put(before, ng, id);
                    assert(has_node(before, id) == (has_node(start_nodes, id) || node_ids(ns@.subrange(0, i as int)).contains(id)));
                    let old_ids = node_ids(ns@.subrange(0, i as int));
                    let new_ids = node_ids(ns@.subrange(0, i as int + 1));
                    if old_ids.contains(id) {
                        let k = choose|k: int| 0 <= k < old_ids.len() && old_ids[k] == id;
                        assert(new_ids[k] == id);
                    }
                    if new_ids.contains(id) && !old_ids.contains(id) {
                        let k = choose|k: int| 0 <= k < new_ids.len() && new_ids[k] == id;
                        if k < old_ids.len() {
                            assert(old_ids[k] == id);
                        }
                    }
                    if ng.id.0@ == id {
                        assert(new_ids[i as int] == id);
                    }
                }
                assert(stored_copy(s, ns@[i as int]));
                assert(same_node(ng, ns@[i as int]));
                assert forall|k: int| 0 <= k < l.nodes@.len() implies stored_copy(s, #[trigger] l.nodes@[k]) by {
                    match lineage_node_pos(before, ng.id.0@) {
                        Some(p) => {
                            if k != p {
                                assert(l.nodes@[k] == before[k]);
                            }
                        },
                        None => {
                            if k < before.len() {
                                assert(l.nodes@[k] == before[k]);
                            }
                        },
                    }
                }
            }
            i = i + 1;
        }
        assert(ns@.subrange(0, i as int) =~= ns@);
        assert(start_nodes == old(l).nodes@);
        assert forall|id: Seq<char>| #[trigger] has_node(l.nodes@, id) == (has_node(start_nodes, id) || node_ids(ns@).contains(id)) by {
            assert(node_ids(ns@.subrange(0, i as int)) == node_ids(ns@));
            assert(has_node(l.nodes@, id) == (has_node(start_nodes, id) || node_ids(ns@.subrange(0, i as int)).contains(id)));
        }
    }

    /// The lineage of a node: the node itself (when stored) and copies of
    /// the nodes upstream and downstream of it, with copies of the stored
    /// edges, in order, whose two ends are among those nodes.
    pub fn build_lineage(&self, node_id: &LineageNodeId) -> (l: DataLineage)
        requires
            self.wf(),
        ensures
            l.wf(),
            forall|i: int| 0 <= i < l.nodes@.len() ==> stored_copy(self@, #[trigger] l.nodes@[i]),
            forall|id: Seq<char>| #[trigger] has_node(l.nodes@, id) == in_lineage(self@, node_id.0@, id),
            l.edges@.len() == lineage_edges(self@, self@.edges, node_id.0@).len(),
            forall|i: int| 0 <= i < l.edges@.len() ==> same_edge(#[trigger] l.edges@[i], lineage_edges(self@, self@.edges, node_id.0@)[i]),
    {
        let ghost s = self@;
        let ghost start = node_id.0@;
        let engine = LineageQueryEngine::new();
        let mut l = DataLineage::new();
        let mut first: Vec<LineageNode> = Vec::new();
        match self.get_node(node_id) {
            Some(n) => {
                first.push(n.duplicate());
            },
            None => {},
        }
        proof {
            assert forall|i: int| 0 <= i < first@.len() implies stored_copy(s, #[trigger] first@[i]) by {
                let p = lineage_node_pos(s.nodes, start)->Some_0;
                assert(s.nodes[p].id.0@ == start) by {
                    let q = choose|q: int| 0 <= q < s.nodes.len() && #[trigger] s.nodes[q].id.0@ == start;
                }
            }
        }
        LineageStore::add_copies(&mut l, &first, Ghost(s));
        let ups = engine.query_upstream(self, node_id, None);
        LineageStore::add_copies(&mut l, &ups, Ghost(s));
        let downs = engine.query_downstream(self, node_id, None);
        LineageStore::add_copies(&mut l, &downs, Ghost(s));
        proof {
            assert forall|id: Seq<char>| #[trigger] has_node(l.nodes@, id) == in_lineage(s, start, id) by {
                if node_ids(first@).contains(id) {
                    let k = choose|k: int| 0 <= k < node_ids(first@).len() && node_ids(first@)[k] == id;
                    assert(id == start);
                }
                if id == start && lineage_node_pos(s.nodes, id) is Some {
                    assert(node_ids(first@)[0] == id);
                }
                if node_ids(ups@).contains(id) {
                    let k = choose|k: int| 0 <= k < node_ids(ups@).len() && node_ids(ups@)[k] == id;
                    assert(reaches(s, start, ups@[k].id.0@, true, bound_of(None)));
                    assert(ups@[k].id.0@ != start);
                }
                if node_ids(downs@).contains(id) {
                    let k = choose|k: int| 0 <= k < node_ids(downs@).len() && node_ids(downs@)[k] == id;
                    assert(reaches(s, start, downs@[k].id.0@, false, bound_of(None)));
                    assert(downs@[k].id.0@ != start);
                }
                if id != start && reaches(s, start, id, true, None) {
                    assert(node_ids(ups@).contains(id));
                }
                if id != start && reaches(s, start, id, false, None) {
                    assert(node_ids(downs@).contains(id));
                }
            }
        }
        let mut i: usize = 0;
        while i < self.edges.len()
            invariant
                self.wf(),
                s == self@,
                l.wf(),
                i <= self@.edges.len(),
                forall|k: int| 0 <= k < l.nodes@.len() ==> stored_copy(s, #[trigger] l.nodes@[k]),
                forall|id: Seq<char>| #[trigger] has_node(l.nodes@, id) == in_lineage(s, start, id),
                l.edges@.len() == lineage_edges(s, s.edges.subrange(0, i as int), start).len(),
                forall|k: int| 0 <= k < l.edges@.len() ==> same_edge(#[trigger] l.edges@[k], lineage_edges(s, s.edges.subrange(0, i as int), start)[k]),
            decreases self@.edges.len() - i,
        {
            assert(s.edges.subrange(0, i as int + 1).drop_last() =~= s.edges.subrange(0, i as int));
            let e = &self.edges[i];
            let has_source = l.find(&e.source_node_id).is_some();
            let has_target = l.find(&e.target_node_id).is_some();
            proof {
                assert(s.edges.subrange(0, i as int + 1).last() == s.edges[i as int]);
                assert(has_node(l.nodes@, e.source_node_id.0@) == in_lineage(s, start, e.source_node_id.0@));
                assert(has_node(l.nodes@, e.target_node_id.0@) == in_lineage(s, start, e.target_node_id.0@));
                assert(has_source == in_lineage(s, start, s.edges[i as int].source_node_id.0@));
                assert(has_target == in_lineage(s, start, s.edges[i as int].target_node_id.0@));
            }
            if has_source && has_target {
                let ghost before = l.edges@;
                l.add_edge(e.duplicate());
                proof {
                    assert forall|k: int| 0 <= k < l.edges@.len() implies same_edge(#[trigger] l.edges@[k],
                        lineage_edges(s, s.edges.subrange(0, i as int + 1), start)[k]) by {
                        if k < before.len() {
                            assert(l.edges@[k] == before[k]);
                        }
                    }
                }
            }
            i = i + 1;
        }
        assert(s.edges.subrange(0, i as int) =~= s.edges);
        l
    }
}

/// What a query from `start` finds: copies of stored nodes other than the
/// start, reached within the bound the depth sets; every node linked
/// straight from the start; without a depth, every node reached, each
/// once.
pub open spec fn query_result(s: StoreModel, start: Seq<char>, upstream: bool, depth: Option<usize>, r: Seq<LineageNode>) -> bool {
    &&& forall|i: int| 0 <= i < r.len() ==> stored_copy(s, #[trigger] r[i])
    &&& forall|i: int| 0 <= i < r.len() ==> reaches(s, start, #[trigger] r[i].id.0@, upstream, bound_of(depth))
    &&& forall|i: int| 0 <= i < r.len() ==> (#[trigger] r[i]).id.0@ != start
    &&& forall|y: Seq<char>| #[trigger] linked(s, start, y, upstream) && y != start ==> node_ids(r).contains(y)
    &&& depth is None ==> forall|i: int, j: int| 0 <= i < j < r.len() ==> #[trigger] r[i].id.0@ != #[trigger] r[j].id.0@
    &&& depth is None ==> forall|y: Seq<char>| #[trigger] reaches(s, start, y, upstream, None) && y != start ==> node_ids(r).contains(y)
}

/// What changing a node affects.
#[derive(Debug)]
pub struct ImpactAnalysisResult {
    pub affected_nodes: usize,
    pub node_type_counts: Vec<(LineageNodeType, usize)>,
    pub affected_nodes_list: Vec<LineageNode>,
}

/// The model of counts by node type.
pub open spec fn type_count_model(counts: Seq<(LineageNodeType, usize)>) -> Seq<((int, Seq<char>), int)> {
    counts.map_values(|c: (LineageNodeType, usize)| (node_type_key(c.0), c.1 as int))
}

/// Where a type is counted.
pub open spec fn type_pos(counts: Seq<((int, Seq<char>), int)>, t: (int, Seq<char>)) -> Option<int>
    decreases counts.len(),
{
    if counts.len() == 0 {
        None
    } else {
        match type_pos(counts.drop_last(), t) {
            Some(p) => Some(p),
            None => if counts.last().0 == t { Some(counts.len() - 1) } else { None },
        }
    }
}

/// How many nodes there are of each type, types in the order they first
/// appear.
pub open spec fn count_types(ns: Seq<LineageNode>) -> Seq<((int, Seq<char>), int)>
    decreases ns.len(),
{
    if ns.len() == 0 {
        Seq::empty()
    } else {
        let c = count_types(ns.drop_last());
        let t = node_type_key(ns.last().node_type);
        match type_pos(c, t) {
            Some(p) => c.update(p, (t, c[p].1 + 1)),
            None => c.push((t, 1)),
        }
    }
}

proof fn lemma_type_pos(counts: Seq<((int, Seq<char>), int)>, t: (int, Seq<char>))
    ensures
        match type_pos(counts, t) {
            Some(p) => 0 <= p < counts.len() && counts[p].0 == t && forall|q: int| 0 <= q < p ==> counts[q].0 != t,
            None => forall|q: int| 0 <= q < counts.len() ==> counts[q].0 != t,
        },
    decreases counts.len(),
{
    if counts.len() > 0 {
        lemma_type_pos(counts.drop_last(), t);
        assert forall|q: int| 0 <= q < counts.len() - 1 implies #[trigger] counts[q] == counts.drop_last()[q] by {}
    }
}

fn find_type(counts: &Vec<(LineageNodeType, usize)>, t: &LineageNodeType) -> (r: Option<usize>)
    ensures
        match r {
            Some(j) => j < counts@.len() && type_pos(type_count_model(counts@), node_type_key(*t)) == Some(j as int),
            None => type_pos(type_count_model(counts@), node_type_key(*t)) is None,
        },
{
    let ghost m = type_count_model(counts@);
    proof {
        lemma_type_pos(m, node_type_key(*t));
    }
    let mut j: usize = 0;
    while j < counts.len()
        invariant
            j <= counts@.len(),
            m == type_count_model(counts@),
            m.len() == counts@.len(),
            forall|q: int| 0 <= q < j ==> #[trigger] m[q].0 != node_type_key(*t),
            match type_pos(m, node_type_key(*t)) {
                Some(p) => 0 <= p < m.len() && m[p].0 == node_type_key(*t) && forall|q: int| 0 <= q < p ==> m[q].0 != node_type_key(*t),
                None => forall|q: int| 0 <= q < m.len() ==> m[q].0 != node_type_key(*t),
            },
        decreases counts@.len() - j,
    {
        assert(m[j as int].0 == node_type_key(counts@[j as int].0));
        if same_type_key(&counts[j].0, t) {
            return Some(j);
        }
        j = j + 1;
    }
    None
}

/// The label a node type is drawn with.
pub open spec fn node_type_label(t: LineageNodeType) -> Seq<char> {
    match t {
        LineageNodeType::DataSource => "data_source"@,
        LineageNodeType::DataTransform => "data_transform"@,
        LineageNodeType::DataSink => "data_sink"@,
        LineageNodeType::Table => "table"@,
        LineageNodeType::Column => "column"@,
        LineageNodeType::File => "file"@,
        LineageNodeType::Api => "api"@,
        LineageNodeType::Agent => "agent"@,
        LineageNodeType::Task => "task"@,
        LineageNodeType::Workflow => "workflow"@,
        LineageNodeType::Custom(s) => "custom_"@ + s@,
    }
}

/// The label an edge type is drawn with.
pub open spec fn edge_type_label(t: LineageEdgeType) -> Seq<char> {
    match t {
        LineageEdgeType::ReadsFrom => "reads_from"@,
        LineageEdgeType::WritesTo => "writes_to"@,
        LineageEdgeType::TransformsTo => "transforms_to"@,
        LineageEdgeType::References => "references"@,
        LineageEdgeType::DependsOn => "depends_on"@,
        LineageEdgeType::Custom(s) => "custom_"@ + s@,
    }
}

/// The label a node type is drawn with: its name in snake case, a custom
/// type's name after `custom_`.
pub fn format_node_type(node_type: &LineageNodeType) -> (r: String)
    ensures
        r@ == node_type_label(*node_type),
{
    match node_type {
        LineageNodeType::DataSource => String::from_str("data_source"),
        LineageNodeType::DataTransform => String::from_str("data_transform"),
        LineageNodeType::DataSink => String::from_str("data_sink"),
        LineageNodeType::Table => String::from_str("table"),
        LineageNodeType::Column => String::from_str("column"),
        LineageNodeType::File => String::from_str("file"),
        LineageNodeType::Api => String::from_str("api"),
        LineageNodeType::Agent => String::from_str("agent"),
        LineageNodeType::Task => String::from_str("task"),
        LineageNodeType::Workflow => String::from_str("workflow"),
        LineageNodeType::Custom(s) => {
            let mut r = String::from_str("custom_");
            r.append(s.as_str());
            r
        },
    }
}

/// The label an edge type is drawn with: its name in snake case, a custom
/// type's name after `custom_`.
pub fn format_edge_type(edge_type: &LineageEdgeType) -> (r: String)
    ensures
        r@ == edge_type_label(*edge_type),
{
    match edge_type {
        LineageEdgeType::ReadsFrom => String::from_str("reads_from"),
        LineageEdgeType::WritesTo => String::from_str("writes_to"),
        LineageEdgeType::TransformsTo => String::from_str("transforms_to"),
        LineageEdgeType::References => String::from_str("references"),
        LineageEdgeType::DependsOn => String::from_str("depends_on"),
        LineageEdgeType::Custom(s) => {
            let mut r = String::from_str("custom_");
            r.append(s.as_str());
            r
        },
    }
}

/// Some stored edge goes from `a` to `b`.
pub open spec fn edge_step(s: StoreModel, a: Seq<char>, b: Seq<char>) -> bool {
    exists|i: int| 0 <= i < s.edges.len() && #[trigger] s.edges[i].source_node_id.0@ == a && s.edges[i].target_node_id.0@ == b
}

/// `p` is a path of ids from `a` to `b`, each joined to the next by a
/// stored edge.
pub open spec fn edge_walk(s: StoreModel, p: Seq<Seq<char>>, a: Seq<char>, b: Seq<char>) -> bool {
    &&& p.len() >= 1
    &&& p[0] == a
    &&& p.last() == b
    &&& forall|i: int| 0 <= i < p.len() - 1 ==> #[trigger] edge_step(s, p[i], p[i + 1])
}

/// The ids of the targets of the edges.
pub open spec fn edge_targets(es: Seq<LineageEdge>) -> Seq<Seq<char>> {
    es.map_values(|e: LineageEdge| e.target_node_id.0@)
}

/// Every id a path from `source` can visit.
pub open spec fn path_universe(s: StoreModel, source: Seq<char>) -> Seq<Seq<char>> {
    edge_targets(s.edges).push(source)
}

/// The texts of ids.
pub open spec fn ids_of(p: Seq<LineageNodeId>) -> Seq<Seq<char>> {
    p.map_values(|n: LineageNodeId| n.0@)
}

/// Every visited id outside `stack` has the targets of its edges visited.
pub open spec fn closed_edges_except(s: StoreModel, v: Seq<Seq<char>>, stack: Set<Seq<char>>) -> bool {
    forall|x: Seq<char>, y: Seq<char>| v.contains(x) && !stack.contains(x) && #[trigger] edge_step(s, x, y) ==> v.contains(y)
}

proof fn lemma_closed_edge_reach(s: StoreModel, v: Seq<Seq<char>>, p: Seq<Seq<char>>, a: Seq<char>, b: Seq<char>)
    requires
        edge_walk(s, p, a, b),
        v.contains(a),
        forall|x: Seq<char>, y: Seq<char>| v.contains(x) && #[trigger] edge_step(s, x, y) ==> v.contains(y),
    ensures
        v.contains(b),
    decreases p.len(),
{
    if p.len() > 1 {
        let q = p.drop_last();
        let k = p.len() - 2;
        assert(edge_step(s, p[k], p[k + 1]));
        assert forall|i: int| 0 <= i < q.len() - 1 implies #[trigger] edge_step(s, q[i], q[i + 1]) by {
            assert(edge_step(s, p[i], p[i + 1]));
        }
        assert(edge_walk(s, q, a, q.last()));
        lemma_closed_edge_reach(s, v, q, a, q.last());
    }
}

/// Answers questions about a lineage graph; it holds no state.
#[derive(Debug, Clone, Copy)]
pub struct LineageQueryEngine;

impl LineageQueryEngine {
    /// The engine.
    pub fn new() -> (e: LineageQueryEngine) {
        LineageQueryEngine
    }

    /// The engine.
    pub fn default() -> (e: LineageQueryEngine) {
        LineageQueryEngine
    }

    fn query(&self, store: &LineageStore, node_id: &LineageNodeId, depth: Option<usize>, upstream: bool) -> (r: Vec<LineageNode>)
        requires
            store.wf(),
        ensures
            query_result(store@, node_id.0@, upstream, depth, r@),
    {
        let mut result: Vec<LineageNode> = Vec::new();
        let mut visited: Vec<String> = Vec::new();
        let ghost start = node_id.0@;
        let ghost s = store@;
        let ghost u = walk_universe(s, start);
        proof {
            assert(texts(visited@) =~= Seq::<Seq<char>>::empty());
            assert(node_ids(result@) =~= Seq::<Seq<char>>::empty());
            lemma_unvisited(u, texts(visited@), texts(visited@), start);
            assert(u[u.len() - 1] == start);
            assert(walk(s, seq![start], start, start, upstream));
            assert(reaches(s, start, start, upstream, Some(0)));
        }
        self.traverse(store, node_id, &mut result, &mut visited, depth, 0, upstream, Ghost(start), Ghost(Set::empty()));
        proof {
            let v = texts(visited@);
            let r = result@;
            if depth is None {
                assert forall|y: Seq<char>| reaches(s, start, y, upstream, None) && y != start implies node_ids(r).contains(y) by {
                    let p = choose|p: Seq<Seq<char>>| #[trigger] walk(s, p, start, y, upstream) && (None::<int> is Some ==> p.len() - 1 <= 0);
                    assert forall|a: Seq<char>, b: Seq<char>| v.contains(a) && #[trigger] linked(s, a, b, upstream) implies v.contains(b) by {
                        assert(!Set::<Seq<char>>::empty().contains(a));
                    }
                    lemma_closed_reach(s, v, p, start, y, upstream);
                }
            }
        }
        result
    }

    /// The nodes upstream of a node: those its data comes from, directly
    /// or not. Each is a copy of a stored node other than the node itself,
    /// reached within one more step than the depth when there is one;
    /// every stored node with an edge straight into the node is among
    /// them; without a depth, they are exactly the stored nodes upstream,
    /// each once.
    pub fn query_upstream(&self, store: &LineageStore, node_id: &LineageNodeId, depth: Option<usize>) -> (r: Vec<LineageNode>)
        requires
            store.wf(),
        ensures
            query_result(store@, node_id.0@, true, depth, r@),
    {
        self.query(store, node_id, depth, true)
    }

    /// The nodes downstream of a node: those its data goes to, directly or
    /// not, as `query_upstream` finds them the other way.
    pub fn query_downstream(&self, store: &LineageStore, node_id: &LineageNodeId, depth: Option<usize>) -> (r: Vec<LineageNode>)
        requires
            store.wf(),
        ensures
            query_result(store@, node_id.0@, false, depth, r@),
    {
        self.query(store, node_id, depth, false)
    }

    /// What changing a node affects: the nodes downstream of it (found as
    /// `query_downstream` finds them without a depth), how many there are,
    /// and how many there are of each node type, types in the order they
    /// first appear.
    pub fn impact_analysis(&self, store: &LineageStore, node_id: &LineageNodeId) -> (r: ImpactAnalysisResult)
        requires
            store.wf(),
        ensures
            query_result(store@, node_id.0@, false, None, r.affected_nodes_list@),
            r.affected_nodes == r.affected_nodes_list@.len(),
            type_count_model(r.node_type_counts@) == count_types(r.affected_nodes_list@),
    {
        let nodes = self.query_downstream(store, node_id, None);
        let mut counts: Vec<(LineageNodeType, usize)> = Vec::new();
        let mut i: usize = 0;
        while i < nodes.len()
            invariant
                i <= nodes@.len(),
                type_count_model(counts@) == count_types(nodes@.subrange(0, i as int)),
                forall|k: int| 0 <= k < counts@.len() ==> #[trigger] counts@[k].1 <= i,
            decreases nodes@.len() - i,
        {
            let ghost before = counts@;
            assert(nodes@.subrange(0, i as int + 1).drop_last() =~= nodes@.subrange(0, i as int));
            let pos = find_type(&counts, &nodes[i].node_type);
            proof {
                lemma_type_pos(type_count_model(before), node_type_key(nodes@[i as int].node_type));
            }
            match pos {
                Some(j) => {
                    let t = counts[j].0.duplicate();
                    let c = counts[j].1;
                    counts.set(j, (t, c + 1));
                    proof {
                        assert(type_count_model(counts@) =~= type_count_model(before).update(j as int,
                            (node_type_key(nodes@[i as int].node_type), type_count_model(before)[j as int].1 + 1)));
                    }
                },
                None => {
                    counts.push((nodes[i].node_type.duplicate(), 1));
                    proof {
                        assert(type_count_model(counts@) =~= type_count_model(before).push((node_type_key(nodes@[i as int].node_type), 1int)));
                    }
                },
            }
            i = i + 1;
        }
        assert(nodes@.subrange(0, i as int) =~= nodes@);
        ImpactAnalysisResult { affected_nodes: nodes.len(), node_type_counts: counts, affected_nodes_list: nodes }
    }

    /// A path of edges from one node to another: the ids along it, from the
    /// source to the target, each joined to the next by an edge from it;
    /// none when the target cannot be reached along edges.
    pub fn find_path(&self, store: &LineageStore, source_id: &LineageNodeId, target_id: &LineageNodeId) -> (r: Option<Vec<LineageNodeId>>)
        ensures
            match r {
                Some(p) => edge_walk(store@, p@.map_values(|n: LineageNodeId| n.0@), source_id.0@, target_id.0@),
                None => forall|p: Seq<Seq<char>>| !#[trigger] edge_walk(store@, p, source_id.0@, target_id.0@),
            },
    {
        let mut visited: Vec<String> = Vec::new();
        let mut path: Vec<LineageNodeId> = Vec::new();
        let ghost s = store@;
        let ghost u = path_universe(s, source_id.0@);
        proof {
            assert(texts(visited@) =~= Seq::<Seq<char>>::empty());
            assert(path@.map_values(|n: LineageNodeId| n.0@) =~= Seq::<Seq<char>>::empty());
            lemma_unvisited(u, texts(visited@), texts(visited@), source_id.0@);
            assert(u[u.len() - 1] == source_id.0@);
        }
        let found = self.dfs_find_path(store, source_id, target_id, &mut path, &mut visited, Ghost(source_id.0@), Ghost(Set::empty()));
        if found {
            Some(path)
        } else {
            proof {
                let v = texts(visited@);
                assert forall|p: Seq<Seq<char>>| !#[trigger] edge_walk(s, p, source_id.0@, target_id.0@) by {
                    if edge_walk(s, p, source_id.0@, target_id.0@) {
                        assert forall|a: Seq<char>, b: Seq<char>| v.contains(a) && #[trigger] edge_step(s, a, b) implies v.contains(b) by {
                            assert(!Set::<Seq<char>>::empty().contains(a));
                        }
                        lemma_closed_edge_reach(s, v, p, source_id.0@, target_id.0@);
                    }
                }
            }
            None
        }
    }

    fn dfs_find_path(
        &self,
        store: &LineageStore,
        current: &LineageNodeId,
        target: &LineageNodeId,
        path: &mut Vec<LineageNodeId>,
        visited: &mut Vec<String>,
        Ghost(source): Ghost<Seq<char>>,
        Ghost(stack): Ghost<Set<Seq<char>>>,
    ) -> (found: bool)
        requires
            path_universe(store@, source).contains(current.0@),
            old(path)@.len() == 0 ==> current.0@ == source,
            old(path)@.len() > 0 ==> edge_walk(store@, ids_of(old(path)@), source, ids_of(old(path)@).last())
                && edge_step(store@, ids_of(old(path)@).last(), current.0@),
            !texts(old(visited)@).contains(target.0@),
            forall|x: Seq<char>| stack.contains(x) ==> texts(old(visited)@).contains(x),
            closed_edges_except(store@, texts(old(visited)@), stack),
        ensures
            forall|x: Seq<char>| texts(old(visited)@).contains(x) ==> texts(final(visited)@).contains(x),
            found ==> edge_walk(store@, ids_of(final(path)@), source, target.0@),
            !found ==> final(path)@ == old(path)@,
            !found ==> !texts(final(visited)@).contains(target.0@),
            !found ==> texts(final(visited)@).contains(current.0@),
            !found ==> closed_edges_except(store@, texts(final(visited)@), stack),
        decreases unvisited(path_universe(store@, source), texts(old(visited)@)),
    {
        if contains_text_in(visited, current.0.as_str()) {
            return false;
        }
        let ghost u = path_universe(store@, source);
        let ghost v0 = texts(visited@);
        let ghost p0 = path@;
        let ghost x = current.0@;
        visited.push(current.0.clone());
        path.push(current.duplicate());
        proof {
            let v1 = texts(visited@);
            assert(v1 =~= v0.push(x));
            assert(v1[v0.len() as int] == x);
            assert forall|y: Seq<char>| v0.contains(y) implies v1.contains(y) by {
                let k = choose|k: int| 0 <= k < v0.len() && v0[k] == y;
                assert(v1[k] == y);
            }
            lemma_unvisited(u, v0, v1, x);
            let q = ids_of(path@);
            assert(q =~= ids_of(p0).push(x));
            if p0.len() == 0 {
                assert(edge_walk(store@, q, source, x));
            } else {
                let q0 = ids_of(p0);
                assert forall|k: int| 0 <= k < q.len() - 1 implies #[trigger] edge_step(store@, q[k], q[k + 1]) by {
                    if k < q0.len() - 1 {
                        assert(edge_step(store@, q0[k], q0[k + 1]));
                    }
                }
                assert(edge_walk(store@, q, source, x));
            }
        }
        if current.same(target) {
            return true;
        }
        let mut i: usize = 0;
        while i < store.edges.len()
            invariant
                u == path_universe(store@, source),
                i <= store@.edges.len(),
                x == current.0@,
                x != target.0@,
                u.contains(x),
                texts(visited@).contains(x),
                !v0.contains(x),
                v0 == texts(old(visited)@),
                forall|y: Seq<char>| v0.contains(y) ==> texts(visited@).contains(y),
                unvisited(u, texts(visited@)) < unvisited(u, v0),
                path@ == p0.push(*current),
                edge_walk(store@, ids_of(path@), source, x),
                !texts(visited@).contains(target.0@),
                forall|y: Seq<char>| stack.contains(y) ==> texts(visited@).contains(y),
                closed_edges_except(store@, texts(visited@), stack.insert(x)),
                forall|j: int| 0 <= j < i && (#[trigger] store@.edges[j]).source_node_id.0@ == x
                    ==> texts(visited@).contains(store@.edges[j].target_node_id.0@),
            decreases store@.edges.len() - i,
        {
            let e = &store.edges[i];
            let ghost vis_before = texts(visited@);
            if e.source_node_id.same(current) {
                let ghost y = e.target_node_id.0@;
                proof {
                    assert(edge_step(store@, x, y));
                    assert(u.contains(y)) by {
                        assert(edge_targets(store@.edges)[i as int] == y);
                        assert(u[i as int] == y);
                    }
                    lemma_unvisited(u, v0, texts(visited@), x);
                    assert forall|z: Seq<char>| stack.insert(x).contains(z) implies texts(visited@).contains(z) by {}
                }
                if self.dfs_find_path(store, &e.target_node_id, target, path, visited, Ghost(source), Ghost(stack.insert(x))) {
                    return true;
                }
            }
            proof {
                assert forall|y: Seq<char>| v0.contains(y) implies texts(visited@).contains(y) by {
                    assert(vis_before.contains(y));
                }
                lemma_unvisited(u, v0, texts(visited@), x);
                assert forall|j: int| 0 <= j < i + 1 && (#[trigger] store@.edges[j]).source_node_id.0@ == x
                    implies texts(visited@).contains(store@.edges[j].target_node_id.0@) by {
                    if j < i {
                        assert(vis_before.contains(store@.edges[j].target_node_id.0@));
                    }
                }
            }
            i = i + 1;
        }
        let _ = path.pop();
        proof {
            assert(path@ =~= p0);
            let vv = texts(visited@);
            assert forall|a: Seq<char>, b: Seq<char>| vv.contains(a) && !stack.contains(a) && #[trigger] edge_step(store@, a, b)
                implies vv.contains(b) by {
                if a == x {
                    let j = choose|j: int| 0 <= j < store@.edges.len() && #[trigger] store@.edges[j].source_node_id.0@ == a
                        && store@.edges[j].target_node_id.0@ == b;
                }
            }
        }
        false
    }

    fn traverse(
        &self,
        store: &LineageStore,
        node_id: &LineageNodeId,
        result: &mut Vec<LineageNode>,
        visited: &mut Vec<String>,
        max_depth: Option<usize>,
        current_depth: usize,
        upstream: bool,
        Ghost(start): Ghost<Seq<char>>,
        Ghost(stack): Ghost<Set<Seq<char>>>,
    )
        requires
            store.wf(),
            walk_state(store@, start, upstream, max_depth, old(result)@, texts(old(visited)@)),
            walk_universe(store@, start).contains(node_id.0@),
            current_depth + unvisited(walk_universe(store@, start), texts(old(visited)@)) <= walk_universe(store@, start).len(),
            reaches(store@, start, node_id.0@, upstream, Some(current_depth as int)),
            node_id.0@ == start || (old(result)@.len() > 0 && old(result)@.last().id.0@ == node_id.0@),
            node_id.0@ == start || texts(old(visited)@).contains(start),
            forall|x: Seq<char>| stack.contains(x) ==> texts(old(visited)@).contains(x),
            max_depth is None ==> closed_except(store@, texts(old(visited)@), stack, upstream),
            max_depth is None ==> forall|x: Seq<char>| node_ids(old(result)@).contains(x) ==> x == node_id.0@
                || texts(old(visited)@).contains(x),
        ensures
            walk_state(store@, start, upstream, max_depth, final(result)@, texts(final(visited)@)),
            final(result)@.len() >= old(result)@.len(),
            final(result)@.subrange(0, old(result)@.len() as int) == old(result)@,
            forall|x: Seq<char>| texts(old(visited)@).contains(x) ==> texts(final(visited)@).contains(x),
            (max_depth is None || current_depth <= max_depth->Some_0) ==> texts(final(visited)@).contains(node_id.0@),
            (max_depth is None || current_depth <= max_depth->Some_0) && !texts(old(visited)@).contains(node_id.0@)
                ==> forall|y: Seq<char>| #[trigger] linked(store@, node_id.0@, y, upstream) ==> y == start
                    || node_ids(final(result)@).contains(y),
            max_depth is None ==> closed_except(store@, texts(final(visited)@), stack, upstream),
            max_depth is None ==> forall|x: Seq<char>| node_ids(final(result)@).contains(x) ==> texts(final(visited)@).contains(x),
        decreases unvisited(walk_universe(store@, start), texts(old(visited)@)),
    {
        if contains_text_in(visited, node_id.0.as_str()) {
            return;
        }
        if let Some(max_d) = max_depth {
            if current_depth > max_d {
                return;
            }
        }
        let ghost u = walk_universe(store@, start);
        let ghost v0 = texts(visited@);
        let ghost res0 = result@;
        let ghost x = node_id.0@;
        let ghost bound = bound_of(max_depth);
        let node_count = store.nodes.len();
        visited.push(node_id.0.clone());
        let ghost v1 = texts(visited@);
        proof {
            assert(v1 =~= v0.push(x));
            assert(v1[v0.len() as int] == x);
            assert(v1.contains(x));
            assert forall|y: Seq<char>| v0.contains(y) implies v1.contains(y) by {
                let k = choose|k: int| 0 <= k < v0.len() && v0[k] == y;
                assert(v1[k] == y);
            }
            assert forall|y: Seq<char>| #[trigger] v1.contains(y) implies y == start || node_ids(result@).contains(y) by {
                if !v0.contains(y) {
                    let k = choose|k: int| 0 <= k < v1.len() && v1[k] == y;
                    assert(k == v0.len());
                    if y != start {
                        assert(node_ids(result@)[result@.len() - 1] == y);
                    }
                }
            }
            lemma_unvisited(u, v0, v1, x);
            if x != start {
                let k = choose|k: int| 0 <= k < v0.len() && v0[k] == start;
                assert(v1[k] == start);
            }
        }
        let mut i: usize = 0;
        while i < store.edges.len()
            invariant
                store.wf(),
                u == walk_universe(store@, start),
                i <= store@.edges.len(),
                u.contains(x),
                x == node_id.0@,
                bound == bound_of(max_depth),
                max_depth is None || current_depth <= max_depth->Some_0,
                reaches(store@, start, x, upstream, Some(current_depth as int)),
                walk_state(store@, start, upstream, max_depth, result@, texts(visited@)),
                result@.len() >= res0.len(),
                result@.subrange(0, res0.len() as int) == res0,
                texts(visited@).contains(x),
                texts(visited@).contains(start),
                v0 == texts(old(visited)@),
                u.len() == store@.nodes.len() + 1,
                store@.nodes.len() <= usize::MAX,
                !v0.contains(x),
                forall|y: Seq<char>| v0.contains(y) ==> texts(visited@).contains(y),
                unvisited(u, texts(visited@)) < unvisited(u, v0),
                current_depth + unvisited(u, v0) <= u.len(),
                forall|y: Seq<char>| stack.contains(y) ==> texts(visited@).contains(y),
                max_depth is None ==> closed_except(store@, texts(visited@), stack.insert(x), upstream),
                max_depth is None ==> forall|y: Seq<char>| node_ids(result@).contains(y) ==> texts(visited@).contains(y),
                forall|j: int, y: Seq<char>| 0 <= j < i && #[trigger] edge_links(store@.edges[j], x, y, upstream)
                    && lineage_node_pos(store@.nodes, y) is Some ==> y == start || node_ids(result@).contains(y)
                    && (max_depth is None ==> texts(visited@).contains(y)),
            decreases store@.edges.len() - i,
        {
            let e = &store.edges[i];
            let hit = if upstream {
                e.target_node_id.same(node_id)
            } else {
                e.source_node_id.same(node_id)
            };
            let ghost res_before = result@;
            let ghost vis_before = texts(visited@);
            if hit {
                let next_id = if upstream { &e.source_node_id } else { &e.target_node_id };
                let ghost y = next_id.0@;
                assert(edge_links(store@.edges[i as int], x, y, upstream));
                match store.get_node(next_id) {
                    Some(next) => {
                        assert(linked(store@, x, y, upstream));
                        if !contains_text_in(visited, next.id.0.as_str()) {
                            let copy = next.duplicate();
                            proof {
                                let p = choose|p: Seq<Seq<char>>| #[trigger] walk(store@, p, start, x, upstream)
                                    && p.len() - 1 <= current_depth;
                                let q = p.push(y);
                                assert forall|k: int| 0 <= k < q.len() - 1 implies #[trigger] linked(store@, q[k], q[k + 1], upstream) by {
                                    if k < p.len() - 1 {
                                        assert(linked(store@, p[k], p[k + 1], upstream));
                                    }
                                }
                                assert(walk(store@, q, start, y, upstream));
                                assert(reaches(store@, start, y, upstream, Some(current_depth + 1)));
                                if let Some(d) = max_depth {
                                    assert(reaches(store@, start, y, upstream, bound));
                                } else {
                                    assert(reaches(store@, start, y, upstream, None));
                                }
                                assert(lineage_node_pos(store@.nodes, y) is Some);
                                assert(y != start);
                            }
                            result.push(copy);
                            proof {
                                let r = result@;
                                assert(r.subrange(0, res_before.len() as int) =~= res_before);
                                assert(node_ids(r) =~= node_ids(res_before).push(y));
                                assert forall|k: int| 0 <= k < r.len() implies stored_copy(store@, #[trigger] r[k])
                                    && reaches(store@, start, r[k].id.0@, upstream, bound) && r[k].id.0@ != start by {
                                    if k < res_before.len() {
                                        assert(r[k] == res_before[k]);
                                    }
                                }
                                assert forall|z: Seq<char>| #[trigger] texts(visited@).contains(z) implies z == start || node_ids(r).contains(z) by {
                                    if z != start {
                                        let k = choose|k: int| 0 <= k < node_ids(res_before).len() && node_ids(res_before)[k] == z;
                                        assert(node_ids(r)[k] == z);
                                    }
                                }
                                if max_depth is None {
                                    assert forall|a: int, b: int| 0 <= a < b < r.len() implies #[trigger] r[a].id.0@ != #[trigger] r[b].id.0@ by {
                                        if b == r.len() - 1 {
                                            assert(node_ids(res_before)[a] == r[a].id.0@);
                                        } else {
                                            assert(r[a] == res_before[a] && r[b] == res_before[b]);
                                        }
                                    }
                                }
                                assert(walk_state(store@, start, upstream, max_depth, r, texts(visited@)));
                                assert forall|z: Seq<char>| stack.insert(x).contains(z) implies texts(visited@).contains(z) by {}
                                lemma_unvisited(u, v0, texts(visited@), x);
                                assert(u.contains(y)) by {
                                    let k = lineage_node_pos(store@.nodes, y)->Some_0;
                                    assert(node_ids(store@.nodes)[k] == y);
                                    assert(u[k] == y);
                                }
                                lemma_unvisited(u, texts(visited@), texts(visited@), y);
                            }
                            let next_depth = current_depth + 1;
                            assert(unvisited(walk_universe(store@, start), texts(visited@))
                                < unvisited(walk_universe(store@, start), texts(old(visited)@)));
                            self.traverse(
                                store,
                                &next.id,
                                result,
                                visited,
                                max_depth,
                                next_depth,
                                upstream,
                                Ghost(start),
                                Ghost(stack.insert(x)),
                            );
                        }
                    },
                    None => {},
                }
            }
            proof {
                let r = result@;
                let vv = texts(visited@);
                assert(r.subrange(0, res0.len() as int) =~= res0) by {
                    assert(r.subrange(0, res_before.len() as int) == res_before);
                    assert forall|k: int| 0 <= k < res0.len() implies r[k] == res0[k] by {
                        assert(r.subrange(0, res_before.len() as int)[k] == res_before[k]);
                        assert(res_before.subrange(0, res0.len() as int)[k] == res0[k]);
                    }
                }
                assert forall|z: Seq<char>| v0.contains(z) implies vv.contains(z) by {
                    assert(vis_before.contains(z));
                }
                lemma_unvisited(u, v0, vv, x);
                assert forall|j: int, y: Seq<char>| 0 <= j < i + 1 && #[trigger] edge_links(store@.edges[j], x, y, upstream)
                    && lineage_node_pos(store@.nodes, y) is Some implies y == start || node_ids(r).contains(y)
                    && (max_depth is None ==> vv.contains(y)) by {
                    if j < i {
                        if y != start {
                            assert(node_ids(res_before).contains(y));
                            let k = choose|k: int| 0 <= k < node_ids(res_before).len() && node_ids(res_before)[k] == y;
                            assert(r[k] == res_before[k]);
                            assert(node_ids(r)[k] == y);
                        }
                        if max_depth is None {
                            assert(vis_before.contains(y));
                        }
                    } else {
                        if vis_before.contains(y) {
                            if y != start {
                                let k = choose|k: int| 0 <= k < node_ids(res_before).len() && node_ids(res_before)[k] == y;
                                assert(r[k] == res_before[k]);
                                assert(node_ids(r)[k] == y);
                            }
                        } else {
                            assert(node_ids(r)[res_before.len() as int] == y);
                        }
                    }
                }
            }
            i = i + 1;
        }
        proof {
            let vv = texts(visited@);
            if max_depth is None {
                assert forall|a: Seq<char>, b: Seq<char>| vv.contains(a) && !stack.contains(a) && #[trigger] linked(store@, a, b, upstream)
                    implies vv.contains(b) by {
                    if a == x {
                        let j = choose|j: int| 0 <= j < store@.edges.len() && #[trigger] edge_links(store@.edges[j], a, b, upstream);
                    }
                }
            }
            assert forall|y: Seq<char>| #[trigger] linked(store@, x, y, upstream) implies y == start || node_ids(result@).contains(y) by {
                let j = choose|j: int| 0 <= j < store@.edges.len() && #[trigger] edge_links(store@.edges[j], x, y, upstream);
            }
        }
    }
}



/// A node type as its derived `Debug` writes it.
pub open spec fn node_type_debug(t: LineageNodeType) -> Seq<char> {
    match t {
        LineageNodeType::DataSource => "DataSource"@,
        LineageNodeType::DataTransform => "DataTransform"@,
        LineageNodeType::DataSink => "DataSink"@,
        LineageNodeType::Table => "Table"@,
        LineageNodeType::Column => "Column"@,
        LineageNodeType::File => "File"@,
        LineageNodeType::Api => "Api"@,
        LineageNodeType::Agent => "Agent"@,
        LineageNodeType::Task => "Task"@,
        LineageNodeType::Workflow => "Workflow"@,
        LineageNodeType::Custom(s) => "Custom("@ + str_debug_text(s@) + ")"@,
    }
}

/// An edge type as its derived `Debug` writes it.
pub open spec fn edge_type_debug(t: LineageEdgeType) -> Seq<char> {
    match t {
        LineageEdgeType::ReadsFrom => "ReadsFrom"@,
        LineageEdgeType::WritesTo => "WritesTo"@,
        LineageEdgeType::TransformsTo => "TransformsTo"@,
        LineageEdgeType::References => "References"@,
        LineageEdgeType::DependsOn => "DependsOn"@,
        LineageEdgeType::Custom(s) => "Custom("@ + str_debug_text(s@) + ")"@,
    }
}

fn node_type_debug_text(t: &LineageNodeType) -> (r: String)
    ensures
        r@ == node_type_debug(*t),
{
    match t {
        LineageNodeType::DataSource => String::from_str("DataSource"),
        LineageNodeType::DataTransform => String::from_str("DataTransform"),
        LineageNodeType::DataSink => String::from_str("DataSink"),
        LineageNodeType::Table => String::from_str("Table"),
        LineageNodeType::Column => String::from_str("Column"),
        LineageNodeType::File => String::from_str("File"),
        LineageNodeType::Api => String::from_str("Api"),
        LineageNodeType::Agent => String::from_str("Agent"),
        LineageNodeType::Task => String::from_str("Task"),
        LineageNodeType::Workflow => String::from_str("Workflow"),
        LineageNodeType::Custom(s) => {
            let mut r = String::from_str("Custom(");
            let q = str_debug(s.as_str());
            r.append(q.as_str());
            r.append(")");
            r
        },
    }
}

fn edge_type_debug_text(t: &LineageEdgeType) -> (r: String)
    ensures
        r@ == edge_type_debug(*t),
{
    match t {
        LineageEdgeType::ReadsFrom => String::from_str("ReadsFrom"),
        LineageEdgeType::WritesTo => String::from_str("WritesTo"),
        LineageEdgeType::TransformsTo => String::from_str("TransformsTo"),
        LineageEdgeType::References => String::from_str("References"),
        LineageEdgeType::DependsOn => String::from_str("DependsOn"),
        LineageEdgeType::Custom(s) => {
            let mut r = String::from_str("Custom(");
            let q = str_debug(s.as_str());
            r.append(q.as_str());
            r.append(")");
            r
        },
    }
}

/// The GraphML element of a node: its id, name and type.
pub open spec fn graphml_node(n: LineageNode) -> Seq<char> {
    "    <node id=\""@ + n.id.0@ + "\">\n"@
        + "      <data key=\"name\">"@ + n.name@ + "</data>\n"@
        + "      <data key=\"type\">"@ + node_type_debug(n.node_type) + "</data>\n"@
        + "    </node>\n"@
}

/// The GraphML element of the edge at position i: `e` and the position as
/// its id, its ends, and its type as label.
pub open spec fn graphml_edge(i: nat, e: LineageEdge) -> Seq<char> {
    "    <edge id=\"e"@ + decimal(i) + "\" source=\""@ + e.source_node_id.0@ + "\" target=\""@ + e.target_node_id.0@ + "\">\n"@
        + "      <data key=\"label\">"@ + edge_type_debug(e.edge_type) + "</data>\n"@
        + "    </edge>\n"@
}

/// The GraphML elements of nodes, in order.
pub open spec fn graphml_nodes(ns: Seq<LineageNode>) -> Seq<char>
    decreases ns.len(),
{
    if ns.len() == 0 {
        Seq::empty()
    } else {
        graphml_nodes(ns.drop_last()) + graphml_node(ns.last())
    }
}

/// The GraphML elements of edges, in order, numbered from 0.
pub open spec fn graphml_edges(es: Seq<LineageEdge>) -> Seq<char>
    decreases es.len(),
{
    if es.len() == 0 {
        Seq::empty()
    } else {
        graphml_edges(es.drop_last()) + graphml_edge((es.len() - 1) as nat, es.last())
    }
}

/// A directed GraphML document of the nodes and the edges.
pub open spec fn graphml(ns: Seq<LineageNode>, es: Seq<LineageEdge>) -> Seq<char> {
    "<?xml version=\"1.0\" encoding=\"UTF-8\"?>\n<graphml xmlns=\"http://graphml.graphdrawing.org/xmlns\">\n  <key id=\"name\" for=\"node\" attr.name=\"name\" attr.type=\"string\"/>\n  <key id=\"type\" for=\"node\" attr.name=\"type\" attr.type=\"string\"/>\n  <key id=\"label\" for=\"edge\" attr.name=\"label\" attr.type=\"string\"/>\n  <graph id=\"lineage\" edgedefault=\"directed\">\n"@
        + graphml_nodes(ns) + graphml_edges(es)
        + "  </graph>\n</graphml>\n"@
}

fn append_graphml_node(g: &mut String, n: &LineageNode)
    ensures
        final(g)@ == old(g)@ + graphml_node(*n),
{
    let ghost before = g@;
    g.append("    <node id=\"");
    g.append(n.id.0.as_str());
    g.append("\">\n      <data key=\"name\">");
    g.append(n.name.as_str());
    g.append("</data>\n      <data key=\"type\">");
    let t = node_type_debug_text(&n.node_type);
    g.append(t.as_str());
    g.append("</data>\n    </node>\n");
    proof {
        reveal_strlit("\">\n");
        reveal_strlit("      <data key=\"name\">");
        reveal_strlit("\">\n      <data key=\"name\">");
        reveal_strlit("</data>\n");
        reveal_strlit("      <data key=\"type\">");
        reveal_strlit("</data>\n      <data key=\"type\">");
        reveal_strlit("    </node>\n");
        reveal_strlit("</data>\n    </node>\n");
        assert(g@ =~= before + graphml_node(*n));
    }
}

fn append_graphml_edge(g: &mut String, k: usize, e: &LineageEdge)
    ensures
        final(g)@ == old(g)@ + graphml_edge(k as nat, *e),
{
    let ghost before = g@;
    g.append("    <edge id=\"e");
    let num = u64_to_text(k as u64);
    g.append(num.as_str());
    g.append("\" source=\"");
    g.append(e.source_node_id.0.as_str());
    g.append("\" target=\"");
    g.append(e.target_node_id.0.as_str());
    g.append("\">\n      <data key=\"label\">");
    let t = edge_type_debug_text(&e.edge_type);
    g.append(t.as_str());
    g.append("</data>\n    </edge>\n");
    proof {
        reveal_strlit("\">\n");
        reveal_strlit("      <data key=\"label\">");
        reveal_strlit("\">\n      <data key=\"label\">");
        reveal_strlit("</data>\n");
        reveal_strlit("    </edge>\n");
        reveal_strlit("</data>\n    </edge>\n");
        assert(g@ =~= before + graphml_edge(k as nat, *e));
    }
}

impl LineageStore {
    /// The whole graph as a GraphML document: the nodes, in the order
    /// they were first stored, with their names and types, then the
    /// edges, in order, numbered from 0, labelled with their types. Names
    /// and ids are written as they are.
    pub fn export_to_graphml(&self) -> (r: Result<String, AetherisError>)
        ensures
            r matches Ok(g) && g@ == graphml(self@.nodes, self@.edges),
    {
        let ghost ns = self@.nodes;
        let ghost es = self@.edges;
        let mut g = String::from_str("<?xml version=\"1.0\" encoding=\"UTF-8\"?>\n<graphml xmlns=\"http://graphml.graphdrawing.org/xmlns\">\n  <key id=\"name\" for=\"node\" attr.name=\"name\" attr.type=\"string\"/>\n  <key id=\"type\" for=\"node\" attr.name=\"type\" attr.type=\"string\"/>\n  <key id=\"label\" for=\"edge\" attr.name=\"label\" attr.type=\"string\"/>\n  <graph id=\"lineage\" edgedefault=\"directed\">\n");
        let ghost head = g@;
        let mut i: usize = 0;
        assert(graphml_nodes(ns.subrange(0, 0)) =~= Seq::<char>::empty());
        assert(g@ =~= head + graphml_nodes(ns.subrange(0, 0)));
        while i < self.nodes.len()
            invariant
                i <= ns.len(),
                ns == self@.nodes,
                g@ == head + graphml_nodes(ns.subrange(0, i as int)),
            decreases ns.len() - i,
        {
            let n = &self.nodes[i];
            let ghost before = g@;
            append_graphml_node(&mut g, n);
            proof {
                assert(ns.subrange(0, i as int + 1).drop_last() =~= ns.subrange(0, i as int));
                assert(ns.subrange(0, i as int + 1).last() == *n);
            }
            i = i + 1;
        }
        assert(ns.subrange(0, i as int) =~= ns);
        let ghost mid = g@;
        let mut k: usize = 0;
        assert(graphml_edges(es.subrange(0, 0)) =~= Seq::<char>::empty());
        assert(g@ =~= mid + graphml_edges(es.subrange(0, 0)));
        while k < self.edges.len()
            invariant
                k <= es.len(),
                es == self@.edges,
                g@ == mid + graphml_edges(es.subrange(0, k as int)),
            decreases es.len() - k,
        {
            let e = &self.edges[k];
            let ghost before = g@;
            append_graphml_edge(&mut g, k, e);
            proof {
                assert(es.subrange(0, k as int + 1).drop_last() =~= es.subrange(0, k as int));
                assert(es.subrange(0, k as int + 1).last() == *e);
            }
            k = k + 1;
        }
        assert(es.subrange(0, k as int) =~= es);
        g.append("  </graph>\n</graphml>\n");
        Ok(g)
    }
}


/// The RFC 3339 text of a time given in milliseconds since the Unix
/// epoch, as chrono writes it; none for a time out of chrono's range.
pub uninterp spec fn rfc3339_text(millis: i64) -> Option<Seq<char>>;

/// `chrono::DateTime::<Utc>::from_timestamp_millis` and, when the time is
/// in range, `to_rfc3339` on it.
#[verifier::external_body]
fn rfc3339_of(millis: i64) -> (r: Option<String>)
    ensures
        match rfc3339_text(millis) {
            Some(t) => r matches Some(s) && s@ == t,
            None => r is None,
        },
{
    match chrono::DateTime::<chrono::Utc>::from_timestamp_millis(millis) {
        Some(d) => Some(d.to_rfc3339()),
        None => None,
    }
}

/// A node as it is drawn.
#[derive(Debug)]
pub struct VisualizationNode {
    pub id: String,
    pub label: String,
    pub node_type: String,
    pub description: Option<String>,
    pub metadata: JsonValue,
    pub created_at: String,
}

/// An edge as it is drawn.
#[derive(Debug)]
pub struct VisualizationEdge {
    pub id: String,
    pub source: String,
    pub target: String,
    pub edge_type: String,
    pub description: Option<String>,
    pub metadata: JsonValue,
}

/// A lineage ready to be drawn in a layout.
#[derive(Debug)]
pub struct LineageVisualizationData {
    pub nodes: Vec<VisualizationNode>,
    pub edges: Vec<VisualizationEdge>,
    pub format: VisualizationFormat,
}

/// The text of an optional string.
pub open spec fn opt_text(o: Option<String>) -> Option<Seq<char>> {
    match o {
        Some(s) => Some(s@),
        None => None,
    }
}

/// An optional string in JSON: the string, or null.
pub open spec fn text_or_null(o: Option<String>) -> JsonModel {
    match o {
        Some(s) => JsonModel::String(s@),
        None => JsonModel::Null,
    }
}

/// The drawing of a node: its id, its name as label, its type's label, its
/// description, its metadata as an object, and its creation time in RFC
/// 3339 (empty out of chrono's range).
pub open spec fn drawn_node(v: VisualizationNode, n: LineageNode) -> bool {
    &&& v.id@ == n.id.0@
    &&& v.label@ == n.name@
    &&& v.node_type@ == node_type_label(n.node_type)
    &&& opt_text(v.description) == opt_text(n.description)
    &&& v.metadata@ == JsonModel::Object(members_model(n.metadata@))
    &&& v.created_at@ == (match rfc3339_text(n.created_at) {
        Some(t) => t,
        None => Seq::<char>::empty(),
    })
}

/// The drawing of an edge: its id, its ends, its type's label, its
/// description and its metadata as an object.
pub open spec fn drawn_edge(v: VisualizationEdge, e: LineageEdge) -> bool {
    &&& v.id@ == e.id.0@
    &&& v.source@ == e.source_node_id.0@
    &&& v.target@ == e.target_node_id.0@
    &&& v.edge_type@ == edge_type_label(e.edge_type)
    &&& opt_text(v.description) == opt_text(e.description)
    &&& v.metadata@ == JsonModel::Object(members_model(e.metadata@))
}

/// A node in the D3.js layout.
pub open spec fn d3_node(v: VisualizationNode) -> JsonModel {
    JsonModel::Object(seq![
        ("id"@, JsonModel::String(v.id@)),
        ("name"@, JsonModel::String(v.label@)),
        ("type"@, JsonModel::String(v.node_type@)),
        ("description"@, text_or_null(v.description)),
        ("metadata"@, v.metadata@),
    ])
}

/// An edge in the D3.js layout.
pub open spec fn d3_link(v: VisualizationEdge) -> JsonModel {
    JsonModel::Object(seq![
        ("source"@, JsonModel::String(v.source@)),
        ("target"@, JsonModel::String(v.target@)),
        ("type"@, JsonModel::String(v.edge_type@)),
        ("description"@, text_or_null(v.description)),
    ])
}

/// A node in the Cytoscape.js layout.
pub open spec fn cy_node(v: VisualizationNode) -> JsonModel {
    JsonModel::Object(seq![
        ("data"@, JsonModel::Object(seq![
            ("id"@, JsonModel::String(v.id@)),
            ("label"@, JsonModel::String(v.label@)),
            ("type"@, JsonModel::String(v.node_type@)),
            ("description"@, text_or_null(v.description)),
            ("metadata"@, v.metadata@),
        ])),
    ])
}

/// An edge in the Cytoscape.js layout.
pub open spec fn cy_edge(v: VisualizationEdge) -> JsonModel {
    JsonModel::Object(seq![
        ("data"@, JsonModel::Object(seq![
            ("id"@, JsonModel::String(v.id@)),
            ("source"@, JsonModel::String(v.source@)),
            ("target"@, JsonModel::String(v.target@)),
            ("type"@, JsonModel::String(v.edge_type@)),
            ("description"@, text_or_null(v.description)),
            ("metadata"@, v.metadata@),
        ])),
    ])
}

/// The styles of the Cytoscape.js layout: labelled grey nodes, and
/// labelled bezier edges with triangle arrows.
pub open spec fn cy_style() -> JsonModel {
    JsonModel::Array(seq![
        JsonModel::Object(seq![
            ("selector"@, JsonModel::String("node"@)),
            ("style"@, JsonModel::Object(seq![
                ("label"@, JsonModel::String("data(label)"@)),
                ("background-color"@, JsonModel::String("#666"@)),
                ("width"@, JsonModel::String("60px"@)),
                ("height"@, JsonModel::String("60px"@)),
            ])),
        ]),
        JsonModel::Object(seq![
            ("selector"@, JsonModel::String("edge"@)),
            ("style"@, JsonModel::Object(seq![
                ("label"@, JsonModel::String("data(type)"@)),
                ("line-color"@, JsonModel::String("#999"@)),
                ("target-arrow-color"@, JsonModel::String("#999"@)),
                ("target-arrow-shape"@, JsonModel::String("triangle"@)),
                ("curve-style"@, JsonModel::String("bezier"@)),
            ])),
        ]),
    ])
}

/// A node with all its fields.
pub open spec fn generic_node(v: VisualizationNode) -> JsonModel {
    JsonModel::Object(seq![
        ("id"@, JsonModel::String(v.id@)),
        ("label"@, JsonModel::String(v.label@)),
        ("node_type"@, JsonModel::String(v.node_type@)),
        ("description"@, text_or_null(v.description)),
        ("metadata"@, v.metadata@),
        ("created_at"@, JsonModel::String(v.created_at@)),
    ])
}

/// An edge with all its fields.
pub open spec fn generic_edge(v: VisualizationEdge) -> JsonModel {
    JsonModel::Object(seq![
        ("id"@, JsonModel::String(v.id@)),
        ("source"@, JsonModel::String(v.source@)),
        ("target"@, JsonModel::String(v.target@)),
        ("edge_type"@, JsonModel::String(v.edge_type@)),
        ("description"@, text_or_null(v.description)),
        ("metadata"@, v.metadata@),
    ])
}

fn opt_copy(o: &Option<String>) -> (r: Option<String>)
    ensures
        r == *o,
{
    match o {
        Some(s) => Some(s.clone()),
        None => None,
    }
}

fn text_or_null_value(o: &Option<String>) -> (r: JsonValue)
    ensures
        r@ == text_or_null(*o),
{
    match o {
        Some(s) => JsonValue::String(s.clone()),
        None => JsonValue::Null,
    }
}

fn text_value(s: &String) -> (r: JsonValue)
    ensures
        r@ == JsonModel::String(s@),
{
    JsonValue::String(s.clone())
}

fn member(key: &str, value: JsonValue) -> (r: (String, JsonValue))
    ensures
        r.0@ == key@,
        r.1 == value,
{
    (key.to_string(), value)
}

impl LineageVisualizationData {
    /// The drawing of a lineage in a layout: each node and each edge, in
    /// order.
    pub fn from_lineage(lineage: &DataLineage, format: VisualizationFormat) -> (d: LineageVisualizationData)
        ensures
            d.format == format,
            d.nodes@.len() == lineage.nodes@.len(),
            forall|i: int| 0 <= i < d.nodes@.len() ==> drawn_node(#[trigger] d.nodes@[i], lineage.nodes@[i]),
            d.edges@.len() == lineage.edges@.len(),
            forall|i: int| 0 <= i < d.edges@.len() ==> drawn_edge(#[trigger] d.edges@[i], lineage.edges@[i]),
    {
        let mut nodes: Vec<VisualizationNode> = Vec::new();
        let mut i: usize = 0;
        while i < lineage.nodes.len()
            invariant
                i <= lineage.nodes@.len(),
                nodes@.len() == i,
                forall|k: int| 0 <= k < i ==> drawn_node(#[trigger] nodes@[k], lineage.nodes@[k]),
            decreases lineage.nodes@.len() - i,
        {
            let n = &lineage.nodes[i];
            let created_at = match rfc3339_of(n.created_at) {
                Some(t) => t,
                None => String::new(),
            };
            let v = VisualizationNode {
                id: n.id.0.clone(),
                label: n.name.clone(),
                node_type: format_node_type(&n.node_type),
                description: opt_copy(&n.description),
                metadata: JsonValue::Object(crate::governance::duplicate_metadata(&n.metadata)),
                created_at,
            };
            proof {
                crate::json::lemma_members_model(n.metadata@);
                crate::json::lemma_members_model(v.metadata->Object_0@);
                assert(members_model(n.metadata@) =~= crate::governance::meta_model(n.metadata@));
                assert(members_model(v.metadata->Object_0@) =~= crate::governance::meta_model(v.metadata->Object_0@));
                assert(members_model(v.metadata->Object_0@) =~= members_model(n.metadata@));
            }
            nodes.push(v);
            i = i + 1;
        }
        let mut edges: Vec<VisualizationEdge> = Vec::new();
        let mut i: usize = 0;
        while i < lineage.edges.len()
            invariant
                i <= lineage.edges@.len(),
                edges@.len() == i,
                forall|k: int| 0 <= k < i ==> drawn_edge(#[trigger] edges@[k], lineage.edges@[k]),
            decreases lineage.edges@.len() - i,
        {
            let e = &lineage.edges[i];
            let v = VisualizationEdge {
                id: e.id.0.clone(),
                source: e.source_node_id.0.clone(),
                target: e.target_node_id.0.clone(),
                edge_type: format_edge_type(&e.edge_type),
                description: opt_copy(&e.description),
                metadata: JsonValue::Object(crate::governance::duplicate_metadata(&e.metadata)),
            };
            proof {
                crate::json::lemma_members_model(e.metadata@);
                crate::json::lemma_members_model(v.metadata->Object_0@);
                assert(members_model(e.metadata@) =~= crate::governance::meta_model(e.metadata@));
                assert(members_model(v.metadata->Object_0@) =~= crate::governance::meta_model(v.metadata->Object_0@));
                assert(members_model(v.metadata->Object_0@) =~= members_model(e.metadata@));
            }
            edges.push(v);
            i = i + 1;
        }
        LineageVisualizationData { nodes, edges, format }
    }

    fn d3_node_value(v: &VisualizationNode) -> (r: JsonValue)
        ensures
            r@ == d3_node(*v),
    {
        let m = vec![
            member("id", text_value(&v.id)),
            member("name", text_value(&v.label)),
            member("type", text_value(&v.node_type)),
            member("description", text_or_null_value(&v.description)),
            member("metadata", v.metadata.duplicate()),
        ];
        proof {
            reveal_with_fuel(members_model, 6);
        }
        assert(members_model(m@) =~= d3_node(*v)->Object_0);
        JsonValue::Object(m)
    }

    fn d3_link_value(v: &VisualizationEdge) -> (r: JsonValue)
        ensures
            r@ == d3_link(*v),
    {
        let m = vec![
            member("source", text_value(&v.source)),
            member("target", text_value(&v.target)),
            member("type", text_value(&v.edge_type)),
            member("description", text_or_null_value(&v.description)),
        ];
        proof {
            reveal_with_fuel(members_model, 5);
        }
        assert(members_model(m@) =~= d3_link(*v)->Object_0);
        JsonValue::Object(m)
    }

    fn cy_node_value(v: &VisualizationNode) -> (r: JsonValue)
        ensures
            r@ == cy_node(*v),
    {
        let inner = vec![
            member("id", text_value(&v.id)),
            member("label", text_value(&v.label)),
            member("type", text_value(&v.node_type)),
            member("description", text_or_null_value(&v.description)),
            member("metadata", v.metadata.duplicate()),
        ];
        proof {
            reveal_with_fuel(members_model, 6);
        }
        assert(members_model(inner@) =~= cy_node(*v)->Object_0[0].1->Object_0);
        let m = vec![member("data", JsonValue::Object(inner))];
        assert(members_model(m@) =~= cy_node(*v)->Object_0);
        JsonValue::Object(m)
    }

    fn cy_edge_value(v: &VisualizationEdge) -> (r: JsonValue)
        ensures
            r@ == cy_edge(*v),
    {
        let inner = vec![
            member("id", text_value(&v.id)),
            member("source", text_value(&v.source)),
            member("target", text_value(&v.target)),
            member("type", text_value(&v.edge_type)),
            member("description", text_or_null_value(&v.description)),
            member("metadata", v.metadata.duplicate()),
        ];
        proof {
            reveal_with_fuel(members_model, 7);
        }
        assert(members_model(inner@) =~= cy_edge(*v)->Object_0[0].1->Object_0);
        let m = vec![member("data", JsonValue::Object(inner))];
        assert(members_model(m@) =~= cy_edge(*v)->Object_0);
        JsonValue::Object(m)
    }

    fn generic_node_value(v: &VisualizationNode) -> (r: JsonValue)
        ensures
            r@ == generic_node(*v),
    {
        let m = vec![
            member("id", text_value(&v.id)),
            member("label", text_value(&v.label)),
            member("node_type", text_value(&v.node_type)),
            member("description", text_or_null_value(&v.description)),
            member("metadata", v.metadata.duplicate()),
            member("created_at", text_value(&v.created_at)),
        ];
        proof {
            reveal_with_fuel(members_model, 7);
        }
        assert(members_model(m@) =~= generic_node(*v)->Object_0);
        JsonValue::Object(m)
    }

    fn generic_edge_value(v: &VisualizationEdge) -> (r: JsonValue)
        ensures
            r@ == generic_edge(*v),
    {
        let m = vec![
            member("id", text_value(&v.id)),
            member("source", text_value(&v.source)),
            member("target", text_value(&v.target)),
            member("edge_type", text_value(&v.edge_type)),
            member("description", text_or_null_value(&v.description)),
            member("metadata", v.metadata.duplicate()),
        ];
        proof {
            reveal_with_fuel(members_model, 7);
        }
        assert(members_model(m@) =~= generic_edge(*v)->Object_0);
        JsonValue::Object(m)
    }

    /// The nodes, each drawn as `kind` says: 0 for D3.js, 1 for
    /// Cytoscape.js, 2 with all fields.
    fn node_values(&self, kind: u8) -> (r: Vec<JsonValue>)
        requires
            kind <= 2,
        ensures
            r@.len() == self.nodes@.len(),
            forall|i: int| 0 <= i < r@.len() ==> (#[trigger] r@[i])@ == (if kind == 0 {
                d3_node(self.nodes@[i])
            } else if kind == 1 {
                cy_node(self.nodes@[i])
            } else {
                generic_node(self.nodes@[i])
            }),
    {
        let mut r: Vec<JsonValue> = Vec::new();
        let mut i: usize = 0;
        while i < self.nodes.len()
            invariant
                i <= self.nodes@.len(),
                kind <= 2,
                r@.len() == i,
                forall|k: int| 0 <= k < i ==> (#[trigger] r@[k])@ == (if kind == 0 {
                    d3_node(self.nodes@[k])
                } else if kind == 1 {
                    cy_node(self.nodes@[k])
                } else {
                    generic_node(self.nodes@[k])
                }),
            decreases self.nodes@.len() - i,
        {
            let v = if kind == 0 {
                Self::d3_node_value(&self.nodes[i])
            } else if kind == 1 {
                Self::cy_node_value(&self.nodes[i])
            } else {
                Self::generic_node_value(&self.nodes[i])
            };
            r.push(v);
            i = i + 1;
        }
        r
    }

    /// The edges, each drawn as `kind` says: 0 for D3.js, 1 for
    /// Cytoscape.js, 2 with all fields.
    fn edge_values(&self, kind: u8) -> (r: Vec<JsonValue>)
        requires
            kind <= 2,
        ensures
            r@.len() == self.edges@.len(),
            forall|i: int| 0 <= i < r@.len() ==> (#[trigger] r@[i])@ == (if kind == 0 {
                d3_link(self.edges@[i])
            } else if kind == 1 {
                cy_edge(self.edges@[i])
            } else {
                generic_edge(self.edges@[i])
            }),
    {
        let mut r: Vec<JsonValue> = Vec::new();
        let mut i: usize = 0;
        while i < self.edges.len()
            invariant
                i <= self.edges@.len(),
                kind <= 2,
                r@.len() == i,
                forall|k: int| 0 <= k < i ==> (#[trigger] r@[k])@ == (if kind == 0 {
                    d3_link(self.edges@[k])
                } else if kind == 1 {
                    cy_edge(self.edges@[k])
                } else {
                    generic_edge(self.edges@[k])
                }),
            decreases self.edges@.len() - i,
        {
            let v = if kind == 0 {
                Self::d3_link_value(&self.edges[i])
            } else if kind == 1 {
                Self::cy_edge_value(&self.edges[i])
            } else {
                Self::generic_edge_value(&self.edges[i])
            };
            r.push(v);
            i = i + 1;
        }
        r
    }

    /// The D3.js layout: the nodes, and the edges as links.
    pub fn to_d3_js(&self) -> (r: JsonValue)
        ensures
            r@ == JsonModel::Object(seq![
                ("nodes"@, JsonModel::Array(self.nodes@.map_values(|v: VisualizationNode| d3_node(v)))),
                ("links"@, JsonModel::Array(self.edges@.map_values(|v: VisualizationEdge| d3_link(v)))),
            ]),
    {
        let ns = self.node_values(0);
        let es = self.edge_values(0);
        proof {
            crate::json::lemma_items_model(ns@);
            crate::json::lemma_items_model(es@);
            assert(items_model(ns@) =~= self.nodes@.map_values(|v: VisualizationNode| d3_node(v)));
            assert(items_model(es@) =~= self.edges@.map_values(|v: VisualizationEdge| d3_link(v)));
        }
        let m = vec![member("nodes", JsonValue::Array(ns)), member("links", JsonValue::Array(es))];
        proof {
            reveal_with_fuel(members_model, 3);
        }
        assert(members_model(m@) =~= seq![
            ("nodes"@, JsonModel::Array(self.nodes@.map_values(|v: VisualizationNode| d3_node(v)))),
            ("links"@, JsonModel::Array(self.edges@.map_values(|v: VisualizationEdge| d3_link(v)))),
        ]);
        JsonValue::Object(m)
    }

    fn cy_style_value() -> (r: JsonValue)
        ensures
            r@ == cy_style(),
    {
        let node_style = vec![
            member("label", JsonValue::String(String::from_str("data(label)"))),
            member("background-color", JsonValue::String(String::from_str("#666"))),
            member("width", JsonValue::String(String::from_str("60px"))),
            member("height", JsonValue::String(String::from_str("60px"))),
        ];
        let edge_style = vec![
            member("label", JsonValue::String(String::from_str("data(type)"))),
            member("line-color", JsonValue::String(String::from_str("#999"))),
            member("target-arrow-color", JsonValue::String(String::from_str("#999"))),
            member("target-arrow-shape", JsonValue::String(String::from_str("triangle"))),
            member("curve-style", JsonValue::String(String::from_str("bezier"))),
        ];
        proof {
            reveal_with_fuel(members_model, 6);
        }
        assert(members_model(node_style@) =~= cy_style()->Array_0[0]->Object_0[1].1->Object_0);
        assert(members_model(edge_style@) =~= cy_style()->Array_0[1]->Object_0[1].1->Object_0);
        let node_rule = vec![
            member("selector", JsonValue::String(String::from_str("node"))),
            member("style", JsonValue::Object(node_style)),
        ];
        let edge_rule = vec![
            member("selector", JsonValue::String(String::from_str("edge"))),
            member("style", JsonValue::Object(edge_style)),
        ];
        assert(members_model(node_rule@) =~= cy_style()->Array_0[0]->Object_0);
        assert(members_model(edge_rule@) =~= cy_style()->Array_0[1]->Object_0);
        let rules = vec![JsonValue::Object(node_rule), JsonValue::Object(edge_rule)];
        proof {
            reveal_with_fuel(items_model, 3);
        }
        assert(items_model(rules@) =~= cy_style()->Array_0);
        JsonValue::Array(rules)
    }

    /// The Cytoscape.js layout: the nodes and then the edges as elements,
    /// the styles, and the `cose` layout.
    pub fn to_cytoscape_js(&self) -> (r: JsonValue)
        ensures
            r@ == JsonModel::Object(seq![
                ("elements"@, JsonModel::Array(self.nodes@.map_values(|v: VisualizationNode| cy_node(v))
                    + self.edges@.map_values(|v: VisualizationEdge| cy_edge(v)))),
                ("style"@, cy_style()),
                ("layout"@, JsonModel::Object(seq![("name"@, JsonModel::String("cose"@))])),
            ]),
    {
        let mut elements = self.node_values(1);
        let mut es = self.edge_values(1);
        let ghost ns0 = elements@;
        let ghost es0 = es@;
        elements.append(&mut es);
        proof {
            crate::json::lemma_items_model(ns0);
            crate::json::lemma_items_model(es0);
            crate::json::lemma_items_model(elements@);
            assert(items_model(elements@) =~= self.nodes@.map_values(|v: VisualizationNode| cy_node(v))
                + self.edges@.map_values(|v: VisualizationEdge| cy_edge(v)));
        }
        let layout = vec![member("name", JsonValue::String(String::from_str("cose")))];
        proof {
            reveal_with_fuel(members_model, 4);
        }
        assert(members_model(layout@) =~= seq![("name"@, JsonModel::String("cose"@))]);
        let m = vec![
            member("elements", JsonValue::Array(elements)),
            member("style", Self::cy_style_value()),
            member("layout", JsonValue::Object(layout)),
        ];
        assert(members_model(m@) =~= seq![
            ("elements"@, JsonModel::Array(self.nodes@.map_values(|v: VisualizationNode| cy_node(v))
                + self.edges@.map_values(|v: VisualizationEdge| cy_edge(v)))),
            ("style"@, cy_style()),
            ("layout"@, JsonModel::Object(seq![("name"@, JsonModel::String("cose"@))])),
        ]);
        JsonValue::Object(m)
    }

    /// Every field of the nodes and of the edges.
    pub fn to_generic(&self) -> (r: JsonValue)
        ensures
            r@ == JsonModel::Object(seq![
                ("nodes"@, JsonModel::Array(self.nodes@.map_values(|v: VisualizationNode| generic_node(v)))),
                ("edges"@, JsonModel::Array(self.edges@.map_values(|v: VisualizationEdge| generic_edge(v)))),
            ]),
    {
        let ns = self.node_values(2);
        let es = self.edge_values(2);
        proof {
            crate::json::lemma_items_model(ns@);
            crate::json::lemma_items_model(es@);
            assert(items_model(ns@) =~= self.nodes@.map_values(|v: VisualizationNode| generic_node(v)));
            assert(items_model(es@) =~= self.edges@.map_values(|v: VisualizationEdge| generic_edge(v)));
        }
        let m = vec![member("nodes", JsonValue::Array(ns)), member("edges", JsonValue::Array(es))];
        proof {
            reveal_with_fuel(members_model, 3);
        }
        assert(members_model(m@) =~= seq![
            ("nodes"@, JsonModel::Array(self.nodes@.map_values(|v: VisualizationNode| generic_node(v)))),
            ("edges"@, JsonModel::Array(self.edges@.map_values(|v: VisualizationEdge| generic_edge(v)))),
        ]);
        JsonValue::Object(m)
    }

    /// The drawing in its format's layout.
    pub fn export(&self) -> (r: JsonValue)
        ensures
            r@ == match self.format {
                VisualizationFormat::D3Js => JsonModel::Object(seq![
                    ("nodes"@, JsonModel::Array(self.nodes@.map_values(|v: VisualizationNode| d3_node(v)))),
                    ("links"@, JsonModel::Array(self.edges@.map_values(|v: VisualizationEdge| d3_link(v)))),
                ]),
                VisualizationFormat::CytoscapeJs => JsonModel::Object(seq![
                    ("elements"@, JsonModel::Array(self.nodes@.map_values(|v: VisualizationNode| cy_node(v))
                        + self.edges@.map_values(|v: VisualizationEdge| cy_edge(v)))),
                    ("style"@, cy_style()),
                    ("layout"@, JsonModel::Object(seq![("name"@, JsonModel::String("cose"@))])),
                ]),
                VisualizationFormat::Generic => JsonModel::Object(seq![
                    ("nodes"@, JsonModel::Array(self.nodes@.map_values(|v: VisualizationNode| generic_node(v)))),
                    ("edges"@, JsonModel::Array(self.edges@.map_values(|v: VisualizationEdge| generic_edge(v)))),
                ]),
            },
    {
        match self.format {
            VisualizationFormat::D3Js => self.to_d3_js(),
            VisualizationFormat::CytoscapeJs => self.to_cytoscape_js(),
            VisualizationFormat::Generic => self.to_generic(),
        }
    }
}

} // verus!
