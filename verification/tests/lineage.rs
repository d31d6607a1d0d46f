use aetheris::governance::lineage::{
    format_edge_type, format_node_type, LineageCollector, LineageQueryEngine, LineageRecord, LineageRecordType,
    LineageStore, LineageVisualizationData, VisualizationFormat,
};
use aetheris::json::JsonValue;
use aetheris::governance::{DataLineage, LineageEdge, LineageEdgeType, LineageNode, LineageNodeId, LineageNodeType};

fn node(t: LineageNodeType, name: &str) -> LineageNode {
    LineageNode::new(t, name.to_string())
}

fn edge(t: LineageEdgeType, from: &LineageNode, to: &LineageNode) -> LineageEdge {
    LineageEdge::new(t, from.id.clone(), to.id.clone())
}

#[test]
fn test_lineage_store_new() {
    let store = LineageStore::new();
    assert!(store.get_all_nodes().is_empty());
    assert!(store.get_all_edges().is_empty());
    assert!(store.get_records().is_empty());
}

#[test]
fn test_lineage_store_default() {
    let store = LineageStore::default();
    assert!(store.get_all_nodes().is_empty());
}

#[test]
fn test_lineage_store_store_node() {
    let mut store = LineageStore::new();
    let node = node(LineageNodeType::Table, "test_table");
    let node_id = node.id.clone();
    let result = store.store_node(node);
    assert!(result.is_ok());
    assert_eq!(result.unwrap(), node_id);
    let retrieved = store.get_node(&node_id);
    assert!(retrieved.is_some());
    assert_eq!(retrieved.unwrap().name, "test_table");
}

#[test]
fn test_lineage_store_store_edge() {
    let mut store = LineageStore::new();
    let e = LineageEdge::new(LineageEdgeType::ReadsFrom, LineageNodeId::new(), LineageNodeId::new());
    let edge_id = e.id.clone();
    let result = store.store_edge(e);
    assert!(result.is_ok());
    assert_eq!(result.unwrap(), edge_id);
    assert_eq!(store.get_all_edges().len(), 1);
}

#[test]
fn test_lineage_store_get_all_nodes() {
    let mut store = LineageStore::new();
    store.store_node(node(LineageNodeType::Table, "table1")).unwrap();
    store.store_node(node(LineageNodeType::Column, "column1")).unwrap();
    assert_eq!(store.get_all_nodes().len(), 2);
}

#[test]
fn test_lineage_store_get_all_edges() {
    let mut store = LineageStore::new();
    store
        .store_edge(LineageEdge::new(LineageEdgeType::ReadsFrom, LineageNodeId::new(), LineageNodeId::new()))
        .unwrap();
    store
        .store_edge(LineageEdge::new(LineageEdgeType::WritesTo, LineageNodeId::new(), LineageNodeId::new()))
        .unwrap();
    assert_eq!(store.get_all_edges().len(), 2);
}

#[test]
fn test_lineage_store_get_records() {
    let mut store = LineageStore::new();
    store.store_node(node(LineageNodeType::Table, "test")).unwrap();
    let records = store.get_records();
    assert_eq!(records.len(), 1);
    assert_eq!(records[0].record_type, LineageRecordType::NodeCreated);
}

#[test]
fn test_lineage_record_new_node_record() {
    let record = LineageRecord::new_node_record(node(LineageNodeType::Table, "test"), LineageRecordType::NodeCreated);
    assert_eq!(record.record_type, LineageRecordType::NodeCreated);
    assert!(record.node.is_some());
    assert!(record.edge.is_none());
}

#[test]
fn test_lineage_record_new_edge_record() {
    let e = LineageEdge::new(LineageEdgeType::ReadsFrom, LineageNodeId::new(), LineageNodeId::new());
    let record = LineageRecord::new_edge_record(e);
    assert_eq!(record.record_type, LineageRecordType::EdgeCreated);
    assert!(record.node.is_none());
    assert!(record.edge.is_some());
}

#[test]
fn test_lineage_collector_integration() {
    let mut collector = LineageCollector::with_store(LineageStore::new());
    collector.set_auto_flush(false);
    let source_id = collector.collect_data_source("test_source".to_string(), "database".to_string(), Vec::new());
    let transform_id =
        collector.collect_transform("test_transform".to_string(), "filter".to_string(), vec![source_id.clone()], Vec::new());
    let _sink_id =
        collector.collect_data_sink("test_sink".to_string(), "database".to_string(), vec![transform_id.clone()], Vec::new());
    collector.flush().unwrap();
    let store = collector.store().unwrap();
    assert_eq!(store.get_all_nodes().len(), 3);
    assert_eq!(store.get_all_edges().len(), 2);
}

#[test]
fn test_lineage_collector_context_stack() {
    let mut collector = LineageCollector::with_store(LineageStore::new());
    let context_id = LineageNodeId::new();
    collector.push_context(context_id.clone());
    let current_context = collector.current_context();
    assert!(current_context.is_some());
    assert_eq!(current_context.unwrap(), context_id);
    let popped_context = collector.pop_context();
    assert!(popped_context.is_some());
    assert_eq!(popped_context.unwrap(), context_id);
    assert!(collector.current_context().is_none());
}

#[test]
fn test_lineage_collector_auto_flush() {
    let mut collector = LineageCollector::with_store(LineageStore::new());
    collector.set_auto_flush(true);
    let source_id = collector.collect_data_source("auto_flush_test".to_string(), "test".to_string(), Vec::new());
    let nodes = collector.store().unwrap().get_all_nodes();
    assert_eq!(nodes.len(), 1);
    assert_eq!(nodes[0].id, source_id);
}

#[test]
fn test_lineage_collector_node_caching() {
    let mut collector = LineageCollector::with_store(LineageStore::new());
    let name = "cached_node".to_string();
    let id1 = collector.collect_data_source(name.clone(), "test".to_string(), Vec::new());
    let id2 = collector.collect_data_source(name, "test".to_string(), Vec::new());
    assert_eq!(id1, id2);
}

#[test]
fn test_build_full_lineage() {
    let mut store = LineageStore::new();
    let node1 = node(LineageNodeType::DataSource, "source");
    let node2 = node(LineageNodeType::DataTransform, "transform");
    let node3 = node(LineageNodeType::DataSink, "sink");
    let edge1 = edge(LineageEdgeType::ReadsFrom, &node2, &node1);
    let edge2 = edge(LineageEdgeType::WritesTo, &node2, &node3);
    store.store_node(node1).unwrap();
    store.store_node(node2).unwrap();
    store.store_node(node3).unwrap();
    store.store_edge(edge1).unwrap();
    store.store_edge(edge2).unwrap();
    let full_lineage = store.build_full_lineage();
    assert_eq!(full_lineage.nodes.len(), 3);
    assert_eq!(full_lineage.edges.len(), 2);
}

fn chain() -> (LineageStore, Vec<LineageNodeId>) {
    // a -> b -> c -> d, and e -> c
    let mut store = LineageStore::new();
    let names = ["a", "b", "c", "d", "e"];
    let nodes: Vec<LineageNode> = names.iter().map(|n| node(LineageNodeType::Table, n)).collect();
    let ids: Vec<LineageNodeId> = nodes.iter().map(|n| n.id.clone()).collect();
    let edges = vec![
        edge(LineageEdgeType::TransformsTo, &nodes[0], &nodes[1]),
        edge(LineageEdgeType::TransformsTo, &nodes[1], &nodes[2]),
        edge(LineageEdgeType::TransformsTo, &nodes[2], &nodes[3]),
        edge(LineageEdgeType::TransformsTo, &nodes[4], &nodes[2]),
    ];
    for n in nodes {
        store.store_node(n).unwrap();
    }
    for e in edges {
        store.store_edge(e).unwrap();
    }
    (store, ids)
}

fn names(nodes: &[LineageNode]) -> Vec<String> {
    let mut v: Vec<String> = nodes.iter().map(|n| n.name.clone()).collect();
    v.sort();
    v
}

#[test]
fn upstream_and_downstream_queries() {
    let (store, ids) = chain();
    let engine = LineageQueryEngine::new();
    assert_eq!(names(&engine.query_upstream(&store, &ids[3], None)), vec!["a", "b", "c", "e"]);
    assert_eq!(names(&engine.query_downstream(&store, &ids[0], None)), vec!["b", "c", "d"]);
    assert_eq!(names(&engine.query_upstream(&store, &ids[2], Some(0))), vec!["b", "e"]);
    assert!(engine.query_upstream(&store, &ids[0], None).is_empty());
}

#[test]
fn find_path_follows_edges() {
    let (store, ids) = chain();
    let engine = LineageQueryEngine::new();
    let path = engine.find_path(&store, &ids[0], &ids[3]).unwrap();
    assert_eq!(path, vec![ids[0].clone(), ids[1].clone(), ids[2].clone(), ids[3].clone()]);
    assert!(engine.find_path(&store, &ids[3], &ids[0]).is_none());
    assert_eq!(engine.find_path(&store, &ids[4], &ids[4]).unwrap(), vec![ids[4].clone()]);
}

#[test]
fn impact_analysis_counts_downstream() {
    let (store, ids) = chain();
    let engine = LineageQueryEngine::new();
    let impact = engine.impact_analysis(&store, &ids[1]);
    assert_eq!(impact.affected_nodes, 2);
    assert_eq!(impact.node_type_counts.len(), 1);
    assert_eq!(impact.node_type_counts[0].1, 2);
}

#[test]
fn build_lineage_keeps_related_nodes() {
    let (store, ids) = chain();
    let l = store.build_lineage(&ids[1]);
    assert_eq!(names(&l.nodes), vec!["a", "b", "c", "d"]);
    assert_eq!(l.edges.len(), 3);
}

#[test]
fn collector_read_and_write() {
    let mut collector = LineageCollector::new();
    let src = collector.collect_data_source("s".to_string(), "db".to_string(), Vec::new());
    let reader = collector.collect_data_read(src.clone(), "r".to_string(), Vec::new());
    let target = LineageNodeId::new();
    let writer = collector.collect_data_write("w".to_string(), target.clone(), vec![reader.clone()], Vec::new());
    let nodes = collector.take_pending_nodes();
    assert_eq!(nodes.len(), 3);
    assert_eq!(nodes[1].node_type, LineageNodeType::Custom("DataReader".to_string()));
    assert_eq!(nodes[2].id, writer);
    let edges = collector.take_pending_edges();
    assert_eq!(edges.len(), 3);
    assert_eq!(edges[0].edge_type, LineageEdgeType::ReadsFrom);
    assert_eq!(edges[0].source_node_id, reader);
    assert_eq!(edges[2].target_node_id, target);
    collector.clear();
    assert!(collector.take_pending_nodes().is_empty());
}

#[test]
fn transform_inside_context_depends_on_it() {
    let mut collector = LineageCollector::new();
    let ctx = LineageNodeId::new();
    collector.push_context(ctx.clone());
    let t = collector.collect_transform("t".to_string(), "map".to_string(), Vec::new(), Vec::new());
    let edges = collector.take_pending_edges();
    assert_eq!(edges.len(), 1);
    assert_eq!(edges[0].edge_type, LineageEdgeType::DependsOn);
    assert_eq!(edges[0].source_node_id, t);
    assert_eq!(edges[0].target_node_id, ctx);
}

#[test]
fn type_labels() {
    assert_eq!(format_node_type(&LineageNodeType::DataSource), "data_source");
    assert_eq!(format_node_type(&LineageNodeType::Custom("x".to_string())), "custom_x");
    assert_eq!(format_edge_type(&LineageEdgeType::DependsOn), "depends_on");
    assert_eq!(format_edge_type(&LineageEdgeType::Custom("y".to_string())), "custom_y");
}

#[test]
fn test_lineage_export_to_graphml() {
    let mut store = LineageStore::new();
    let node1 = LineageNode::new(LineageNodeType::Table, "source_table".to_string());
    let node2 = LineageNode::new(LineageNodeType::Table, "target_table".to_string());
    let edge = LineageEdge::new(LineageEdgeType::TransformsTo, node1.id.clone(), node2.id.clone());
    store.store_node(node1).unwrap();
    store.store_node(node2).unwrap();
    store.store_edge(edge).unwrap();
    let graphml_export = store.export_to_graphml().unwrap();
    assert!(!graphml_export.is_empty());
    assert!(graphml_export.contains("<graphml"));
    assert!(graphml_export.contains("<node"));
    assert!(graphml_export.contains("<edge"));
}

#[test]
fn test_lineage_export_to_graphml_exact() {
    let mut store = LineageStore::new();
    let mut a = LineageNode::new(LineageNodeType::Table, "src".to_string());
    a.id = LineageNodeId::from_string("n1".to_string());
    let mut b = LineageNode::new(LineageNodeType::Custom("x\"y".to_string()), "dst".to_string());
    b.id = LineageNodeId::from_string("n2".to_string());
    let e = LineageEdge::new(LineageEdgeType::ReadsFrom, a.id.clone(), b.id.clone());
    store.store_node(a).unwrap();
    store.store_node(b).unwrap();
    store.store_edge(e).unwrap();
    let g = store.export_to_graphml().unwrap();
    let expected = [
        "<?xml version=\"1.0\" encoding=\"UTF-8\"?>\n",
        "<graphml xmlns=\"http://graphml.graphdrawing.org/xmlns\">\n",
        "  <key id=\"name\" for=\"node\" attr.name=\"name\" attr.type=\"string\"/>\n",
        "  <key id=\"type\" for=\"node\" attr.name=\"type\" attr.type=\"string\"/>\n",
        "  <key id=\"label\" for=\"edge\" attr.name=\"label\" attr.type=\"string\"/>\n",
        "  <graph id=\"lineage\" edgedefault=\"directed\">\n",
        "    <node id=\"n1\">\n",
        "      <data key=\"name\">src</data>\n",
        "      <data key=\"type\">Table</data>\n",
        "    </node>\n",
        "    <node id=\"n2\">\n",
        "      <data key=\"name\">dst</data>\n",
        "      <data key=\"type\">Custom(\"x\\\"y\")</data>\n",
        "    </node>\n",
        "    <edge id=\"e0\" source=\"n1\" target=\"n2\">\n",
        "      <data key=\"label\">ReadsFrom</data>\n",
        "    </edge>\n",
        "  </graph>\n",
        "</graphml>\n",
    ]
    .concat();
    assert_eq!(g, expected);
}

fn field<'a>(v: &'a JsonValue, key: &str) -> &'a JsonValue {
    match v {
        JsonValue::Object(m) => &m.iter().find(|(k, _)| k == key).expect("missing key").1,
        other => panic!("not an object: {:?}", other),
    }
}

fn items(v: &JsonValue) -> &Vec<JsonValue> {
    match v {
        JsonValue::Array(a) => a,
        other => panic!("not an array: {:?}", other),
    }
}

fn text_of(v: &JsonValue) -> &str {
    match v {
        JsonValue::String(s) => s.as_str(),
        other => panic!("not a string: {:?}", other),
    }
}

fn sample_lineage() -> DataLineage {
    let mut a = node(LineageNodeType::Table, "orders");
    a.id = LineageNodeId::from_string("n1".to_string());
    a.created_at = 0;
    let mut b = node(LineageNodeType::Custom("ml".to_string()), "model");
    b.id = LineageNodeId::from_string("n2".to_string());
    b.description = Some("trained".to_string());
    let e = edge(LineageEdgeType::TransformsTo, &a, &b);
    DataLineage { nodes: vec![a, b], edges: vec![e] }
}

#[test]
fn test_visualization_from_lineage() {
    let data = LineageVisualizationData::from_lineage(&sample_lineage(), VisualizationFormat::D3Js);
    assert_eq!(data.nodes.len(), 2);
    assert_eq!(data.nodes[0].id, "n1");
    assert_eq!(data.nodes[0].label, "orders");
    assert_eq!(data.nodes[0].node_type, "table");
    assert_eq!(data.nodes[0].created_at, "1970-01-01T00:00:00+00:00");
    assert_eq!(data.nodes[1].node_type, "custom_ml");
    assert_eq!(data.nodes[1].description, Some("trained".to_string()));
    assert_eq!(data.edges.len(), 1);
    assert_eq!(data.edges[0].source, "n1");
    assert_eq!(data.edges[0].target, "n2");
    assert_eq!(data.edges[0].edge_type, "transforms_to");
}

#[test]
fn test_visualization_d3_js() {
    let data = LineageVisualizationData::from_lineage(&sample_lineage(), VisualizationFormat::D3Js);
    let v = data.export();
    let nodes = items(field(&v, "nodes"));
    assert_eq!(nodes.len(), 2);
    assert_eq!(text_of(field(&nodes[0], "name")), "orders");
    assert!(matches!(field(&nodes[0], "description"), JsonValue::Null));
    assert_eq!(text_of(field(&nodes[1], "description")), "trained");
    let links = items(field(&v, "links"));
    assert_eq!(links.len(), 1);
    assert_eq!(text_of(field(&links[0], "source")), "n1");
    assert_eq!(text_of(field(&links[0], "type")), "transforms_to");
}

#[test]
fn test_visualization_cytoscape_js() {
    let data = LineageVisualizationData::from_lineage(&sample_lineage(), VisualizationFormat::CytoscapeJs);
    let v = data.export();
    let elements = items(field(&v, "elements"));
    assert_eq!(elements.len(), 3);
    assert_eq!(text_of(field(field(&elements[0], "data"), "label")), "orders");
    assert_eq!(text_of(field(field(&elements[2], "data"), "target")), "n2");
    let style = items(field(&v, "style"));
    assert_eq!(text_of(field(&style[1], "selector")), "edge");
    assert_eq!(text_of(field(field(&style[1], "style"), "target-arrow-shape")), "triangle");
    assert_eq!(text_of(field(field(&v, "layout"), "name")), "cose");
}

#[test]
fn test_visualization_generic() {
    let data = LineageVisualizationData::from_lineage(&sample_lineage(), VisualizationFormat::Generic);
    let v = data.export();
    let nodes = items(field(&v, "nodes"));
    assert_eq!(text_of(field(&nodes[1], "node_type")), "custom_ml");
    assert_eq!(text_of(field(&nodes[0], "created_at")), "1970-01-01T00:00:00+00:00");
    let edges = items(field(&v, "edges"));
    assert_eq!(text_of(field(&edges[0], "edge_type")), "transforms_to");
    assert!(matches!(field(&edges[0], "metadata"), JsonValue::Object(m) if m.is_empty()));
}
