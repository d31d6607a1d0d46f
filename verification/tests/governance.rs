use aetheris::governance::compliance::{export_to_html, render_template, ReportText};
use aetheris::governance::classification::{
    best_result, ClassificationManager, ClassificationResult, ClassificationStrategy, ClassificationTag,
    ContentBasedClassifier, DataClassification, MetadataBasedClassifier, ReviewStatus, ReviewTask,
};
use aetheris::governance::lineage::{LineageQueryEngine, LineageRecordType};
use aetheris::governance::masking::{apply_mask, mask_text, MaskingAlgorithm, MaskingConfig, MaskingRule};
use aetheris::governance::{
    DataLineage, LineageEdge, LineageEdgeId, LineageEdgeType, LineageNode, LineageNodeId, LineageNodeType,
};
use aetheris::json::JsonValue;

#[test]
fn test_data_classification_equality() {
    assert_eq!(DataClassification::Public, DataClassification::Public);
    assert_eq!(DataClassification::Internal, DataClassification::Internal);
    assert_eq!(DataClassification::Confidential, DataClassification::Confidential);
    assert_eq!(DataClassification::Restricted, DataClassification::Restricted);
}

#[test]
fn test_classification_tag_new() {
    let tag = ClassificationTag::new(
        "Test Tag".to_string(),
        "Test Description".to_string(),
        DataClassification::Confidential,
    );
    assert_eq!(tag.name, "Test Tag");
    assert_eq!(tag.description, "Test Description");
    assert_eq!(tag.classification, DataClassification::Confidential);
}

#[test]
fn test_metadata_based_classifier_new() {
    let classifier = MetadataBasedClassifier::new();
    assert_eq!(classifier.name(), "MetadataBasedClassifier");
}

#[test]
fn test_metadata_based_classifier_default() {
    let classifier = MetadataBasedClassifier::default();
    assert_eq!(classifier.name(), "MetadataBasedClassifier");
}

#[test]
fn test_metadata_based_classifier_classify_default() {
    let classifier = MetadataBasedClassifier::new();
    let result = classifier.classify(None);
    assert_eq!(result.classification, DataClassification::Internal);
}

#[test]
fn test_metadata_based_classifier_classify_with_metadata() {
    let classifier = MetadataBasedClassifier::new();
    let metadata = vec![("sensitivity".to_string(), "high".to_string())];
    let result = classifier.classify(Some(&metadata));
    assert_eq!(result.classification, DataClassification::Confidential);
}

#[test]
fn metadata_classifier_last_matching_key_decides() {
    let mut classifier = MetadataBasedClassifier::new();
    classifier.add_rule("owner".to_string(), DataClassification::Public);
    let metadata = vec![
        ("restricted".to_string(), "yes".to_string()),
        ("colour".to_string(), "blue".to_string()),
        ("owner".to_string(), "ops".to_string()),
    ];
    let result = classifier.classify(Some(&metadata));
    assert_eq!(result.classification, DataClassification::Public);
    assert_eq!(result.tags, vec!["restricted:yes".to_string(), "owner:ops".to_string()]);
    assert_eq!(result.confidence_permille, 950);
    assert!(!result.needs_review);
}

#[test]
fn metadata_classifier_default_needs_review() {
    let mut classifier = MetadataBasedClassifier::new();
    classifier.set_default(DataClassification::Restricted);
    let metadata = vec![("colour".to_string(), "blue".to_string())];
    let result = classifier.classify(Some(&metadata));
    assert_eq!(result.classification, DataClassification::Restricted);
    assert!(result.tags.is_empty());
    assert_eq!(result.confidence_permille, 700);
    assert!(result.needs_review);
    assert_eq!(result.classified_by, "MetadataBasedClassifier");
}

#[test]
fn metadata_classifier_rule_replaced() {
    let mut classifier = MetadataBasedClassifier::new();
    classifier.add_rule("sensitivity".to_string(), DataClassification::Public);
    let metadata = vec![("sensitivity".to_string(), "low".to_string())];
    assert_eq!(classifier.classify(Some(&metadata)).classification, DataClassification::Public);
}

#[test]
fn test_review_status_equality() {
    assert_eq!(ReviewStatus::Pending, ReviewStatus::Pending);
    assert_eq!(ReviewStatus::Approved, ReviewStatus::Approved);
    assert_eq!(ReviewStatus::Rejected, ReviewStatus::Rejected);
    assert_eq!(ReviewStatus::Escalated, ReviewStatus::Escalated);
}

#[test]
fn review_task_records_verdict() {
    let mut task = ReviewTask::new("data-123".to_string(), DataClassification::Internal, DataClassification::Confidential);
    assert_eq!(task.status, ReviewStatus::Pending);
    task.review(ReviewStatus::Approved, "alice".to_string());
    assert_eq!(task.status, ReviewStatus::Approved);
    assert_eq!(task.reviewer, Some("alice".to_string()));
    assert!(task.reviewed_at.is_some());
    assert_eq!(task.data_id, "data-123");
}

#[test]
fn test_lineage_record_type_equality() {
    assert_eq!(LineageRecordType::NodeCreated, LineageRecordType::NodeCreated);
    assert_eq!(LineageRecordType::NodeUpdated, LineageRecordType::NodeUpdated);
    assert_eq!(LineageRecordType::EdgeCreated, LineageRecordType::EdgeCreated);
}

#[test]
fn test_lineage_query_engine_new() {
    let _engine = LineageQueryEngine::new();
    assert!(true);
}

#[test]
fn test_lineage_query_engine_default() {
    let _engine = LineageQueryEngine::default();
    assert!(true);
}

#[test]
fn test_lineage_node_id_new() {
    let id = LineageNodeId::new();
    assert!(!id.0.is_empty());
}

#[test]
fn test_lineage_node_id_from_string() {
    let test_id = "test-id-123".to_string();
    let id = LineageNodeId::from_string(test_id.clone());
    assert_eq!(id.0, test_id);
}

#[test]
fn test_lineage_node_id_default() {
    let id = LineageNodeId::default();
    assert!(!id.0.is_empty());
}

#[test]
fn test_lineage_node_new() {
    let node = LineageNode::new(LineageNodeType::Table, "test_table".to_string());
    assert_eq!(node.name, "test_table");
    assert_eq!(node.node_type, LineageNodeType::Table);
    assert!(node.description.is_none());
    assert!(node.metadata.is_empty());
}

#[test]
fn test_lineage_node_with_description() {
    let node = LineageNode::new(LineageNodeType::Table, "test_table".to_string())
        .with_description("Test description".to_string());
    assert_eq!(node.description, Some("Test description".to_string()));
}

#[test]
fn test_lineage_node_with_metadata() {
    let node = LineageNode::new(LineageNodeType::Table, "test_table".to_string())
        .with_metadata("key".to_string(), JsonValue::String("value".to_string()));
    assert!(node.metadata.iter().any(|(k, _)| k == "key"));
}

#[test]
fn lineage_node_metadata_key_replaced() {
    let node = LineageNode::new(LineageNodeType::Table, "t".to_string())
        .with_metadata("key".to_string(), JsonValue::String("one".to_string()))
        .with_metadata("key".to_string(), JsonValue::String("two".to_string()));
    assert_eq!(node.metadata.len(), 1);
    assert!(node.metadata[0].1.equals(&JsonValue::String("two".to_string())));
}

#[test]
fn test_lineage_edge_id_new() {
    let id = LineageEdgeId::new();
    assert!(!id.0.is_empty());
}

#[test]
fn test_lineage_edge_id_from_string() {
    let test_id = "test-edge-id-123".to_string();
    let id = LineageEdgeId::from_string(test_id.clone());
    assert_eq!(id.0, test_id);
}

#[test]
fn test_lineage_edge_id_default() {
    let id = LineageEdgeId::default();
    assert!(!id.0.is_empty());
}

#[test]
fn test_lineage_edge_new() {
    let source_id = LineageNodeId::new();
    let target_id = LineageNodeId::new();
    let edge = LineageEdge::new(LineageEdgeType::ReadsFrom, source_id.clone(), target_id.clone());
    assert_eq!(edge.edge_type, LineageEdgeType::ReadsFrom);
    assert_eq!(edge.source_node_id, source_id);
    assert_eq!(edge.target_node_id, target_id);
}

#[test]
fn test_lineage_edge_with_description() {
    let source_id = LineageNodeId::new();
    let target_id = LineageNodeId::new();
    let edge = LineageEdge::new(LineageEdgeType::ReadsFrom, source_id, target_id)
        .with_description("Edge description".to_string());
    assert_eq!(edge.description, Some("Edge description".to_string()));
}

#[test]
fn test_lineage_edge_with_metadata() {
    let source_id = LineageNodeId::new();
    let target_id = LineageNodeId::new();
    let edge = LineageEdge::new(LineageEdgeType::ReadsFrom, source_id, target_id)
        .with_metadata("key".to_string(), JsonValue::String("value".to_string()));
    assert!(edge.metadata.iter().any(|(k, _)| k == "key"));
}

#[test]
fn test_data_lineage_new() {
    let lineage = DataLineage::new();
    assert!(lineage.nodes.is_empty());
    assert!(lineage.edges.is_empty());
}

#[test]
fn test_data_lineage_default() {
    let lineage = DataLineage::default();
    assert!(lineage.nodes.is_empty());
    assert!(lineage.edges.is_empty());
}

#[test]
fn test_data_lineage_add_node() {
    let mut lineage = DataLineage::new();
    let node = LineageNode::new(LineageNodeType::Table, "test".to_string());
    let node_id = node.id.clone();
    lineage.add_node(node);
    assert!(lineage.nodes.iter().any(|n| n.id == node_id));
}

#[test]
fn data_lineage_add_node_replaces_same_id() {
    let mut lineage = DataLineage::new();
    let mut first = LineageNode::new(LineageNodeType::Table, "first".to_string());
    first.id = LineageNodeId::from_string("n1".to_string());
    let mut second = LineageNode::new(LineageNodeType::File, "second".to_string());
    second.id = LineageNodeId::from_string("n1".to_string());
    lineage.add_node(first);
    lineage.add_node(second);
    assert_eq!(lineage.nodes.len(), 1);
    assert_eq!(lineage.nodes[0].name, "second");
}

#[test]
fn test_data_lineage_add_edge() {
    let mut lineage = DataLineage::new();
    let source_id = LineageNodeId::new();
    let target_id = LineageNodeId::new();
    let edge = LineageEdge::new(LineageEdgeType::ReadsFrom, source_id, target_id);
    lineage.add_edge(edge);
    assert_eq!(lineage.edges.len(), 1);
}

#[test]
fn test_data_lineage_get_node() {
    let mut lineage = DataLineage::new();
    let node = LineageNode::new(LineageNodeType::Table, "test".to_string());
    let node_id = node.id.clone();
    lineage.add_node(node);
    let retrieved = lineage.get_node(&node_id);
    assert!(retrieved.is_some());
    assert_eq!(retrieved.unwrap().name, "test");
}

#[test]
fn test_data_lineage_get_outgoing_edges() {
    let mut lineage = DataLineage::new();
    let source_id = LineageNodeId::new();
    let target_id1 = LineageNodeId::new();
    let target_id2 = LineageNodeId::new();
    let edge1 = LineageEdge::new(LineageEdgeType::ReadsFrom, source_id.clone(), target_id1);
    let edge2 = LineageEdge::new(LineageEdgeType::WritesTo, source_id.clone(), target_id2);
    lineage.add_edge(edge1);
    lineage.add_edge(edge2);
    let outgoing = lineage.get_outgoing_edges(&source_id);
    assert_eq!(outgoing.len(), 2);
}

#[test]
fn test_data_lineage_get_incoming_edges() {
    let mut lineage = DataLineage::new();
    let source_id1 = LineageNodeId::new();
    let source_id2 = LineageNodeId::new();
    let target_id = LineageNodeId::new();
    let edge1 = LineageEdge::new(LineageEdgeType::ReadsFrom, source_id1, target_id.clone());
    let edge2 = LineageEdge::new(LineageEdgeType::WritesTo, source_id2, target_id.clone());
    lineage.add_edge(edge1);
    lineage.add_edge(edge2);
    let incoming = lineage.get_incoming_edges(&target_id);
    assert_eq!(incoming.len(), 2);
}

#[test]
fn test_lineage_node_type_equality() {
    assert_eq!(LineageNodeType::Table, LineageNodeType::Table);
    assert_eq!(LineageNodeType::Column, LineageNodeType::Column);
    assert_eq!(LineageNodeType::DataSource, LineageNodeType::DataSource);
}

#[test]
fn lineage_custom_node_types_compare_by_name() {
    assert_eq!(LineageNodeType::Custom("x".to_string()), LineageNodeType::Custom("x".to_string()));
    assert_ne!(LineageNodeType::Custom("x".to_string()), LineageNodeType::Custom("y".to_string()));
    assert_ne!(LineageNodeType::Table, LineageNodeType::Column);
}

#[test]
fn test_lineage_edge_type_equality() {
    assert_eq!(LineageEdgeType::ReadsFrom, LineageEdgeType::ReadsFrom);
    assert_eq!(LineageEdgeType::WritesTo, LineageEdgeType::WritesTo);
    assert_eq!(LineageEdgeType::TransformsTo, LineageEdgeType::TransformsTo);
}

#[test]
fn mask_keeps_ends() {
    assert_eq!(mask_text("1234567890", '*', 2, 3), "12*****890");
    assert_eq!(mask_text("abc", '#', 2, 2), "###");
    assert_eq!(mask_text("", '*', 0, 0), "");
}

#[test]
fn mask_counts_bytes() {
    // "é" takes two bytes: the middle byte count is the masked length.
    assert_eq!(mask_text("aéb", '*', 1, 1), "a**b");
}

#[test]
fn masking_algorithms() {
    let replace = MaskingRule::new("r".to_string(), "".to_string(), ".*".to_string(), MaskingAlgorithm::Replace);
    assert_eq!(apply_mask("secret", &replace), "***");
    let generalize = MaskingRule::new("g".to_string(), "".to_string(), ".*".to_string(), MaskingAlgorithm::Generalize);
    assert_eq!(apply_mask("London", &generalize), "Lo***");
    let mut level2 = MaskingConfig::default();
    level2.generalize_level = Some(2);
    let generalize2 = generalize.clone().with_config(level2);
    assert_eq!(apply_mask("London", &generalize2), "L***");
    let delete = MaskingRule::new("d".to_string(), "".to_string(), ".*".to_string(), MaskingAlgorithm::Delete);
    assert_eq!(apply_mask("London", &delete), "");
    let encrypt = MaskingRule::new("e".to_string(), "".to_string(), ".*".to_string(), MaskingAlgorithm::Encrypt);
    assert_eq!(
        apply_mask("abc", &encrypt),
        "ba7816bf8f01cfea414140de5dae2223b00361a396177a9cb410ff61f20015ad"
    );
    let mut mask_cfg = MaskingConfig::default();
    mask_cfg.mask_prefix = Some(1);
    mask_cfg.mask_suffix = Some(1);
    let mask = MaskingRule::new("m".to_string(), "".to_string(), ".*".to_string(), MaskingAlgorithm::Mask).with_config(mask_cfg);
    assert_eq!(apply_mask("secret", &mask), "s****t");
}

#[test]
fn test_content_based_classifier_new() {
    let classifier = ContentBasedClassifier::new();
    assert_eq!(classifier.name(), "ContentBasedClassifier");
}

#[test]
fn test_content_based_classifier_default() {
    let classifier = ContentBasedClassifier::default();
    assert_eq!(classifier.name(), "ContentBasedClassifier");
}

#[test]
fn test_content_based_classifier_classify_public() {
    let classifier = ContentBasedClassifier::new();
    let result = classifier.classify("This is public data").unwrap();
    assert_eq!(result.classification, DataClassification::Public);
    assert_eq!(result.classified_by, "ContentBasedClassifier");
    assert_eq!(result.confidence_permille, 0);
    assert!(result.needs_review);
}

#[test]
fn test_content_based_classifier_classify_restricted() {
    let classifier = ContentBasedClassifier::new();
    let result = classifier.classify("password is password").unwrap();
    assert_eq!(result.classification, DataClassification::Restricted);
    assert!(!result.tags.contains(&"password".to_string()));
    assert_eq!(result.confidence_permille, 900);
    assert!(!result.needs_review);
}

#[test]
fn test_content_based_classifier_classify_confidential() {
    let classifier = ContentBasedClassifier::new();
    let result = classifier.classify("This is confidential").unwrap();
    assert_eq!(result.classification, DataClassification::Confidential);
}

#[test]
fn test_content_based_classifier_keyword_tags() {
    let classifier = ContentBasedClassifier::new();
    let result = classifier.classify("Top SECRET: the SSN list").unwrap();
    assert_eq!(result.classification, DataClassification::Restricted);
    assert!(result.tags.is_empty());
    let result = classifier.classify("Secret plan for INTERNAL USE ONLY, no password").unwrap();
    assert_eq!(result.classification, DataClassification::Restricted);
    assert_eq!(result.tags, vec!["internal use only".to_string()]);
}

#[test]
fn test_content_based_classifier_added_pattern_and_bad_pattern() {
    let mut classifier = ContentBasedClassifier::new();
    classifier.add_pattern(DataClassification::Internal, "employee id".to_string());
    classifier.add_keyword(DataClassification::Internal, "Roster".to_string());
    let result = classifier.classify("the employee id roster").unwrap();
    assert_eq!(result.classification, DataClassification::Internal);
    assert_eq!(result.tags, Vec::<String>::new());
    let result = classifier.classify("a ROSTER, confidential").unwrap();
    assert_eq!(result.classification, DataClassification::Confidential);
    assert_eq!(result.tags, vec!["Roster".to_string()]);
    classifier.add_pattern(DataClassification::Public, "(".to_string());
    match classifier.classify("anything") {
        Err(aetheris::error::AetherisError::Validation(m)) => assert!(m.starts_with("Invalid pattern: ")),
        other => panic!("unexpected {:?}", other),
    }
}

#[test]
fn test_classification_strategy_new() {
    let strategy = ClassificationStrategy::new("Test Strategy".to_string(), "Test Description".to_string());
    assert_eq!(strategy.name, "Test Strategy");
    assert_eq!(strategy.description, "Test Description");
    assert!(!strategy.classifiers.is_empty());
    assert_eq!(strategy.auto_approve_threshold_permille, 850);
}

#[test]
fn test_classification_manager_new() {
    let manager = ClassificationManager::new();
    assert!(manager.list_tags().is_empty());
    assert!(manager.list_strategies().is_empty());
    assert!(manager.list_review_tasks().is_empty());
}

#[test]
fn test_classification_manager_default() {
    let manager = ClassificationManager::default();
    assert!(manager.list_tags().is_empty());
}

#[test]
fn test_classification_manager_add_tag() {
    let mut manager = ClassificationManager::new();
    let tag = ClassificationTag::new("Test Tag".to_string(), "Test Description".to_string(), DataClassification::Confidential);
    let tag_id = tag.id.clone();
    manager.add_tag(tag);
    assert!(manager.get_tag(&tag_id).is_some());
    assert_eq!(manager.list_tags().len(), 1);
}

#[test]
fn test_classification_manager_add_strategy() {
    let mut manager = ClassificationManager::new();
    let strategy = ClassificationStrategy::new("Test Strategy".to_string(), "Test Description".to_string());
    let strategy_id = strategy.id.clone();
    manager.add_strategy(strategy);
    assert!(manager.get_strategy(&strategy_id).is_some());
    assert_eq!(manager.list_strategies().len(), 1);
}

#[test]
fn test_classification_manager_create_review_task() {
    let mut manager = ClassificationManager::new();
    let task = manager.create_review_task("data-123".to_string(), DataClassification::Internal, DataClassification::Confidential);
    assert_eq!(task.data_id, "data-123");
    assert_eq!(task.status, ReviewStatus::Pending);
    assert_eq!(manager.list_review_tasks().len(), 1);
}

#[test]
fn test_classification_manager_review_task() {
    let mut manager = ClassificationManager::new();
    let task = manager.create_review_task("data-123".to_string(), DataClassification::Internal, DataClassification::Confidential);
    let task_id = task.id.clone();
    let reviewed = manager.review_task(task_id.clone(), ReviewStatus::Approved, "auditor".to_string());
    assert!(reviewed.is_some());
    let reviewed = reviewed.unwrap();
    assert_eq!(reviewed.status, ReviewStatus::Approved);
    assert_eq!(reviewed.reviewer, Some("auditor".to_string()));
    assert_eq!(manager.get_review_task(&task_id).unwrap().status, ReviewStatus::Approved);
    assert!(manager.review_task("nope".to_string(), ReviewStatus::Rejected, "r".to_string()).is_none());
}

#[test]
fn test_classification_manager_registry_replaces_by_id() {
    let mut manager = ClassificationManager::new();
    let mut tag = ClassificationTag::new("A".to_string(), "".to_string(), DataClassification::Public);
    tag.id = "t1".to_string();
    manager.add_tag(tag.clone());
    tag.name = "B".to_string();
    manager.add_tag(tag);
    assert_eq!(manager.list_tags().len(), 1);
    assert_eq!(manager.get_tag("t1").unwrap().name, "B");
    assert!(manager.get_tag("t2").is_none());
}

#[test]
fn test_classification_manager_classify() {
    let manager = ClassificationManager::new();
    let names = manager.classifiers_for(None);
    assert_eq!(names, vec!["ContentBasedClassifier".to_string(), "MetadataBasedClassifier".to_string()]);
    let content = ContentBasedClassifier::new().classify("This is public data").unwrap();
    let metadata = MetadataBasedClassifier::new().classify(None);
    let result = best_result(vec![content, metadata]);
    assert!(!result.data_id.is_empty());
    assert!(!result.classified_by.is_empty());
    assert_eq!(result.classified_by, "MetadataBasedClassifier");
}

#[test]
fn test_classifiers_for_strategy() {
    let mut manager = ClassificationManager::new();
    let mut strategy = ClassificationStrategy::new("s".to_string(), "".to_string());
    strategy.classifiers = vec!["MetadataBasedClassifier".to_string(), "Unknown".to_string(), "ContentBasedClassifier".to_string()];
    let id = strategy.id.clone();
    manager.add_strategy(strategy);
    assert_eq!(manager.classifiers_for(Some(&id)), vec!["MetadataBasedClassifier".to_string(), "ContentBasedClassifier".to_string()]);
    manager.register_classifier("Unknown".to_string());
    manager.register_classifier("Unknown".to_string());
    assert_eq!(manager.classifiers_for(Some(&id)).len(), 3);
    assert_eq!(manager.classifiers_for(Some("missing")).len(), 3);
}

fn result_with(confidence: u32, by: &str) -> ClassificationResult {
    ClassificationResult {
        data_id: "d".to_string(),
        classification: DataClassification::Public,
        confidence_permille: confidence,
        tags: vec![],
        classified_by: by.to_string(),
        classified_at: 0,
        needs_review: false,
    }
}

#[test]
fn test_best_result_keeps_last_highest() {
    let r = best_result(vec![result_with(700, "a"), result_with(900, "b"), result_with(900, "c"), result_with(100, "d")]);
    assert_eq!(r.classified_by, "c");
    let r = best_result(vec![]);
    assert_eq!(r.classification, DataClassification::Internal);
    assert_eq!(r.confidence_permille, 500);
    assert_eq!(r.classified_by, "Default");
    assert!(r.needs_review);
}

fn report_text(signed: bool) -> ReportText {
    ReportText {
        id: "r-1".to_string(),
        name: "Q1 audit".to_string(),
        description: "Quarterly".to_string(),
        content: "a < b & c > d\nnext".to_string(),
        generated_by: "alice".to_string(),
        generated_at: "2024-01-01T00:00:00+00:00".to_string(),
        period_start: Some("2024-01-01T00:00:00+00:00".to_string()),
        period_end: None,
        signed_by: if signed { Some("bob".to_string()) } else { None },
        signed_at: None,
    }
}

#[test]
fn report_template_is_filled_in() {
    let r = report_text(false);
    let out = render_template(
        "{{report_name}} ({{report_id}}) by {{generated_by}} at {{generated_at}}: {{report_description}}; from {{period_start}} to {{period_end}}; {{report_name}}",
        &r,
    );
    assert_eq!(
        out,
        "Q1 audit (r-1) by alice at 2024-01-01T00:00:00+00:00: Quarterly; from 2024-01-01T00:00:00+00:00 to {{period_end}}; Q1 audit"
    );
}

#[test]
fn report_exports_as_html() {
    for signed in [false, true] {
        let r = report_text(signed);
        let escaped = r.content.replace('&', "&amp;").replace('<', "&lt;").replace('>', "&gt;").replace('\n', "<br>");
        assert_eq!(escaped, "a &lt; b &amp; c &gt; d<br>next");
        let signature = if signed {
            format!(
                r#"<div class="signature">
                        <p><strong>Signed By:</strong> {}</p>
                        <p><strong>Signed At:</strong> {}</p>
                    </div>"#,
                "bob", "N/A"
            )
        } else {
            String::new()
        };
        let expected = format!(
            r#"<!DOCTYPE html>
<html>
<head>
    <title>{}</title>
    <style>
        body {{ font-family: Arial, sans-serif; margin: 40px; }}
        h1 {{ color: #2c3e50; }}
        .report-header {{ background: #f8f9fa; padding: 20px; border-radius: 5px; margin-bottom: 20px; }}
        .report-content {{ line-height: 1.6; }}
        .signature {{ margin-top: 40px; border-top: 1px solid #eee; padding-top: 20px; }}
    </style>
</head>
<body>
    <div class="report-header">
        <h1>{}</h1>
        <p><strong>Generated By:</strong> {}</p>
        <p><strong>Generated At:</strong> {}</p>
    </div>
    <div class="report-content">
        {}
    </div>
    {}
</body>
</html>"#,
            r.name, r.name, r.generated_by, r.generated_at, escaped, signature
        );
        assert_eq!(export_to_html(&r), expected);
    }
}
