use aetheris::config::version_control::{ChangeType, ConfigType, ConfigVersionControl, DiffType, MergeRequestStatus};
use aetheris::error::AetherisError;
use aetheris::json::JsonValue;

fn kv(key: &str, value: &str) -> JsonValue {
    JsonValue::Object(vec![(key.to_string(), JsonValue::String(value.to_string()))])
}

fn create(vcs: &mut ConfigVersionControl, id: &str, data: JsonValue, message: &str) -> String {
    vcs.create_version(
        ConfigType::Aetheris,
        id.to_string(),
        data,
        "test-user".to_string(),
        message.to_string(),
        None,
    )
    .version_id
}

#[test]
fn test_config_version_control_new() {
    let vcs = ConfigVersionControl::new();
    assert_eq!(vcs.version_count(), 0);
    assert_eq!(vcs.branch_count(), 0);
    assert_eq!(vcs.merge_request_count(), 0);
}

#[test]
fn test_create_version() {
    let mut vcs = ConfigVersionControl::new();
    let version = vcs.create_version(
        ConfigType::Aetheris,
        "test-config".to_string(),
        kv("key", "value"),
        "test-user".to_string(),
        "Initial version".to_string(),
        None,
    );
    assert_eq!(version.version_number, 1);
}

#[test]
fn test_get_latest_version() {
    let mut vcs = ConfigVersionControl::new();
    create(&mut vcs, "test-config", kv("key", "value1"), "Version 1");
    create(&mut vcs, "test-config", kv("key", "value2"), "Version 2");
    let latest = vcs.get_latest_version(&ConfigType::Aetheris, "test-config");
    assert!(latest.is_some());
    assert_eq!(latest.unwrap().version_number, 2);
}

#[test]
fn test_create_branch() {
    let mut vcs = ConfigVersionControl::new();
    let branch = vcs
        .create_branch("feature".to_string(), "Feature branch".to_string(), "test-user".to_string(), None)
        .unwrap();
    assert_eq!(branch.name, "feature");
}

#[test]
fn versions_are_numbered_per_configuration() {
    let mut vcs = ConfigVersionControl::new();
    create(&mut vcs, "a", kv("k", "1"), "a1");
    create(&mut vcs, "b", kv("k", "1"), "b1");
    create(&mut vcs, "a", kv("k", "2"), "a2");
    let a = vcs.list_versions(&ConfigType::Aetheris, "a");
    assert_eq!(a.iter().map(|v| v.version_number).collect::<Vec<_>>(), vec![1, 2]);
    assert_eq!(a[1].message, "a2");
    assert_eq!(vcs.list_versions(&ConfigType::Aetheris, "b").len(), 1);
    assert!(vcs.list_versions(&ConfigType::Soul, "a").is_empty());
    let custom = vcs.create_version(
        ConfigType::Custom("x".to_string()),
        "a".to_string(),
        kv("k", "1"),
        "u".to_string(),
        "m".to_string(),
        None,
    );
    assert_eq!(custom.version_number, 1);
    assert_eq!(vcs.version_count(), 4);
}

#[test]
fn compare_versions_lists_changes() {
    let mut vcs = ConfigVersionControl::new();
    let v1 = create(&mut vcs, "c", kv("key", "value1"), "1");
    let v2 = create(&mut vcs, "c", kv("key", "value2"), "2");
    let diff = vcs.compare_versions(&v1, &v2).unwrap();
    assert_eq!(diff.diff_type, DiffType::Modified);
    assert_eq!(diff.old_version, Some(v1.clone()));
    assert_eq!(diff.changes.len(), 1);
    assert_eq!(diff.changes[0].path, "key");
    assert_eq!(diff.changes[0].change_type, ChangeType::Modified);
    let same = vcs.compare_versions(&v2, &v2).unwrap();
    assert_eq!(same.diff_type, DiffType::Modified);
    assert!(same.changes.is_empty());
    let created = vcs.compare_versions("nope", &v2).unwrap();
    assert_eq!(created.diff_type, DiffType::Created);
    assert_eq!(created.changes[0].change_type, ChangeType::Added);
    match vcs.compare_versions(&v1, "missing") {
        Err(AetherisError::NotFound(m)) => assert_eq!(m, "New version not found: missing"),
        other => panic!("unexpected {:?}", other),
    }
}

#[test]
fn restore_version_makes_a_new_version() {
    let mut vcs = ConfigVersionControl::new();
    let v1 = create(&mut vcs, "c", kv("key", "value1"), "1");
    create(&mut vcs, "c", kv("key", "value2"), "2");
    let restored = vcs.restore_version(&v1, "admin".to_string()).unwrap();
    assert_eq!(restored.version_number, 3);
    assert_eq!(restored.message, format!("Restored from version: {}", v1));
    assert_eq!(restored.parent_version, Some(v1.clone()));
    assert_eq!(restored.author, "admin");
    let diff = vcs.compare_versions(&v1, &restored.version_id).unwrap();
    assert!(diff.changes.is_empty());
    match vcs.restore_version("ghost", "admin".to_string()) {
        Err(AetherisError::NotFound(m)) => assert_eq!(m, "Version not found: ghost"),
        other => panic!("unexpected {:?}", other),
    }
}

#[test]
fn branches_refuse_duplicates_and_unknown_sources() {
    let mut vcs = ConfigVersionControl::new();
    vcs.create_branch("main".to_string(), "".to_string(), "u".to_string(), None).unwrap();
    match vcs.create_branch("main".to_string(), "".to_string(), "u".to_string(), None) {
        Err(AetherisError::Validation(m)) => assert_eq!(m, "Branch already exists: main"),
        other => panic!("unexpected {:?}", other),
    }
    match vcs.create_branch("f".to_string(), "".to_string(), "u".to_string(), Some("nope".to_string())) {
        Err(AetherisError::NotFound(m)) => assert_eq!(m, "Branch not found: nope"),
        other => panic!("unexpected {:?}", other),
    }
    let f = vcs.create_branch("f".to_string(), "".to_string(), "u".to_string(), Some("main".to_string())).unwrap();
    assert_eq!(f.head_version, "");
    assert_eq!(vcs.branch_count(), 2);
    assert_eq!(vcs.list_branches()[1].name, "f");
    assert!(vcs.get_branch("main").is_some());
}

#[test]
fn merge_requests_need_approvals() {
    let mut vcs = ConfigVersionControl::new();
    let mr = vcs.create_merge_request(
        "t".to_string(),
        "d".to_string(),
        "f".to_string(),
        "main".to_string(),
        "u".to_string(),
        2,
    );
    assert_eq!(mr.status, MergeRequestStatus::Open);
    match vcs.merge_merge_request(&mr.request_id, "u".to_string()) {
        Err(AetherisError::Validation(m)) => assert_eq!(m, "Merge request is not approved"),
        other => panic!("unexpected {:?}", other),
    }
    vcs.approve_merge_request(&mr.request_id, "alice".to_string()).unwrap();
    match vcs.approve_merge_request(&mr.request_id, "alice".to_string()) {
        Err(AetherisError::Validation(m)) => assert_eq!(m, "Already approved by this user"),
        other => panic!("unexpected {:?}", other),
    }
    assert_eq!(vcs.get_merge_request(&mr.request_id).unwrap().status, MergeRequestStatus::Open);
    vcs.approve_merge_request(&mr.request_id, "bob".to_string()).unwrap();
    assert_eq!(vcs.get_merge_request(&mr.request_id).unwrap().status, MergeRequestStatus::Approved);
    assert_eq!(vcs.list_merge_requests(Some(MergeRequestStatus::Approved)).len(), 1);
    vcs.merge_merge_request(&mr.request_id, "u".to_string()).unwrap();
    assert_eq!(vcs.get_merge_request(&mr.request_id).unwrap().status, MergeRequestStatus::Merged);
    assert!(vcs.list_merge_requests(Some(MergeRequestStatus::Open)).is_empty());
    assert_eq!(vcs.list_merge_requests(None).len(), 1);
    match vcs.approve_merge_request("none", "x".to_string()) {
        Err(AetherisError::NotFound(m)) => assert_eq!(m, "Merge request not found: none"),
        other => panic!("unexpected {:?}", other),
    }
}

#[test]
fn tags_are_recorded_once() {
    let mut vcs = ConfigVersionControl::new();
    let v1 = create(&mut vcs, "c", kv("k", "1"), "1");
    let v2 = create(&mut vcs, "c", kv("k", "2"), "2");
    vcs.add_tag(&v1, "stable".to_string()).unwrap();
    vcs.add_tag(&v1, "stable".to_string()).unwrap();
    vcs.add_tag(&v2, "stable".to_string()).unwrap();
    assert_eq!(vcs.get_version(&v1).unwrap().tags, vec!["stable".to_string()]);
    let tagged = vcs.get_versions_by_tag("stable");
    assert_eq!(tagged.len(), 2);
    assert_eq!(tagged[0].version_id, v1);
    assert!(vcs.get_versions_by_tag("beta").is_empty());
    match vcs.add_tag("nope", "x".to_string()) {
        Err(AetherisError::NotFound(m)) => assert_eq!(m, "Version not found: nope"),
        other => panic!("unexpected {:?}", other),
    }
}
