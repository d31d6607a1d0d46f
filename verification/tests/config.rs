use aetheris::config::onboard::OnboardProgress;
use aetheris::config::openclaw::{to_aetheris_json5, validate_openclaw, OpenClawAgent, OpenClawBindings, OpenClawConfigError};
use aetheris::config::skill_config::{CacheConfig, MatchConfig, SkillConfig};
use aetheris::config::version_control::{calculate_changes, ChangeType};
use aetheris::config::{
    decide_jwt_secret, i64_setting, jwt_secret, parse_flag, parse_i64, parse_unsigned, unsigned_setting, AppConfig, AuthConfig, ClusterConfig, IndustrialProtocolsConfig,
    JwtSecretDecision, LlmConfig, ServerConfig, StreamingConfig, TelemetryConfig, TsdbConfig,
};
use aetheris::constants::{
    DEFAULT_JWT_SECRET_KEY, DEFAULT_MODBUS_TCP_PORT, DEFAULT_OPC_UA_PORT, DEFAULT_S7_PORT, ENVIRONMENT_DEVELOPMENT,
    ENVIRONMENT_PRODUCTION,
};
use aetheris::error::AetherisError;
use aetheris::json::JsonValue;

fn sample_config() -> AppConfig {
    AppConfig {
        server: ServerConfig { host: "127.0.0.1".to_string(), port: 3000 },
        auth: AuthConfig {
            jwt_secret_key: "a".repeat(32),
            jwt_expiration_hours: 24,
            jwt_issuer: "aetheris-engine".to_string(),
            initial_admin_username: None,
            initial_admin_password: None,
        },
        telemetry: TelemetryConfig {
            otel_enabled: false,
            otel_service_name: "aetheris".to_string(),
            otel_otlp_endpoint: "http://localhost:4317".to_string(),
            prometheus_enabled: true,
            prometheus_port: 9090,
            prometheus_path: "/metrics".to_string(),
        },
        llm: LlmConfig {
            provider: "mock".to_string(),
            api_key: None,
            api_base: None,
            model: "gpt-4".to_string(),
            temperature_permille: 700,
            max_tokens: 2000,
            timeout_seconds: 30,
        },
        agents: AppConfig::default_agents(),
        industrial_protocols: IndustrialProtocolsConfig {
            modbus_tcp_enabled: false,
            modbus_tcp_host: "127.0.0.1".to_string(),
            modbus_tcp_port: DEFAULT_MODBUS_TCP_PORT,
            opc_ua_enabled: false,
            opc_ua_host: "127.0.0.1".to_string(),
            opc_ua_port: DEFAULT_OPC_UA_PORT,
            s7_enabled: false,
            s7_host: "127.0.0.1".to_string(),
            s7_port: DEFAULT_S7_PORT,
            s7_rack: 0,
            s7_slot: 1,
            reconnect_interval_seconds: 5,
            timeout_seconds: 30,
            poll_interval_millis: 1000,
        },
        streaming: StreamingConfig {
            enabled: false,
            buffer_size: 1024,
            window_size: 100,
            batch_size: 100,
            process_timeout_seconds: 60,
            parallelism: 4,
        },
        tsdb: TsdbConfig {
            db_type: "influxdb".to_string(),
            host: "127.0.0.1".to_string(),
            port: 8086,
            username: None,
            password: None,
            database: "aetheris".to_string(),
            retention_policy: "autogen".to_string(),
            write_batch_size: 1000,
            write_interval_seconds: 5,
            connection_pool_size: 10,
        },
        cluster: ClusterConfig {
            mode: false,
            node_id: "node-001".to_string(),
            etcd_endpoints: "http://127.0.0.1:2379".to_string(),
            heartbeat_interval_seconds: 5,
            lease_ttl_seconds: 15,
            sync_interval_seconds: 10,
        },
    }
}

fn config_message(r: Result<(), AetherisError>) -> String {
    match r {
        Err(AetherisError::Config(m)) => m,
        _ => panic!("expected a configuration error"),
    }
}

#[test]
fn test_app_config_validate_valid_port() {
    let mut config = sample_config();
    config.server.port = 8080;
    assert!(config.validate().is_ok());
}

#[test]
fn test_app_config_validate_invalid_port_low() {
    let mut config = sample_config();
    config.server.port = 100;
    assert!(config.validate().is_err());
}

#[test]
fn test_app_config_validate_invalid_port_high() {
    let mut config = sample_config();
    config.server.port = 1023;
    assert!(config.validate().is_err());
}

#[test]
fn validate_messages_name_the_first_failure() {
    let mut config = sample_config();
    config.server.port = 80;
    config.tsdb.port = 10;
    assert_eq!(config_message(config.validate()), "Invalid port number: 80");
    let mut config = sample_config();
    config.industrial_protocols.modbus_tcp_port = 0;
    assert_eq!(config_message(config.validate()), "Invalid Modbus TCP port: 0");
    let mut config = sample_config();
    config.industrial_protocols.s7_port = 0;
    assert_eq!(config_message(config.validate()), "Invalid S7 port: 0");
    let mut config = sample_config();
    config.industrial_protocols.opc_ua_port = 0;
    assert_eq!(config_message(config.validate()), "Invalid OPC UA port: 0");
    let config = sample_config();
    assert_eq!(config.industrial_protocols.modbus_tcp_port, 502);
    assert_eq!(config.industrial_protocols.s7_port, 102);
    assert!(config.validate().is_ok());
    let mut config = sample_config();
    config.industrial_protocols.poll_interval_millis = 9;
    assert_eq!(config_message(config.validate()), "Protocol poll interval must be at least 10ms");
    let mut config = sample_config();
    config.streaming.parallelism = 0;
    assert_eq!(config_message(config.validate()), "Stream parallelism must be at least 1");
}

#[test]
fn validate_cluster_rules_only_in_cluster_mode() {
    let mut config = sample_config();
    config.cluster.lease_ttl_seconds = 5;
    assert!(config.validate().is_ok());
    config.cluster.mode = true;
    assert_eq!(
        config_message(config.validate()),
        "Cluster lease TTL must be greater than heartbeat interval"
    );
    config.cluster.node_id = String::new();
    assert_eq!(config_message(config.validate()), "Cluster node ID cannot be empty in cluster mode");
}

#[test]
fn test_default_agents_config() {
    let agents = AppConfig::default_agents();
    assert!(!agents.is_empty());
    assert_eq!(agents.len(), 3);
    assert_eq!(agents[0].id, "code-agent-001");
    assert_eq!(agents[2].agent_type, "ops");
}

#[test]
fn test_jwt_secret_valid() {
    let secret = jwt_secret(None, None).unwrap();
    assert!(!secret.is_empty());
    assert_eq!(secret.len(), 44);
}

#[test]
fn test_jwt_secret_too_short() {
    let result = jwt_secret(None, Some("short-key"));
    assert!(result.is_err());
    match result {
        Err(AetherisError::Config(m)) => assert!(m.starts_with(
            "JWT secret must be at least 32 bytes long. Current length: 9 bytes."
        )),
        _ => panic!("expected a configuration error"),
    }
}

#[test]
fn test_jwt_secret_valid_min_length() {
    let long_secret = "a".repeat(32);
    let result = jwt_secret(None, Some(&long_secret));
    assert!(result.is_ok());
    assert_eq!(result.unwrap(), long_secret);
}

#[test]
fn test_jwt_default_secret_development() {
    let result = jwt_secret(Some(ENVIRONMENT_DEVELOPMENT), Some(DEFAULT_JWT_SECRET_KEY));
    assert!(result.is_err());
}

#[test]
fn test_jwt_default_secret_production() {
    let result = jwt_secret(Some(ENVIRONMENT_PRODUCTION), Some(DEFAULT_JWT_SECRET_KEY));
    assert!(result.is_err());
}

#[test]
fn test_jwt_secret_missing_production() {
    let result = jwt_secret(Some(ENVIRONMENT_PRODUCTION), None);
    assert!(result.is_err());
}

#[test]
fn jwt_empty_secret_counts_as_unset() {
    assert!(matches!(decide_jwt_secret(None, Some("")), JwtSecretDecision::Generate));
    assert!(matches!(decide_jwt_secret(Some(ENVIRONMENT_PRODUCTION), Some("")), JwtSecretDecision::Refuse(_)));
    // A multi-byte secret is measured in bytes: 11 characters of 3 bytes each.
    assert!(matches!(decide_jwt_secret(None, Some("秘密秘密秘密秘密秘密秘")), JwtSecretDecision::UseConfigured));
}

#[test]
fn flags_parse_case_insensitively() {
    assert!(parse_flag(Some("TRUE"), false));
    assert!(!parse_flag(Some("False"), true));
    assert!(parse_flag(Some("yes"), true));
    assert!(!parse_flag(None, false));
}

#[test]
fn test_onboard_progress_new() {
    let progress = OnboardProgress::new();
    assert_eq!(progress.current_step, "welcome");
    assert_eq!(progress.steps.len(), 5);
    assert!(!progress.is_complete());
}

#[test]
fn test_onboard_progress_complete_step() {
    let mut progress = OnboardProgress::new();
    progress.complete_step("welcome").unwrap();
    assert_eq!(progress.current_step, "detect_openclaw");
}

#[test]
fn onboard_optional_steps_stay_unmarked() {
    let mut progress = OnboardProgress::new();
    progress.complete_step("detect_openclaw").unwrap();
    assert!(!progress.get_step("detect_openclaw").unwrap().completed);
    assert_eq!(progress.current_step, "create_config");
    assert!(progress.complete_step("nowhere").is_err());
    for id in ["welcome", "create_config", "complete"] {
        progress.complete_step(id).unwrap();
    }
    assert!(progress.is_complete());
    assert!(progress.completed_at.is_some());
    assert_eq!(progress.required_counts(), (3, 3));
}

fn agent(id: &str, name: &str) -> OpenClawAgent {
    OpenClawAgent {
        agent_id: id.to_string(),
        name: name.to_string(),
        model: None,
        skills: None,
        tools: None,
        workspace: None,
        identity: None,
        sandbox: None,
    }
}

fn binding(agent_id: &str) -> OpenClawBindings {
    OpenClawBindings {
        agent_id: agent_id.to_string(),
        channel: "telegram".to_string(),
        account: None,
        peer: None,
        guild: None,
        roles: None,
    }
}

fn validation_message(r: Result<(), OpenClawConfigError>) -> String {
    match r {
        Err(OpenClawConfigError::Validation(m)) => m,
        _ => panic!("expected a validation error"),
    }
}

#[test]
fn openclaw_rules() {
    assert!(validate_openclaw(&vec![agent("code-assistant", "代码助手")], &vec![binding("code-assistant")]).is_ok());
    assert_eq!(validation_message(validate_openclaw(&vec![], &vec![])), "At least one agent must be defined");
    assert_eq!(validation_message(validate_openclaw(&vec![agent("", "x")], &vec![])), "Agent ID cannot be empty");
    assert_eq!(validation_message(validate_openclaw(&vec![agent("a", "")], &vec![])), "Agent name cannot be empty");
    assert_eq!(
        validation_message(validate_openclaw(&vec![agent("a", "x"), agent("a", "y")], &vec![])),
        "Duplicate agent ID: a"
    );
    assert_eq!(
        validation_message(validate_openclaw(&vec![agent("a", "x")], &vec![binding("b")])),
        "Binding references unknown agent ID: b"
    );
}

#[test]
fn skill_config_builders() {
    let c = SkillConfig::new().with_progressive_disclosure(true).with_enterprise_features(true);
    assert!(c.enable_progressive_disclosure);
    assert!(c.enable_enterprise_features);
    let c = c.with_skill_cache_config(CacheConfig {}).with_match_config(MatchConfig {});
    assert_eq!(c.skill_cache_config, CacheConfig {});
    assert!(!SkillConfig::new().enable_progressive_disclosure);
}

fn object(members: Vec<(&str, JsonValue)>) -> JsonValue {
    JsonValue::Object(members.into_iter().map(|(k, v)| (k.to_string(), v)).collect())
}

fn num(n: &str) -> JsonValue {
    JsonValue::Number(n.to_string())
}

#[test]
fn config_changes_between_versions() {
    let old = object(vec![
        ("a", num("1")),
        ("b", JsonValue::Array(vec![num("1"), num("2")])),
        ("gone", JsonValue::Bool(true)),
    ]);
    let new = object(vec![
        ("a", num("2")),
        ("b", JsonValue::Array(vec![num("1")])),
        ("c", JsonValue::Null),
    ]);
    let changes = calculate_changes(Some(&old), &new);
    let summary: Vec<(String, ChangeType)> = changes.iter().map(|c| (c.path.clone(), c.change_type)).collect();
    assert_eq!(
        summary,
        vec![
            ("gone".to_string(), ChangeType::Removed),
            ("c".to_string(), ChangeType::Added),
            ("a".to_string(), ChangeType::Modified),
            ("b[1]".to_string(), ChangeType::Removed),
        ]
    );
    assert!(calculate_changes(Some(&new), &new).is_empty());
    let created = calculate_changes(None, &new);
    assert_eq!(created.len(), 1);
    assert_eq!(created[0].path, "");
    assert_eq!(created[0].change_type, ChangeType::Added);
}

#[test]
fn test_to_aetheris_json5_layout() {
    let agents = vec![OpenClawAgent {
        agent_id: "code-assistant".to_string(),
        name: "Coder".to_string(),
        model: Some("gpt-4o".to_string()),
        skills: Some(vec!["git".to_string(), "python".to_string()]),
        tools: None,
        workspace: None,
        identity: Some("bot".to_string()),
        sandbox: None,
    }];
    let bindings = vec![OpenClawBindings {
        agent_id: "code-assistant".to_string(),
        channel: "telegram".to_string(),
        account: None,
        peer: Some("p1".to_string()),
        guild: None,
        roles: Some(vec!["admin".to_string()]),
    }];
    let out = to_aetheris_json5("large-model-3", "anthropic", &Some("~/ws".to_string()), &agents, &bindings);
    let expected = [
        "// Aetheris config (migrated from OpenClaw)\n",
        "{\n",
        "  // ============================================\n",
        "  // OpenClaw \u{517c}\u{5bb9}\u{914d}\u{7f6e}\n",
        "  // ============================================\n",
        "  openclaw: {\n",
        "    compatible: true,\n",
        "    migrated_from: \"openclaw.json\",\n",
        "  },\n\n",
        "  // ============================================\n",
        "  // Agents \u{914d}\u{7f6e}\n",
        "  // ============================================\n",
        "  agents: {\n",
        "    defaults: {\n",
        "      model: \"large-model-3\",\n",
        "      provider: \"anthropic\",\n",
        "      workspace: \"~/ws\",\n",
        "    },\n",
        "    list: [\n",
        "      {\n",
        "        agent_id: \"code-assistant\",\n",
        "        name: \"Coder\",\n",
        "        model: \"gpt-4o\",\n",
        "        skills: [\n",
        "          \"git\",\n",
        "          \"python\",\n",
        "        ],\n",
        "        identity: \"bot\",\n",
        "      },\n",
        "    ],\n",
        "  },\n\n",
        "  // ============================================\n",
        "  // \u{7ed1}\u{5b9a}\u{914d}\u{7f6e}\n",
        "  // ============================================\n",
        "  bindings: [\n",
        "    {\n",
        "      agent_id: \"code-assistant\",\n",
        "      channel: \"telegram\",\n",
        "      peer: \"p1\",\n",
        "      roles: [\n",
        "        \"admin\",\n",
        "      ],\n",
        "    },\n",
        "  ],\n",
        "}\n",
    ]
    .concat();
    assert_eq!(out, expected);
}

#[test]
fn test_to_aetheris_json5_empty() {
    let out = to_aetheris_json5("m", "p", &None, &vec![], &vec![]);
    assert!(out.contains("    defaults: {\n      model: \"m\",\n      provider: \"p\",\n    },\n    list: [\n    ],\n"));
    assert!(out.ends_with("  bindings: [\n  ],\n}\n"));
}

#[test]
fn numbers_are_read_as_str_parse_reads_them() {
    assert_eq!(parse_unsigned("8080", u16::MAX as u64), Some(8080));
    assert_eq!(parse_unsigned("+7", u16::MAX as u64), Some(7));
    assert_eq!(parse_unsigned("007", u16::MAX as u64), Some(7));
    assert_eq!(parse_unsigned("65535", u16::MAX as u64), Some(65535));
    assert_eq!(parse_unsigned("65536", u16::MAX as u64), None);
    assert_eq!(parse_unsigned("18446744073709551615", u64::MAX), Some(u64::MAX));
    assert_eq!(parse_unsigned("18446744073709551616", u64::MAX), None);
    for bad in ["", "+", "-1", "1a", " 1", "1 ", "+-1", "٣"] {
        assert_eq!(parse_unsigned(bad, u64::MAX), None, "{:?}", bad);
        assert_eq!(bad.parse::<u64>().ok(), None);
    }
    assert_eq!(parse_i64("-9223372036854775808"), Some(i64::MIN));
    assert_eq!(parse_i64("9223372036854775807"), Some(i64::MAX));
    assert_eq!(parse_i64("9223372036854775808"), None);
    assert_eq!(parse_i64("-9223372036854775809"), None);
    assert_eq!(parse_i64("-0"), Some(0));
    assert_eq!(parse_i64("+24"), Some(24));
    assert_eq!(parse_i64("-"), None);
    assert_eq!(parse_i64("-+5"), None);
    assert_eq!(parse_i64("--5"), None);
    for s in ["12", "+12", "-12", "0", "-", "+", "", "x", "-9223372036854775808", "9223372036854775808"] {
        assert_eq!(parse_i64(s), s.parse::<i64>().ok(), "{:?}", s);
    }
}

#[test]
fn settings_fall_back_to_their_defaults() {
    assert_eq!(unsigned_setting(None, u16::MAX as u64, 3000), 3000);
    assert_eq!(unsigned_setting(Some("8080"), u16::MAX as u64, 3000), 8080);
    assert_eq!(unsigned_setting(Some("70000"), u16::MAX as u64, 3000), 3000);
    assert_eq!(unsigned_setting(Some("port"), u16::MAX as u64, 3000), 3000);
    assert_eq!(i64_setting(None, 24), 24);
    assert_eq!(i64_setting(Some("-3"), 24), -3);
    assert_eq!(i64_setting(Some("3h"), 24), 24);
}
