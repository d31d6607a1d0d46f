//! Engine-wide constants: defaults, limits and unit sizes.
//!
//! Fractional settings are kept as exact integers in thousandths
//! (`_PERMILLE`), or in whole units where the value is integral.

use vstd::prelude::*;

verus! {

pub const DEFAULT_SERVER_HOST: &'static str = "127.0.0.1";
pub const DEFAULT_SERVER_PORT: u16 = 3000;
pub const DEFAULT_JWT_EXPIRATION_HOURS: i64 = 24;
pub const DEFAULT_JWT_ISSUER: &'static str = "aetheris-engine";
pub const DEFAULT_JWT_SECRET_KEY: &'static str = "aetheris-secret-key-change-in-production";
pub const DEFAULT_OTEL_SERVICE_NAME: &'static str = "aetheris";
pub const DEFAULT_OTEL_OTLP_ENDPOINT: &'static str = "http://localhost:4317";
pub const DEFAULT_PROMETHEUS_PORT: u16 = 9090;
pub const DEFAULT_PROMETHEUS_PATH: &'static str = "/metrics";
pub const DEFAULT_LLM_PROVIDER: &'static str = "mock";
pub const DEFAULT_LLM_MODEL: &'static str = "gpt-4";
pub const DEFAULT_LLM_MAX_TOKENS: u32 = 2000;
pub const DEFAULT_LLM_TIMEOUT_SECONDS: u32 = 30;
pub const MIN_PORT_NUMBER: u16 = 1024;
pub const MAX_PORT_NUMBER: u16 = 65535;
pub const DEFAULT_MODBUS_TCP_PORT: u16 = 502;
pub const DEFAULT_OPC_UA_PORT: u16 = 4840;
pub const DEFAULT_S7_PORT: u16 = 102;
pub const DEFAULT_PROTOCOL_RECONNECT_INTERVAL_SECONDS: u64 = 5;
pub const DEFAULT_PROTOCOL_TIMEOUT_SECONDS: u64 = 30;
pub const DEFAULT_PROTOCOL_POLL_INTERVAL_MILLIS: u64 = 1000;
pub const DEFAULT_STREAM_BUFFER_SIZE: usize = 1024;
pub const DEFAULT_STREAM_WINDOW_SIZE: usize = 100;
pub const DEFAULT_STREAM_BATCH_SIZE: usize = 100;
pub const DEFAULT_STREAM_PROCESS_TIMEOUT_SECONDS: u64 = 60;
pub const DEFAULT_STREAM_PARALLELISM: usize = 4;
pub const DEFAULT_TSDB_TYPE: &'static str = "influxdb";
pub const DEFAULT_TSDB_HOST: &'static str = "127.0.0.1";
pub const DEFAULT_TSDB_PORT: u16 = 8086;
pub const DEFAULT_TSDB_DATABASE: &'static str = "aetheris";
pub const DEFAULT_TSDB_RETENTION_POLICY: &'static str = "autogen";
pub const DEFAULT_TSDB_WRITE_BATCH_SIZE: usize = 1000;
pub const DEFAULT_TSDB_WRITE_INTERVAL_SECONDS: u64 = 5;
pub const DEFAULT_TSDB_CONNECTION_POOL_SIZE: usize = 10;
pub const DEFAULT_CLUSTER_MODE: bool = false;
pub const DEFAULT_CLUSTER_NODE_ID: &'static str = "node-001";
pub const DEFAULT_CLUSTER_ETCD_ENDPOINTS: &'static str = "http://127.0.0.1:2379";
pub const DEFAULT_CLUSTER_HEARTBEAT_INTERVAL_SECONDS: u64 = 5;
pub const DEFAULT_CLUSTER_LEASE_TTL_SECONDS: u64 = 15;
pub const DEFAULT_CLUSTER_SYNC_INTERVAL_SECONDS: u64 = 10;
pub const JWT_SECRET_KEY_LENGTH: usize = 32;
pub const ENVIRONMENT_PRODUCTION: &'static str = "production";
pub const ENVIRONMENT_DEVELOPMENT: &'static str = "development";
pub const CACHE_DEFAULT_TTL_SECONDS: u64 = 3600;
pub const CACHE_MAX_SIZE: u64 = 1000;
pub const CACHE_CLEANUP_INTERVAL_SECONDS: u64 = 300;
pub const WASM_DEFAULT_MEMORY_LIMIT_BYTES: u64 = 100 * 1024 * 1024;
pub const WASM_DEFAULT_EXECUTION_TIMEOUT_SECONDS: u64 = 30;
pub const WASM_POOL_DEFAULT_SIZE: usize = 10;
pub const WASM_POOL_MAX_SIZE: usize = 100;
pub const PLUGIN_DEFAULT_TIMEOUT_SECONDS: u64 = 60;
pub const PLUGIN_HEALTH_CHECK_INTERVAL_SECONDS: u64 = 300;
pub const PLUGIN_MAX_RETRY_COUNT: u32 = 3;
pub const SECURITY_RATE_LIMIT_DEFAULT_REQUESTS: u64 = 100;
pub const SECURITY_RATE_LIMIT_DEFAULT_WINDOW_SECONDS: u64 = 60;
pub const SECURITY_AUDIT_LOG_RETENTION_DAYS: u64 = 90;
pub const SECURITY_SESSION_TIMEOUT_SECONDS: u64 = 3600;
pub const AI_RECOMMENDATION_DEFAULT_TOP_N: usize = 10;
pub const AI_MODEL_TRAINING_INTERVAL_HOURS: u64 = 24;
pub const AI_BEHAVIOR_LOG_RETENTION_DAYS: u64 = 30;
pub const OCI_REGISTRY_DEFAULT_TIMEOUT_SECONDS: u64 = 300;
pub const OCI_REGISTRY_CACHE_TTL_SECONDS: u64 = 3600;
pub const OCI_REGISTRY_MAX_LAYER_SIZE_BYTES: u64 = 100 * 1024 * 1024;
pub const SKILL_MARKETPLACE_DEFAULT_PAGE_SIZE: usize = 20;
pub const SKILL_MARKETPLACE_MAX_SEARCH_RESULTS: usize = 100;
pub const SKILL_RATING_MIN: u32 = 1;
pub const SKILL_RATING_MAX: u32 = 5;
pub const PERSONA_MARKETPLACE_DEFAULT_PAGE_SIZE: usize = 20;
pub const PERSONA_MARKETPLACE_MAX_SEARCH_RESULTS: usize = 100;
pub const PERSONA_RATING_MIN: u32 = 1;
pub const PERSONA_RATING_MAX: u32 = 5;
pub const PERSONA_MAX_VERSIONS: usize = 50;
pub const PERSONA_NAME_MAX_LENGTH: usize = 100;
pub const PERSONA_DESCRIPTION_MAX_LENGTH: usize = 2000;
pub const PERSONA_MAX_TAGS: usize = 20;
pub const PERSONA_TAG_MAX_LENGTH: usize = 50;
pub const PERSONA_REVIEW_MAX_LENGTH: usize = 5000;
pub const PERSONA_REVIEW_TITLE_MAX_LENGTH: usize = 200;
pub const SANDBOX_DEFAULT_SECURITY_LEVEL: u8 = 2;
pub const SANDBOX_MAX_CONCURRENT_INSTANCES: usize = 100;
pub const SANDBOX_AUDIT_LOG_RETENTION_DAYS: u64 = 90;
pub const SANDBOX_DEFAULT_MEMORY_LIMIT_BYTES: u64 = 512 * 1024 * 1024;
pub const SANDBOX_DEFAULT_DISK_IO_LIMIT_BYTES_PER_SECOND: u64 = 10 * 1024 * 1024;
pub const SANDBOX_DEFAULT_NETWORK_BANDWIDTH_LIMIT_BYTES_PER_SECOND: u64 = 10 * 1024 * 1024;
pub const SANDBOX_DEFAULT_MAX_PROCESSES: usize = 100;
pub const SANDBOX_HEARTBEAT_INTERVAL_SECONDS: u64 = 10;
pub const SANDBOX_TIMEOUT_SECONDS: u64 = 300;
pub const SOUL_PERSONA_EVOLUTION_INTERVAL_HOURS: u64 = 168;
pub const SOUL_MAX_PERSONAS: usize = 10;
pub const SOUL_DEFAULT_PERSONA_NAME: &'static str = "default";
pub const CDN_CACHE_TTL_SECONDS: u64 = 86400;
pub const CDN_MAX_CACHE_SIZE_BYTES: u64 = 10 * 1024 * 1024 * 1024;
pub const SMART_PRELOAD_MAX_ITEMS: usize = 20;
pub const SMART_PRELOAD_HISTORY_RETENTION_DAYS: u64 = 7;
pub const CONFIG_VERSION_MAX_VERSIONS: usize = 100;
pub const CONFIG_AUTO_SAVE_INTERVAL_SECONDS: u64 = 300;
pub const BENCHMARK_DEFAULT_ITERATIONS: u32 = 100;
pub const BENCHMARK_WARMUP_ITERATIONS: u32 = 10;
pub const DEFAULT_TIMEOUT_MILLIS: u64 = 5000;
pub const DEFAULT_RETRY_COUNT: u32 = 3;
pub const DEFAULT_RETRY_DELAY_MILLIS: u64 = 1000;
pub const ONE_SECOND_MILLIS: u64 = 1000;
pub const ONE_MINUTE_SECONDS: u64 = 60;
pub const ONE_HOUR_SECONDS: u64 = 3600;
pub const ONE_DAY_SECONDS: u64 = 86400;
pub const ONE_WEEK_SECONDS: u64 = 604800;
pub const ONE_KB_BYTES: u64 = 1024;
pub const ONE_MB_BYTES: u64 = 1024 * 1024;
pub const ONE_GB_BYTES: u64 = 1024 * 1024 * 1024;

/// Default sampling temperature of the LLM, in thousandths (0.7).
pub const DEFAULT_LLM_TEMPERATURE_PERMILLE: u32 = 700;
/// Latency above which a metric is reported, in milliseconds.
pub const PERFORMANCE_METRIC_LATENCY_THRESHOLD_MS: u64 = 1000;
/// Error rate above which a metric is reported, in thousandths (0.05).
pub const PERFORMANCE_METRIC_ERROR_RATE_THRESHOLD_PERMILLE: u64 = 50;
/// Cache hit rate below which a metric is reported, in thousandths (0.8).
pub const PERFORMANCE_METRIC_CACHE_HIT_RATE_THRESHOLD_PERMILLE: u64 = 800;
/// Multiplier of a threshold that raises a warning, in thousandths (1.5).
pub const PERFORMANCE_ALERT_THRESHOLD_MULTIPLIER_WARNING_PERMILLE: u64 = 1500;
/// Multiplier of a threshold that raises a critical alert, in thousandths (2.0).
pub const PERFORMANCE_ALERT_THRESHOLD_MULTIPLIER_CRITICAL_PERMILLE: u64 = 2000;
/// CPU share granted to a WASM module by default, in percent.
pub const WASM_DEFAULT_CPU_LIMIT_PERCENT: u64 = 50;
/// Minimal confidence of a recommendation, in thousandths (0.5).
pub const AI_RECOMMENDATION_MIN_CONFIDENCE_PERMILLE: u64 = 500;
/// CPU share granted to a sandbox by default, in percent.
pub const SANDBOX_DEFAULT_CPU_LIMIT_PERCENT: u64 = 50;
/// Minimal confidence of a preload prediction, in thousandths (0.7).
pub const SMART_PRELOAD_MIN_CONFIDENCE_PERMILLE: u64 = 700;

} // verus!
