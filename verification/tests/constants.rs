use aetheris::constants::{
    CACHE_CLEANUP_INTERVAL_SECONDS, CACHE_DEFAULT_TTL_SECONDS, CACHE_MAX_SIZE, DEFAULT_JWT_EXPIRATION_HOURS,
    DEFAULT_JWT_ISSUER, DEFAULT_JWT_SECRET_KEY, DEFAULT_LLM_MODEL, DEFAULT_LLM_PROVIDER,
    DEFAULT_LLM_TEMPERATURE_PERMILLE, DEFAULT_SERVER_HOST, DEFAULT_SERVER_PORT, JWT_SECRET_KEY_LENGTH,
    MAX_PORT_NUMBER, MIN_PORT_NUMBER, ONE_DAY_SECONDS, ONE_GB_BYTES, ONE_HOUR_SECONDS, ONE_KB_BYTES,
    ONE_MB_BYTES, ONE_MINUTE_SECONDS, ONE_SECOND_MILLIS, ONE_WEEK_SECONDS,
    PERFORMANCE_METRIC_CACHE_HIT_RATE_THRESHOLD_PERMILLE, PERFORMANCE_METRIC_ERROR_RATE_THRESHOLD_PERMILLE,
    PERFORMANCE_METRIC_LATENCY_THRESHOLD_MS, PERSONA_MARKETPLACE_DEFAULT_PAGE_SIZE, PERSONA_RATING_MAX,
    PERSONA_RATING_MIN, SANDBOX_AUDIT_LOG_RETENTION_DAYS, SANDBOX_DEFAULT_SECURITY_LEVEL,
    SANDBOX_MAX_CONCURRENT_INSTANCES, SECURITY_AUDIT_LOG_RETENTION_DAYS, SECURITY_RATE_LIMIT_DEFAULT_REQUESTS,
    SECURITY_SESSION_TIMEOUT_SECONDS, SKILL_MARKETPLACE_DEFAULT_PAGE_SIZE, SKILL_RATING_MAX, SKILL_RATING_MIN,
    WASM_DEFAULT_CPU_LIMIT_PERCENT, WASM_DEFAULT_MEMORY_LIMIT_BYTES, WASM_POOL_DEFAULT_SIZE, WASM_POOL_MAX_SIZE,
};

#[test]
fn test_default_server_values() {
    assert_eq!(DEFAULT_SERVER_HOST, "127.0.0.1");
    assert_eq!(DEFAULT_SERVER_PORT, 3000);
}

#[test]
fn test_jwt_configuration() {
    assert_eq!(DEFAULT_JWT_EXPIRATION_HOURS, 24);
    assert_eq!(DEFAULT_JWT_ISSUER, "aetheris-engine");
    assert_eq!(DEFAULT_JWT_SECRET_KEY, "aetheris-secret-key-change-in-production");
    assert_eq!(JWT_SECRET_KEY_LENGTH, 32);
}

#[test]
fn test_port_range() {
    assert_eq!(MIN_PORT_NUMBER, 1024);
    assert_eq!(MAX_PORT_NUMBER, 65535);
}

#[test]
fn test_llm_defaults() {
    assert_eq!(DEFAULT_LLM_PROVIDER, "mock");
    assert_eq!(DEFAULT_LLM_MODEL, "gpt-4");
    let temperature = DEFAULT_LLM_TEMPERATURE_PERMILLE as f64 / 1000.0;
    assert!(temperature >= 0.0 && temperature <= 1.0);
    assert_eq!(DEFAULT_LLM_TEMPERATURE_PERMILLE, 700);
}

#[test]
fn test_cache_configuration() {
    assert_eq!(CACHE_DEFAULT_TTL_SECONDS, 3600);
    assert_eq!(CACHE_MAX_SIZE, 1000);
    assert_eq!(CACHE_CLEANUP_INTERVAL_SECONDS, 300);
}

#[test]
fn test_performance_thresholds() {
    assert!(PERFORMANCE_METRIC_LATENCY_THRESHOLD_MS as f64 > 0.0);
    assert!(PERFORMANCE_METRIC_ERROR_RATE_THRESHOLD_PERMILLE as f64 / 1000.0 > 0.0);
    assert!(PERFORMANCE_METRIC_CACHE_HIT_RATE_THRESHOLD_PERMILLE as f64 / 1000.0 > 0.0);
}

#[test]
fn test_wasm_configuration() {
    assert!(WASM_DEFAULT_MEMORY_LIMIT_BYTES > 0);
    let cpu = WASM_DEFAULT_CPU_LIMIT_PERCENT as f64;
    assert!(cpu > 0.0 && cpu <= 100.0);
    assert_eq!(WASM_POOL_DEFAULT_SIZE, 10);
    assert!(WASM_POOL_MAX_SIZE >= WASM_POOL_DEFAULT_SIZE);
}

#[test]
fn test_security_configuration() {
    assert!(SECURITY_RATE_LIMIT_DEFAULT_REQUESTS > 0);
    assert!(SECURITY_AUDIT_LOG_RETENTION_DAYS > 0);
    assert!(SECURITY_SESSION_TIMEOUT_SECONDS > 0);
}

#[test]
fn test_time_constants() {
    assert_eq!(ONE_SECOND_MILLIS, 1000);
    assert_eq!(ONE_MINUTE_SECONDS, 60);
    assert_eq!(ONE_HOUR_SECONDS, 3600);
    assert_eq!(ONE_DAY_SECONDS, 86400);
    assert_eq!(ONE_WEEK_SECONDS, 604800);
}

#[test]
fn test_byte_constants() {
    assert_eq!(ONE_KB_BYTES, 1024);
    assert_eq!(ONE_MB_BYTES, 1024 * 1024);
    assert_eq!(ONE_GB_BYTES, 1024 * 1024 * 1024);
}

#[test]
fn test_sandbox_configuration() {
    assert_eq!(SANDBOX_DEFAULT_SECURITY_LEVEL, 2);
    assert!(SANDBOX_MAX_CONCURRENT_INSTANCES > 0);
    assert!(SANDBOX_AUDIT_LOG_RETENTION_DAYS > 0);
}

#[test]
fn test_marketplace_configuration() {
    assert_eq!(SKILL_MARKETPLACE_DEFAULT_PAGE_SIZE, 20);
    assert_eq!(SKILL_RATING_MIN, 1);
    assert_eq!(SKILL_RATING_MAX, 5);
    assert_eq!(PERSONA_MARKETPLACE_DEFAULT_PAGE_SIZE, 20);
    assert_eq!(PERSONA_RATING_MIN, 1);
    assert_eq!(PERSONA_RATING_MAX, 5);
}
