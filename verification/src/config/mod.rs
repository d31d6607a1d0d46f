//! Application configuration: its sections, the checks a configuration
//! must pass, and the decisions taken while it is loaded.

pub mod onboard;
pub mod openclaw;
pub mod skill_config;
pub mod template_library;
pub mod version_control;

use vstd::prelude::*;
use crate::constants::{MIN_PORT_NUMBER, DEFAULT_JWT_SECRET_KEY, ENVIRONMENT_PRODUCTION, JWT_SECRET_KEY_LENGTH};
use crate::error::AetherisError;
use crate::text::{decimal, u64_to_text, str_eq, lowercase, to_lowercase, utf8_len, byte_len};
use crate::runtime::{random_bytes, base64_standard, base64_of};

verus! {

/// The whole configuration of the engine.
#[derive(Debug, Clone)]
pub struct AppConfig {
    pub server: ServerConfig,
    pub auth: AuthConfig,
    pub telemetry: TelemetryConfig,
    pub llm: LlmConfig,
    pub agents: Vec<ConfigAgentConfig>,
    pub industrial_protocols: IndustrialProtocolsConfig,
    pub streaming: StreamingConfig,
    pub tsdb: TsdbConfig,
    pub cluster: ClusterConfig,
}

/// Where the industrial protocol drivers connect, and how often they poll.
#[derive(Debug, Clone)]
pub struct IndustrialProtocolsConfig {
    pub modbus_tcp_enabled: bool,
    pub modbus_tcp_host: String,
    pub modbus_tcp_port: u16,
    pub opc_ua_enabled: bool,
    pub opc_ua_host: String,
    pub opc_ua_port: u16,
    pub s7_enabled: bool,
    pub s7_host: String,
    pub s7_port: u16,
    pub s7_rack: u8,
    pub s7_slot: u8,
    pub reconnect_interval_seconds: u64,
    pub timeout_seconds: u64,
    pub poll_interval_millis: u64,
}

/// The stream processor's buffers and parallelism.
#[derive(Debug, Clone)]
pub struct StreamingConfig {
    pub enabled: bool,
    pub buffer_size: usize,
    pub window_size: usize,
    pub batch_size: usize,
    pub process_timeout_seconds: u64,
    pub parallelism: usize,
}

/// The time-series database connection.
#[derive(Debug, Clone)]
pub struct TsdbConfig {
    pub db_type: String,
    pub host: String,
    pub port: u16,
    pub username: Option<String>,
    pub password: Option<String>,
    pub database: String,
    pub retention_policy: String,
    pub write_batch_size: usize,
    pub write_interval_seconds: u64,
    pub connection_pool_size: usize,
}

/// Cluster membership.
#[derive(Debug, Clone)]
pub struct ClusterConfig {
    pub mode: bool,
    pub node_id: String,
    pub etcd_endpoints: String,
    pub heartbeat_interval_seconds: u64,
    pub lease_ttl_seconds: u64,
    pub sync_interval_seconds: u64,
}

/// The address the server listens on.
#[derive(Debug, Clone)]
pub struct ServerConfig {
    pub host: String,
    pub port: u16,
}

/// Token signing and the initial administrator.
#[derive(Debug, Clone)]
pub struct AuthConfig {
    pub jwt_secret_key: String,
    pub jwt_expiration_hours: i64,
    pub jwt_issuer: String,
    pub initial_admin_username: Option<String>,
    pub initial_admin_password: Option<String>,
}

/// Tracing and metrics export.
#[derive(Debug, Clone)]
pub struct TelemetryConfig {
    pub otel_enabled: bool,
    pub otel_service_name: String,
    pub otel_otlp_endpoint: String,
    pub prometheus_enabled: bool,
    pub prometheus_port: u16,
    pub prometheus_path: String,
}

/// The language model the engine talks to; the sampling temperature is
/// kept in thousandths.
#[derive(Debug, Clone)]
pub struct LlmConfig {
    pub provider: String,
    pub api_key: Option<String>,
    pub api_base: Option<String>,
    pub model: String,
    pub temperature_permille: u32,
    pub max_tokens: u32,
    pub timeout_seconds: u32,
}

/// An agent the engine starts with.
#[derive(Debug, Clone)]
pub struct ConfigAgentConfig {
    pub id: String,
    pub name: String,
    pub agent_type: String,
}

/// The message of the first check the configuration fails, in the order
/// the checks are made; `None` when it passes them all. The server and the
/// TSDB need a port from 1024 up; the industrial protocols keep their
/// standard ports, which may lie below (Modbus TCP 502, S7 102), and only
/// port 0 is refused for them.
pub open spec fn config_error(c: AppConfig) -> Option<Seq<char>> {
    if c.server.port < MIN_PORT_NUMBER {
        Some("Invalid port number: "@ + decimal(c.server.port as nat))
    } else if c.industrial_protocols.modbus_tcp_port == 0 {
        Some("Invalid Modbus TCP port: "@ + decimal(c.industrial_protocols.modbus_tcp_port as nat))
    } else if c.industrial_protocols.opc_ua_port == 0 {
        Some("Invalid OPC UA port: "@ + decimal(c.industrial_protocols.opc_ua_port as nat))
    } else if c.industrial_protocols.s7_port == 0 {
        Some("Invalid S7 port: "@ + decimal(c.industrial_protocols.s7_port as nat))
    } else if c.industrial_protocols.poll_interval_millis < 10 {
        Some("Protocol poll interval must be at least 10ms"@)
    } else if c.streaming.buffer_size < 1 {
        Some("Stream buffer size must be at least 1"@)
    } else if c.streaming.window_size < 1 {
        Some("Stream window size must be at least 1"@)
    } else if c.streaming.batch_size < 1 {
        Some("Stream batch size must be at least 1"@)
    } else if c.streaming.parallelism < 1 {
        Some("Stream parallelism must be at least 1"@)
    } else if c.tsdb.port < MIN_PORT_NUMBER {
        Some("Invalid TSDB port: "@ + decimal(c.tsdb.port as nat))
    } else if c.tsdb.write_batch_size < 1 {
        Some("TSDB write batch size must be at least 1"@)
    } else if c.tsdb.write_interval_seconds < 1 {
        Some("TSDB write interval must be at least 1 second"@)
    } else if c.tsdb.connection_pool_size < 1 {
        Some("TSDB connection pool size must be at least 1"@)
    } else if c.cluster.mode && c.cluster.node_id@.len() == 0 {
        Some("Cluster node ID cannot be empty in cluster mode"@)
    } else if c.cluster.mode && c.cluster.etcd_endpoints@.len() == 0 {
        Some("Cluster etcd endpoints cannot be empty in cluster mode"@)
    } else if c.cluster.mode && c.cluster.heartbeat_interval_seconds < 1 {
        Some("Cluster heartbeat interval must be at least 1 second"@)
    } else if c.cluster.mode && c.cluster.lease_ttl_seconds <= c.cluster.heartbeat_interval_seconds {
        Some("Cluster lease TTL must be greater than heartbeat interval"@)
    } else if c.cluster.mode && c.cluster.sync_interval_seconds < 1 {
        Some("Cluster sync interval must be at least 1 second"@)
    } else {
        None
    }
}

/// `prefix` followed by the decimal text of `n`.
fn numbered_message(prefix: &str, n: u64) -> (r: String)
    ensures
        r@ == prefix@ + decimal(n as nat),
{
    let mut s = String::from_str(prefix);
    let digits = u64_to_text(n);
    s.append(digits.as_str());
    s
}

fn config_err(message: String) -> (r: Result<(), AetherisError>)
    ensures
        r matches Err(AetherisError::Config(m)) && m@ == message@,
{
    Err(AetherisError::Config(message))
}

impl AppConfig {
    /// Checks the ports, intervals and sizes of the configuration, and, in
    /// cluster mode, the cluster settings; the first failing check gives a
    /// configuration error.
    pub fn validate(&self) -> (r: Result<(), AetherisError>)
        ensures
            match config_error(*self) {
                None => r is Ok,
                Some(m) => r matches Err(AetherisError::Config(s)) && s@ == m,
            },
    {
        if self.server.port < MIN_PORT_NUMBER {
            return config_err(numbered_message("Invalid port number: ", self.server.port as u64));
        }
        if self.industrial_protocols.modbus_tcp_port == 0 {
            return config_err(numbered_message("Invalid Modbus TCP port: ", self.industrial_protocols.modbus_tcp_port as u64));
        }
        if self.industrial_protocols.opc_ua_port == 0 {
            return config_err(numbered_message("Invalid OPC UA port: ", self.industrial_protocols.opc_ua_port as u64));
        }
        if self.industrial_protocols.s7_port == 0 {
            return config_err(numbered_message("Invalid S7 port: ", self.industrial_protocols.s7_port as u64));
        }
        if self.industrial_protocols.poll_interval_millis < 10 {
            return config_err(String::from_str("Protocol poll interval must be at least 10ms"));
        }
        if self.streaming.buffer_size < 1 {
            return config_err(String::from_str("Stream buffer size must be at least 1"));
        }
        if self.streaming.window_size < 1 {
            return config_err(String::from_str("Stream window size must be at least 1"));
        }
        if self.streaming.batch_size < 1 {
            return config_err(String::from_str("Stream batch size must be at least 1"));
        }
        if self.streaming.parallelism < 1 {
            return config_err(String::from_str("Stream parallelism must be at least 1"));
        }
        if self.tsdb.port < MIN_PORT_NUMBER {
            return config_err(numbered_message("Invalid TSDB port: ", self.tsdb.port as u64));
        }
        if self.tsdb.write_batch_size < 1 {
            return config_err(String::from_str("TSDB write batch size must be at least 1"));
        }
        if self.tsdb.write_interval_seconds < 1 {
            return config_err(String::from_str("TSDB write interval must be at least 1 second"));
        }
        if self.tsdb.connection_pool_size < 1 {
            return config_err(String::from_str("TSDB connection pool size must be at least 1"));
        }
        if self.cluster.mode {
            if self.cluster.node_id.as_str().unicode_len() == 0 {
                return config_err(String::from_str("Cluster node ID cannot be empty in cluster mode"));
            }
            if self.cluster.etcd_endpoints.as_str().unicode_len() == 0 {
                return config_err(String::from_str("Cluster etcd endpoints cannot be empty in cluster mode"));
            }
            if self.cluster.heartbeat_interval_seconds < 1 {
                return config_err(String::from_str("Cluster heartbeat interval must be at least 1 second"));
            }
            if self.cluster.lease_ttl_seconds <= self.cluster.heartbeat_interval_seconds {
                return config_err(String::from_str("Cluster lease TTL must be greater than heartbeat interval"));
            }
            if self.cluster.sync_interval_seconds < 1 {
                return config_err(String::from_str("Cluster sync interval must be at least 1 second"));
            }
        }
        Ok(())
    }

    /// The three agents the engine starts with: code, data and operations.
    pub fn default_agents() -> (r: Vec<ConfigAgentConfig>)
        ensures
            r@.len() == 3,
            r@[0].id@ == "code-agent-001"@ && r@[0].name@ == "Code Execution Agent"@ && r@[0].agent_type@ == "code"@,
            r@[1].id@ == "data-agent-001"@ && r@[1].name@ == "Data Processing Agent"@ && r@[1].agent_type@ == "data"@,
            r@[2].id@ == "ops-agent-001"@ && r@[2].name@ == "Operations Agent"@ && r@[2].agent_type@ == "ops"@,
    {
        let mut r: Vec<ConfigAgentConfig> = Vec::new();
        r.push(ConfigAgentConfig {
            id: String::from_str("code-agent-001"),
            name: String::from_str("Code Execution Agent"),
            agent_type: String::from_str("code"),
        });
        r.push(ConfigAgentConfig {
            id: String::from_str("data-agent-001"),
            name: String::from_str("Data Processing Agent"),
            agent_type: String::from_str("data"),
        });
        r.push(ConfigAgentConfig {
            id: String::from_str("ops-agent-001"),
            name: String::from_str("Operations Agent"),
            agent_type: String::from_str("ops"),
        });
        r
    }
}

/// How the signing secret is settled from the environment name and the
/// configured secret (a missing or empty secret counts as unset).
pub enum JwtSecretDecision {
    /// The configured secret is used as it is.
    UseConfigured,
    /// A random secret is generated (outside production only).
    Generate,
    /// The configuration is refused with this message.
    Refuse(String),
}

/// The secret is set: present and not empty.
pub open spec fn secret_set(secret: Option<Seq<char>>) -> bool {
    secret matches Some(s) && s.len() > 0
}

/// The environment is production; an unset environment counts as development.
pub open spec fn is_production(environment: Option<Seq<char>>) -> bool {
    environment matches Some(e) && e == ENVIRONMENT_PRODUCTION@
}

pub open spec fn opt_view(s: Option<&str>) -> Option<Seq<char>> {
    match s {
        Some(x) => Some(x@),
        None => None,
    }
}

/// Why the secret is refused, if it is: the default secret (in any
/// environment), a secret shorter than 32 bytes, or no secret in production.
pub open spec fn jwt_refusal(environment: Option<Seq<char>>, secret: Option<Seq<char>>) -> Option<Seq<char>> {
    if secret_set(secret) {
        if secret->0 == DEFAULT_JWT_SECRET_KEY@ {
            if is_production(environment) {
                Some("CRITICAL: Default JWT secret detected in production. This is extremely insecure and not allowed. Please set a secure, unique JWT_SECRET_KEY environment variable. The secret must be at least 32 bytes long for production use."@)
            } else {
                Some("WARNING: Default JWT secret detected even in development. Please set a JWT_SECRET_KEY environment variable or remove it to allow automatic random generation (development only)."@)
            }
        } else if utf8_len(secret->0) < 32 {
            Some("JWT secret must be at least 32 bytes long. Current length: "@ + decimal(utf8_len(secret->0))
                + " bytes. Please use a longer, more secure secret for cryptographic operations."@)
        } else {
            None
        }
    } else if is_production(environment) {
        Some("CRITICAL: JWT_SECRET_KEY must be explicitly set in production environment. Please generate a secure random secret (minimum 32 bytes) and set it as an environment variable. You can use tools like 'openssl rand -base64 32' to generate a secure secret."@)
    } else {
        None
    }
}

/// Decides what to do with the configured signing secret.
pub fn decide_jwt_secret(environment: Option<&str>, secret: Option<&str>) -> (r: JwtSecretDecision)
    ensures
        match jwt_refusal(opt_view(environment), opt_view(secret)) {
            Some(m) => r matches JwtSecretDecision::Refuse(x) && x@ == m,
            None => if secret_set(opt_view(secret)) {
                r is UseConfigured
            } else {
                r is Generate
            },
        },
{
    let production = match environment {
        Some(e) => str_eq(e, ENVIRONMENT_PRODUCTION),
        None => false,
    };
    match secret {
        Some(s) => {
            if s.unicode_len() > 0 {
                if str_eq(s, DEFAULT_JWT_SECRET_KEY) {
                    if production {
                        return JwtSecretDecision::Refuse(String::from_str(
                            "CRITICAL: Default JWT secret detected in production. This is extremely insecure and not allowed. Please set a secure, unique JWT_SECRET_KEY environment variable. The secret must be at least 32 bytes long for production use.",
                        ));
                    } else {
                        return JwtSecretDecision::Refuse(String::from_str(
                            "WARNING: Default JWT secret detected even in development. Please set a JWT_SECRET_KEY environment variable or remove it to allow automatic random generation (development only).",
                        ));
                    }
                }
                let bytes = byte_len(s);
                if bytes < 32 {
                    let mut m = numbered_message("JWT secret must be at least 32 bytes long. Current length: ", bytes as u64);
                    m.append(" bytes. Please use a longer, more secure secret for cryptographic operations.");
                    return JwtSecretDecision::Refuse(m);
                }
                return JwtSecretDecision::UseConfigured;
            }
        },
        None => {},
    }
    if production {
        JwtSecretDecision::Refuse(String::from_str(
            "CRITICAL: JWT_SECRET_KEY must be explicitly set in production environment. Please generate a secure random secret (minimum 32 bytes) and set it as an environment variable. You can use tools like 'openssl rand -base64 32' to generate a secure secret.",
        ))
    } else {
        JwtSecretDecision::Generate
    }
}

/// Settles the signing secret: the configured one when it may be used, a
/// fresh random key of `JWT_SECRET_KEY_LENGTH` bytes in standard base64
/// when one is to be generated, a configuration error otherwise.
pub fn jwt_secret(environment: Option<&str>, secret: Option<&str>) -> (r: Result<String, AetherisError>)
    ensures
        match jwt_refusal(opt_view(environment), opt_view(secret)) {
            Some(m) => r matches Err(AetherisError::Config(x)) && x@ == m,
            None => if secret_set(opt_view(secret)) {
                r matches Ok(s) && s@ == opt_view(secret)->0
            } else {
                r matches Ok(s) && s@.len() == 4 * ((JWT_SECRET_KEY_LENGTH + 2) / 3)
                    && exists|key: Seq<u8>| key.len() == JWT_SECRET_KEY_LENGTH && s@ == base64_of(key)
            },
        },
{
    match decide_jwt_secret(environment, secret) {
        JwtSecretDecision::UseConfigured => {
            let s = match secret {
                Some(s) => s,
                None => "",
            };
            Ok(String::from_str(s))
        },
        JwtSecretDecision::Generate => {
            let key = random_bytes(JWT_SECRET_KEY_LENGTH);
            let encoded = base64_standard(&key);
            assert(key@.len() == JWT_SECRET_KEY_LENGTH && encoded@ == base64_of(key@));
            Ok(encoded)
        },
        JwtSecretDecision::Refuse(m) => Err(AetherisError::Config(m)),
    }
}

/// Reads a flag the way the environment loader does: the value, lowered,
/// must be `true` or `false`; anything else, or no value, gives the default.
pub fn parse_flag(value: Option<&str>, default: bool) -> (r: bool)
    ensures
        r == match value {
            Some(v) => if lowercase(v@) == "true"@ {
                true
            } else if lowercase(v@) == "false"@ {
                false
            } else {
                default
            },
            None => default,
        },
{
    match value {
        Some(v) => {
            let lowered = to_lowercase(v);
            if str_eq(lowered.as_str(), "true") {
                true
            } else if str_eq(lowered.as_str(), "false") {
                false
            } else {
                default
            }
        },
        None => default,
    }
}

/// Whether every character is a decimal digit.
pub open spec fn all_digits(s: Seq<char>) -> bool {
    forall|i: int| 0 <= i < s.len() ==> '0' <= #[trigger] s[i] && s[i] <= '9'
}

/// The number a string of decimal digits writes.
pub open spec fn digits_value(s: Seq<char>) -> nat
    decreases s.len(),
{
    if s.len() == 0 {
        0
    } else {
        digits_value(s.drop_last()) * 10 + (s.last() as int - '0' as int) as nat
    }
}

/// The number a non-empty string of decimal digits writes, when it is at
/// most `max`.
pub open spec fn digits_at_most(d: Seq<char>, max: nat) -> Option<nat> {
    if d.len() > 0 && all_digits(d) && digits_value(d) <= max {
        Some(digits_value(d))
    } else {
        None
    }
}

/// An unsigned number as `str::parse` reads one: an optional plus sign,
/// then at least one digit and nothing else; refused above `max`.
pub open spec fn parsed_unsigned(s: Seq<char>, max: nat) -> Option<nat> {
    if s.len() > 0 && s[0] == '+' {
        digits_at_most(s.subrange(1, s.len() as int), max)
    } else {
        digits_at_most(s, max)
    }
}

/// A signed 64-bit number as `str::parse` reads one: an optional sign,
/// then at least one digit and nothing else, within the range of `i64`.
pub open spec fn parsed_i64(s: Seq<char>) -> Option<int> {
    if s.len() > 0 && s[0] == '-' {
        match digits_at_most(s.subrange(1, s.len() as int), 0x8000_0000_0000_0000) {
            Some(n) => Some(-n),
            None => None,
        }
    } else {
        match parsed_unsigned(s, 0x7fff_ffff_ffff_ffff) {
            Some(n) => Some(n as int),
            None => None,
        }
    }
}

/// A string of digits writes at least what any of its beginnings writes.
proof fn lemma_digits_grow(d: Seq<char>, k: int)
    requires
        0 <= k <= d.len(),
        all_digits(d),
    ensures
        digits_value(d.subrange(0, k)) <= digits_value(d),
    decreases d.len() - k,
{
    if k < d.len() {
        let p = d.subrange(0, k + 1);
        assert(p.drop_last() =~= d.subrange(0, k));
        assert('0' <= p.last());
        lemma_digits_grow(d, k + 1);
    } else {
        assert(d.subrange(0, k) =~= d);
    }
}

/// Reads the characters of `s` from position `start` on as a decimal
/// number: there must be at least one, all digits, writing at most `max`.
fn digits_from(s: &str, start: usize, max: u64) -> (r: Option<u64>)
    requires
        start <= s@.len(),
    ensures
        r == match digits_at_most(s@.subrange(start as int, s@.len() as int), max as nat) {
            Some(n) => Some(n as u64),
            None => None::<u64>,
        },
{
    let n = s.unicode_len();
    let ghost d = s@.subrange(start as int, s@.len() as int);
    if start == n {
        return None;
    }
    let mut acc: u64 = 0;
    let mut i: usize = start;
    while i < n
        invariant
            start <= i <= n,
            n == s@.len(),
            d == s@.subrange(start as int, n as int),
            all_digits(d.subrange(0, i - start)),
            acc == digits_value(d.subrange(0, i - start)),
            acc <= max,
        decreases n - i,
    {
        let c = s.get_char(i);
        assert(d[i - start] == c);
        if c < '0' || c > '9' {
            return None;
        }
        let digit: u32 = (c as u32) - ('0' as u32);
        let next: u128 = acc as u128 * 10 + digit as u128;
        proof {
            let p = d.subrange(0, i - start + 1);
            assert(p.drop_last() =~= d.subrange(0, i - start));
            assert(p.last() == c);
            assert(next == digits_value(p));
        }
        if next > max as u128 {
            proof {
                if all_digits(d) {
                    lemma_digits_grow(d, i - start + 1);
                }
            }
            return None;
        }
        acc = next as u64;
        i = i + 1;
        proof {
            assert forall|j: int| 0 <= j < i - start implies '0' <= #[trigger] d.subrange(0, i - start)[j]
                && d.subrange(0, i - start)[j] <= '9' by {
                if j < i - start - 1 {
                    assert(d.subrange(0, i - start)[j] == d.subrange(0, i - start - 1)[j]);
                }
            }
        }
    }
    proof {
        assert(d.subrange(0, n - start) =~= d);
    }
    Some(acc)
}

/// Reads an unsigned number as `str::parse` does: an optional plus sign,
/// then digits only; `None` for anything else or a number above `max`.
pub fn parse_unsigned(s: &str, max: u64) -> (r: Option<u64>)
    ensures
        r == match parsed_unsigned(s@, max as nat) {
            Some(n) => Some(n as u64),
            None => None::<u64>,
        },
{
    if s.unicode_len() > 0 && s.get_char(0) == '+' {
        digits_from(s, 1, max)
    } else {
        assert(s@.subrange(0, s@.len() as int) =~= s@);
        digits_from(s, 0, max)
    }
}

/// Reads a signed 64-bit number as `str::parse` does: an optional sign,
/// then digits only; `None` for anything else or a number out of range.
pub fn parse_i64(s: &str) -> (r: Option<i64>)
    ensures
        r == match parsed_i64(s@) {
            Some(n) => Some(n as i64),
            None => None::<i64>,
        },
{
    if s.unicode_len() > 0 && s.get_char(0) == '-' {
        match digits_from(s, 1, 0x8000_0000_0000_0000) {
            Some(n) => if n == 0x8000_0000_0000_0000 {
                Some(i64::MIN)
            } else {
                Some(-(n as i64))
            },
            None => None,
        }
    } else {
        match parse_unsigned(s, 0x7fff_ffff_ffff_ffff) {
            Some(n) => Some(n as i64),
            None => None,
        }
    }
}

/// A numeric setting as the environment loader reads it: the value when it
/// is an unsigned number no larger than `max`; otherwise, or with no
/// value, the default.
pub fn unsigned_setting(value: Option<&str>, max: u64, default: u64) -> (r: u64)
    ensures
        r == match value {
            Some(v) => match parsed_unsigned(v@, max as nat) {
                Some(n) => n as u64,
                None => default,
            },
            None => default,
        },
{
    match value {
        Some(v) => match parse_unsigned(v, max) {
            Some(n) => n,
            None => default,
        },
        None => default,
    }
}

/// A signed setting as the environment loader reads it: the value when it
/// is a number in the range of `i64`; otherwise, or with no value, the
/// default.
pub fn i64_setting(value: Option<&str>, default: i64) -> (r: i64)
    ensures
        r == match value {
            Some(v) => match parsed_i64(v@) {
                Some(n) => n as i64,
                None => default,
            },
            None => default,
        },
{
    match value {
        Some(v) => match parse_i64(v) {
            Some(n) => n,
            None => default,
        },
        None => default,
    }
}

} // verus!
