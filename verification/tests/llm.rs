use aetheris::error::AetherisError;
use aetheris::llm::adapter::{
    join_text_blocks, role_from_name, split_system_prompt, usage_from_counts, ChatChoice, ChatMessage, ChatResponse,
    LlmProvider, MessageRole,
};
use aetheris::llm::cache::{CacheConfig, CacheStats};
use aetheris::llm::resilience::{
    after_failed_attempt, is_retryable_error, CircuitBreaker, CircuitBreakerConfig, CircuitState, RetryAction,
};
use aetheris::llm::token_cost::{BudgetAlertLevel, LogAlertHandler};

#[test]
fn test_circuit_breaker_closed_state() {
    let mut cb = CircuitBreaker::default();
    assert_eq!(cb.state(), CircuitState::Closed);
    assert!(cb.allow_request());
}

#[test]
fn test_circuit_breaker_open_after_failures() {
    let config = CircuitBreakerConfig { failure_threshold: 3, reset_timeout_ms: 100, half_open_max_calls: 1 };
    let mut cb = CircuitBreaker::new(config);
    cb.record_failure_at(0);
    cb.record_failure_at(1);
    assert_eq!(cb.state(), CircuitState::Closed);
    assert!(cb.allow_request_at(2));
    cb.record_failure_at(3);
    assert_eq!(cb.state(), CircuitState::Open);
    assert!(!cb.allow_request_at(4));
}

#[test]
fn test_circuit_breaker_half_open_after_timeout() {
    let config = CircuitBreakerConfig { failure_threshold: 1, reset_timeout_ms: 50, half_open_max_calls: 1 };
    let mut cb = CircuitBreaker::new(config);
    cb.record_failure_at(1000);
    assert_eq!(cb.state(), CircuitState::Open);
    assert!(!cb.allow_request_at(1049));
    assert!(cb.allow_request_at(1050));
    assert_eq!(cb.state(), CircuitState::HalfOpen);
}

#[test]
fn test_circuit_breaker_closed_after_half_open_success() {
    let config = CircuitBreakerConfig { failure_threshold: 1, reset_timeout_ms: 50, half_open_max_calls: 1 };
    let mut cb = CircuitBreaker::new(config);
    cb.record_failure_at(0);
    assert!(cb.allow_request_at(60));
    cb.record_success();
    assert_eq!(cb.state(), CircuitState::Closed);
    assert_eq!(cb.counters().failure_count, 0);
}

#[test]
fn breaker_half_open_failure_reopens_and_open_ignores_success() {
    let config = CircuitBreakerConfig { failure_threshold: 1, reset_timeout_ms: 10, half_open_max_calls: 2 };
    let mut cb = CircuitBreaker::new(config);
    cb.record_failure_at(0);
    cb.record_success();
    assert_eq!(cb.state(), CircuitState::Open);
    assert!(cb.allow_request_at(10));
    cb.record_failure_at(11);
    assert_eq!(cb.state(), CircuitState::Open);
    assert!(!cb.allow_request_at(15));
    assert!(cb.allow_request_at(21));
    cb.record_success();
    assert_eq!(cb.state(), CircuitState::HalfOpen);
    cb.record_success();
    assert_eq!(cb.state(), CircuitState::Closed);
}

#[test]
fn retry_decisions() {
    assert!(is_retryable_error(&AetherisError::Timeout("t".to_string())));
    assert!(!is_retryable_error(&AetherisError::Validation("v".to_string())));
    assert_eq!(after_failed_attempt(0, 3, &AetherisError::Llm("x".to_string())), RetryAction::Retry);
    assert_eq!(after_failed_attempt(3, 3, &AetherisError::Llm("x".to_string())), RetryAction::GiveUp);
    assert_eq!(after_failed_attempt(0, 3, &AetherisError::Config("x".to_string())), RetryAction::GiveUp);
}

#[test]
fn chat_messages() {
    let m = ChatMessage::system("be kind".to_string());
    assert_eq!(m.role, MessageRole::System);
    assert_eq!(m.role.name(), "system");
    assert_eq!(ChatMessage::user("hi".to_string()).role, MessageRole::User);
    assert_eq!(ChatMessage::assistant("yo".to_string()).content, "yo");
    let r = ChatResponse {
        id: "1".to_string(),
        model: "m".to_string(),
        choices: vec![ChatChoice { index: 0, message: ChatMessage::new(MessageRole::Assistant, "answer".to_string()), finish_reason: None }],
        usage: None,
    };
    assert_eq!(r.content(), "answer");
    let empty = ChatResponse { id: "2".to_string(), model: "m".to_string(), choices: vec![], usage: None };
    assert_eq!(empty.content(), "");
}

#[test]
fn providers_by_name() {
    assert!(matches!(LlmProvider::from_name("OpenAI"), LlmProvider::OpenAi));
    assert!(matches!(LlmProvider::from_name("azure"), LlmProvider::AzureOpenAi));
    assert!(matches!(LlmProvider::from_name("AzureOpenAI"), LlmProvider::AzureOpenAi));
    match LlmProvider::from_name("Local") {
        LlmProvider::Custom(n) => assert_eq!(n, "Local"),
        _ => panic!("expected a custom provider"),
    }
    assert_eq!(LlmProvider::DeepSeek.name(), "deepseek");
}

#[test]
fn cache_stats_count_and_reset() {
    let mut s = CacheStats::new();
    s.record_hit();
    s.record_hit();
    s.record_miss();
    s.record_eviction();
    assert_eq!(s.hit_ratio_parts(), (2, 3));
    s.reset();
    assert_eq!((s.hits, s.misses, s.evictions), (0, 0, 0));
    let c = CacheConfig::default();
    assert_eq!(c.max_capacity, 100);
    assert!(c.enabled);
}

#[test]
fn alert_levels() {
    assert_eq!(BudgetAlertLevel::Critical.name(), "critical");
    assert!(!LogAlertHandler.logs_as_error(BudgetAlertLevel::Warning));
    assert!(LogAlertHandler.logs_as_error(BudgetAlertLevel::Exceeded));
}

#[test]
fn test_split_system_prompt() {
    let messages = vec![
        ChatMessage::system("be brief".to_string()),
        ChatMessage::user("hi".to_string()),
        ChatMessage::system("be kind".to_string()),
        ChatMessage::assistant("hello".to_string()),
    ];
    let (system, dialogue) = split_system_prompt(&messages);
    assert_eq!(system, Some("be brief\nbe kind".to_string()));
    assert_eq!(
        dialogue,
        vec![("user".to_string(), "hi".to_string()), ("assistant".to_string(), "hello".to_string())]
    );
    let (none, only) = split_system_prompt(&vec![ChatMessage::user("x".to_string())]);
    assert_eq!(none, None);
    assert_eq!(only.len(), 1);
}

#[test]
fn test_role_from_name() {
    assert_eq!(role_from_name("system"), MessageRole::System);
    assert_eq!(role_from_name("user"), MessageRole::User);
    assert_eq!(role_from_name("assistant"), MessageRole::Assistant);
    assert_eq!(role_from_name("tool"), MessageRole::Assistant);
}

#[test]
fn test_join_text_blocks() {
    let blocks = vec![None, Some("a".to_string()), None, Some("b".to_string())];
    assert_eq!(join_text_blocks(&blocks), "a\nb");
    assert_eq!(join_text_blocks(&vec![]), "");
    assert_eq!(join_text_blocks(&vec![Some(String::new()), Some("c".to_string())]), "c");
}

#[test]
fn test_usage_from_counts() {
    let u = usage_from_counts(10, 32);
    assert_eq!(u.prompt_tokens, 10);
    assert_eq!(u.completion_tokens, 32);
    assert_eq!(u.total_tokens, 42);
}

#[test]
fn breaker_times_failures_by_its_own_clock() {
    let config = CircuitBreakerConfig { failure_threshold: 1, reset_timeout_ms: 60000, half_open_max_calls: 1 };
    let mut cb = CircuitBreaker::new(config);
    cb.record_failure();
    assert_eq!(cb.state(), CircuitState::Open);
    assert!(!cb.allow_request());
    let config = CircuitBreakerConfig { failure_threshold: 1, reset_timeout_ms: 0, half_open_max_calls: 1 };
    let mut quick = CircuitBreaker::new(config);
    quick.record_failure();
    assert!(quick.allow_request());
    assert_eq!(quick.state(), CircuitState::HalfOpen);
}

#[test]
fn known_provider_names_read_back() {
    for p in [LlmProvider::Mock, LlmProvider::OpenAi, LlmProvider::Anthropic, LlmProvider::AzureOpenAi, LlmProvider::DeepSeek] {
        let back = LlmProvider::from_name(&p.name());
        assert_eq!(back.name(), p.name());
        assert!(!matches!(back, LlmProvider::Custom(_)));
    }
    assert!(matches!(LlmProvider::from_name("DEEPSEEK"), LlmProvider::DeepSeek));
}

fn calls_when_always_failing(max_retries: u32, error: &AetherisError) -> u32 {
    let mut calls = 0;
    let mut attempt = 0;
    loop {
        calls += 1;
        if after_failed_attempt(attempt, max_retries, error) == RetryAction::GiveUp {
            return calls;
        }
        attempt += 1;
    }
}

#[test]
fn retry_loop_calls_once_more_than_its_retries() {
    assert_eq!(calls_when_always_failing(2, &AetherisError::Llm("down".to_string())), 3);
    assert_eq!(calls_when_always_failing(0, &AetherisError::Timeout("slow".to_string())), 1);
    assert_eq!(calls_when_always_failing(5, &AetherisError::Validation("bad".to_string())), 1);
}
