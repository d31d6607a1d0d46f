//! Talking to language models: messages, providers, resilience, response
//! caching and token costs.

pub mod resilience;
pub mod adapter;
pub mod cache;
pub mod token_cost;
