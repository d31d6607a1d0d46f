//! Aetheris: the verified core of a task execution engine.

pub mod constants;
pub mod json;
pub mod runtime;
pub mod engine;
pub mod text;
pub mod error;
pub mod config;
pub mod llm;
pub mod governance;
