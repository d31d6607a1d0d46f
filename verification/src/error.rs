//! The error type shared by the engine's operations.

use vstd::prelude::*;

verus! {

/// What went wrong, with a message for the user.
#[derive(Debug)]
pub enum AetherisError {
    Config(String),
    Validation(String),
    NotFound(String),
    Planning(String),
    Agent(String),
    Cdn(String),
    IntentValidation(String),
    Llm(String),
    Timeout(String),
    Internal(String),
}

impl AetherisError {
    /// The message the error carries.
    pub fn message(&self) -> (r: &String)
        ensures
            r == match self {
                AetherisError::Config(m) => m,
                AetherisError::Validation(m) => m,
                AetherisError::NotFound(m) => m,
                AetherisError::Planning(m) => m,
                AetherisError::Agent(m) => m,
                AetherisError::Cdn(m) => m,
                AetherisError::IntentValidation(m) => m,
                AetherisError::Llm(m) => m,
                AetherisError::Timeout(m) => m,
                AetherisError::Internal(m) => m,
            },
    {
        match self {
            AetherisError::Config(m) => m,
            AetherisError::Validation(m) => m,
            AetherisError::NotFound(m) => m,
            AetherisError::Planning(m) => m,
            AetherisError::Agent(m) => m,
            AetherisError::Cdn(m) => m,
            AetherisError::IntentValidation(m) => m,
            AetherisError::Llm(m) => m,
            AetherisError::Timeout(m) => m,
            AetherisError::Internal(m) => m,
        }
    }
}

} // verus!
