//! Preloading what users are likely to need next: what can be preloaded,
//! the activities observed, and why something is preloaded.

use vstd::prelude::*;

verus! {

/// What can be preloaded.
#[derive(Debug, Clone, Copy, PartialEq, Eq, Structural)]
pub enum PreloadableType {
    Skill,
    Agent,
    Plugin,
    Component,
    Soul,
    Config,
}

impl PreloadableType {
    /// The type with this number: 0 skill, 1 agent, 2 plugin, 3 component,
    /// 4 soul, 5 config; none for other numbers.
    pub fn from_u8(value: u8) -> (r: Option<PreloadableType>)
        ensures
            r == match value {
                0u8 => Some(PreloadableType::Skill),
                1u8 => Some(PreloadableType::Agent),
                2u8 => Some(PreloadableType::Plugin),
                3u8 => Some(PreloadableType::Component),
                4u8 => Some(PreloadableType::Soul),
                5u8 => Some(PreloadableType::Config),
                _ => None,
            },
    {
        match value {
            0 => Some(PreloadableType::Skill),
            1 => Some(PreloadableType::Agent),
            2 => Some(PreloadableType::Plugin),
            3 => Some(PreloadableType::Component),
            4 => Some(PreloadableType::Soul),
            5 => Some(PreloadableType::Config),
            _ => None,
        }
    }
}

/// What a user did.
#[derive(Debug, Clone, Copy, PartialEq, Eq, Structural)]
pub enum ActivityType {
    Search,
    View,
    Use,
    Like,
    Save,
    Install,
}

/// How a user works: the hours they are busiest, the sequences they
/// repeat, and how often items are used together (item and count pairs).
#[derive(Debug, Clone)]
pub struct UsagePattern {
    pub peak_hours: Vec<u8>,
    pub common_sequences: Vec<Vec<String>>,
    pub frequent_cooccurrences: Vec<(String, u64)>,
}

/// Why something is preloaded.
#[derive(Debug, Clone, Copy, PartialEq, Eq, Structural)]
pub enum PreloadReason {
    RecentUsage,
    PeakTime,
    CommonSequence,
    Cooccurrence,
    Recommendation,
    UsagePattern,
}

} // verus!
