//! Settings of the skill system.

use vstd::prelude::*;

verus! {

/// How skills are cached. The skill system this configures is not part of
/// this library; the settings carry no fields of their own here.
#[derive(Debug, Clone, Copy, PartialEq, Eq)]
pub struct CacheConfig {}

/// How requests are matched to skills; as for `CacheConfig`, no fields.
#[derive(Debug, Clone, Copy, PartialEq, Eq)]
pub struct MatchConfig {}

/// Which skill features are on, and how skills are cached and matched.
#[derive(Debug, Clone, Copy)]
pub struct SkillConfig {
    pub enable_progressive_disclosure: bool,
    pub enable_enterprise_features: bool,
    pub skill_cache_config: CacheConfig,
    pub match_config: MatchConfig,
}

impl SkillConfig {
    /// Every feature off, default caching and matching.
    pub fn new() -> (c: SkillConfig)
        ensures
            !c.enable_progressive_disclosure,
            !c.enable_enterprise_features,
    {
        SkillConfig {
            enable_progressive_disclosure: false,
            enable_enterprise_features: false,
            skill_cache_config: CacheConfig {},
            match_config: MatchConfig {},
        }
    }

    /// The same settings with progressive disclosure switched as given.
    pub fn with_progressive_disclosure(self, enabled: bool) -> (c: SkillConfig)
        ensures
            c == (SkillConfig { enable_progressive_disclosure: enabled, ..self }),
    {
        SkillConfig { enable_progressive_disclosure: enabled, ..self }
    }

    /// The same settings with the enterprise features switched as given.
    pub fn with_enterprise_features(self, enabled: bool) -> (c: SkillConfig)
        ensures
            c == (SkillConfig { enable_enterprise_features: enabled, ..self }),
    {
        SkillConfig { enable_enterprise_features: enabled, ..self }
    }

    /// The same settings with another cache configuration.
    pub fn with_skill_cache_config(self, config: CacheConfig) -> (c: SkillConfig)
        ensures
            c == (SkillConfig { skill_cache_config: config, ..self }),
    {
        SkillConfig { skill_cache_config: config, ..self }
    }

    /// The same settings with another matching configuration.
    pub fn with_match_config(self, config: MatchConfig) -> (c: SkillConfig)
        ensures
            c == (SkillConfig { match_config: config, ..self }),
    {
        SkillConfig { match_config: config, ..self }
    }
}

} // verus!
