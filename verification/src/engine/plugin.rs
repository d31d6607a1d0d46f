//! Plugins: their kinds, life cycle, dependencies and capabilities.

use vstd::prelude::*;

verus! {

/// What a plugin extends.
#[derive(Debug, Clone, Copy, PartialEq, Eq, Structural)]
pub enum PluginType {
    Skill,
    Agent,
    Memory,
    Security,
    Observability,
    Custom,
}

/// Where a plugin is in its life.
#[derive(Debug, Clone, Copy, PartialEq, Eq, Structural)]
pub enum PluginLifecycleState {
    Unloaded,
    Loading,
    Loaded,
    Initializing,
    Active,
    Deactivating,
    Unloading,
    Error,
    Disabled,
    Deprecated,
}

/// Another plugin this one needs, in a range of versions.
#[derive(Debug, Clone)]
pub struct PluginDependency {
    pub plugin_id: String,
    pub version_constraint: String,
    pub required: bool,
    pub optional: bool,
}

/// Something a plugin offers, through interfaces and with permissions.
#[derive(Debug, Clone)]
pub struct PluginCapability {
    pub capability_id: String,
    pub name: String,
    pub description: String,
    pub version: String,
    pub interfaces: Vec<String>,
    pub permissions: Vec<String>,
}

/// What happened to a plugin.
#[derive(Debug, Clone, Copy, PartialEq, Eq, Structural)]
pub enum PluginEventType {
    Loading,
    Loaded,
    Initialized,
    Activated,
    Deactivated,
    Unloading,
    Unloaded,
    Error,
    Warning,
    DependencyResolved,
    DependencyFailed,
    CapabilityRegistered,
    CapabilityUnregistered,
}

/// How a plugin's health check came out.
#[derive(Debug, Clone, Copy, PartialEq, Eq, Structural)]
pub enum HealthCheckStatus {
    Healthy,
    Degraded,
    Unhealthy,
    Unknown,
}

} // verus!
