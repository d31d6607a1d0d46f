//! The kinds the performance monitor sorts its measurements, findings and
//! alerts by.

use vstd::prelude::*;

verus! {

/// A way to make the system faster.
#[derive(Debug, Clone, Copy, PartialEq, Eq, Structural)]
pub enum OptimizationType {
    Caching,
    LazyLoading,
    Preloading,
    Pooling,
    Batching,
    Parallelization,
    Compression,
    MemoryOptimization,
    CpuOptimization,
    NetworkOptimization,
}

/// What a metric measures.
#[derive(Debug, Clone, Copy, PartialEq, Eq, Structural)]
pub enum MetricType {
    Latency,
    Throughput,
    MemoryUsage,
    CpuUsage,
    NetworkUsage,
    DiskUsage,
    ErrorRate,
    CacheHitRate,
    ConnectionCount,
    RequestCount,
}

/// How much a hot spot hurts.
#[derive(Debug, Clone, Copy, PartialEq, Eq, Structural)]
pub enum HotSpotSeverity {
    Low,
    Medium,
    High,
    Critical,
}

/// What a user-experience metric measures.
#[derive(Debug, Clone, Copy, PartialEq, Eq, Structural)]
pub enum UxMetricType {
    PageLoadTime,
    TimeToInteractive,
    FirstInputDelay,
    CumulativeLayoutShift,
    LargestContentfulPaint,
    TaskCompletionTime,
    ErrorEncountered,
    FeatureUsage,
    UserSatisfaction,
    SessionDuration,
}

/// What an alert is about.
#[derive(Debug, Clone, Copy, PartialEq, Eq, Structural)]
pub enum AlertType {
    HighLatency,
    LowThroughput,
    HighMemoryUsage,
    HighCpuUsage,
    HighErrorRate,
    LowCacheHitRate,
    DegradedPerformance,
}

/// How serious an alert is.
#[derive(Debug, Clone, Copy, PartialEq, Eq, Structural)]
pub enum AlertSeverity {
    Info,
    Warning,
    Error,
    Critical,
}

/// A summary of what the monitor holds.
#[derive(Debug, Clone, Copy, PartialEq, Eq, Structural)]
pub struct SystemStats {
    pub uptime_seconds: u64,
    pub total_metrics: usize,
    pub active_strategies: usize,
    pub total_benchmarks: usize,
    pub active_hotspots: usize,
    pub active_alerts: usize,
}

} // verus!
