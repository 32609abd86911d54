//! Runtime statistics reported by the diagnostics endpoints.
use vstd::prelude::*;

verus! {

/// Allocator counters, each absent when the allocator does not report it.
#[derive(Debug, Clone, Default)]
pub struct JemallocStats {
    pub allocated: Option<usize>,
    pub active: Option<usize>,
    pub metadata: Option<usize>,
    pub resident: Option<usize>,
    pub mapped: Option<usize>,
    pub retained: Option<usize>,
    pub process_rss: Option<usize>,
}

/// Async runtime counters summed over a sampling window.
#[derive(Debug, Clone, Default)]
pub struct TokioMetricsAccum {
    pub workers_count: usize,
    pub live_tasks_count: usize,
    pub total_polls_count: u64,
    pub total_busy_duration_ms: u64,
    pub global_queue_depth: usize,
    pub total_local_queue_depth: usize,
    pub total_steal_count: u64,
    pub blocking_queue_depth: usize,
    pub blocking_threads_count: usize,
    pub elapsed_ms: u64,
}

} // verus!
