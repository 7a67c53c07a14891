//! Engine configuration.

use vstd::prelude::*;
use vstd::string::StringExecFns;

verus! {

/// The knobs of the engine: concurrency bounds, segment sizing, speed
/// limits, retry policy, and flush cadence.
#[derive(Debug)]
pub struct EngineConfig {
    pub max_concurrent_tasks: usize,
    pub max_segments_per_task: u32,
    pub min_segment_size_bytes: u64,
    pub global_speed_limit_bytes_per_sec: Option<u64>,
    pub per_task_speed_limit_bytes_per_sec: Option<u64>,
    pub user_agent: String,
    pub retry_count: u32,
    pub retry_backoff_secs: u64,
    pub progress_flush_bytes: u64,
    pub status_check_bytes: u64,
}

impl Default for EngineConfig {
    /// Four concurrent tasks of up to eight segments of at least two
    /// mebibytes, five retries three seconds apart, a one-mebibyte flush
    /// threshold and a half-mebibyte status-check threshold, no speed
    /// limits.
    fn default() -> (c: EngineConfig)
        ensures
            c.max_concurrent_tasks == 4,
            c.max_segments_per_task == 8,
            c.min_segment_size_bytes == 2097152,
            c.global_speed_limit_bytes_per_sec is None,
            c.per_task_speed_limit_bytes_per_sec is None,
            c.user_agent@ == "IDM-Open/0.1"@,
            c.retry_count == 5,
            c.retry_backoff_secs == 3,
            c.progress_flush_bytes == 1048576,
            c.status_check_bytes == 524288,
    {
        EngineConfig {
            max_concurrent_tasks: 4,
            max_segments_per_task: 8,
            min_segment_size_bytes: 2097152,
            global_speed_limit_bytes_per_sec: None,
            per_task_speed_limit_bytes_per_sec: None,
            user_agent: String::from_str("IDM-Open/0.1"),
            retry_count: 5,
            retry_backoff_secs: 3,
            progress_flush_bytes: 1048576,
            status_check_bytes: 524288,
        }
    }
}

impl EngineConfig {
    /// A copy of the configuration, equal in value.
    pub fn duplicate(&self) -> (c: EngineConfig)
        ensures
            c.max_concurrent_tasks == self.max_concurrent_tasks,
            c.max_segments_per_task == self.max_segments_per_task,
            c.min_segment_size_bytes == self.min_segment_size_bytes,
            c.global_speed_limit_bytes_per_sec == self.global_speed_limit_bytes_per_sec,
            c.per_task_speed_limit_bytes_per_sec == self.per_task_speed_limit_bytes_per_sec,
            c.user_agent@ == self.user_agent@,
            c.retry_count == self.retry_count,
            c.retry_backoff_secs == self.retry_backoff_secs,
            c.progress_flush_bytes == self.progress_flush_bytes,
            c.status_check_bytes == self.status_check_bytes,
    {
        EngineConfig {
            max_concurrent_tasks: self.max_concurrent_tasks,
            max_segments_per_task: self.max_segments_per_task,
            min_segment_size_bytes: self.min_segment_size_bytes,
            global_speed_limit_bytes_per_sec: self.global_speed_limit_bytes_per_sec,
            per_task_speed_limit_bytes_per_sec: self.per_task_speed_limit_bytes_per_sec,
            user_agent: self.user_agent.clone(),
            retry_count: self.retry_count,
            retry_backoff_secs: self.retry_backoff_secs,
            progress_flush_bytes: self.progress_flush_bytes,
            status_check_bytes: self.status_check_bytes,
        }
    }
}

} // verus!
