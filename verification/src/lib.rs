//! Resumable, multi-connection download manager core.
//!
//! The library holds the verified logic of the engine: the task lifecycle
//! state machine, segmented-range planning, the priority queue and scheduler,
//! rate limiting, progress accounting, durable task/segment persistence,
//! URL resolution for known file-sharing providers, destination-path
//! resolution, and post-download checksum verification.

use vstd::prelude::*;

pub use crate::engine::DownloadEngine;
pub use crate::error::CoreError;
pub use crate::task::{Task, TaskId, TaskStatus};

pub mod checksum;
pub mod clock;
pub mod config;
pub mod dest;
pub mod engine;
pub mod error;
pub mod net;
pub mod progress;
pub mod queue;
pub mod resolver;
pub mod scheduler;
pub mod segment;
pub mod sqlite;
pub mod stop;
pub mod storage;
pub mod throttle;
pub mod strutil;
pub mod task;
pub mod torrent;
pub mod transfer;

verus! {

} // verus!
