//! Stream identifiers: the bounded pool, the scheduler of shard tasks, and
//! the manager in front of both.

pub mod manager;
pub mod pool;
pub mod scheduler;

pub use manager::{ManagerStats, UnifiedStreamManager};
pub use pool::{PoolStats, StreamPool};
pub use scheduler::{SchedulerStats, StreamScheduler};
