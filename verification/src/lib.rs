//! The core of a tenant-aware task execution service, and the store that
//! it serves.
//!
//! The scheduling core is a set of state machines: the queue disciplines
//! ([`mpmc`], [`priority_queue`], [`segmented_priority_queue`]), the slot
//! of a single-value channel ([`oneshot`]), the sketch of tenant
//! utilization ([`utilization_sketch`]) and the executor that ties them
//! together ([`executor`]). Each takes its events through `&mut self` and
//! says in its result what the caller has to do: wait, wake, run or
//! drive. Locks, condition variables and threads belong to the caller.
//!
//! The store is a map of byte strings with batched transactions ([`db`],
//! [`write_batch`], [`transactor`]), checksummed frames and batches for
//! its log ([`frame`], [`batch`]), sorted blocks with an index ([`block`])
//! and an in-memory filesystem ([`fs`]).

pub mod batch;
pub mod block;
pub mod bytes;
pub mod db;
pub mod executor;
pub mod frame;
pub mod fs;
pub mod mpmc;
pub mod oneshot;
pub mod prioritized;
pub mod priority_queue;
pub mod segmented_priority_queue;
pub mod tenant;
pub mod transactor;
pub mod utilization_sketch;
pub mod write_batch;
