//! # Embedded Futures Executor
//!
//! This crate provides a futures executor that needs no more than an allocator.
//!
//! ## The Executor
//!
//! The base executor type is [`AllocExecutor`]. To use it, you need both a lock to
//! share its queue through and a [`core_traits::Sleep`] implementation.
//!
//! For convenience, [`SpinSleep`] provides a simple spinlock-based sleep. It is
//! recommended, however, to use implementations more suited to your particular
//! platform, such as a sleep that waits for an interrupt and a lock that
//! disables/enables interrupts.
//!
//! ## Spawning
//!
//! Futures can be spawned either by calling [`AllocExecutor::spawn`] or by
//! getting a [`alloc_executor::Spawner`] and calling
//! [`alloc_executor::Spawner::spawn`]. The `Spawner` can also be passed to
//! other `Futures` for even more spawning goodness.
//!
//! ## Running
//!
//! Running the executor is done via the [`AllocExecutor::run`] method. It takes
//! turns: each locks the queue for [`AllocExecutor::step`] and releases it, and what
//! the executor asks for is then done with [`AllocExecutor::perform`], until that says
//! to return. This will drive all spawned futures and any new futures that get spawned
//! to completion before returning. The executor keeps its [`history`] as ghost state;
//! see [`laws`], [`schedule`] and [`lives`] for what holds of it.

pub mod alloc_executor;
pub mod bed;
pub mod core_traits;
pub mod flag;
pub mod future_box;
pub mod history;
pub mod laws;
pub mod lives;
pub mod registry;
pub mod schedule;
pub mod sleep;
pub mod sleeper;

pub use self::alloc_executor::AllocExecutor;
pub use self::sleep::{Sleep, SpinSleep};
