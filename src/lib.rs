//! A process's synchronization resources: mutexes, counting semaphores and
//! condition variables, with per-task need and allocation accounting and a
//! safety test that refuses an acquisition which could deadlock the process.

pub mod banker;
pub mod ledger;
pub mod queue;
pub mod process;
pub mod laws;
