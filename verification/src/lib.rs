//! A fixed-size worker pool with drain-guaranteed shutdown.
//!
//! The pool is modelled as a state machine: jobs are identified by the
//! ticket assigned at submission, workers move through
//! `Waiting -> Executing -> ... -> Terminated` (or `Crashed`), and every
//! lifecycle step is a verified transition. The threads, the channel and
//! the jobs' own work run outside the library; each event they produce
//! (a job taken, a job finished, a fault, a worker exiting, a join) is
//! applied to the pool state through one of these transitions.

pub mod http;
pub mod pool;

pub use pool::PoolError;
pub use pool::ThreadPool;
pub use pool::WorkerState;
