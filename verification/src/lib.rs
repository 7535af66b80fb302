//! A fixed-size worker pool with a verified lifecycle model, paired with the
//! verified request/response logic of a minimal single-connection HTTP
//! listener that feeds the pool.
//!
//! The pool itself is modelled as a state machine: every submission, dequeue,
//! completion, fault and shutdown step is an operation with a contract, and
//! the well-formedness invariant proves that every submitted job is accounted
//! for exactly once. The surrounding runtime (threads, channels, sockets)
//! drives these transitions from outside the verified core.

pub mod counting;
pub mod http;
pub mod pool;

pub use http::Route;
pub use pool::PoolCreationError;
pub use pool::ThreadPool;
pub use pool::Worker;
pub use pool::WorkerState;
