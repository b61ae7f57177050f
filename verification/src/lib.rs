//! A rotation controller for external packet-capture workers.
//!
//! A capture worker is an external process that emits a stream of packet
//! records. When the active worker's memory use grows past a configured
//! limit, a replacement worker is started while the active one is still
//! running, and the two overlapping streams are reconciled into one
//! gap-free, duplicate-free, time-ordered sequence. The consumer keeps
//! issuing a single blocking read call throughout and observes no loss,
//! no duplication and no reordering.
//!
//! The crate holds the decision logic: the record model, the identity
//! test, the merge state machine, the timestamp sort, the memory-breach
//! test and the pool state that serves merged records before falling
//! back to the active worker. The embedding application owns the worker
//! processes and performs the blocking reads, feeding each record into
//! the state machine and carrying out the action it asks for next.

pub mod merge;
pub mod monitor;
pub mod pool;
pub mod record;
pub mod sort;
