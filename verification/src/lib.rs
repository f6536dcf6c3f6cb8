//! A single-threaded, completion-based asynchronous I/O server core.
//!
//! The crate verifies the control plane of a small HTTP server that drives
//! all of its I/O through a kernel submission/completion ring: a ring proxy
//! with a FIFO backlog for operations that did not fit in the submission
//! queue, an admission controller that bounds the number of outstanding
//! accept operations, an index-addressed buffer pool, a generation-checked
//! token table, and the per-connection state machine that reacts to each
//! completion record. The kernel-facing shim that owns the real ring lives
//! outside the verified library and only executes the operation descriptors
//! this library decides on, in the loop order the modules document:
//! submit what is staged, wait, drain every completion through the state
//! machine, re-arm admission, then retry the backlog.

pub mod conn;
pub mod http;
pub mod ops;
pub mod pool;
pub mod ring;
pub mod server;
pub mod slots;
pub mod table;
