//! The phases a connection moves through.
//!
//! One record exists per live connection, keyed by its correlation token;
//! a shared `Accepting` sentinel stands for the reusable accept template.
//! Each record names at most one outstanding operation, so the token is
//! enough to correlate a completion with the work it finishes.

use vstd::prelude::*;

verus! {

/// The current phase of one connection (or the shared accept sentinel).
#[derive(Clone, Copy, PartialEq, Eq, Structural, Debug)]
pub enum ConnState {
    /// Shared sentinel for the accept template; not tied to a socket.
    Accepting,
    /// A readiness watch is outstanding on `socket`.
    AwaitingReadable { socket: i32 },
    /// A receive into pool buffer `buffer_handle` is outstanding.
    Receiving { socket: i32, buffer_handle: usize },
    /// A read of the fixed resource `resource_handle` is outstanding;
    /// `status` is the HTTP status decided from the received request.
    ReadingResource { socket: i32, status: usize, resource_handle: usize },
    /// A send of `total_len` response bytes from `buffer_handle` is under
    /// way; `offset` bytes are already on the wire.
    Sending { socket: i32, buffer_handle: usize, offset: usize, total_len: usize },
}

impl ConnState {
    /// The pool buffer handle this state owns exclusively, if any.
    pub open spec fn buffer_handle(self) -> Option<usize> {
        match self {
            ConnState::Receiving { buffer_handle, .. } => Some(buffer_handle),
            ConnState::Sending { buffer_handle, .. } => Some(buffer_handle),
            _ => None,
        }
    }

    /// The socket this state drives, if it is tied to one.
    pub open spec fn socket(self) -> Option<i32> {
        match self {
            ConnState::Accepting => None,
            ConnState::AwaitingReadable { socket } => Some(socket),
            ConnState::Receiving { socket, .. } => Some(socket),
            ConnState::ReadingResource { socket, .. } => Some(socket),
            ConnState::Sending { socket, .. } => Some(socket),
        }
    }
}

} // verus!
