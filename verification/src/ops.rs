//! Operation descriptors, correlation tokens and completion records.
//!
//! An operation descriptor is the plain-data form of one submission-queue
//! entry: everything the kernel shim needs in order to build and submit the
//! real entry. The correlation token travels with the operation and comes
//! back unchanged in its completion record; it carries a generation so that
//! a completion for a destroyed connection cannot be confused with one for
//! a reused slot.

use vstd::prelude::*;

verus! {

/// Correlation identifier for one connection slot (or the shared accept
/// sentinel). `idx` addresses the slot table; `gen` is the generation the
/// slot had when the token was handed out.
#[derive(Clone, Copy, PartialEq, Eq, Structural, Debug)]
pub struct Token {
    pub idx: u32,
    pub gen: u32,
}

/// One submission-queue entry, as plain data.
///
/// Buffer handles refer to the buffer pool; `reg_idx` selects one of the
/// fixed, pre-registered buffers (and the file of the same index).
#[derive(Clone, Copy, PartialEq, Eq, Structural, Debug)]
pub enum OpDesc {
    /// Accept one connection on the listening socket.
    Accept { listener_fd: i32, token: Token },
    /// Ask for a readiness notification on `fd`.
    PollAdd { fd: i32, token: Token },
    /// Receive up to `len` bytes from `fd` into pool buffer `buf`.
    Recv { fd: i32, buf: usize, len: usize, token: Token },
    /// Read the fixed file `reg_idx` into the fixed buffer of the same
    /// index, up to `len` bytes.
    ReadFixed { reg_idx: usize, len: usize, token: Token },
    /// Send `len` bytes of pool buffer `buf`, starting at `offset`, to `fd`.
    Send { fd: i32, buf: usize, offset: usize, len: usize, token: Token },
}

impl OpDesc {
    /// The correlation token this operation was submitted under.
    pub open spec fn spec_token(self) -> Token {
        match self {
            OpDesc::Accept { token, .. } => token,
            OpDesc::PollAdd { token, .. } => token,
            OpDesc::Recv { token, .. } => token,
            OpDesc::ReadFixed { token, .. } => token,
            OpDesc::Send { token, .. } => token,
        }
    }

    /// The pool buffer handle this operation reads or writes, if any.
    pub open spec fn spec_buf(self) -> Option<usize> {
        match self {
            OpDesc::Recv { buf, .. } => Some(buf),
            OpDesc::Send { buf, .. } => Some(buf),
            _ => None,
        }
    }

    pub fn token(&self) -> (t: Token)
        ensures
            t == self.spec_token(),
    {
        match self {
            OpDesc::Accept { token, .. } => *token,
            OpDesc::PollAdd { token, .. } => *token,
            OpDesc::Recv { token, .. } => *token,
            OpDesc::ReadFixed { token, .. } => *token,
            OpDesc::Send { token, .. } => *token,
        }
    }
}

/// One completion record: the token of the completed operation and the
/// kernel's result code (negative values report an error).
#[derive(Clone, Copy, PartialEq, Eq, Structural, Debug)]
pub struct Completion {
    pub token: Token,
    pub result: i32,
}

/// Pack a token into the 64-bit user-data word that rides along with a
/// submitted operation: the slot index in the low half, the generation in
/// the high half.
pub fn token_to_user_data(t: Token) -> (u: u64)
    ensures
        u == t.idx + t.gen * 0x1_0000_0000u64,
{
    proof {
        assert(t.idx + t.gen * 0x1_0000_0000u64 <= u64::MAX) by (nonlinear_arith)
            requires
                t.idx <= u32::MAX,
                t.gen <= u32::MAX,
        ;
    }
    t.idx as u64 + (t.gen as u64) * 0x1_0000_0000u64
}

/// Recover the token from a user-data word; inverse of
/// [`token_to_user_data`].
pub fn token_from_user_data(u: u64) -> (t: Token)
    ensures
        t.idx == u % 0x1_0000_0000u64,
        t.gen == u / 0x1_0000_0000u64,
{
    Token { idx: (u % 0x1_0000_0000u64) as u32, gen: (u / 0x1_0000_0000u64) as u32 }
}

/// Round trip: decoding an encoded token gives the token back.
pub proof fn lemma_token_user_data_round_trip(t: Token)
    ensures
        (t.idx + t.gen * 0x1_0000_0000u64) % 0x1_0000_0000int == t.idx,
        (t.idx + t.gen * 0x1_0000_0000u64) / 0x1_0000_0000int == t.gen,
{
    let m = 0x1_0000_0000int;
    assert((t.idx + t.gen * m) % m == t.idx && (t.idx + t.gen * m) / m == t.gen)
        by (nonlinear_arith)
        requires
            0 <= t.idx < m,
            0 <= t.gen < m,
    ;
}

} // verus!
