//! The per-connection state machine and the state it owns.
//!
//! One completion record at a time, [`ServerCore::handle_completion`]
//! resolves the record's token, applies the transition its state asks
//! for, pushes the follow-up operation through the ring proxy and tells
//! the caller what is left to do outside the library (close a socket, or
//! nothing). The kernel shim owns the event loop: it submits what the
//! proxy staged, waits, lands received bytes in the pool, and feeds every
//! completion back in here.
//!
//! Failure policy (a completion with a negative result): fatal for the
//! affected connection — its buffer is released, its token destroyed and
//! its socket handed back for closing. A failed accept only gives its
//! admission slot back; no connection exists yet. Zero-length receive is
//! the one normal close signal, not an error.

use vstd::prelude::*;

use crate::conn::ConnState;
use crate::http;
use crate::ops::{Completion, OpDesc, Token};
use crate::pool::BufferPool;
use crate::ring::{pushed_one, proxy_unchanged, RingProxy};
use crate::slots::ConnectionSlots;
use crate::table::SlotTable;

verus! {

/// The number of fixed resources (and fixed buffers): the hello page and
/// the not-found page.
pub const RESOURCE_COUNT: usize = 2;

/// Slot indices stop fitting a token above this table size.
pub const MAX_SLOTS: usize = 0xffff_ffff;

/// What the kernel shim must still do after one completion was handled.
#[derive(Clone, Copy, PartialEq, Eq, Structural, Debug)]
pub enum StepOutcome {
    /// Nothing: follow-up work, if any, was staged on the proxy.
    Proceed,
    /// A connection was admitted under `token`; its readiness watch is
    /// staged on the proxy.
    Accepted { token: Token, fd: i32 },
    /// Tear-down: close this socket descriptor. Its state and buffer, if
    /// it had them, are already reclaimed.
    CloseSocket { fd: i32 },
}

/// Defects the state machine refuses to continue past (fail fast rather
/// than risk corrupting the shared tables).
#[derive(Clone, Copy, PartialEq, Eq, Structural, Debug)]
pub enum CoreError {
    /// The completion's token resolves to no live connection.
    StaleToken,
    /// An accept completion arrived while no accept was outstanding.
    AcceptUnderflow,
    /// The completion reports more bytes than the operation could move.
    BadCompletion,
}

/// Everything the event loop owns besides the ring itself: admission
/// control, the buffer pool, the token table and the fixed resources.
pub struct ServerCore {
    /// Admission control for accept operations.
    pub conns: ConnectionSlots,
    /// Reusable receive/send buffers.
    pub pool: BufferPool,
    /// Connection states, addressed by token.
    pub table: SlotTable,
    /// Contents of the fixed (kernel-registered) buffers, one per
    /// resource; the shim copies a fixed read's bytes in here before it
    /// delivers the completion.
    pub fixed: Vec<Vec<u8>>,
    /// Size of one fixed buffer: the most a fixed read may return.
    pub fixed_capacity: usize,
    /// The token all accept operations share.
    pub accept_token: Token,
}

/// Token validity and states equal in `pre` and `post` for every token
/// but `t`.
pub open spec fn tokens_preserved_except(pre: SlotTable, post: SlotTable, t: Token) -> bool {
    &&& forall|t2: Token| t2 != t ==> (post.token_valid(t2) <==> pre.token_valid(t2))
    &&& forall|t2: Token|
        t2 != t && #[trigger] pre.token_valid(t2) ==> post.state_of(t2) == pre.state_of(t2)
}

/// No token changed at all.
pub open spec fn tokens_preserved(pre: SlotTable, post: SlotTable) -> bool {
    &&& forall|t2: Token| post.token_valid(t2) <==> pre.token_valid(t2)
    &&& forall|t2: Token|
        #[trigger] pre.token_valid(t2) ==> post.state_of(t2) == pre.state_of(t2)
}

/// The pool neither gained, lost nor rewrote anything.
pub open spec fn pool_preserved(pre: BufferPool, post: BufferPool) -> bool {
    &&& post.free@ == pre.free@
    &&& post.entries() == pre.entries()
    &&& post.buf_size == pre.buf_size
}

impl ServerCore {
    /// What must hold of the state a live token carries: an owned buffer
    /// handle is in use in the pool, a resource handle points at one of
    /// the fixed resources, and send progress never passes the total.
    pub open spec fn state_ok(self, s: ConnState) -> bool {
        match s {
            ConnState::Receiving { buffer_handle, .. } => self.pool.in_use(buffer_handle),
            ConnState::ReadingResource { resource_handle, .. } => resource_handle
                < self.fixed@.len(),
            ConnState::Sending { buffer_handle, offset, total_len, .. } => self.pool.in_use(
                buffer_handle,
            ) && offset <= total_len,
            _ => true,
        }
    }

    /// Buffer handle exclusivity: no two live connections own the same
    /// buffer handle.
    pub open spec fn handles_exclusive(self) -> bool {
        forall|t1: Token, t2: Token|
            #[trigger] self.table.token_valid(t1) && #[trigger] self.table.token_valid(t2) && t1
                != t2 && self.table.state_of(t1).buffer_handle() is Some && self.table.state_of(
                t2,
            ).buffer_handle() is Some ==> self.table.state_of(t1).buffer_handle()
                != self.table.state_of(t2).buffer_handle()
    }

    /// The core's invariant, established by `new` and preserved by every
    /// transition.
    pub open spec fn wf(self) -> bool {
        &&& self.conns.wf()
        &&& self.conns.entry is Accept
        &&& self.pool.wf()
        &&& self.table.wf()
        &&& self.fixed@.len() == RESOURCE_COUNT
        &&& self.table.token_valid(self.accept_token)
        &&& self.table.state_of(self.accept_token) == ConnState::Accepting
        &&& forall|t: Token|
            #[trigger] self.table.token_valid(t) ==> self.state_ok(self.table.state_of(t))
        &&& self.handles_exclusive()
    }

    /// The parts of the core one completion never changes.
    pub open spec fn frame(pre: ServerCore, post: ServerCore) -> bool {
        &&& post.accept_token == pre.accept_token
        &&& post.fixed@ == pre.fixed@
        &&& post.fixed_capacity == pre.fixed_capacity
        &&& post.conns.capacity == pre.conns.capacity
        &&& post.conns.entry == pre.conns.entry
        &&& post.pool.buf_size == pre.pool.buf_size
    }

    /// A fresh core: no connection, no accept outstanding, an empty pool,
    /// empty fixed buffers, and the shared accept sentinel registered in
    /// the table.
    pub fn new(listener_fd: i32, accept_capacity: usize, buf_size: usize, fixed_capacity: usize)
        -> (r: ServerCore)
        ensures
            r.wf(),
            r.conns.count == 0,
            r.conns.capacity == accept_capacity,
            r.conns.entry == (OpDesc::Accept { listener_fd, token: r.accept_token }),
            r.table.token_valid(r.accept_token),
            forall|t: Token| t != r.accept_token ==> !r.table.token_valid(t),
            r.pool.free@ =~= Seq::<usize>::empty(),
            r.pool.entries() =~= Map::<int, Seq<u8>>::empty(),
            r.pool.buf_size == buf_size,
            r.fixed@.len() == RESOURCE_COUNT,
            forall|i: int| 0 <= i < RESOURCE_COUNT ==> #[trigger] r.fixed@[i]@ =~= Seq::<
                u8,
            >::empty(),
            r.fixed_capacity == fixed_capacity,
    {
        let mut table = SlotTable::new();
        let accept_token = table.insert(ConnState::Accepting);
        let conns = ConnectionSlots::new(listener_fd, accept_token, 0, accept_capacity);
        let pool = BufferPool::new(buf_size, 32);
        let mut fixed: Vec<Vec<u8>> = Vec::new();
        fixed.push(Vec::new());
        fixed.push(Vec::new());
        let r = ServerCore { conns, pool, table, fixed, fixed_capacity, accept_token };
        proof {
            assert(r.fixed@[0]@ =~= Seq::<u8>::empty());
            assert(r.fixed@[1]@ =~= Seq::<u8>::empty());
        }
        r
    }

    /// Advance the connection a completion record belongs to.
    ///
    /// The transition applied is a function of the token's state and the
    /// record's result; the ensures below walk them case by case. Every
    /// exit path reclaims exactly what the connection owned: its token,
    /// and its buffer handle exactly once, if it held one.
    pub fn handle_completion(&mut self, proxy: &mut RingProxy, c: Completion) -> (r: Result<
        StepOutcome,
        CoreError,
    >)
        requires
            old(self).wf(),
            old(proxy).wf(),
        ensures
            final(self).wf(),
            final(proxy).wf(),
            Self::frame(*old(self), *final(self)),
            final(proxy).sq_capacity == old(proxy).sq_capacity,
            // A token that resolves to no state is refused, and nothing moves.
            !old(self).table.token_valid(c.token) ==> r == Err::<StepOutcome, CoreError>(
                CoreError::StaleToken,
            ) && tokens_preserved(old(self).table, final(self).table) && pool_preserved(
                old(self).pool,
                final(self).pool,
            ) && final(self).conns.count == old(self).conns.count && proxy_unchanged(
                *old(proxy),
                *final(proxy),
            ),
            r == Err::<StepOutcome, CoreError>(CoreError::StaleToken) ==> !old(
                self,
            ).table.token_valid(c.token),
            // Accept completion: give the admission slot back; admit the new
            // socket unless the slot table cannot fit one more connection.
            old(self).table.token_valid(c.token) && old(self).table.state_of(c.token)
                is Accepting ==> ({
                let pre = *old(self);
                if pre.conns.count == 0 {
                    r == Err::<StepOutcome, CoreError>(CoreError::AcceptUnderflow)
                        && tokens_preserved(pre.table, final(self).table) && pool_preserved(
                        pre.pool,
                        final(self).pool,
                    ) && final(self).conns.count == pre.conns.count && proxy_unchanged(
                        *old(proxy),
                        *final(proxy),
                    )
                } else if c.result < 0 {
                    r == Ok::<StepOutcome, CoreError>(StepOutcome::Proceed) && tokens_preserved(
                        pre.table,
                        final(self).table,
                    ) && pool_preserved(pre.pool, final(self).pool) && final(self).conns.count
                        == pre.conns.count - 1 && proxy_unchanged(*old(proxy), *final(proxy))
                } else if pre.table.slots@.len() >= MAX_SLOTS {
                    r == Ok::<StepOutcome, CoreError>(StepOutcome::CloseSocket { fd: c.result })
                        && tokens_preserved(pre.table, final(self).table) && pool_preserved(
                        pre.pool,
                        final(self).pool,
                    ) && final(self).conns.count == pre.conns.count - 1 && proxy_unchanged(
                        *old(proxy),
                        *final(proxy),
                    )
                } else {
                    &&& r matches Ok(StepOutcome::Accepted { token: tn, fd }) && fd == c.result
                        && !pre.table.token_valid(tn) && final(self).table.token_valid(tn) && final(self).table.state_of(tn) == (ConnState::AwaitingReadable { socket: c.result })
                        && tokens_preserved_except(pre.table, final(self).table, tn) && pushed_one(
                        *old(proxy),
                        *final(proxy),
                        OpDesc::PollAdd { fd: c.result, token: tn },
                    )
                    &&& pool_preserved(pre.pool, final(self).pool)
                    &&& final(self).conns.count == pre.conns.count - 1
                }
            }),
            // Readiness completion: claim a buffer and issue the receive,
            // or tear the connection down on a failed watch.
            old(self).table.token_valid(c.token) ==> (old(self).table.state_of(
                c.token,
            ) matches ConnState::AwaitingReadable { socket } ==> ({
                let pre = *old(self);
                if c.result < 0 {
                    r == Ok::<StepOutcome, CoreError>(StepOutcome::CloseSocket { fd: socket })
                        && !final(self).table.token_valid(c.token) && tokens_preserved_except(
                        pre.table,
                        final(self).table,
                        c.token,
                    ) && pool_preserved(pre.pool, final(self).pool) && final(self).conns.count
                        == pre.conns.count && proxy_unchanged(*old(proxy), *final(proxy))
                } else {
                    &&& r == Ok::<StepOutcome, CoreError>(StepOutcome::Proceed)
                    &&& final(self).table.token_valid(c.token)
                    &&& final(self).table.state_of(c.token) matches ConnState::Receiving {
                        socket: s2,
                        buffer_handle: h,
                    } && s2 == socket && !pre.pool.in_use(h) && final(self).pool.in_use(h)
                        && pushed_one(
                        *old(proxy),
                        *final(proxy),
                        OpDesc::Recv { fd: socket, buf: h, len: pre.pool.buf_size, token: c.token },
                    ) && (forall|g: usize|
                        g != h ==> (final(self).pool.in_use(g) <==> pre.pool.in_use(g))) && (
                    forall|g: usize|
                        #[trigger] pre.pool.is_allocated(g) && g != h ==> final(self).pool.entries()[g as int] == pre.pool.entries()[g as int])
                    &&& tokens_preserved_except(pre.table, final(self).table, c.token)
                    &&& final(self).conns.count == pre.conns.count
                }
            })),
            // Receive completion: zero bytes is the peer's close — reclaim
            // everything; data decodes to a status and starts the fixed
            // read of the resolved resource, the receive buffer going back
            // to the pool at once.
            old(self).table.token_valid(c.token) ==> (old(self).table.state_of(
                c.token,
            ) matches ConnState::Receiving { socket, buffer_handle } ==> ({
                let pre = *old(self);
                if c.result <= 0 {
                    r == Ok::<StepOutcome, CoreError>(StepOutcome::CloseSocket { fd: socket })
                        && !final(self).table.token_valid(c.token) && tokens_preserved_except(
                        pre.table,
                        final(self).table,
                        c.token,
                    ) && final(self).pool.free@ == pre.pool.free@.push(buffer_handle) && !final(self).pool.in_use(buffer_handle) && final(self).pool.entries() == pre.pool.entries()
                        && final(self).conns.count == pre.conns.count && proxy_unchanged(
                        *old(proxy),
                        *final(proxy),
                    )
                } else {
                    let req = pre.pool.entries()[buffer_handle as int];
                    let st = http::decoded_status(req);
                    let reg = http::resource_index(st);
                    &&& r == Ok::<StepOutcome, CoreError>(StepOutcome::Proceed)
                    &&& final(self).table.token_valid(c.token)
                    &&& final(self).table.state_of(c.token) matches ConnState::ReadingResource {
                        socket: s2,
                        status,
                        resource_handle,
                    } && s2 == socket && status == st && resource_handle == reg
                    &&& final(self).pool.free@ == pre.pool.free@.push(buffer_handle)
                    &&& !final(self).pool.in_use(buffer_handle)
                    &&& final(self).pool.entries() == pre.pool.entries()
                    &&& pushed_one(
                        *old(proxy),
                        *final(proxy),
                        OpDesc::ReadFixed {
                            reg_idx: reg as usize,
                            len: pre.fixed_capacity,
                            token: c.token,
                        },
                    )
                    &&& tokens_preserved_except(pre.table, final(self).table, c.token)
                    &&& final(self).conns.count == pre.conns.count
                }
            })),
            // Fixed-read completion: format the response for the resolved
            // status around the resource bytes just read, stage its send.
            old(self).table.token_valid(c.token) ==> (old(self).table.state_of(
                c.token,
            ) matches ConnState::ReadingResource { socket, status, resource_handle } ==> ({
                let pre = *old(self);
                if c.result < 0 {
                    r == Ok::<StepOutcome, CoreError>(StepOutcome::CloseSocket { fd: socket })
                        && !final(self).table.token_valid(c.token) && tokens_preserved_except(
                        pre.table,
                        final(self).table,
                        c.token,
                    ) && pool_preserved(pre.pool, final(self).pool) && final(self).conns.count
                        == pre.conns.count && proxy_unchanged(*old(proxy), *final(proxy))
                } else if c.result > pre.fixed@[resource_handle as int]@.len() {
                    r == Err::<StepOutcome, CoreError>(CoreError::BadCompletion)
                        && tokens_preserved(pre.table, final(self).table) && pool_preserved(
                        pre.pool,
                        final(self).pool,
                    ) && final(self).conns.count == pre.conns.count && proxy_unchanged(
                        *old(proxy),
                        *final(proxy),
                    )
                } else {
                    let body = pre.fixed@[resource_handle as int]@.take(c.result as int);
                    let resp = http::response_bytes(status as int, c.result as nat, body);
                    &&& r == Ok::<StepOutcome, CoreError>(StepOutcome::Proceed)
                    &&& final(self).table.token_valid(c.token)
                    &&& final(self).table.state_of(c.token) matches ConnState::Sending {
                        socket: s2,
                        buffer_handle: h2,
                        offset,
                        total_len,
                    } && s2 == socket && offset == 0 && total_len == resp.len() && !pre.pool.in_use(
                        h2,
                    ) && final(self).pool.in_use(h2) && final(self).pool.entries()[h2 as int]
                        == resp && pushed_one(
                        *old(proxy),
                        *final(proxy),
                        OpDesc::Send {
                            fd: socket,
                            buf: h2,
                            offset: 0,
                            len: resp.len() as usize,
                            token: c.token,
                        },
                    ) && (forall|g: usize|
                        g != h2 ==> (final(self).pool.in_use(g) <==> pre.pool.in_use(g))) && (
                    forall|g: usize|
                        #[trigger] pre.pool.is_allocated(g) && g != h2 ==> final(self).pool.entries()[g as int] == pre.pool.entries()[g as int])
                    &&& tokens_preserved_except(pre.table, final(self).table, c.token)
                    &&& final(self).conns.count == pre.conns.count
                }
            })),
            // Send completion: advance by exactly the bytes reported; when
            // everything is out, release the buffer and re-arm the
            // readiness watch — the connection persists.
            old(self).table.token_valid(c.token) ==> (old(self).table.state_of(
                c.token,
            ) matches ConnState::Sending { socket, buffer_handle, offset, total_len } ==> ({
                let pre = *old(self);
                if c.result < 0 {
                    r == Ok::<StepOutcome, CoreError>(StepOutcome::CloseSocket { fd: socket })
                        && !final(self).table.token_valid(c.token) && tokens_preserved_except(
                        pre.table,
                        final(self).table,
                        c.token,
                    ) && final(self).pool.free@ == pre.pool.free@.push(buffer_handle) && !final(self).pool.in_use(buffer_handle) && final(self).pool.entries() == pre.pool.entries()
                        && final(self).conns.count == pre.conns.count && proxy_unchanged(
                        *old(proxy),
                        *final(proxy),
                    )
                } else if c.result > total_len - offset {
                    r == Err::<StepOutcome, CoreError>(CoreError::BadCompletion)
                        && tokens_preserved(pre.table, final(self).table) && pool_preserved(
                        pre.pool,
                        final(self).pool,
                    ) && final(self).conns.count == pre.conns.count && proxy_unchanged(
                        *old(proxy),
                        *final(proxy),
                    )
                } else if offset + c.result == total_len {
                    &&& r == Ok::<StepOutcome, CoreError>(StepOutcome::Proceed)
                    &&& final(self).table.token_valid(c.token)
                    &&& final(self).table.state_of(c.token) == (ConnState::AwaitingReadable {
                        socket,
                    })
                    &&& final(self).pool.free@ == pre.pool.free@.push(buffer_handle)
                    &&& !final(self).pool.in_use(buffer_handle)
                    &&& final(self).pool.entries() == pre.pool.entries()
                    &&& pushed_one(
                        *old(proxy),
                        *final(proxy),
                        OpDesc::PollAdd { fd: socket, token: c.token },
                    )
                    &&& tokens_preserved_except(pre.table, final(self).table, c.token)
                    &&& final(self).conns.count == pre.conns.count
                } else {
                    &&& r == Ok::<StepOutcome, CoreError>(StepOutcome::Proceed)
                    &&& final(self).table.token_valid(c.token)
                    &&& final(self).table.state_of(c.token) == (ConnState::Sending {
                        socket,
                        buffer_handle,
                        offset: (offset + c.result) as usize,
                        total_len,
                    })
                    &&& pool_preserved(pre.pool, final(self).pool)
                    &&& pushed_one(
                        *old(proxy),
                        *final(proxy),
                        OpDesc::Send {
                            fd: socket,
                            buf: buffer_handle,
                            offset: (offset + c.result) as usize,
                            len: (total_len - offset - c.result) as usize,
                            token: c.token,
                        },
                    )
                    &&& tokens_preserved_except(pre.table, final(self).table, c.token)
                    &&& final(self).conns.count == pre.conns.count
                }
            })),
    {
        let state = match self.table.resolve(c.token) {
            Some(s) => s,
            None => {
                return Err(CoreError::StaleToken);
            },
        };
        match state {
            ConnState::Accepting => {
                if self.conns.is_empty() {
                    return Err(CoreError::AcceptUnderflow);
                }
                self.conns.produce_slot();
                if c.result < 0 {
                    return Ok(StepOutcome::Proceed);
                }
                let fd = c.result;
                if self.table.slots.len() >= MAX_SLOTS {
                    return Ok(StepOutcome::CloseSocket { fd });
                }
                let tn = self.table.insert(ConnState::AwaitingReadable { socket: fd });
                proxy.push_sqe(OpDesc::PollAdd { fd, token: tn });
                proof {
                    lemma_wf_after_table_change(*old(self), *self, tn, None);
                }
                Ok(StepOutcome::Accepted { token: tn, fd })
            },
            ConnState::AwaitingReadable { socket } => {
                if c.result < 0 {
                    self.table.remove(c.token);
                    proof {
                        lemma_wf_after_table_change(*old(self), *self, c.token, None);
                    }
                    return Ok(StepOutcome::CloseSocket { fd: socket });
                }
                let h = self.pool.acquire();
                let blen = self.pool.buf_size;
                proxy.push_sqe(OpDesc::Recv { fd: socket, buf: h, len: blen, token: c.token });
                self.table.update(
                    c.token,
                    ConnState::Receiving { socket, buffer_handle: h },
                );
                proof {
                    lemma_wf_after_claim(*old(self), *self, c.token, h);
                }
                Ok(StepOutcome::Proceed)
            },
            ConnState::Receiving { socket, buffer_handle } => {
                proof {
                    assert(old(self).state_ok(old(self).table.state_of(c.token)));
                    assert(self.pool.in_use(buffer_handle));
                }
                if c.result <= 0 {
                    self.pool.release(buffer_handle);
                    self.table.remove(c.token);
                    proof {
                        lemma_wf_after_table_change(*old(self), *self, c.token, Some(buffer_handle));
                    }
                    return Ok(StepOutcome::CloseSocket { fd: socket });
                }
                let status = {
                    let req = self.pool.read(buffer_handle);
                    let (status, _file) = http::decode_request(req.as_slice());
                    status
                };
                let reg = http::resource_for_status(status);
                self.pool.release(buffer_handle);
                let fl = self.fixed_capacity;
                proxy.push_sqe(OpDesc::ReadFixed { reg_idx: reg, len: fl, token: c.token });
                self.table.update(
                    c.token,
                    ConnState::ReadingResource { socket, status, resource_handle: reg },
                );
                proof {
                    lemma_wf_after_table_change(*old(self), *self, c.token, Some(buffer_handle));
                }
                Ok(StepOutcome::Proceed)
            },
            ConnState::ReadingResource { socket, status, resource_handle } => {
                proof {
                    assert(old(self).state_ok(old(self).table.state_of(c.token)));
                }
                if c.result < 0 {
                    self.table.remove(c.token);
                    proof {
                        lemma_wf_after_table_change(*old(self), *self, c.token, None);
                    }
                    return Ok(StepOutcome::CloseSocket { fd: socket });
                }
                let n = c.result as usize;
                if n > self.fixed[resource_handle].len() {
                    return Err(CoreError::BadCompletion);
                }
                let body = copy_prefix(&self.fixed[resource_handle], n);
                let h2 = self.pool.acquire();
                let mut resp: Vec<u8> = Vec::new();
                http::format_response(status, n, body.as_slice(), &mut resp);
                let total = resp.len();
                self.pool.write(h2, resp);
                proxy.push_sqe(
                    OpDesc::Send { fd: socket, buf: h2, offset: 0, len: total, token: c.token },
                );
                self.table.update(
                    c.token,
                    ConnState::Sending { socket, buffer_handle: h2, offset: 0, total_len: total },
                );
                proof {
                    lemma_wf_after_claim(*old(self), *self, c.token, h2);
                }
                Ok(StepOutcome::Proceed)
            },
            ConnState::Sending { socket, buffer_handle, offset, total_len } => {
                proof {
                    assert(old(self).state_ok(old(self).table.state_of(c.token)));
                    assert(self.pool.in_use(buffer_handle));
                    assert(offset <= total_len);
                }
                if c.result < 0 {
                    self.pool.release(buffer_handle);
                    self.table.remove(c.token);
                    proof {
                        lemma_wf_after_table_change(*old(self), *self, c.token, Some(buffer_handle));
                    }
                    return Ok(StepOutcome::CloseSocket { fd: socket });
                }
                let w = c.result as usize;
                if w > total_len - offset {
                    return Err(CoreError::BadCompletion);
                }
                let new_off = offset + w;
                if new_off >= total_len {
                    self.pool.release(buffer_handle);
                    proxy.push_sqe(OpDesc::PollAdd { fd: socket, token: c.token });
                    self.table.update(c.token, ConnState::AwaitingReadable { socket });
                    proof {
                        lemma_wf_after_table_change(*old(self), *self, c.token, Some(buffer_handle));
                    }
                    Ok(StepOutcome::Proceed)
                } else {
                    proxy.push_sqe(
                        OpDesc::Send {
                            fd: socket,
                            buf: buffer_handle,
                            offset: new_off,
                            len: total_len - new_off,
                            token: c.token,
                        },
                    );
                    self.table.update(
                        c.token,
                        ConnState::Sending {
                            socket,
                            buffer_handle,
                            offset: new_off,
                            total_len,
                        },
                    );
                    proof {
                        lemma_wf_after_same_handle(*old(self), *self, c.token, buffer_handle);
                    }
                    Ok(StepOutcome::Proceed)
                }
            },
        }
    }
}

/// Copy the first `n` bytes of a buffer.
fn copy_prefix(src: &Vec<u8>, n: usize) -> (r: Vec<u8>)
    requires
        n <= src@.len(),
    ensures
        r@ == src@.take(n as int),
{
    let mut out: Vec<u8> = Vec::new();
    let mut i: usize = 0;
    while i < n
        invariant
            i <= n <= src@.len(),
            out@ == src@.take(i as int),
        decreases n - i,
    {
        out.push(src[i]);
        i += 1;
        assert(out@ =~= src@.take(i as int));
    }
    out
}

/// Re-establish the core invariant after a transition that changed one
/// token's state to one that owns no buffer handle (or removed it),
/// releasing at most the handle that token held before.
proof fn lemma_wf_after_table_change(
    pre: ServerCore,
    post: ServerCore,
    t: Token,
    released: Option<usize>,
)
    requires
        pre.wf(),
        post.conns.wf(),
        post.conns.entry == pre.conns.entry,
        post.pool.wf(),
        post.table.wf(),
        post.fixed@ == pre.fixed@,
        post.accept_token == pre.accept_token,
        tokens_preserved_except(pre.table, post.table, t),
        post.table.token_valid(t) ==> post.table.state_of(t).buffer_handle() is None
            && post.state_ok(post.table.state_of(t)),
        t != pre.accept_token ==> post.table.token_valid(pre.accept_token) && post.table.state_of(
            pre.accept_token,
        ) == pre.table.state_of(pre.accept_token),
        t == pre.accept_token ==> post.table.token_valid(t) && post.table.state_of(t)
            == pre.table.state_of(t),
        released matches Some(h) ==> pre.table.token_valid(t) && pre.table.state_of(
            t,
        ).buffer_handle() == Some(h),
        forall|g: usize|
            released matches Some(h) && g != h ==> (post.pool.in_use(g) <==> pre.pool.in_use(g)),
        released is None ==> forall|g: usize| post.pool.in_use(g) <==> pre.pool.in_use(g),
    ensures
        post.wf(),
{
    assert forall|t2: Token| #[trigger] post.table.token_valid(t2) implies post.state_ok(
        post.table.state_of(t2),
    ) by {
        if t2 != t {
            assert(pre.table.token_valid(t2));
            assert(post.table.state_of(t2) == pre.table.state_of(t2));
            assert(pre.state_ok(pre.table.state_of(t2)));
            match pre.table.state_of(t2) {
                ConnState::Receiving { buffer_handle, .. } => {
                    assert(pre.pool.in_use(buffer_handle));
                    match released {
                        Some(h) => {
                            assert(buffer_handle != h);
                        },
                        None => {},
                    }
                },
                ConnState::Sending { buffer_handle, .. } => {
                    assert(pre.pool.in_use(buffer_handle));
                    match released {
                        Some(h) => {
                            assert(buffer_handle != h);
                        },
                        None => {},
                    }
                },
                _ => {},
            }
        }
    }
    assert(post.handles_exclusive()) by {
        assert forall|t1: Token, t2: Token|
            #[trigger] post.table.token_valid(t1) && #[trigger] post.table.token_valid(t2) && t1
                != t2 && post.table.state_of(t1).buffer_handle() is Some && post.table.state_of(
                t2,
            ).buffer_handle() is Some implies post.table.state_of(t1).buffer_handle()
            != post.table.state_of(t2).buffer_handle() by {
            if t1 != t && t2 != t {
                assert(pre.table.token_valid(t1) && pre.table.token_valid(t2));
            }
        }
    }
}

/// Re-establish the core invariant after a transition that left one
/// token holding a buffer handle it did not hold before — the handle was
/// not in use, so nobody else holds it.
proof fn lemma_wf_after_claim(pre: ServerCore, post: ServerCore, t: Token, h: usize)
    requires
        pre.wf(),
        post.conns.wf(),
        post.conns.entry == pre.conns.entry,
        post.pool.wf(),
        post.table.wf(),
        post.fixed@ == pre.fixed@,
        post.accept_token == pre.accept_token,
        tokens_preserved_except(pre.table, post.table, t),
        post.table.token_valid(t),
        post.state_ok(post.table.state_of(t)),
        post.table.state_of(t).buffer_handle() == Some(h),
        !pre.pool.in_use(h),
        t != pre.accept_token,
        post.table.token_valid(pre.accept_token) && post.table.state_of(pre.accept_token)
            == pre.table.state_of(pre.accept_token),
        forall|g: usize| g != h ==> (post.pool.in_use(g) <==> pre.pool.in_use(g)),
    ensures
        post.wf(),
{
    assert forall|t2: Token| #[trigger] post.table.token_valid(t2) implies post.state_ok(
        post.table.state_of(t2),
    ) by {
        if t2 != t {
            assert(pre.table.token_valid(t2));
            assert(post.table.state_of(t2) == pre.table.state_of(t2));
            assert(pre.state_ok(pre.table.state_of(t2)));
            match pre.table.state_of(t2) {
                ConnState::Receiving { buffer_handle, .. } => {
                    assert(buffer_handle != h);
                },
                ConnState::Sending { buffer_handle, .. } => {
                    assert(buffer_handle != h);
                },
                _ => {},
            }
        }
    }
    assert(post.handles_exclusive()) by {
        assert forall|t1: Token, t2: Token|
            #[trigger] post.table.token_valid(t1) && #[trigger] post.table.token_valid(t2) && t1
                != t2 && post.table.state_of(t1).buffer_handle() is Some && post.table.state_of(
                t2,
            ).buffer_handle() is Some implies post.table.state_of(t1).buffer_handle()
            != post.table.state_of(t2).buffer_handle() by {
            if t1 != t && t2 != t {
                assert(pre.table.token_valid(t1) && pre.table.token_valid(t2));
            } else if t1 == t {
                assert(pre.table.token_valid(t2));
                assert(pre.state_ok(pre.table.state_of(t2)));
                match pre.table.state_of(t2) {
                    ConnState::Receiving { buffer_handle, .. } => {
                        assert(pre.pool.in_use(buffer_handle));
                    },
                    ConnState::Sending { buffer_handle, .. } => {
                        assert(pre.pool.in_use(buffer_handle));
                    },
                    _ => {},
                }
            } else {
                assert(pre.table.token_valid(t1));
                assert(pre.state_ok(pre.table.state_of(t1)));
                match pre.table.state_of(t1) {
                    ConnState::Receiving { buffer_handle, .. } => {
                        assert(pre.pool.in_use(buffer_handle));
                    },
                    ConnState::Sending { buffer_handle, .. } => {
                        assert(pre.pool.in_use(buffer_handle));
                    },
                    _ => {},
                }
            }
        }
    }
}

/// Re-establish the core invariant after a transition that kept one
/// token's buffer handle while the pool did not change.
proof fn lemma_wf_after_same_handle(pre: ServerCore, post: ServerCore, t: Token, h: usize)
    requires
        pre.wf(),
        post.conns.wf(),
        post.conns.entry == pre.conns.entry,
        post.pool.wf(),
        post.table.wf(),
        post.fixed@ == pre.fixed@,
        post.accept_token == pre.accept_token,
        tokens_preserved_except(pre.table, post.table, t),
        post.table.token_valid(t),
        post.state_ok(post.table.state_of(t)),
        post.table.state_of(t).buffer_handle() == Some(h),
        pre.table.token_valid(t),
        pre.table.state_of(t).buffer_handle() == Some(h),
        t != pre.accept_token,
        post.table.token_valid(pre.accept_token) && post.table.state_of(pre.accept_token)
            == pre.table.state_of(pre.accept_token),
        forall|g: usize| post.pool.in_use(g) <==> pre.pool.in_use(g),
    ensures
        post.wf(),
{
    assert forall|t2: Token| #[trigger] post.table.token_valid(t2) implies post.state_ok(
        post.table.state_of(t2),
    ) by {
        if t2 != t {
            assert(pre.table.token_valid(t2));
            assert(pre.state_ok(pre.table.state_of(t2)));
        }
    }
    assert(post.handles_exclusive()) by {
        assert forall|t1: Token, t2: Token|
            #[trigger] post.table.token_valid(t1) && #[trigger] post.table.token_valid(t2) && t1
                != t2 && post.table.state_of(t1).buffer_handle() is Some && post.table.state_of(
                t2,
            ).buffer_handle() is Some implies post.table.state_of(t1).buffer_handle()
            != post.table.state_of(t2).buffer_handle() by {
            if t1 != t && t2 != t {
                assert(pre.table.token_valid(t1) && pre.table.token_valid(t2));
            } else if t1 == t {
                assert(pre.table.token_valid(t2));
                assert(post.table.state_of(t2) == pre.table.state_of(t2));
            } else {
                assert(pre.table.token_valid(t1));
                assert(post.table.state_of(t1) == pre.table.state_of(t1));
            }
        }
    }
}

/// Buffer handle exclusivity, as a stated law: in any well-formed core,
/// two distinct live connections never own the same buffer handle — so
/// no two simultaneously outstanding operations reference the same
/// buffer, since every operation's buffer is the one its token's state
/// owns.
pub proof fn lemma_buffer_handle_exclusivity(core: ServerCore, t1: Token, t2: Token)
    requires
        core.wf(),
        core.table.token_valid(t1),
        core.table.token_valid(t2),
        t1 != t2,
        core.table.state_of(t1).buffer_handle() is Some,
        core.table.state_of(t2).buffer_handle() is Some,
    ensures
        core.table.state_of(t1).buffer_handle() != core.table.state_of(t2).buffer_handle(),
{
}

impl ServerCore {
    /// The one operation a live token has outstanding, read off its
    /// state. Each transition stages exactly this operation as it sets
    /// the state (see the ensures of [`ServerCore::handle_completion`]),
    /// and a token never has more than one operation in flight.
    pub open spec fn outstanding_op(self, t: Token) -> OpDesc {
        match self.table.state_of(t) {
            ConnState::Accepting => self.conns.entry,
            ConnState::AwaitingReadable { socket } => OpDesc::PollAdd { fd: socket, token: t },
            ConnState::Receiving { socket, buffer_handle } => OpDesc::Recv {
                fd: socket,
                buf: buffer_handle,
                len: self.pool.buf_size,
                token: t,
            },
            ConnState::ReadingResource { resource_handle, .. } => OpDesc::ReadFixed {
                reg_idx: resource_handle,
                len: self.fixed_capacity,
                token: t,
            },
            ConnState::Sending { socket, buffer_handle, offset, total_len } => OpDesc::Send {
                fd: socket,
                buf: buffer_handle,
                offset,
                len: (total_len - offset) as usize,
                token: t,
            },
        }
    }
}

/// Buffer handle exclusivity over operations: the outstanding operations
/// of two distinct live connections never reference the same buffer
/// handle, because an operation's buffer is exactly the one its token's
/// state owns.
pub proof fn lemma_outstanding_ops_exclusive(core: ServerCore, t1: Token, t2: Token)
    requires
        core.wf(),
        core.table.token_valid(t1),
        core.table.token_valid(t2),
        t1 != t2,
        core.outstanding_op(t1).spec_buf() is Some,
        core.outstanding_op(t2).spec_buf() is Some,
    ensures
        core.outstanding_op(t1).spec_buf() != core.outstanding_op(t2).spec_buf(),
{
    assert(core.outstanding_op(t1).spec_buf() == core.table.state_of(t1).buffer_handle());
    assert(core.outstanding_op(t2).spec_buf() == core.table.state_of(t2).buffer_handle());
    lemma_buffer_handle_exclusivity(core, t1, t2);
}

/// Bytes still to send after `k` send completions, each reporting the
/// smaller of `w` and whatever remains — the regime of a peer that takes
/// at most `w` bytes per round.
pub open spec fn bytes_left_after(rem: nat, w: nat, k: nat) -> nat
    decreases k,
{
    if k == 0 {
        rem
    } else if w <= rem {
        bytes_left_after((rem - w) as nat, w, (k - 1) as nat)
    } else {
        0
    }
}

/// Short-write convergence: as long as each send completion moves at
/// least one byte, the remainder shrinks every round, and `k` rounds of
/// `w` bytes with `k * w >= rem` leave nothing to send — at which point
/// the state machine leaves `Sending` (its transition releases the
/// buffer and re-arms the readiness watch exactly when the reported
/// bytes complete the total).
pub proof fn lemma_short_write_convergence(rem: nat, w: nat, k: nat)
    requires
        w >= 1,
        k * w >= rem,
    ensures
        bytes_left_after(rem, w, k) == 0,
    decreases k,
{
    if k == 0 {
        assert(k * w == 0) by (nonlinear_arith)
            requires
                k == 0,
        ;
    } else if w <= rem {
        assert((k - 1) * w == k * w - w) by (nonlinear_arith);
        lemma_short_write_convergence((rem - w) as nat, w, (k - 1) as nat);
    }
}

} // verus!
