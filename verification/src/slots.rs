//! Admission control: a bounded number of outstanding accept operations.
//!
//! One reusable accept template is pushed up to `capacity` times; every
//! accept completion gives a slot back. Pre-arming several accepts lets
//! the kernel absorb bursts of incoming connections without waiting for
//! the event loop to re-arm them one at a time.

use vstd::prelude::*;

use crate::ops::{OpDesc, Token};
use crate::ring::RingProxy;

verus! {

/// Count and bound of the outstanding accept operations, together with
/// the one submission template they all share.
pub struct ConnectionSlots {
    /// The accept operation pushed for every slot; all accepts share one
    /// correlation token, since completions are told apart by the socket
    /// they return, not by per-operation identity.
    pub entry: OpDesc,
    /// Accept operations currently outstanding.
    pub count: usize,
    /// Ceiling on `count`.
    pub capacity: usize,
}

impl ConnectionSlots {
    /// The number of outstanding accepts never exceeds the capacity.
    pub open spec fn wf(self) -> bool {
        self.count <= self.capacity
    }

    /// A controller for the listening socket `fd`, with `count` accepts
    /// already outstanding and room for `capacity` in total. All its
    /// accepts carry `token`, the shared accept sentinel.
    pub fn new(fd: i32, token: Token, count: usize, capacity: usize) -> (r: ConnectionSlots)
        requires
            count <= capacity,
        ensures
            r.wf(),
            r.entry == (OpDesc::Accept { listener_fd: fd, token }),
            r.count == count,
            r.capacity == capacity,
    {
        ConnectionSlots { entry: OpDesc::Accept { listener_fd: fd, token }, count, capacity }
    }

    /// Claim one slot: called for each accept operation pushed.
    fn consume_slot(&mut self)
        requires
            old(self).count < old(self).capacity,
        ensures
            final(self).count == old(self).count + 1,
            final(self).capacity == old(self).capacity,
            final(self).entry == old(self).entry,
    {
        self.count += 1;
    }

    /// Give one slot back: called exactly once per accept completion.
    pub fn produce_slot(&mut self)
        requires
            old(self).count >= 1,
        ensures
            final(self).count == old(self).count - 1,
            final(self).capacity == old(self).capacity,
            final(self).entry == old(self).entry,
    {
        self.count -= 1;
    }

    /// No accept is outstanding.
    pub fn is_empty(&self) -> (r: bool)
        ensures
            r == (self.count == 0),
    {
        self.count == 0
    }

    /// The admission bound is reached.
    pub fn is_full(&self) -> (r: bool)
        ensures
            r == (self.count == self.capacity),
    {
        self.count == self.capacity
    }

    /// Push up to `want` further accept operations, never exceeding the
    /// capacity: the count tops up to `min(count + want, capacity)`, and
    /// exactly that many copies of the template land in the proxy — in the
    /// staging area while it has room, in the backlog after that.
    pub fn spawn_slots(&mut self, want: usize, proxy: &mut RingProxy)
        requires
            old(self).wf(),
            old(proxy).wf(),
        ensures
            final(self).wf(),
            final(proxy).wf(),
            final(self).capacity == old(self).capacity,
            final(self).entry == old(self).entry,
            final(self).count == vstd::math::min(
                old(self).count + want,
                old(self).capacity as int,
            ),
            final(proxy).sq_capacity == old(proxy).sq_capacity,
            ({
                let k = final(self).count - old(self).count;
                let f = vstd::math::min(k, old(proxy).sq_capacity - old(proxy).sq@.len());
                &&& final(proxy).sq@ == old(proxy).sq@ + Seq::new(
                    f as nat,
                    |i: int| old(self).entry,
                )
                &&& final(proxy).backlog@ == old(proxy).backlog@ + Seq::new(
                    (k - f) as nat,
                    |i: int| old(self).entry,
                )
            }),
    {
        let ghost k = vstd::math::min(
            old(self).count + want,
            old(self).capacity as int,
        ) - old(self).count;
        let mut n: usize = 0;
        while n < want
            invariant
                self.wf(),
                self.capacity == old(self).capacity,
                self.entry == old(self).entry,
                proxy.wf(),
                proxy.sq_capacity == old(proxy).sq_capacity,
                n <= want,
                k == vstd::math::min(old(self).count + want, old(self).capacity as int) - old(
                    self,
                ).count,
                self.count == vstd::math::min(old(self).count + n, old(self).capacity as int),
                ({
                    let pushed = self.count - old(self).count;
                    let f = vstd::math::min(pushed, old(proxy).sq_capacity - old(proxy).sq@.len());
                    &&& proxy.sq@ == old(proxy).sq@ + Seq::new(f as nat, |i: int| old(self).entry)
                    &&& proxy.backlog@ == old(proxy).backlog@ + Seq::new(
                        (pushed - f) as nat,
                        |i: int| old(self).entry,
                    )
                }),
            decreases want - n,
        {
            if !self.is_full() {
                proxy.push_sqe(self.entry);
                self.consume_slot();
                proof {
                    let pushed = self.count - old(self).count;
                    let f = vstd::math::min(pushed, old(proxy).sq_capacity - old(proxy).sq@.len());
                    assert(proxy.sq@ =~= old(proxy).sq@ + Seq::new(
                        f as nat,
                        |i: int| old(self).entry,
                    ));
                    assert(proxy.backlog@ =~= old(proxy).backlog@ + Seq::new(
                        (pushed - f) as nat,
                        |i: int| old(self).entry,
                    ));
                }
            }
            n += 1;
        }
    }
}

/// Accept admission bound and re-top-up: starting from any well-formed
/// count, handing back the slot of a completed accept and then topping up
/// with enough headroom brings the outstanding count exactly back to the
/// capacity — and `spawn_slots` never takes it beyond the capacity, since
/// its result is capped by `min`.
pub proof fn lemma_top_up_reaches_capacity(count: int, capacity: int, want: int)
    requires
        1 <= count <= capacity,
        count - 1 + want >= capacity,
    ensures
        vstd::math::min((count - 1) + want, capacity) == capacity,
        vstd::math::min((count - 1) + want, capacity) <= capacity,
{
}

} // verus!
