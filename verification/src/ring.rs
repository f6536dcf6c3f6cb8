//! The ring proxy: staged submissions and the FIFO backlog.
//!
//! The proxy models the submission side of the kernel ring as a bounded
//! staging area. An operation pushed while the staging area is full is
//! never dropped: it is appended to the backlog instead and moved back in
//! first-in-first-out order once capacity frees up. The kernel shim takes
//! the staged entries with [`RingProxy::take_staged`], builds the real
//! submission-queue entries from them and submits; completions come back
//! to the library as [`crate::ops::Completion`] records.

use vstd::prelude::*;

use crate::ops::OpDesc;

verus! {

/// Submission staging area plus spill queue.
///
/// `sq` holds at most `sq_capacity` operations that are ready for the next
/// submit; `backlog` holds, oldest first, the operations that did not fit.
pub struct RingProxy {
    /// Operations staged for the next submit, oldest first.
    pub sq: Vec<OpDesc>,
    /// Bound on how many operations may be staged at once.
    pub sq_capacity: usize,
    /// Operations that did not fit in the staging area, oldest first.
    pub backlog: Vec<OpDesc>,
}

impl RingProxy {
    /// The staging area never exceeds its capacity.
    pub open spec fn wf(self) -> bool {
        self.sq@.len() <= self.sq_capacity
    }

    /// True when no further operation can be staged right now.
    pub open spec fn sq_full(self) -> bool {
        self.sq@.len() == self.sq_capacity
    }

    /// Every operation the proxy currently holds, in arrival order within
    /// each queue: the staged ones first, then the backlog.
    pub open spec fn pending(self) -> Seq<OpDesc> {
        self.sq@ + self.backlog@
    }

    /// A proxy for a ring whose submission side holds `entries` operations.
    ///
    /// `backlog_hint` only pre-sizes the spill queue; the backlog itself is
    /// unbounded, because a full submission side must never drop work.
    pub fn new(entries: usize, backlog_hint: usize) -> (r: Self)
        requires
            entries >= 1,
        ensures
            r.wf(),
            r.sq@ =~= Seq::<OpDesc>::empty(),
            r.backlog@ =~= Seq::<OpDesc>::empty(),
            r.sq_capacity == entries,
    {
        RingProxy { sq: Vec::new(), sq_capacity: entries, backlog: Vec::with_capacity(backlog_hint) }
    }

    /// Stage one operation, or divert it to the backlog when the staging
    /// area is full. The call never fails and never loses the operation.
    pub fn push_sqe(&mut self, op: OpDesc)
        requires
            old(self).wf(),
        ensures
            final(self).wf(),
            pushed_one(*old(self), *final(self), op),
            !old(self).sq_full() ==> final(self).sq@ == old(self).sq@.push(op)
                && final(self).backlog@ == old(self).backlog@,
            old(self).sq_full() ==> final(self).sq@ == old(self).sq@
                && final(self).backlog@ == old(self).backlog@.push(op),
    {
        if self.sq.len() < self.sq_capacity {
            self.sq.push(op);
        } else {
            self.backlog.push(op);
        }
    }

    /// Stage a batch all-or-nothing: if any operation would not fit, the
    /// whole batch goes to the backlog, so the batch is never split and
    /// its internal order is kept.
    pub fn push_multiple_sqes(&mut self, ops: &Vec<OpDesc>)
        requires
            old(self).wf(),
        ensures
            final(self).wf(),
            final(self).sq_capacity == old(self).sq_capacity,
            old(self).sq@.len() + ops@.len() <= old(self).sq_capacity ==> final(self).sq@
                == old(self).sq@ + ops@ && final(self).backlog@ == old(self).backlog@,
            old(self).sq@.len() + ops@.len() > old(self).sq_capacity ==> final(self).sq@ == old(
                self,
            ).sq@ && final(self).backlog@ == old(self).backlog@ + ops@,
    {
        if ops.len() <= self.sq_capacity - self.sq.len() {
            let mut i: usize = 0;
            while i < ops.len()
                invariant
                    i <= ops@.len(),
                    self.sq@ == old(self).sq@ + ops@.take(i as int),
                    self.sq@.len() + ops@.len() - i <= self.sq_capacity,
                    self.sq_capacity == old(self).sq_capacity,
                    self.backlog@ == old(self).backlog@,
                decreases ops@.len() - i,
            {
                self.sq.push(ops[i]);
                i += 1;
                assert(self.sq@ == old(self).sq@ + ops@.take(i as int));
            }
            assert(ops@.take(ops@.len() as int) == ops@);
        } else {
            let mut i: usize = 0;
            while i < ops.len()
                invariant
                    i <= ops@.len(),
                    self.backlog@ == old(self).backlog@ + ops@.take(i as int),
                    self.sq@ == old(self).sq@,
                    self.sq_capacity == old(self).sq_capacity,
                decreases ops@.len() - i,
            {
                self.backlog.push(ops[i]);
                i += 1;
                assert(self.backlog@ == old(self).backlog@ + ops@.take(i as int));
            }
            assert(ops@.take(ops@.len() as int) == ops@);
        }
    }

    /// Move backlogged operations into the staging area while there is
    /// room, oldest first. Exactly the longest prefix that fits moves; the
    /// rest stays behind in order, and nothing is lost.
    pub fn sched_backlog(&mut self)
        requires
            old(self).wf(),
        ensures
            final(self).wf(),
            final(self).sq_capacity == old(self).sq_capacity,
            ({
                let m = vstd::math::min(
                    old(self).sq_capacity - old(self).sq@.len(),
                    old(self).backlog@.len() as int,
                );
                &&& final(self).sq@ == old(self).sq@ + old(self).backlog@.take(m)
                &&& final(self).backlog@ == old(self).backlog@.skip(m)
            }),
            final(self).pending() == old(self).pending(),
            final(self).backlog@.len() > 0 ==> final(self).sq_full(),
    {
        let ghost m = vstd::math::min(
            self.sq_capacity - self.sq@.len(),
            self.backlog@.len() as int,
        );
        let mut moved: usize = 0;
        while self.sq.len() < self.sq_capacity && moved < self.backlog.len()
            invariant
                self.wf(),
                self.sq_capacity == old(self).sq_capacity,
                moved <= m,
                m <= self.backlog@.len(),
                self.backlog@ == old(self).backlog@,
                self.sq@ == old(self).sq@ + self.backlog@.take(moved as int),
                m == vstd::math::min(
                    old(self).sq_capacity - old(self).sq@.len(),
                    old(self).backlog@.len() as int,
                ),
            decreases self.sq_capacity - self.sq@.len(),
        {
            self.sq.push(self.backlog[moved]);
            moved += 1;
            assert(self.sq@ == old(self).sq@ + self.backlog@.take(moved as int));
        }
        assert(moved == m);
        let mut rest: Vec<OpDesc> = Vec::new();
        let mut i: usize = moved;
        while i < self.backlog.len()
            invariant
                moved <= i <= self.backlog@.len(),
                rest@ == self.backlog@.subrange(moved as int, i as int),
                self.backlog@ == old(self).backlog@,
            decreases self.backlog@.len() - i,
        {
            rest.push(self.backlog[i]);
            i += 1;
        }
        assert(rest@ == self.backlog@.skip(moved as int));
        self.backlog = rest;
        proof {
            assert(final(self).pending() == old(self).pending()) by {
                assert(old(self).backlog@.take(m) + old(self).backlog@.skip(m) == old(
                    self,
                ).backlog@);
                assert((old(self).sq@ + old(self).backlog@.take(m)) + old(self).backlog@.skip(m)
                    =~= old(self).sq@ + old(self).backlog@);
            }
        }
    }

    /// Hand the staged operations, in order, to the kernel shim for the
    /// actual submit; the staging area is empty afterwards and the backlog
    /// is untouched.
    pub fn take_staged(&mut self) -> (r: Vec<OpDesc>)
        requires
            old(self).wf(),
        ensures
            final(self).wf(),
            final(self).sq_capacity == old(self).sq_capacity,
            r@ == old(self).sq@,
            final(self).sq@ =~= Seq::<OpDesc>::empty(),
            final(self).backlog@ == old(self).backlog@,
    {
        let mut taken: Vec<OpDesc> = Vec::new();
        core::mem::swap(&mut taken, &mut self.sq);
        taken
    }
}

/// The operating system's "device or resource busy" error number: the
/// kernel's transient submit-pressure signal.
pub const EBUSY_CODE: i32 = 16;

/// Errors of a submit call that mean only "try again next round".
pub open spec fn transient_submit_error(code: i32) -> bool {
    code == EBUSY_CODE
}

/// Decide how a failed submit is treated: a busy ring counts as zero
/// submissions this round and the loop simply proceeds; every other
/// error is surfaced to the caller as fatal.
pub fn submit_retryable(raw_os_error: i32) -> (r: bool)
    ensures
        r == transient_submit_error(raw_os_error),
{
    raw_os_error == EBUSY_CODE
}

/// How [`RingProxy::push_sqe`] transforms the proxy: the operation went
/// to the staging area if it had room, to the backlog otherwise, and
/// nothing else moved. Contracts of callers that push one operation are
/// phrased over this relation.
pub open spec fn pushed_one(pre: RingProxy, post: RingProxy, op: OpDesc) -> bool {
    &&& post.sq_capacity == pre.sq_capacity
    &&& if pre.sq_full() {
        post.sq@ == pre.sq@ && post.backlog@ == pre.backlog@.push(op)
    } else {
        post.sq@ == pre.sq@.push(op) && post.backlog@ == pre.backlog@
    }
}

/// The proxy's queues did not change.
pub open spec fn proxy_unchanged(pre: RingProxy, post: RingProxy) -> bool {
    &&& post.sq_capacity == pre.sq_capacity
    &&& post.sq@ == pre.sq@
    &&& post.backlog@ == pre.backlog@
}

/// What remains in the backlog after `rounds` iterations of the event
/// loop, each of which submits the staged operations and then refills the
/// staging area with the next `cap` backlogged operations.
pub open spec fn backlog_after_rounds(b: Seq<OpDesc>, cap: int, rounds: nat) -> Seq<OpDesc>
    decreases rounds,
{
    if rounds == 0 {
        b
    } else {
        backlog_after_rounds(b.skip(vstd::math::min(cap, b.len() as int)), cap, (rounds - 1) as nat)
    }
}

/// What those same rounds have submitted, in order.
pub open spec fn submitted_after_rounds(b: Seq<OpDesc>, cap: int, rounds: nat) -> Seq<OpDesc>
    decreases rounds,
{
    if rounds == 0 {
        Seq::empty()
    } else {
        let m = vstd::math::min(cap, b.len() as int);
        b.take(m) + submitted_after_rounds(b.skip(m), cap, (rounds - 1) as nat)
    }
}

/// Backlog FIFO and no-loss: whatever the backlog holds is submitted in
/// its original order, none of it is dropped, and once enough loop rounds
/// have run (each freeing `cap >= 1` staging slots) the backlog is empty —
/// after `rounds` with `rounds * cap >= |b|`, everything submitted so far
/// is exactly `b`, in order.
pub proof fn lemma_backlog_fifo_no_loss(b: Seq<OpDesc>, cap: int, rounds: nat)
    requires
        cap >= 1,
    ensures
        submitted_after_rounds(b, cap, rounds) + backlog_after_rounds(b, cap, rounds) == b,
        rounds * cap >= b.len() ==> backlog_after_rounds(b, cap, rounds) == Seq::<
            OpDesc,
        >::empty() && submitted_after_rounds(b, cap, rounds) == b,
    decreases rounds,
{
    if rounds == 0 {
        assert(Seq::<OpDesc>::empty() + b =~= b);
    } else {
        let m = vstd::math::min(cap, b.len() as int);
        let rest = b.skip(m);
        lemma_backlog_fifo_no_loss(rest, cap, (rounds - 1) as nat);
        assert(b.take(m) + rest =~= b);
        assert(b.take(m) + (submitted_after_rounds(rest, cap, (rounds - 1) as nat)
            + backlog_after_rounds(rest, cap, (rounds - 1) as nat)) =~= (b.take(m)
            + submitted_after_rounds(rest, cap, (rounds - 1) as nat)) + backlog_after_rounds(
            rest,
            cap,
            (rounds - 1) as nat,
        ));
        if rounds * cap >= b.len() {
            assert((rounds - 1) * cap == rounds * cap - cap) by (nonlinear_arith);
            assert(rest.len() <= (rounds - 1) * cap);
            assert(submitted_after_rounds(b, cap, rounds) =~= b);
        }
    }
}

} // verus!
