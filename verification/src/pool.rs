//! The object pool for reusable receive/send buffers.
//!
//! Buffers are addressed by stable integer handles so that entries can be
//! reused without invalidating in-flight operation identifiers. Storage is
//! a slab keyed by handle; reclaimed handles wait on a free list and are
//! handed out again before any fresh slot is allocated. A handle counts as
//! in use from `acquire` until `release`; the connection state machine
//! releases a handle only once the last operation that wrote or read
//! through it has completed.

use vstd::prelude::*;

verus! {

#[verifier::external_type_specification]
#[verifier::external_body]
#[verifier::reject_recursive_types(T)]
pub struct ExSlab<T>(slab::Slab<T>);

/// The occupied entries of a buffer slab: handle to buffer bytes.
pub uninterp spec fn slab_entries(s: slab::Slab<Vec<u8>>) -> Map<int, Seq<u8>>;

/// Relies on slab::Slab::with_capacity: the new slab contains no values.
#[verifier::external_body]
fn slab_with_capacity(capacity: usize) -> (r: slab::Slab<Vec<u8>>)
    ensures
        slab_entries(r) =~= Map::empty(),
{
    slab::Slab::with_capacity(capacity)
}

/// Relies on slab::Slab::insert: the value is stored under a key that was
/// vacant, and that key is returned.
#[verifier::external_body]
fn slab_insert(s: &mut slab::Slab<Vec<u8>>, val: Vec<u8>) -> (key: usize)
    ensures
        !slab_entries(*old(s)).dom().contains(key as int),
        slab_entries(*final(s)) == slab_entries(*old(s)).insert(key as int, val@),
{
    s.insert(val)
}

/// Relies on slab::Slab's Index impl: returns the value stored under an
/// occupied key (it panics on a vacant one, which the caller rules out).
#[verifier::external_body]
fn slab_get(s: &slab::Slab<Vec<u8>>, key: usize) -> (r: &Vec<u8>)
    requires
        slab_entries(*s).dom().contains(key as int),
    ensures
        r@ == slab_entries(*s)[key as int],
{
    &s[key]
}

/// Relies on slab::Slab's IndexMut impl: replaces the value stored under
/// an occupied key (it panics on a vacant one, which the caller rules out).
#[verifier::external_body]
fn slab_set(s: &mut slab::Slab<Vec<u8>>, key: usize, val: Vec<u8>)
    requires
        slab_entries(*old(s)).dom().contains(key as int),
    ensures
        slab_entries(*final(s)) == slab_entries(*old(s)).insert(key as int, val@),
{
    s[key] = val;
}

/// Handle-addressed buffer storage with a free list of reclaimed handles.
pub struct BufferPool {
    /// Backing storage; a handle is a key of this slab.
    pub storage: slab::Slab<Vec<u8>>,
    /// Reclaimed handles awaiting reuse, each allocated and listed once.
    pub free: Vec<usize>,
    /// Size a receive into one of these buffers may fill, in bytes.
    pub buf_size: usize,
}

impl BufferPool {
    /// Handle to buffer bytes, for every handle ever allocated.
    pub open spec fn entries(self) -> Map<int, Seq<u8>> {
        slab_entries(self.storage)
    }

    /// The handle has been allocated at some point (it may be free now).
    pub open spec fn is_allocated(self, h: usize) -> bool {
        self.entries().dom().contains(h as int)
    }

    /// The handle is allocated and not on the free list: some holder may
    /// still read or write through it.
    pub open spec fn in_use(self, h: usize) -> bool {
        self.is_allocated(h) && !self.free@.contains(h)
    }

    /// Free handles are allocated and listed at most once each.
    pub open spec fn wf(self) -> bool {
        &&& self.free@.no_duplicates()
        &&& forall|i: int|
            0 <= i < self.free@.len() ==> self.entries().dom().contains(
                #[trigger] self.free@[i] as int,
            )
    }

    /// An empty pool whose buffers will serve receives of up to
    /// `buf_size` bytes; `capacity` only pre-sizes the storage.
    pub fn new(buf_size: usize, capacity: usize) -> (r: BufferPool)
        ensures
            r.wf(),
            r.entries() == Map::<int, Seq<u8>>::empty(),
            r.free@ =~= Seq::<usize>::empty(),
            r.buf_size == buf_size,
    {
        BufferPool { storage: slab_with_capacity(capacity), free: Vec::new(), buf_size }
    }

    /// Claim a buffer handle: the most recently reclaimed one if any is
    /// free, else a fresh slot. The handle was not in use before the call
    /// and is in use after it; no other handle changes state, and no other
    /// buffer's bytes change.
    pub fn acquire(&mut self) -> (h: usize)
        requires
            old(self).wf(),
        ensures
            final(self).wf(),
            final(self).buf_size == old(self).buf_size,
            !old(self).in_use(h),
            final(self).in_use(h),
            final(self).is_allocated(h),
            forall|g: usize| g != h ==> (final(self).in_use(g) <==> old(self).in_use(g)),
            forall|g: usize|
                #[trigger] old(self).is_allocated(g) ==> final(self).is_allocated(g) && (g != h
                    ==> final(self).entries()[g as int] == old(self).entries()[g as int]),
    {
        match self.free.pop() {
            Some(h) => {
                proof {
                    assert(old(self).free@.last() == h);
                    assert(old(self).free@.contains(h));
                    assert forall|g: usize| g != h implies (final(self).in_use(g) <==> old(
                        self,
                    ).in_use(g)) by {
                        if old(self).free@.contains(g) {
                            let i = choose|i: int|
                                0 <= i < old(self).free@.len() && old(self).free@[i] == g;
                            assert(i < old(self).free@.len() - 1);
                            assert(self.free@[i] == g);
                        } else {
                            if self.free@.contains(g) {
                                let i = choose|i: int|
                                    0 <= i < self.free@.len() && self.free@[i] == g;
                                assert(old(self).free@[i] == g);
                            }
                        }
                    }
                }
                h
            },
            None => {
                let buf: Vec<u8> = Vec::new();
                slab_insert(&mut self.storage, buf)
            },
        }
    }

    /// Return a handle to the free list. Must be called only once the
    /// last operation referencing the buffer has completed, and only once
    /// per use period — both guaranteed by requiring the handle to be in
    /// use.
    pub fn release(&mut self, h: usize)
        requires
            old(self).wf(),
            old(self).in_use(h),
        ensures
            final(self).wf(),
            final(self).buf_size == old(self).buf_size,
            !final(self).in_use(h),
            final(self).is_allocated(h),
            final(self).free@ == old(self).free@.push(h),
            final(self).entries() == old(self).entries(),
            forall|g: usize| g != h ==> (final(self).in_use(g) <==> old(self).in_use(g)),
    {
        self.free.push(h);
        proof {
            assert(self.free@.last() == h);
            assert(self.free@.contains(h));
            assert forall|g: usize| g != h && old(self).in_use(g) implies final(self).in_use(
                g,
            ) by {
                if self.free@.contains(g) {
                    let i = choose|i: int| 0 <= i < self.free@.len() && self.free@[i] == g;
                    assert(i < self.free@.len() - 1);
                    assert(old(self).free@[i] == g);
                }
            }
            assert forall|g: usize| g != h && final(self).in_use(g) implies old(self).in_use(
                g,
            ) by {
                if old(self).free@.contains(g) {
                    let i = choose|i: int|
                        0 <= i < old(self).free@.len() && old(self).free@[i] == g;
                    assert(self.free@[i] == g);
                }
            }
        }
    }

    /// The bytes currently stored under an allocated handle.
    pub fn read(&self, h: usize) -> (r: &Vec<u8>)
        requires
            self.is_allocated(h),
        ensures
            r@ == self.entries()[h as int],
    {
        slab_get(&self.storage, h)
    }

    /// Replace the bytes stored under an allocated handle; the kernel shim
    /// uses this to land received bytes in the buffer an operation named.
    pub fn write(&mut self, h: usize, data: Vec<u8>)
        requires
            old(self).wf(),
            old(self).is_allocated(h),
        ensures
            final(self).wf(),
            final(self).buf_size == old(self).buf_size,
            final(self).free@ == old(self).free@,
            final(self).entries() == old(self).entries().insert(h as int, data@),
            forall|g: usize| final(self).in_use(g) <==> old(self).in_use(g),
    {
        slab_set(&mut self.storage, h, data);
    }
}

} // verus!
