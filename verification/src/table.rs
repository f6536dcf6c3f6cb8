//! Generation-checked slot table for connection state records.
//!
//! Tokens are slot index plus generation. A slot's generation is bumped
//! every time the slot is reused, so a token left over from a destroyed
//! connection does not resolve once its slot has been handed to a new
//! one: stale completions are caught instead of corrupting a neighbour.

use vstd::prelude::*;

use crate::conn::ConnState;
use crate::ops::Token;

verus! {

/// One slot: its current generation, and a state while it is occupied.
#[derive(Clone, Copy, PartialEq, Eq, Structural, Debug)]
pub struct Slot {
    pub gen: u32,
    pub state: Option<ConnState>,
}

/// Index-addressed arena of connection states with a free list.
pub struct SlotTable {
    /// The slots; a token's `idx` indexes this vector.
    pub slots: Vec<Slot>,
    /// Indices of the vacant slots, each listed exactly once.
    pub free: Vec<usize>,
}

impl SlotTable {
    /// The token names a slot that is live under the same generation.
    pub open spec fn token_valid(self, t: Token) -> bool {
        &&& t.idx < self.slots@.len()
        &&& self.slots@[t.idx as int].gen == t.gen
        &&& self.slots@[t.idx as int].state is Some
    }

    /// The state a valid token resolves to.
    pub open spec fn state_of(self, t: Token) -> ConnState {
        self.slots@[t.idx as int].state->Some_0
    }

    /// Vacant slots and free-list entries correspond one to one, and
    /// every index fits in a token.
    pub open spec fn wf(self) -> bool {
        &&& self.slots@.len() <= 0xffff_ffff
        &&& self.free@.no_duplicates()
        &&& forall|i: int|
            0 <= i < self.free@.len() ==> #[trigger] self.free@[i] < self.slots@.len()
                && self.slots@[self.free@[i] as int].state is None
        &&& forall|j: int|
            0 <= j < self.slots@.len() && self.slots@[j].state is None ==> self.free@.contains(
                j as usize,
            )
    }

    /// An empty table.
    pub fn new() -> (r: SlotTable)
        ensures
            r.wf(),
            r.slots@ =~= Seq::<Slot>::empty(),
            forall|t: Token| !r.token_valid(t),
    {
        SlotTable { slots: Vec::new(), free: Vec::new() }
    }

    /// Store a fresh state and hand out the token that names it. The
    /// token was not valid before the call (its slot was vacant, or did
    /// not exist); every token that was valid stays valid, unchanged.
    pub fn insert(&mut self, s: ConnState) -> (t: Token)
        requires
            old(self).wf(),
            old(self).slots@.len() < 0xffff_ffff,
        ensures
            final(self).wf(),
            final(self).token_valid(t),
            final(self).state_of(t) == s,
            !old(self).token_valid(t),
            forall|t2: Token|
                #[trigger] old(self).token_valid(t2) ==> final(self).token_valid(t2)
                    && final(self).state_of(t2) == old(self).state_of(t2) && t2 != t,
            forall|t2: Token|
                #[trigger] final(self).token_valid(t2) && t2 != t ==> old(self).token_valid(t2),
    {
        match self.free.pop() {
            Some(idx) => {
                proof {
                    assert(old(self).free@.last() == idx);
                    assert(old(self).free@.contains(idx));
                }
                let gen = self.slots[idx].gen.wrapping_add(1);
                self.slots[idx] = Slot { gen, state: Some(s) };
                let t = Token { idx: idx as u32, gen };
                proof {
                    assert forall|j: int|
                        0 <= j < self.slots@.len() && self.slots@[j].state is None implies self
                        .free@.contains(j as usize) by {
                        assert(old(self).free@.contains(j as usize));
                        let i = choose|i: int|
                            0 <= i < old(self).free@.len() && old(self).free@[i] == j as usize;
                        assert(i < old(self).free@.len() - 1);
                        assert(self.free@[i] == j as usize);
                    }
                    assert forall|i: int| 0 <= i < self.free@.len() implies #[trigger] self.free@[i]
                        < self.slots@.len() && self.slots@[self.free@[i] as int].state
                        is None by {
                        assert(old(self).free@[i] == self.free@[i]);
                        assert(old(self).free@[i] != idx);
                    }
                }
                t
            },
            None => {
                let idx = self.slots.len();
                self.slots.push(Slot { gen: 0, state: Some(s) });
                Token { idx: idx as u32, gen: 0 }
            },
        }
    }

    /// Replace the state a valid token resolves to; the token stays
    /// valid and every other token is untouched.
    pub fn update(&mut self, t: Token, s: ConnState)
        requires
            old(self).wf(),
            old(self).token_valid(t),
        ensures
            final(self).wf(),
            final(self).token_valid(t),
            final(self).state_of(t) == s,
            final(self).slots@.len() == old(self).slots@.len(),
            forall|t2: Token|
                t2 != t ==> (final(self).token_valid(t2) <==> old(self).token_valid(t2)),
            forall|t2: Token|
                t2 != t && #[trigger] old(self).token_valid(t2) ==> final(self).state_of(t2) == old(
                    self,
                ).state_of(t2),
    {
        let idx = t.idx as usize;
        let gen = self.slots[idx].gen;
        self.slots[idx] = Slot { gen, state: Some(s) };
        proof {
            assert forall|i: int| 0 <= i < self.free@.len() implies #[trigger] self.free@[i]
                < self.slots@.len() && self.slots@[self.free@[i] as int].state is None by {
                assert(old(self).free@[i] == self.free@[i]);
                assert(old(self).slots@[self.free@[i] as int].state is None);
            }
        }
    }

    /// Destroy the state a valid token resolves to and put its slot on
    /// the free list: the token no longer resolves, and every other token
    /// is untouched.
    pub fn remove(&mut self, t: Token)
        requires
            old(self).wf(),
            old(self).token_valid(t),
        ensures
            final(self).wf(),
            !final(self).token_valid(t),
            final(self).slots@.len() == old(self).slots@.len(),
            forall|t2: Token|
                t2 != t ==> (final(self).token_valid(t2) <==> old(self).token_valid(t2)),
            forall|t2: Token|
                t2 != t && #[trigger] old(self).token_valid(t2) ==> final(self).state_of(t2) == old(
                    self,
                ).state_of(t2),
    {
        let idx = t.idx as usize;
        let gen = self.slots[idx].gen;
        self.slots[idx] = Slot { gen, state: None };
        self.free.push(idx);
        proof {
            assert(self.free@.last() == idx);
            assert(self.free@.contains(idx));
            assert forall|i: int| 0 <= i < self.free@.len() implies #[trigger] self.free@[i]
                < self.slots@.len() && self.slots@[self.free@[i] as int].state is None by {
                if i < self.free@.len() - 1 {
                    assert(old(self).free@[i] == self.free@[i]);
                    assert(old(self).slots@[self.free@[i] as int].state is None);
                    assert(self.free@[i] != idx);
                }
            }
            assert(self.free@.no_duplicates()) by {
                assert(!old(self).free@.contains(idx));
                assert(forall|i: int|
                    0 <= i < old(self).free@.len() ==> self.free@[i] == #[trigger] old(
                        self,
                    ).free@[i]);
            }
            assert forall|j: int|
                0 <= j < self.slots@.len() && self.slots@[j].state is None implies self
                .free@.contains(j as usize) by {
                if j == idx {
                } else {
                    assert(old(self).slots@[j].state is None);
                    assert(old(self).free@.contains(j as usize));
                    let i = choose|i: int|
                        0 <= i < old(self).free@.len() && old(self).free@[i] == j as usize;
                    assert(self.free@[i] == j as usize);
                }
            }
        }
    }

    /// Look a token up: its state if it is valid, nothing otherwise.
    pub fn resolve(&self, t: Token) -> (r: Option<ConnState>)
        ensures
            r == if self.token_valid(t) {
                Some(self.state_of(t))
            } else {
                Option::<ConnState>::None
            },
    {
        let idx = t.idx as usize;
        if idx < self.slots.len() {
            let slot = &self.slots[idx];
            if slot.gen == t.gen {
                slot.state
            } else {
                None
            }
        } else {
            None
        }
    }
}

} // verus!
