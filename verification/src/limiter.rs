//! The permit pool that bounds concurrent in-flight requests.
//!
//! The client owns a fixed pool of permits; a caller holds one permit for
//! the whole request plus a short settlement window before it returns to
//! the pool, which keeps effective throughput inside the provider's quota
//! without tracking wall-clock windows.  This module is the pool's
//! accounting: however acquisitions and releases interleave, the number of
//! permits out at once never exceeds the pool's capacity.

use vstd::prelude::*;

verus! {

/// Milliseconds a used permit rests before returning to the pool.
pub const SETTLE_DELAY_MS: u64 = 200;

/// Default pool size: the provider's per-minute request allowance.
pub const DEFAULT_POOL_SIZE: usize = 300;

/// A fixed pool of capacity tokens.
pub struct PermitPool {
    capacity: usize,
    available: usize,
}

impl PermitPool {
    #[verifier::type_invariant]
    spec fn inv(self) -> bool {
        self.available <= self.capacity
    }

    /// The fixed pool size.
    pub closed spec fn spec_capacity(self) -> nat {
        self.capacity as nat
    }

    /// Permits currently held by callers.
    pub closed spec fn in_flight(self) -> nat {
        (self.capacity - self.available) as nat
    }

    /// A full pool of `capacity` permits.
    pub fn new(capacity: usize) -> (p: PermitPool)
        ensures
            p.spec_capacity() == capacity,
            p.in_flight() == 0,
    {
        PermitPool { capacity, available: capacity }
    }

    /// The fixed pool size.
    pub fn capacity(&self) -> (n: usize)
        ensures
            n == self.spec_capacity(),
    {
        self.capacity
    }

    /// Permits currently held by callers.
    pub fn permits_out(&self) -> (n: usize)
        ensures
            n == self.in_flight(),
    {
        proof {
            use_type_invariant(&*self);
        }
        self.capacity - self.available
    }

    /// Take a permit if one is free.  The pool never hands out more than
    /// its capacity: after any call, `in_flight() <= spec_capacity()`.
    pub fn try_acquire(&mut self) -> (granted: bool)
        ensures
            final(self).spec_capacity() == old(self).spec_capacity(),
            granted == (old(self).in_flight() < old(self).spec_capacity()),
            granted ==> final(self).in_flight() == old(self).in_flight() + 1,
            !granted ==> final(self).in_flight() == old(self).in_flight(),
            final(self).in_flight() <= final(self).spec_capacity(),
    {
        proof {
            use_type_invariant(&*self);
        }
        if self.available > 0 {
            self.available = self.available - 1;
            true
        } else {
            false
        }
    }

    /// Return a permit to the pool.  Returning one that was never handed
    /// out is ignored.
    pub fn release(&mut self) -> (returned: bool)
        ensures
            final(self).spec_capacity() == old(self).spec_capacity(),
            returned == (old(self).in_flight() > 0),
            returned ==> final(self).in_flight() == old(self).in_flight() - 1,
            !returned ==> final(self).in_flight() == old(self).in_flight(),
            final(self).in_flight() <= final(self).spec_capacity(),
    {
        proof {
            use_type_invariant(&*self);
        }
        if self.available < self.capacity {
            self.available = self.available + 1;
            true
        } else {
            false
        }
    }
}

/// One scheduling event seen by the pool.
#[derive(Clone, Copy, PartialEq, Eq, Structural, Debug)]
pub enum PermitEvent {
    Acquire,
    Release,
}

/// In-flight count after one event, as the pool's operations leave it.
pub open spec fn apply_event(cap: nat, inflight: nat, e: PermitEvent) -> nat {
    match e {
        PermitEvent::Acquire => if inflight < cap {
            inflight + 1
        } else {
            inflight
        },
        PermitEvent::Release => if inflight > 0 {
            (inflight - 1) as nat
        } else {
            0
        },
    }
}

/// In-flight count after a whole schedule of events.
pub open spec fn apply_events(cap: nat, inflight: nat, es: Seq<PermitEvent>) -> nat
    decreases es.len(),
{
    if es.len() == 0 {
        inflight
    } else {
        apply_events(cap, apply_event(cap, inflight, es[0]), es.drop_first())
    }
}

/// Under any schedule of acquisitions and releases, the number of permits
/// out at once never exceeds the pool's capacity.
pub proof fn lemma_permit_bound(cap: nat, inflight: nat, es: Seq<PermitEvent>)
    requires
        inflight <= cap,
    ensures
        apply_events(cap, inflight, es) <= cap,
    decreases es.len(),
{
    if es.len() > 0 {
        lemma_permit_bound(cap, apply_event(cap, inflight, es[0]), es.drop_first());
    }
}

} // verus!
