//! The admission controller: a counting permit pool that bounds how many
//! probe connection attempts may be outstanding at once across the whole
//! fleet, however wide the device/check/address fan-out is.

use vstd::prelude::*;

verus! {

/// The core's accounting of the permit pool. `try_acquire` hands a permit
/// out when one is free and `release` returns it; every probe must acquire
/// before connecting and release when its attempt concludes, on success,
/// failure and timeout alike. The guarantee is `in_flight() <= capacity()`
/// at every instant.
pub struct AdmissionController {
    capacity: usize,
    in_flight: usize,
}

impl AdmissionController {
    /// Permits handed out and not yet returned never exceed the capacity.
    pub closed spec fn wf(&self) -> bool {
        self.in_flight <= self.capacity
    }

    /// The configured ceiling on simultaneous connection attempts.
    pub closed spec fn capacity(&self) -> nat {
        self.capacity as nat
    }

    /// How many permits are currently handed out.
    pub closed spec fn in_flight(&self) -> nat {
        self.in_flight as nat
    }

    /// A fresh pool of the given capacity with no permit handed out.
    pub fn new(capacity: usize) -> (r: Self)
        ensures
            r.wf(),
            r.capacity() == capacity,
            r.in_flight() == 0,
    {
        AdmissionController { capacity, in_flight: 0 }
    }

    /// Grants a permit exactly when one is free; never oversubscribes the
    /// pool.
    pub fn try_acquire(&mut self) -> (granted: bool)
        requires
            old(self).wf(),
        ensures
            final(self).wf(),
            final(self).capacity() == old(self).capacity(),
            granted == (old(self).in_flight() < old(self).capacity()),
            granted ==> final(self).in_flight() == old(self).in_flight() + 1,
            !granted ==> final(self).in_flight() == old(self).in_flight(),
    {
        if self.in_flight < self.capacity {
            self.in_flight = self.in_flight + 1;
            true
        } else {
            false
        }
    }

    /// Returns one granted permit to the pool.
    pub fn release(&mut self)
        requires
            old(self).wf(),
            old(self).in_flight() >= 1,
        ensures
            final(self).wf(),
            final(self).capacity() == old(self).capacity(),
            final(self).in_flight() == old(self).in_flight() - 1,
    {
        self.in_flight = self.in_flight - 1;
    }

    /// How many permits are currently handed out.
    pub fn outstanding(&self) -> (n: usize)
        ensures
            n == self.in_flight(),
    {
        self.in_flight
    }

    /// The configured ceiling.
    pub fn limit(&self) -> (n: usize)
        ensures
            n == self.capacity(),
    {
        self.capacity
    }

    /// However many probes were requested, the number admitted at any
    /// instant is bounded by the configured capacity.
    pub proof fn lemma_admission_bounded(&self)
        requires
            self.wf(),
        ensures
            self.in_flight() <= self.capacity(),
    {
    }
}

} // verus!
