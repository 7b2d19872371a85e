use vstd::prelude::*;
use crate::error::LoadError;

verus! {

/// A counting pool of write permits: at most `capacity` writes hold one at a time.
#[derive(Debug)]
pub struct PermitPool {
    capacity: usize,
    available: usize,
}

/// The state of a permit pool: its size and how many permits are free.
pub struct PoolState {
    pub capacity: nat,
    pub available: nat,
}

impl PoolState {
    /// A pool has at least one permit and never more free than it has.
    pub open spec fn wf(self) -> bool {
        1 <= self.capacity && self.available <= self.capacity
    }

    /// How many permits are held.
    pub open spec fn held(self) -> int {
        self.capacity - self.available
    }
}

impl View for PermitPool {
    type V = PoolState;

    closed spec fn view(&self) -> PoolState {
        PoolState { capacity: self.capacity as nat, available: self.available as nat }
    }
}

impl PermitPool {
    /// A pool of `capacity` free permits; a capacity of zero is refused.
    pub fn new(capacity: usize) -> (r: Result<PermitPool, LoadError>)
        ensures
            capacity == 0 ==> r == Err::<PermitPool, LoadError>(LoadError::Configuration(capacity)),
            capacity > 0 ==> (r matches Ok(p) && p@.wf() && p@.capacity == capacity
                && p@.available == capacity),
    {
        if capacity == 0 {
            Err(LoadError::Configuration(capacity))
        } else {
            Ok(PermitPool { capacity, available: capacity })
        }
    }

    /// Takes a permit if one is free, and says whether it did.
    pub fn try_acquire(&mut self) -> (r: bool)
        requires
            old(self)@.wf(),
        ensures
            final(self)@.wf(),
            r == (old(self)@.available > 0),
            final(self)@.capacity == old(self)@.capacity,
            r ==> final(self)@.available == old(self)@.available - 1,
            !r ==> final(self)@ == old(self)@,
    {
        if self.available > 0 {
            self.available = self.available - 1;
            true
        } else {
            false
        }
    }

    /// Gives a held permit back, and says whether one was held.
    pub fn release(&mut self) -> (r: bool)
        requires
            old(self)@.wf(),
        ensures
            final(self)@.wf(),
            r == (old(self)@.held() > 0),
            final(self)@.capacity == old(self)@.capacity,
            r ==> final(self)@.available == old(self)@.available + 1,
            !r ==> final(self)@ == old(self)@,
    {
        if self.available < self.capacity {
            self.available = self.available + 1;
            true
        } else {
            false
        }
    }

    /// How many permits are held.
    pub fn held(&self) -> (r: usize)
        requires
            self@.wf(),
        ensures
            r == self@.held(),
    {
        self.capacity - self.available
    }

    /// The size of the pool.
    pub fn capacity(&self) -> (r: usize)
        ensures
            r == self@.capacity,
    {
        self.capacity
    }
}

} // verus!
