use vstd::prelude::*;

verus! {

/// Exclusive access to the data protected by a delegation lock, handed to a
/// critical section while the lock (or the combiner acting for it) holds it.
pub struct DLockGuard<'a, T> {
    pub data: &'a mut T,
}

impl<'a, T> DLockGuard<'a, T> {
    /// Wraps the protected data for the duration of one critical section.
    pub fn new(data: &'a mut T) -> (g: DLockGuard<'a, T>)
        ensures
            *g.data == *old(data),
            *final(g.data) == *final(data),
    {
        DLockGuard { data }
    }

    /// Shared view of the protected data.
    pub fn get(&self) -> (r: &T)
        ensures
            *r == *old(self.data),
    {
        &*self.data
    }

    /// Replaces the protected data, consuming the guard.
    pub fn set(self, value: T)
        ensures
            *final(self.data) == value,
    {
        *self.data = value;
    }
}

} // verus!
