use vstd::prelude::*;

use crate::dlock::{DLock, DLockDelegate};
use crate::guard::DLockGuard;
use crate::RawSimpleLock;

verus! {

/// A test-and-set lock flag; `flag` is true while the lock is held.
pub struct RawSpinLock {
    pub flag: bool,
}

impl RawSpinLock {
    /// An unlocked flag.
    pub fn new() -> (l: Self)
        ensures
            !l.flag,
    {
        RawSpinLock { flag: false }
    }

    /// Takes the lock if it is free; reports whether it did.
    pub fn try_lock(&mut self) -> (acquired: bool)
        ensures
            (acquired, final(self).flag) == spin_try(old(self).flag),
    {
        if self.flag {
            false
        } else {
            self.flag = true;
            true
        }
    }

    /// Takes the lock; a held lock would make the caller spin forever.
    pub fn lock(&mut self)
        requires
            !old(self).flag,
        ensures
            final(self).flag,
    {
        let acquired = self.try_lock();
    }

    /// Releases the lock.
    pub fn unlock(&mut self)
        ensures
            !final(self).flag,
    {
        self.flag = false;
    }
}

impl RawSimpleLock for RawSpinLock {
    open spec fn is_locked(&self) -> bool {
        self.flag
    }

    fn new_lock() -> (l: Self) {
        RawSpinLock::new()
    }

    fn try_lock(&mut self) -> (acquired: bool) {
        RawSpinLock::try_lock(self)
    }

    fn unlock(&mut self) {
        RawSpinLock::unlock(self)
    }
}

/// One `try_lock` on a flag: whether it took the lock, and the flag after.
pub open spec fn spin_try(flag: bool) -> (bool, bool) {
    (!flag, true)
}

/// Law: one holder at a time. A `try_lock` leaves the lock held, whatever
/// it found, so every further `try_lock` fails until `unlock` clears the
/// flag; the first `try_lock` after an `unlock` succeeds.
pub proof fn law_spin_lock_one_holder(flag: bool, further: nat)
    ensures
        spin_try(flag).1,
        spin_try(spin_try(flag).1).0 == false,
        repeat_try(spin_try(flag).1, further) == (false, true),
        spin_try(false).0,
    decreases further,
{
    if further > 0 {
        law_spin_lock_one_holder(flag, (further - 1) as nat);
    }
}

/// `n` more `try_lock`s on a held flag: whether the last took it, and the
/// flag after; none leaves `(false, flag)`.
pub open spec fn repeat_try(flag: bool, n: nat) -> (bool, bool)
    decreases n,
{
    if n == 0 {
        (false, flag)
    } else {
        spin_try(repeat_try(flag, (n - 1) as nat).1)
    }
}

/// A spin lock protecting `data`.
pub struct SpinLock<T> {
    pub lock: RawSpinLock,
    pub data: T,
}

/// Access to a `SpinLock`'s data while it is held.
pub struct Guard<'s, T> {
    pub lock: &'s mut SpinLock<T>,
}

impl<T> SpinLock<T> {
    /// An unlocked spin lock protecting `data`.
    pub fn new(data: T) -> (l: Self)
        ensures
            !l.lock.flag,
            l.data == data,
    {
        SpinLock { lock: RawSpinLock::new(), data }
    }

    /// Takes the lock and returns the guard through which the data is
    /// reached; the lock must be free (a held one would spin forever).
    pub fn lock(&mut self) -> (g: Guard<'_, T>)
        requires
            !old(self).lock.flag,
        ensures
            g.lock.lock.flag,
            g.lock.data == old(self).data,
            *final(self) == *final(g.lock),
    {
        self.lock.lock();
        Guard { lock: self }
    }
}

impl<'s, T> Guard<'s, T> {
    /// The protected data.
    pub fn get(&self) -> (r: &T)
        ensures
            *r == old(self.lock).data,
    {
        &self.lock.data
    }

    /// Releases the lock, ending the guard.
    pub fn unlock(self)
        ensures
            !final(self.lock).lock.flag,
            final(self.lock).data == old(self.lock).data,
    {
        self.lock.lock.unlock();
    }
}

impl<T> DLock<T> for SpinLock<T> {
    open spec fn protected(&self) -> T {
        self.data
    }

    open spec fn ready(&self) -> bool {
        !self.lock.flag
    }

    /// Takes the lock, runs `f` on the data in place, releases the lock.
    fn lock<F: DLockDelegate<T>>(&mut self, f: F) -> (r: F) {
        let mut f = f;
        let mut guard = SpinLock::lock(self);
        f.apply(DLockGuard::new(&mut guard.lock.data));
        guard.unlock();
        f
    }
}

} // verus!
