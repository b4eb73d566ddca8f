use vstd::prelude::*;

use crate::guard::DLockGuard;
use crate::spin_lock::SpinLock;

use std::sync::Mutex;

verus! {

/// A critical section handed to a delegation lock.
///
/// Callers implement it for the work they want done under the lock;
/// `applied` states what one run does: the delegate's own state after the
/// run, and the protected data after the run.
pub trait DLockDelegate<T>: Sized {
    spec fn applied(&self, data: T) -> (Self, T);

    fn apply(&mut self, guard: DLockGuard<'_, T>)
        ensures
            (*final(self), *final(guard.data)) == old(self).applied(*old(guard.data)),
    ;
}

/// A lock that runs critical sections on the data it protects.
pub trait DLock<T>: Sized {
    /// The protected data.
    spec fn protected(&self) -> T;

    /// The lock is free to take.
    spec fn ready(&self) -> bool;

    /// Runs `f` under the lock and hands it back after it ran.
    fn lock<F: DLockDelegate<T>>(&mut self, f: F) -> (r: F)
        requires
            old(self).ready(),
        ensures
            final(self).ready(),
            (r, final(self).protected()) == f.applied(old(self).protected()),
    ;
}

/// The data after running a sequence of critical sections, first to last.
pub open spec fn run_all<T, F: DLockDelegate<T>>(fs: Seq<F>, data: T) -> T
    decreases fs.len(),
{
    if fs.len() == 0 {
        data
    } else {
        fs.last().applied(run_all(fs.drop_last(), data)).1
    }
}

/// The counter benchmark's critical section: adds `amount` to the counter
/// and counts its own runs (both wrap around, as counters do).
#[derive(PartialEq, Eq, Structural, Clone, Copy, Debug)]
pub struct CounterJob {
    pub amount: u64,
    pub runs: u64,
}

impl DLockDelegate<u64> for CounterJob {
    open spec fn applied(&self, data: u64) -> (Self, u64) {
        (
            CounterJob { amount: self.amount, runs: vstd::wrapping::u64_specs::wrapping_add(self.runs, 1) },
            vstd::wrapping::u64_specs::wrapping_add(data, self.amount),
        )
    }

    fn apply(&mut self, guard: DLockGuard<'_, u64>) {
        let v = *guard.get();
        guard.set(v.wrapping_add(self.amount));
        self.runs = self.runs.wrapping_add(1);
    }
}

#[verifier::external_type_specification]
#[verifier::external_body]
#[verifier::reject_recursive_types(T)]
pub struct ExMutex<T: ?Sized>(Mutex<T>);

/// Locks that are not delegation locks, benchmarked for comparison.
#[verifier::reject_recursive_types(T)]
pub enum ThirdPartyLock<T> {
    Mutex(Mutex<T>),
    SpinLock(SpinLock<T>),
}

impl<T> ThirdPartyLock<T> {
    /// The lock's name in the reports.
    pub fn name(&self) -> (s: &'static str)
        ensures
            s@ == match self {
                ThirdPartyLock::Mutex(_) => "Mutex"@,
                ThirdPartyLock::SpinLock(_) => "SpinLock"@,
            },
    {
        match self {
            ThirdPartyLock::Mutex(_) => "Mutex",
            ThirdPartyLock::SpinLock(_) => "SpinLock",
        }
    }
}

} // verus!
