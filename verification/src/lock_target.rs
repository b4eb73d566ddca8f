use vstd::prelude::*;

use std::sync::Mutex;

use crate::ccsynch::CCSynch;
use crate::dlock::DLockDelegate;
use crate::fc::FcLock;
use crate::fc_fair::{FairFcLock, FairStats};
use crate::fc_sl::{skip_map_entries, FcSL};
use crate::spin_lock::SpinLock;

verus! {

/// The locks the counter benchmark runs.
#[derive(PartialEq, Eq, Structural, Clone, Copy, Debug)]
pub enum LockTarget {
    /// Flat combining over a skip list ordered by combining time.
    FcSL,
    /// Flat combining.
    FcLock,
    /// Fair (banning) flat combining.
    FcFairBanLock,
    /// Fair (banning, combiner slice) flat combining.
    FcFairBanSliceLock,
    /// A spin lock.
    SpinLock,
    /// The standard mutex.
    Mutex,
    /// CCSynch.
    CCSynch,
    /// Remote core locking, which needs its server set up apart.
    RCL,
}

/// A counter lock of the benchmark, built for its first thread.
#[verifier::reject_recursive_types(F)]
pub enum LockType<F> {
    FcSL(FcSL<u64, F>),
    FcLock(FcLock<u64, F>),
    FcFairBanLock(FairFcLock<u64, F>),
    FcFairBanSliceLock(FairFcLock<u64, F>),
    SpinLock(SpinLock<u64>),
    Mutex(Mutex<u64>),
    CCSynch(CCSynch<u64, F>),
}

impl<F: DLockDelegate<u64>> LockType<F> {
    /// The target this lock was built for.
    pub open spec fn target(&self) -> LockTarget {
        match self {
            LockType::FcSL(_) => LockTarget::FcSL,
            LockType::FcLock(_) => LockTarget::FcLock,
            LockType::FcFairBanLock(_) => LockTarget::FcFairBanLock,
            LockType::FcFairBanSliceLock(_) => LockTarget::FcFairBanSliceLock,
            LockType::SpinLock(_) => LockTarget::SpinLock,
            LockType::Mutex(_) => LockTarget::Mutex,
            LockType::CCSynch(_) => LockTarget::CCSynch,
        }
    }

    /// The lock is as its constructor leaves it, protecting a zero counter
    /// (what a mutex holds is not visible here).
    pub open spec fn is_fresh(&self) -> bool {
        match self {
            LockType::FcSL(l) => {
                &&& l.wf()
                &&& l.data == 0
                &&& l.nodes@.len() == 0
                &&& skip_map_entries(l.jobs) == Map::<u64, usize>::empty()
            },
            LockType::FcLock(l) => {
                &&& l.wf()
                &&& l.pass == 0
                &&& l.data == 0
                &&& l.nodes@.len() == 0
                &&& l.list@.len() == 0
            },
            LockType::FcFairBanLock(l) | LockType::FcFairBanSliceLock(l) => {
                &&& l.lock.wf()
                &&& l.lock.pass == 1
                &&& l.lock.data == 0
                &&& l.lock.nodes@.len() == 0
                &&& l.lock.list@.len() == 0
                &&& l.stats == (FairStats { avg_cs: 0, avg_combiner_slice: 0, num_exec: 0 })
            },
            LockType::SpinLock(l) => !l.lock.flag && l.data == 0,
            LockType::Mutex(_) => true,
            LockType::CCSynch(l) => {
                &&& l.data == 0
                &&& l.queue@.len() == 0
                &&& l.completed@.len() == 0
            },
        }
    }
}

impl<F> LockType<F> {
    /// The lock's name in the reports.
    pub fn name(&self) -> (s: &'static str)
        ensures
            s@ == match self {
                LockType::FcSL(_) => "Flat Combining (SkipList)"@,
                LockType::FcLock(_) => "Flat Combining"@,
                LockType::FcFairBanLock(_) => "Flat Combining Fair"@,
                LockType::FcFairBanSliceLock(_) => "Flat Combining Fair With Combiner Slice"@,
                LockType::SpinLock(_) => "SpinLock"@,
                LockType::Mutex(_) => "Mutex"@,
                LockType::CCSynch(_) => "CCSynch"@,
            },
    {
        match self {
            LockType::FcSL(_) => "Flat Combining (SkipList)",
            LockType::FcLock(_) => "Flat Combining",
            LockType::FcFairBanLock(_) => "Flat Combining Fair",
            LockType::FcFairBanSliceLock(_) => "Flat Combining Fair With Combiner Slice",
            LockType::SpinLock(_) => "SpinLock",
            LockType::Mutex(_) => "Mutex",
            LockType::CCSynch(_) => "CCSynch",
        }
    }
}

/// `std::sync::Mutex::new`: an unlocked mutex holding `data`. Nothing is
/// claimed of it: the mutex is opaque to the verifier.
#[verifier::external_body]
fn new_mutex(data: u64) -> Mutex<u64> {
    Mutex::new(data)
}

impl LockTarget {
    /// Builds the lock for this target, protecting a zero counter; remote
    /// core locking gives none, as its server is set up apart.
    pub fn to_locktype<F: DLockDelegate<u64>>(&self) -> (r: Option<LockType<F>>)
        ensures
            r is None <==> *self == LockTarget::RCL,
            r matches Some(l) ==> l.target() == *self && l.is_fresh(),
    {
        match self {
            LockTarget::FcSL => Some(LockType::FcSL(FcSL::new(0u64))),
            LockTarget::FcLock => Some(LockType::FcLock(FcLock::new(0u64))),
            LockTarget::FcFairBanLock => Some(LockType::FcFairBanLock(FairFcLock::new(0u64))),
            LockTarget::FcFairBanSliceLock => Some(LockType::FcFairBanSliceLock(FairFcLock::new(0u64))),
            LockTarget::SpinLock => Some(LockType::SpinLock(SpinLock::new(0u64))),
            LockTarget::Mutex => Some(LockType::Mutex(new_mutex(0u64))),
            LockTarget::CCSynch => Some(LockType::CCSynch(CCSynch::new(0u64))),
            LockTarget::RCL => None,
        }
    }
}

} // verus!
