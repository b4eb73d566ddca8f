use vstd::prelude::*;

pub mod ccsynch;
pub mod clock;
pub mod command;
pub mod counter;
pub mod dlock;
pub mod fairness;
pub mod fc;
pub mod fc_fair;
pub mod fc_sl;
pub mod guard;
pub mod hashmap;
pub mod lock_target;
pub mod parker;
pub mod priority_queue;
pub mod queue;
pub mod rcl;
pub mod records;
pub mod spin_lock;
pub mod workload;

verus! {

/// A lock word that protects nothing by itself.
pub trait RawSimpleLock: Sized {
    /// Whether the lock is held.
    spec fn is_locked(&self) -> bool;

    /// A free lock.
    fn new_lock() -> (l: Self)
        ensures
            !l.is_locked(),
    ;

    /// Non-blocking: takes the lock if it is free and reports whether it did.
    fn try_lock(&mut self) -> (acquired: bool)
        ensures
            acquired == !old(self).is_locked(),
            final(self).is_locked(),
    ;

    /// Releases the lock.
    fn unlock(&mut self)
        ensures
            !final(self).is_locked(),
    ;
}

} // verus!
