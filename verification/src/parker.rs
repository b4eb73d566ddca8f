use vstd::prelude::*;

use std::time::Duration;

verus! {

/// What a parker's flag says about its owner.
#[derive(PartialEq, Eq, Structural, Clone, Copy, Debug)]
pub enum State {
    Empty,
    Parked,
    Prenotified,
    Notified,
}

/// Puts a waiting thread to sleep until a combiner wakes it.
///
/// `prewake` warns the owner that its turn is near, `wake` hands it the
/// result (or the combiner role), `reset` rearms the parker for the next
/// wait.
pub trait Parker: Sized {
    fn wait(&self);

    fn wait_timeout(&self, timeout: Duration) -> Result<(), ()>;

    fn wake(&self);

    fn state(&self) -> State;

    fn reset(&self);

    fn prewake(&self);
}

/// Flag value of a blocking parker whose owner sleeps on the futex.
pub const PARKED: u32 = 0xffff_ffff;

/// Flag value of a blocking parker that nobody has touched since the reset.
pub const EMPTY: u32 = 0;

/// Flag value of a blocking parker whose owner has been woken.
pub const NOTIFIED: u32 = 1;

/// Flag value of a blocking parker whose owner will be woken soon.
pub const PRENOTIFIED: u32 = 0xffff_fffe;

/// What a waiter does next.
#[derive(PartialEq, Eq, Structural, Clone, Copy, Debug)]
pub enum WaitStep {
    /// It has been woken: return.
    Return,
    /// Sleep on the futex while the flag reads `PARKED`.
    Sleep,
    /// Spin until the flag leaves `PRENOTIFIED`.
    SpinWhilePrenotified,
}

/// The flag protocol of the blocking parker, one atomic operation per
/// method; the callers perform the futex calls the methods ask for.
pub struct BlockParkerFlag {
    pub value: u32,
}

pub open spec fn is_block_flag(v: u32) -> bool {
    v == PARKED || v == EMPTY || v == NOTIFIED || v == PRENOTIFIED
}

pub open spec fn block_state_of(v: u32) -> State {
    if v == NOTIFIED {
        State::Notified
    } else if v == EMPTY {
        State::Empty
    } else if v == PARKED {
        State::Parked
    } else {
        State::Prenotified
    }
}

/// The flag after a prewake.
pub open spec fn block_prewake_value(v: u32) -> u32 {
    if v == NOTIFIED {
        NOTIFIED
    } else {
        PRENOTIFIED
    }
}

/// The flag and the waiter's step after its first look.
pub open spec fn block_begin_wait(v: u32) -> (u32, WaitStep) {
    if v == EMPTY || v == PARKED {
        (PARKED, WaitStep::Sleep)
    } else if v == NOTIFIED {
        (NOTIFIED, WaitStep::Return)
    } else {
        (v, WaitStep::SpinWhilePrenotified)
    }
}

/// The flag and the waiter's step after the futex returns.
pub open spec fn block_after_sleep(v: u32) -> (u32, WaitStep) {
    if v == NOTIFIED {
        (EMPTY, WaitStep::Return)
    } else if v == PRENOTIFIED {
        (v, WaitStep::SpinWhilePrenotified)
    } else {
        (v, WaitStep::Sleep)
    }
}

impl BlockParkerFlag {
    pub fn new() -> (p: Self)
        ensures
            p.value == EMPTY,
    {
        BlockParkerFlag { value: EMPTY }
    }

    /// Reads the flag as a `State`.
    pub fn state(&self) -> (s: State)
        requires
            is_block_flag(self.value),
        ensures
            s == block_state_of(self.value),
    {
        if self.value == NOTIFIED {
            State::Notified
        } else if self.value == EMPTY {
            State::Empty
        } else if self.value == PARKED {
            State::Parked
        } else {
            State::Prenotified
        }
    }

    /// Hands the owner its wake-up: the flag becomes `NOTIFIED`; the futex
    /// must be woken exactly when the owner was asleep on it.
    pub fn wake(&mut self) -> (wake_futex: bool)
        ensures
            final(self).value == NOTIFIED,
            wake_futex == (old(self).value == PARKED),
    {
        let prev = self.value;
        self.value = NOTIFIED;
        prev == PARKED
    }

    /// Rearms the parker for the next wait.
    pub fn reset(&mut self)
        ensures
            final(self).value == EMPTY,
    {
        self.value = EMPTY;
    }

    /// Warns the owner that it will be woken soon. A wake-up that already
    /// arrived is kept; otherwise the flag becomes `PRENOTIFIED`, and the
    /// futex must be woken when the owner was asleep on it.
    pub fn prewake(&mut self) -> (wake_futex: bool)
        requires
            old(self).value == EMPTY || old(self).value == PARKED || old(self).value == NOTIFIED,
        ensures
            final(self).value == block_prewake_value(old(self).value),
            wake_futex == (old(self).value == PARKED),
    {
        if self.value == NOTIFIED {
            return false;
        }
        let prev = self.value;
        self.value = PRENOTIFIED;
        prev == PARKED
    }

    /// The waiter's first step: `EMPTY` becomes `PARKED` (and it sleeps);
    /// a wake-up that already arrived lets it return at once.
    pub fn begin_wait(&mut self) -> (step: WaitStep)
        requires
            is_block_flag(old(self).value),
        ensures
            (final(self).value, step) == block_begin_wait(old(self).value),
    {
        if self.value == EMPTY {
            self.value = PARKED;
            WaitStep::Sleep
        } else if self.value == NOTIFIED {
            WaitStep::Return
        } else if self.value == PRENOTIFIED {
            WaitStep::SpinWhilePrenotified
        } else {
            WaitStep::Sleep
        }
    }

    /// The waiter's step after the futex returns: a wake-up is consumed
    /// (`NOTIFIED` becomes `EMPTY`) and it returns; otherwise it spins or
    /// sleeps again.
    pub fn after_sleep(&mut self) -> (step: WaitStep)
        requires
            is_block_flag(old(self).value),
        ensures
            (final(self).value, step) == block_after_sleep(old(self).value),
    {
        if self.value == NOTIFIED {
            self.value = EMPTY;
            WaitStep::Return
        } else if self.value == PRENOTIFIED {
            WaitStep::SpinWhilePrenotified
        } else {
            WaitStep::Sleep
        }
    }
}

/// Law: a wake-up is never lost. Once `wake` has run, any number of
/// prewakes keep it, the flag reads `Notified`, and the owner's next wait
/// returns without sleeping; a waiter that went to sleep first is found
/// `PARKED` by `wake`, which then asks for the futex to be woken, and the
/// waiter returns when the futex lets it go.
pub proof fn law_block_wake_not_lost(prewakes: nat)
    ensures
        block_state_of(repeat_prewake(NOTIFIED, prewakes)) == State::Notified,
        block_begin_wait(repeat_prewake(NOTIFIED, prewakes)).1 == WaitStep::Return,
        block_begin_wait(EMPTY).0 == PARKED,
        block_after_sleep(NOTIFIED) == (EMPTY, WaitStep::Return),
    decreases prewakes,
{
    if prewakes > 0 {
        law_block_wake_not_lost((prewakes - 1) as nat);
    }
}

/// The flag after `n` prewakes.
pub open spec fn repeat_prewake(v: u32, n: nat) -> u32
    decreases n,
{
    if n == 0 {
        v
    } else {
        block_prewake_value(repeat_prewake(v, (n - 1) as nat))
    }
}

/// Law: `state` reads back what the last transition wrote: `Notified` after
/// a wake, `Empty` after a reset, `Prenotified` after a prewake of a parker
/// not yet woken, `Parked` once its owner went to sleep.
pub proof fn law_block_state_reads_back(v: u32)
    requires
        is_block_flag(v),
    ensures
        block_state_of(NOTIFIED) == State::Notified,
        block_state_of(EMPTY) == State::Empty,
        v != NOTIFIED ==> block_state_of(block_prewake_value(v)) == State::Prenotified,
        (v == EMPTY || v == PARKED) ==> block_state_of(block_begin_wait(v).0) == State::Parked,
        is_block_flag(block_prewake_value(v)),
        is_block_flag(block_begin_wait(v).0),
        is_block_flag(block_after_sleep(v).0),
{
}

/// Law: a blocking waiter returns only once woken. Its first look returns
/// only on `NOTIFIED`; after the futex lets it go it returns only on
/// `NOTIFIED`, which it consumes (the flag becomes `EMPTY`), so its next
/// wait sleeps until another `wake`. Every step keeps the flag one of the
/// four values.
pub proof fn law_block_wait_returns_only_when_woken(v: u32)
    requires
        is_block_flag(v),
    ensures
        block_begin_wait(v).1 == WaitStep::Return ==> v == NOTIFIED,
        block_after_sleep(v).1 == WaitStep::Return ==> v == NOTIFIED && block_after_sleep(v).0 == EMPTY,
        block_after_sleep(v).1 == WaitStep::Return ==> block_begin_wait(block_after_sleep(v).0).1
            == WaitStep::Sleep,
        is_block_flag(block_begin_wait(v).0),
        is_block_flag(block_after_sleep(v).0),
{
}

/// Flag values of the spinning parker.
pub const SPIN_EMPTY: u32 = 0;

pub const SPIN_PRENOTIFIED: u32 = 1;

pub const SPIN_NOTIFIED: u32 = 2;

/// How long a prenotified spinning waiter spins before yielding.
pub const SPIN_LIMIT: u32 = 20;

/// What a spinning waiter does after one look at its flag.
#[derive(PartialEq, Eq, Structural, Clone, Copy, Debug)]
pub enum SpinStep {
    /// Woken: the wake-up was consumed, return.
    Return,
    /// Nothing yet: back off.
    Snooze,
    /// Its turn is near: spin up to `SPIN_LIMIT` times, then yield.
    SpinThenYield,
}

/// The flag and the waiter's step after one look at a spinning parker.
pub open spec fn spin_poll(v: u32) -> (u32, SpinStep) {
    if v == SPIN_NOTIFIED {
        (SPIN_EMPTY, SpinStep::Return)
    } else if v == SPIN_EMPTY {
        (v, SpinStep::Snooze)
    } else {
        (v, SpinStep::SpinThenYield)
    }
}

/// Law: a spinning waiter returns only once woken, and consumes the wake-up:
/// its next look does not return until another `wake`.
pub proof fn law_spin_wait_returns_only_when_woken(v: u32)
    requires
        is_spin_flag(v),
    ensures
        spin_poll(v).1 == SpinStep::Return <==> v == SPIN_NOTIFIED,
        spin_poll(v).1 == SpinStep::Return ==> spin_poll(spin_poll(v).0).1 != SpinStep::Return,
        is_spin_flag(spin_poll(v).0),
{
}

/// The flag protocol of the spinning parker.
pub struct SpinParkerFlag {
    pub value: u32,
}

pub open spec fn is_spin_flag(v: u32) -> bool {
    v == SPIN_EMPTY || v == SPIN_PRENOTIFIED || v == SPIN_NOTIFIED
}

impl SpinParkerFlag {
    pub fn new() -> (p: Self)
        ensures
            p.value == SPIN_EMPTY,
    {
        SpinParkerFlag { value: SPIN_EMPTY }
    }

    /// One look of the waiter: a wake-up is consumed (`NOTIFIED` becomes
    /// `EMPTY`); otherwise the flag is left as it is.
    pub fn poll(&mut self) -> (step: SpinStep)
        requires
            is_spin_flag(old(self).value),
        ensures
            (final(self).value, step) == spin_poll(old(self).value),
    {
        if self.value == SPIN_NOTIFIED {
            self.value = SPIN_EMPTY;
            SpinStep::Return
        } else if self.value == SPIN_EMPTY {
            SpinStep::Snooze
        } else {
            SpinStep::SpinThenYield
        }
    }

    pub fn wake(&mut self)
        ensures
            final(self).value == SPIN_NOTIFIED,
    {
        self.value = SPIN_NOTIFIED;
    }

    pub fn reset(&mut self)
        ensures
            final(self).value == SPIN_EMPTY,
    {
        self.value = SPIN_EMPTY;
    }

    /// Only an untouched parker becomes prenotified.
    pub fn prewake(&mut self)
        ensures
            old(self).value == SPIN_EMPTY ==> final(self).value == SPIN_PRENOTIFIED,
            old(self).value != SPIN_EMPTY ==> final(self).value == old(self).value,
    {
        if self.value == SPIN_EMPTY {
            self.value = SPIN_PRENOTIFIED;
        }
    }

    /// A timed wait gives up once `elapsed` reaches `timeout`, unless the
    /// wake-up is already there (which a timed wait does not consume).
    pub fn timed_out(&self, elapsed: u64, timeout: u64) -> (gave_up: bool)
        ensures
            gave_up == (self.value != SPIN_NOTIFIED && elapsed >= timeout),
    {
        self.value != SPIN_NOTIFIED && elapsed >= timeout
    }
}

} // verus!
