use vstd::prelude::*;

use crate::dlock::{CounterJob, DLockDelegate};
use crate::guard::DLockGuard;
use crate::parker::State;

verus! {

/// The holder value of a lock that no client holds.
pub const NO_HOLDER: usize = usize::MAX;

/// How many request slots a server has.
pub const NUM_REQUEST_SLOTS: usize = 128;

/// A lock served by a remote-core-locking server: the data it protects and
/// the client currently served under it.
pub struct RclLock<T> {
    pub holder: usize,
    pub data: T,
}

/// A client's request slot: which lock it wants, the critical section, and
/// the client's parker as the server sees it.
pub struct RclRequest<F> {
    pub real_me: usize,
    pub lock: Option<usize>,
    pub f: Option<F>,
    /// The critical section after the server ran it, for the client.
    pub done: Option<F>,
    pub parker: State,
}

/// Runs a request's critical section on the data of its lock.
pub trait RequestCallable<T>: Sized {
    fn call(&mut self, data: &mut T);
}

impl<T, F: DLockDelegate<T>> RequestCallable<T> for RclRequest<F> {
    /// Runs the pending critical section, if any, and clears it.
    fn call(&mut self, data: &mut T)
        ensures
            match old(self).f {
                Some(f) => {
                    &&& final(self).f.is_none()
                    &&& final(self).done == Some(f.applied(*old(data)).0)
                    &&& *final(data) == f.applied(*old(data)).1
                },
                None => *final(self) == *old(self) && *final(data) == *old(data),
            },
            final(self).lock == old(self).lock,
            final(self).real_me == old(self).real_me,
            final(self).parker == old(self).parker,
    {
        let taken = self.f.take();
        match taken {
            Some(mut f) => {
                f.apply(DLockGuard::new(data));
                self.done = Some(f);
            },
            None => {},
        }
    }
}

impl<F> RclRequest<F> {
    /// An idle slot bound to `lock`.
    pub fn with_lock(lock: usize) -> (r: Self)
        ensures
            r.real_me == 0,
            r.lock == Some(lock),
            r.f.is_none(),
            r.done.is_none(),
            r.parker == State::Empty,
    {
        RclRequest { real_me: 0, lock: Some(lock), f: None, done: None, parker: State::Empty }
    }
}

/// A remote-core-locking server: a fixed table of request slots, one per
/// client, served in slot order.
pub struct RclServer<T, F> {
    pub requests: Vec<RclRequest<F>>,
    pub locks: Vec<RclLock<T>>,
    pub num_clients: usize,
}

/// Whether slot `r` is one the server serves: its client is parked on it.
pub open spec fn waiting<F>(r: RclRequest<F>) -> bool {
    r.parker == State::Parked
}

/// The locks after the server served the first `m` slots.
pub open spec fn locks_after<T, F: DLockDelegate<T>>(
    reqs: Seq<RclRequest<F>>,
    locks: Seq<RclLock<T>>,
    m: int,
) -> Seq<RclLock<T>>
    decreases m,
{
    if m <= 0 {
        locks
    } else {
        let prev = locks_after(reqs, locks, m - 1);
        let r = reqs[m - 1];
        if waiting(r) {
            match r.f {
                Some(f) => {
                    let l = r.lock.unwrap() as int;
                    prev.update(l, RclLock { holder: prev[l].holder, data: f.applied(prev[l].data).1 })
                },
                None => prev,
            }
        } else {
            prev
        }
    }
}

/// Slot `i` after the server served it.
pub open spec fn served_request<T, F: DLockDelegate<T>>(
    reqs: Seq<RclRequest<F>>,
    locks: Seq<RclLock<T>>,
    i: int,
) -> RclRequest<F> {
    let r = reqs[i];
    if waiting(r) {
        match r.f {
            Some(f) => RclRequest {
                f: None,
                done: Some(f.applied(locks_after(reqs, locks, i)[r.lock.unwrap() as int].data).0),
                parker: State::Notified,
                ..r
            },
            None => RclRequest { parker: State::Notified, ..r },
        }
    } else {
        r
    }
}

proof fn lemma_locks_after_len<T, F: DLockDelegate<T>>(
    reqs: Seq<RclRequest<F>>,
    locks: Seq<RclLock<T>>,
    m: int,
)
    requires
        m <= reqs.len(),
        forall|i: int|
            0 <= i < reqs.len() && waiting(#[trigger] reqs[i]) ==> match reqs[i].lock {
                Some(l) => l < locks.len(),
                None => false,
            },
    ensures
        locks_after(reqs, locks, m).len() == locks.len(),
        forall|l: int|
            0 <= l < locks.len() ==> (#[trigger] locks_after(reqs, locks, m)[l]).holder
                == locks[l].holder,
    decreases m,
{
    if m > 0 {
        lemma_locks_after_len(reqs, locks, m - 1);
    }
}

/// Slots at or beyond the number of clients are never looked at.
pub open spec fn serve_count(len: nat, num_clients: nat) -> nat {
    if len < num_clients {
        len
    } else {
        num_clients
    }
}

impl<T, F: DLockDelegate<T>> RclServer<T, F> {
    /// The table's invariant while no pass is running: no lock is held, and
    /// every served slot names one of the server's locks.
    pub open spec fn wf(&self) -> bool {
        &&& forall|l: int| 0 <= l < self.locks@.len() ==> (#[trigger] self.locks@[l]).holder == NO_HOLDER
        &&& forall|i: int|
            0 <= i < self.requests@.len() && waiting(#[trigger] self.requests@[i]) ==> match self.requests@[i].lock {
                Some(l) => l < self.locks@.len(),
                None => false,
            }
    }

    /// Gives a new client its slot number.
    pub fn register_client(&mut self) -> (id: usize)
        requires
            old(self).num_clients < usize::MAX,
        ensures
            id == old(self).num_clients,
            final(self).num_clients == old(self).num_clients + 1,
            final(self).requests@ == old(self).requests@,
            final(self).locks@ == old(self).locks@,
    {
        let id = self.num_clients;
        self.num_clients = self.num_clients + 1;
        id
    }

    /// Client `client` asks for `f` to run under lock `lock`: it fills its
    /// slot, resets its parker and parks, waiting for the server.
    pub fn request(&mut self, client: usize, lock: usize, f: F)
        requires
            old(self).wf(),
            client < old(self).requests@.len(),
            lock < old(self).locks@.len(),
        ensures
            final(self).wf(),
            final(self).requests@ == with_request(old(self).requests@, client, lock, f),
            final(self).locks@ == old(self).locks@,
            final(self).num_clients == old(self).num_clients,
    {
        self.requests.set(
            client,
            RclRequest {
                real_me: client,
                lock: Some(lock),
                f: Some(f),
                done: None,
                parker: State::Parked,
            },
        );
    }

    /// One serving pass over the slots of the registered clients, in slot
    /// order: each slot whose client is parked has its critical section run
    /// on its lock's data, with the lock marked as held by that client for
    /// the duration, and its client is prewoken and then woken.
    pub fn serve_pass(&mut self) -> (served: usize)
        requires
            old(self).wf(),
        ensures
            final(self).wf(),
            served == serve_count(old(self).requests@.len(), old(self).num_clients as nat),
            final(self).locks@ == locks_after(old(self).requests@, old(self).locks@, served as int),
            final(self).requests@.len() == old(self).requests@.len(),
            forall|i: int|
                0 <= i < served ==> #[trigger] final(self).requests@[i] == served_request(
                    old(self).requests@,
                    old(self).locks@,
                    i,
                ),
            forall|i: int|
                served <= i < old(self).requests@.len() ==> #[trigger] final(self).requests@[i]
                    == old(self).requests@[i],
            final(self).num_clients == old(self).num_clients,
    {
        let ghost reqs0 = self.requests@;
        let ghost locks0 = self.locks@;
        let n = if self.requests.len() < self.num_clients {
            self.requests.len()
        } else {
            self.num_clients
        };
        let mut i: usize = 0;
        while i < n
            invariant
                0 <= i <= n,
                n == serve_count(reqs0.len(), self.num_clients as nat),
                n <= reqs0.len(),
                reqs0 == old(self).requests@,
                locks0 == old(self).locks@,
                old(self).wf(),
                self.num_clients == old(self).num_clients,
                self.requests@.len() == reqs0.len(),
                self.locks@ == locks_after(reqs0, locks0, i as int),
                forall|j: int| 0 <= j < i ==> #[trigger] self.requests@[j] == served_request(reqs0, locks0, j),
                forall|j: int| i <= j < reqs0.len() ==> #[trigger] self.requests@[j] == reqs0[j],
            decreases n - i,
        {
            proof {
                lemma_locks_after_len(reqs0, locks0, i as int);
            }
            if self.requests[i].parker == State::Parked {
                let l = match self.requests[i].lock {
                    Some(l) => l,
                    None => {
                        proof {
                            assert(waiting(reqs0[i as int]));
                        }
                        0
                    },
                };
                proof {
                    assert(waiting(reqs0[i as int]));
                    assert(l < locks0.len());
                }
                // prewake: the client learns it is about to be served
                self.requests[i].parker = State::Prenotified;
                let me = self.requests[i].real_me;
                self.locks[l].holder = me;
                let ghost data_pre = self.locks@[l as int].data;
                let taken = self.requests[i].f.take();
                match taken {
                    Some(mut f) => {
                        f.apply(DLockGuard::new(&mut self.locks[l].data));
                        self.requests[i].done = Some(f);
                    },
                    None => {},
                }
                self.locks[l].holder = NO_HOLDER;
                self.requests[i].parker = State::Notified;
                proof {
                    assert(locks0[l as int].holder == NO_HOLDER);
                    assert(self.locks@ =~= locks_after(reqs0, locks0, i as int + 1));
                }
            } else {
                proof {
                    assert(self.locks@ =~= locks_after(reqs0, locks0, i as int + 1));
                }
            }
            i = i + 1;
        }
        proof {
            lemma_locks_after_len(reqs0, locks0, n as int);
            assert forall|j: int|
                0 <= j < self.requests@.len() && waiting(#[trigger] self.requests@[j]) implies match self.requests@[j].lock {
                Some(l) => l < self.locks@.len(),
                None => false,
            } by {
                if j >= n {
                    assert(self.requests@[j] == reqs0[j]);
                }
            }
        }
        n
    }
}

/// The slot table after client `c` asked for `f` under lock `lock`.
pub open spec fn with_request<F>(reqs: Seq<RclRequest<F>>, c: usize, lock: usize, f: F) -> Seq<RclRequest<F>> {
    reqs.update(
        c as int,
        RclRequest { real_me: c, lock: Some(lock), f: Some(f), done: None, parker: State::Parked },
    )
}

proof fn lemma_lone_request_prefix<T, F: DLockDelegate<T>>(
    reqs: Seq<RclRequest<F>>,
    locks: Seq<RclLock<T>>,
    c: usize,
    lock: usize,
    f: F,
    m: int,
)
    requires
        c < reqs.len(),
        lock < locks.len(),
        0 <= m <= reqs.len(),
        forall|i: int| 0 <= i < reqs.len() && i != c ==> !waiting(#[trigger] reqs[i]),
    ensures
        m <= c ==> locks_after(with_request(reqs, c, lock, f), locks, m) == locks,
        m > c ==> locks_after(with_request(reqs, c, lock, f), locks, m) == locks.update(
            lock as int,
            RclLock { holder: locks[lock as int].holder, data: f.applied(locks[lock as int].data).1 },
        ),
    decreases m,
{
    let r2 = with_request(reqs, c, lock, f);
    if m > 0 {
        lemma_lone_request_prefix(reqs, locks, c, lock, f, m - 1);
        if m - 1 != c {
            assert(!waiting(r2[m - 1]));
        }
    }
}

/// Law: a client that asks alone has its critical section run exactly once,
/// on its lock's data, by one serving pass that reaches its slot: the lock's
/// data becomes what the section makes of it, every other lock is left as it
/// was, and the client is woken with the section handed back.
pub proof fn law_rcl_lone_request<T, F: DLockDelegate<T>>(
    reqs: Seq<RclRequest<F>>,
    locks: Seq<RclLock<T>>,
    c: usize,
    lock: usize,
    f: F,
    served: int,
)
    requires
        c < served <= reqs.len(),
        lock < locks.len(),
        forall|i: int| 0 <= i < reqs.len() && i != c ==> !waiting(#[trigger] reqs[i]),
    ensures
        locks_after(with_request(reqs, c, lock, f), locks, served)[lock as int].data == f.applied(
            locks[lock as int].data,
        ).1,
        forall|l: int|
            0 <= l < locks.len() && l != lock ==> #[trigger] locks_after(
                with_request(reqs, c, lock, f),
                locks,
                served,
            )[l] == locks[l],
        served_request(with_request(reqs, c, lock, f), locks, c as int).done == Some(
            f.applied(locks[lock as int].data).0,
        ),
        served_request(with_request(reqs, c, lock, f), locks, c as int).parker == State::Notified,
{
    lemma_lone_request_prefix(reqs, locks, c, lock, f, served);
    lemma_lone_request_prefix(reqs, locks, c, lock, f, c as int);
}

/// The sum of the increments that the waiting requests among the first `m`
/// slots ask for under lock `l`.
pub open spec fn requested_total(reqs: Seq<RclRequest<CounterJob>>, l: usize, m: int) -> int
    decreases m,
{
    if m <= 0 {
        0
    } else {
        requested_total(reqs, l, m - 1) + {
            let r = reqs[m - 1];
            if waiting(r) && r.lock == Some(l) {
                match r.f {
                    Some(job) => job.amount as int,
                    None => 0,
                }
            } else {
                0
            }
        }
    }
}

/// Law: a serving pass over counter jobs adds to each lock's counter exactly
/// the increments that the waiting requests for that lock asked for, and
/// nothing else (modulo 2^64, as the counter wraps).
pub proof fn law_rcl_counter_total(
    reqs: Seq<RclRequest<CounterJob>>,
    locks: Seq<RclLock<u64>>,
    l: usize,
    m: int,
)
    requires
        l < locks.len(),
        m <= reqs.len(),
        forall|i: int|
            0 <= i < reqs.len() && waiting(#[trigger] reqs[i]) ==> match reqs[i].lock {
                Some(k) => k < locks.len(),
                None => false,
            },
    ensures
        locks_after(reqs, locks, m)[l as int].data as int == (locks[l as int].data + requested_total(reqs, l, m))
            % 0x1_0000_0000_0000_0000,
    decreases m,
{
    if m > 0 {
        law_rcl_counter_total(reqs, locks, l, m - 1);
        lemma_locks_after_len(reqs, locks, m - 1);
        let prev = locks_after(reqs, locks, m - 1)[l as int].data;
        let t = requested_total(reqs, l, m - 1);
        let r = reqs[m - 1];
        if waiting(r) && r.f.is_some() && r.lock == Some(l) {
            let job = r.f.unwrap();
            vstd::arithmetic::div_mod::lemma_add_mod_noop_right(
                job.amount as int,
                locks[l as int].data + t,
                0x1_0000_0000_0000_0000,
            );
            assert((prev + job.amount) % 0x1_0000_0000_0000_0000 == (locks[l as int].data + t + job.amount)
                % 0x1_0000_0000_0000_0000);
            assert(locks_after(reqs, locks, m)[l as int].data == CounterJob::applied(&job, prev).1);
        } else {
            if waiting(r) && r.f.is_some() {
                let k = r.lock.unwrap() as int;
                assert(k != l as int);
                assert(0 <= k < locks.len());
            }
            assert(locks_after(reqs, locks, m)[l as int] == locks_after(reqs, locks, m - 1)[l as int]);
            vstd::arithmetic::div_mod::lemma_small_mod(prev as nat, 0x1_0000_0000_0000_0000);
        }
    } else {
        vstd::arithmetic::div_mod::lemma_small_mod(locks[l as int].data as nat, 0x1_0000_0000_0000_0000);
    }
}

/// What a serving thread does after a pass.
#[derive(PartialEq, Eq, Structural, Clone, Copy, Debug)]
pub enum ServerStep {
    /// It is the only serving thread: serve again.
    Continue,
    /// Few threads are free: give the processor to another serving thread.
    Yield,
    /// Enough threads are free: retire until woken.
    Retire,
}

/// The decision after a pass, from the number of serving threads and the
/// number of free threads before this one counted itself free again.
pub fn after_pass(num_serving_threads: i32, free_before: i32) -> (step: ServerStep)
    ensures
        num_serving_threads <= 1 ==> step == ServerStep::Continue,
        num_serving_threads > 1 && free_before <= 1 ==> step == ServerStep::Yield,
        num_serving_threads > 1 && free_before > 1 ==> step == ServerStep::Retire,
{
    if num_serving_threads > 1 {
        if free_before <= 1 {
            ServerStep::Yield
        } else {
            ServerStep::Retire
        }
    } else {
        ServerStep::Continue
    }
}

/// A server with no client yet: `NUM_REQUEST_SLOTS` idle slots bound to no
/// lock, protecting `locks`.
pub fn new_server<T, F: DLockDelegate<T>>(locks: Vec<RclLock<T>>) -> (s: RclServer<T, F>)
    requires
        forall|l: int| 0 <= l < locks@.len() ==> (#[trigger] locks@[l]).holder == NO_HOLDER,
    ensures
        s.wf(),
        s.requests@.len() == NUM_REQUEST_SLOTS,
        forall|i: int|
            0 <= i < NUM_REQUEST_SLOTS ==> (#[trigger] s.requests@[i]) == (RclRequest::<F> {
                real_me: 0,
                lock: None,
                f: None,
                done: None,
                parker: State::Empty,
            }),
        s.num_clients == 0,
        s.locks@ == locks@,
{
    let mut requests: Vec<RclRequest<F>> = Vec::new();
    let mut i: usize = 0;
    while i < NUM_REQUEST_SLOTS
        invariant
            0 <= i <= NUM_REQUEST_SLOTS,
            requests@.len() == i,
            forall|j: int|
                0 <= j < i ==> (#[trigger] requests@[j]) == (RclRequest::<F> {
                    real_me: 0,
                    lock: None,
                    f: None,
                    done: None,
                    parker: State::Empty,
                }),
        decreases NUM_REQUEST_SLOTS - i,
    {
        requests.push(RclRequest { real_me: 0, lock: None, f: None, done: None, parker: State::Empty });
        i = i + 1;
    }
    RclServer { requests, locks, num_clients: 0 }
}

} // verus!
