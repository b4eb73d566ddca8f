use vstd::prelude::*;

use quanta::Clock;

use crate::dlock::{run_all, CounterJob, DLockDelegate};
use crate::fairness::{ban_deadline, ban_deadline_spec, ban_expired, running_average, wrapping_average};
use crate::clock::read_clock;
use crate::guard::DLockGuard;

verus! {

/// The most critical sections one combiner runs before it hands the
/// combiner role to the next waiting thread.
pub const COMBINE_LIMIT: usize = 16;

/// A critical section published in the queue, with the thread that owns it.
pub struct CcRequest<F> {
    pub owner: usize,
    pub f: F,
}

/// CCSynch: threads append their critical sections to a queue; the thread
/// at the front becomes combiner and runs up to `COMBINE_LIMIT` of them, in
/// arrival order, before handing the role on.
pub struct CCSynch<T, F> {
    pub data: T,
    /// Published critical sections not yet run, oldest first.
    pub queue: Vec<CcRequest<F>>,
    /// Critical sections that ran, in the order they ran, not yet taken back.
    pub completed: Vec<CcRequest<F>>,
}

/// Each critical section's own state after running them one after another.
pub open spec fn applied_all<T, F: DLockDelegate<T>>(fs: Seq<F>, data: T) -> Seq<F>
    decreases fs.len(),
{
    if fs.len() == 0 {
        seq![]
    } else {
        applied_all(fs.drop_last(), data).push(fs.last().applied(run_all(fs.drop_last(), data)).0)
    }
}

pub open spec fn request_fs<F>(reqs: Seq<CcRequest<F>>) -> Seq<F> {
    reqs.map_values(|r: CcRequest<F>| r.f)
}

pub open spec fn request_owners<F>(reqs: Seq<CcRequest<F>>) -> Seq<usize> {
    reqs.map_values(|r: CcRequest<F>| r.owner)
}

/// How many critical sections a combining round with the given limit runs.
pub open spec fn batch_len(queued: nat, limit: nat) -> nat {
    if queued < limit {
        queued
    } else {
        limit
    }
}

/// CCSynch with banning lets its combiner run its own critical section and
/// then up to `COMBINE_LIMIT` more.
pub const BAN_COMBINE_LIMIT: usize = 17;

proof fn lemma_applied_all_len<T, F: DLockDelegate<T>>(fs: Seq<F>, data: T)
    ensures
        applied_all(fs, data).len() == fs.len(),
    decreases fs.len(),
{
    if fs.len() > 0 {
        lemma_applied_all_len(fs.drop_last(), data);
    }
}

impl<T, F: DLockDelegate<T>> CCSynch<T, F> {
    /// A lock protecting `data`, with nothing published.
    pub fn new(data: T) -> (lock: Self)
        ensures
            lock.data == data,
            lock.queue@.len() == 0,
            lock.completed@.len() == 0,
    {
        CCSynch { data, queue: Vec::new(), completed: Vec::new() }
    }

    /// Thread `owner` appends its critical section at the tail.
    pub fn publish(&mut self, owner: usize, f: F)
        ensures
            final(self).queue@ == old(self).queue@.push(CcRequest { owner, f }),
            final(self).completed@ == old(self).completed@,
            final(self).data == old(self).data,
    {
        self.queue.push(CcRequest { owner, f });
    }

    /// One combining round: runs the oldest `min(queue length, limit)`
    /// critical sections in arrival order and marks them completed. Returns
    /// how many ran; the rest stay queued for the next combiner.
    pub fn combine(&mut self, limit: usize) -> (n: usize)
        ensures
            n == batch_len(old(self).queue@.len(), limit as nat),
            final(self).queue@ == old(self).queue@.skip(n as int),
            final(self).data == run_all(request_fs(old(self).queue@.take(n as int)), old(self).data),
            final(self).completed@.len() == old(self).completed@.len() + n,
            final(self).completed@.take(old(self).completed@.len() as int)
                == old(self).completed@,
            request_fs(final(self).completed@.skip(old(self).completed@.len() as int))
                == applied_all(request_fs(old(self).queue@.take(n as int)), old(self).data),
            request_owners(final(self).completed@.skip(old(self).completed@.len() as int))
                == request_owners(old(self).queue@.take(n as int)),
    {
        let ghost q0 = self.queue@;
        let ghost c0 = self.completed@;
        let ghost d0 = self.data;
        let n = if self.queue.len() < limit {
            self.queue.len()
        } else {
            limit
        };
        let mut rest: Vec<CcRequest<F>> = self.queue.split_off(n);
        std::mem::swap(&mut rest, &mut self.queue);
        // `rest` now holds the batch, `self.queue` what stays queued.
        let mut batch = rest;
        let ghost b0 = batch@;
        proof {
            assert(b0 =~= q0.take(n as int));
            assert(self.queue@ =~= q0.skip(n as int));
        }
        let mut served: Vec<CcRequest<F>> = Vec::new();
        let mut i: usize = 0;
        while i < n
            invariant
                0 <= i <= n,
                n == b0.len(),
                batch@ == b0.skip(i as int),
                served@.len() == i,
                self.data == run_all(request_fs(b0.take(i as int)), d0),
                request_fs(served@) == applied_all(request_fs(b0.take(i as int)), d0),
                request_owners(served@) == request_owners(b0.take(i as int)),
                self.completed@ == c0,
                self.queue@ == q0.skip(n as int),
            decreases n - i,
        {
            let ghost served_before = served@;
            let req = batch.remove(0);
            proof {
                assert(req == b0[i as int]);
            }
            let CcRequest { owner, f } = req;
            let mut f = f;
            f.apply(DLockGuard::new(&mut self.data));
            served.push(CcRequest { owner, f });
            proof {
                let fs_next = request_fs(b0.take(i as int + 1));
                assert(fs_next.drop_last() =~= request_fs(b0.take(i as int)));
                assert(fs_next.last() == b0[i as int].f);
                assert(request_fs(served@) =~= request_fs(served@.drop_last()).push(
                    served@.last().f,
                ));
                assert(served@.drop_last() =~= served_before);
                assert(request_owners(served_before) == request_owners(b0.take(i as int)));
                assert forall|j: int| 0 <= j < i + 1 implies request_owners(served@)[j]
                    == request_owners(b0.take(i as int + 1))[j] by {
                    if j < i {
                        assert(served@[j] == served_before[j]);
                        assert(request_owners(served_before)[j] == request_owners(
                            b0.take(i as int),
                        )[j]);
                    }
                }
                assert(request_owners(served@) =~= request_owners(b0.take(i as int + 1)));
                assert(batch@ =~= b0.skip(i as int + 1));
            }
            i = i + 1;
        }
        let ghost served_seq = served@;
        self.completed.append(&mut served);
        proof {
            assert(b0.take(n as int) =~= b0);
            assert(self.completed@.take(c0.len() as int) =~= c0);
            assert(self.completed@.skip(c0.len() as int) =~= served_seq);
        }
        n
    }

    /// Takes back the oldest completed critical section, if any.
    pub fn take_completed(&mut self) -> (r: Option<CcRequest<F>>)
        ensures
            old(self).completed@.len() == 0 ==> r.is_none() && *final(self) == *old(self),
            old(self).completed@.len() > 0 ==> r == Some(old(self).completed@[0])
                && final(self).completed@ == old(self).completed@.drop_first(),
            final(self).queue@ == old(self).queue@,
            final(self).data == old(self).data,
    {
        if self.completed.len() == 0 {
            None
        } else {
            Some(self.completed.remove(0))
        }
    }

    /// Runs `f` under the lock for thread `owner`: publishes it at the tail;
    /// combiners serve the queue from the front, `COMBINE_LIMIT` at a time,
    /// until its turn; hands back the critical section after it ran. The
    /// critical sections queued before it run first, in order, and stay
    /// completed for their owners.
    pub fn lock(&mut self, owner: usize, f: F) -> (r: F)
        ensures
            ({
                let all = old(self).queue@.push(CcRequest { owner, f });
                &&& final(self).data == run_all(request_fs(all), old(self).data)
                &&& r == applied_all(request_fs(all), old(self).data).last()
                &&& final(self).queue@.len() == 0
                &&& final(self).completed@.len() == old(self).completed@.len() + old(self).queue@.len()
                &&& final(self).completed@.take(old(self).completed@.len() as int) == old(self).completed@
                &&& request_fs(final(self).completed@.skip(old(self).completed@.len() as int))
                    == applied_all(request_fs(all), old(self).data).drop_last()
                &&& request_owners(final(self).completed@.skip(old(self).completed@.len() as int))
                    == request_owners(old(self).queue@)
            }),
    {
        let ghost c0 = self.completed@;
        let ghost d0 = self.data;
        self.publish(owner, f);
        let ghost all = self.queue@;
        let mut served: usize = 0;
        proof {
            assert(all.len() == self.queue.len());
            assert(all.take(0) =~= seq![]);
            assert(all.skip(0) =~= all);
            assert(self.completed@.skip(c0.len() as int) =~= seq![]);
            assert(request_fs(all.take(0)) =~= seq![]);
            assert(applied_all(request_fs(all.take(0)), d0) =~= seq![]);
            assert(request_fs(self.completed@.skip(c0.len() as int)) =~= seq![]);
            assert(request_owners(self.completed@.skip(c0.len() as int)) =~= seq![]);
            assert(request_owners(all.take(0)) =~= seq![]);
            assert(self.completed@.take(c0.len() as int) =~= c0);
        }
        while self.queue.len() > 0
            invariant
                served <= all.len(),
                all.len() <= usize::MAX,
                self.queue@ == all.skip(served as int),
                self.data == run_all(request_fs(all.take(served as int)), d0),
                self.completed@.len() == c0.len() + served,
                self.completed@.take(c0.len() as int) == c0,
                request_fs(self.completed@.skip(c0.len() as int)) == applied_all(
                    request_fs(all.take(served as int)),
                    d0,
                ),
                request_owners(self.completed@.skip(c0.len() as int)) == request_owners(
                    all.take(served as int),
                ),
            decreases all.len() - served,
        {
            let ghost done_before = self.completed@;
            let ghost data_before = self.data;
            let n = self.combine(COMBINE_LIMIT);
            proof {
                let a = all.take(served as int);
                let b = all.skip(served as int).take(n as int);
                assert(all.take(served + n) =~= a + b);
                assert(request_fs(a + b) =~= request_fs(a) + request_fs(b));
                assert(request_owners(a + b) =~= request_owners(a) + request_owners(b));
                lemma_run_all_append(request_fs(a), request_fs(b), d0);
                lemma_applied_all_append(request_fs(a), request_fs(b), d0);
                let new_part = self.completed@.skip(done_before.len() as int);
                assert(self.completed@.skip(c0.len() as int) =~= done_before.skip(c0.len() as int)
                    + new_part) by {
                    assert(self.completed@.take(done_before.len() as int) == done_before);
                }
                assert(request_fs(self.completed@.skip(c0.len() as int)) =~= request_fs(
                    done_before.skip(c0.len() as int),
                ) + request_fs(new_part));
                assert(request_owners(self.completed@.skip(c0.len() as int)) =~= request_owners(
                    done_before.skip(c0.len() as int),
                ) + request_owners(new_part));
                assert(self.completed@.take(c0.len() as int) =~= done_before.take(c0.len() as int)) by {
                    assert(self.completed@.take(done_before.len() as int) == done_before);
                }
                assert(all.skip(served as int).skip(n as int) =~= all.skip(served + n));
            }
            assert(n <= all.len() - served);
            served = served + n;
        }
        proof {
            assert(all.take(all.len() as int) =~= all);
            assert(served == all.len());
            lemma_applied_all_len(request_fs(all), d0);
        }
        let last = self.completed.pop().unwrap();
        proof {
            let full = request_fs(all);
            assert(full.len() == all.len());
            let before = self.completed@.push(last);
            assert(before.skip(c0.len() as int) =~= self.completed@.skip(c0.len() as int).push(last));
            assert(request_fs(before.skip(c0.len() as int)) =~= request_fs(
                self.completed@.skip(c0.len() as int),
            ).push(last.f));
            assert(request_owners(before.skip(c0.len() as int)) =~= request_owners(
                self.completed@.skip(c0.len() as int),
            ).push(last.owner));
            assert(request_owners(all) =~= request_owners(old(self).queue@).push(owner));
            assert(self.completed@.take(c0.len() as int) =~= before.take(c0.len() as int));
            let aa = applied_all(full, d0);
            assert(request_fs(before.skip(c0.len() as int)) == aa);
            assert(aa.last() == last.f);
            assert(aa.drop_last() =~= request_fs(self.completed@.skip(c0.len() as int)));
            let ob = request_owners(before.skip(c0.len() as int));
            assert(ob == request_owners(all));
            assert(ob.drop_last() =~= request_owners(self.completed@.skip(c0.len() as int)));
            assert(request_owners(all).drop_last() =~= request_owners(old(self).queue@));
            assert(request_owners(self.completed@.skip(c0.len() as int)) =~= request_owners(old(self).queue@));
            assert(self.data == run_all(full, d0));
        }
        last.f
    }
}

proof fn lemma_run_all_append<T, F: DLockDelegate<T>>(a: Seq<F>, b: Seq<F>, d: T)
    ensures
        run_all(a + b, d) == run_all(b, run_all(a, d)),
    decreases b.len(),
{
    if b.len() > 0 {
        lemma_run_all_append(a, b.drop_last(), d);
        assert((a + b).drop_last() =~= a + b.drop_last());
    } else {
        assert(a + b =~= a);
    }
}

proof fn lemma_applied_all_append<T, F: DLockDelegate<T>>(a: Seq<F>, b: Seq<F>, d: T)
    ensures
        applied_all(a + b, d) == applied_all(a, d) + applied_all(b, run_all(a, d)),
    decreases b.len(),
{
    if b.len() > 0 {
        lemma_applied_all_append(a, b.drop_last(), d);
        lemma_run_all_append(a, b.drop_last(), d);
        assert((a + b).drop_last() =~= a + b.drop_last());
        assert(applied_all(a + b, d) =~= applied_all(a, d) + applied_all(b, run_all(a, d)));
    } else {
        assert(a + b =~= a);
        assert(applied_all(a + b, d) =~= applied_all(a, d) + applied_all(b, run_all(a, d)));
    }
}

/// The sum of the increments of a sequence of counter jobs.
pub open spec fn jobs_total(jobs: Seq<CounterJob>) -> int
    decreases jobs.len(),
{
    if jobs.len() == 0 {
        0
    } else {
        jobs_total(jobs.drop_last()) + jobs.last().amount
    }
}

/// Law: running counter jobs one after another, as the combiners of a
/// CCSynch queue do, adds exactly their increments to the counter (modulo
/// 2^64, as the counter wraps).
pub proof fn law_cc_counter_total(jobs: Seq<CounterJob>, data: u64)
    ensures
        run_all(jobs, data) as int == (data + jobs_total(jobs)) % 0x1_0000_0000_0000_0000,
    decreases jobs.len(),
{
    if jobs.len() > 0 {
        law_cc_counter_total(jobs.drop_last(), data);
        let t = jobs_total(jobs.drop_last());
        vstd::arithmetic::div_mod::lemma_add_mod_noop_right(
            jobs.last().amount as int,
            data + t,
            0x1_0000_0000_0000_0000,
        );
    } else {
        vstd::arithmetic::div_mod::lemma_small_mod(data as nat, 0x1_0000_0000_0000_0000);
    }
}

/// The data after successive lock calls, each running its batch of
/// sections (those queued before it, then its own) in order.
pub open spec fn run_calls<T, F: DLockDelegate<T>>(batches: Seq<Seq<F>>, data: T) -> T
    decreases batches.len(),
{
    if batches.len() == 0 {
        data
    } else {
        run_all(batches.last(), run_calls(batches.drop_last(), data))
    }
}

/// How many sections the batches hold together.
pub open spec fn sections_in<F>(batches: Seq<Seq<F>>) -> int
    decreases batches.len(),
{
    if batches.len() == 0 {
        0
    } else {
        sections_in(batches.drop_last()) + batches.last().len()
    }
}

proof fn lemma_unit_jobs_total(jobs: Seq<CounterJob>)
    requires
        forall|j: int| 0 <= j < jobs.len() ==> #[trigger] jobs[j].amount == 1,
    ensures
        jobs_total(jobs) == jobs.len(),
    decreases jobs.len(),
{
    if jobs.len() > 0 {
        lemma_unit_jobs_total(jobs.drop_last());
    }
}

/// Law: lock calls whose sections each add 1 raise the counter by exactly
/// the number of sections they ran, each section once, however the calls
/// batched them (modulo 2^64, as the counter wraps).
pub proof fn law_lock_calls_count(batches: Seq<Seq<CounterJob>>, data: u64)
    requires
        forall|i: int, j: int|
            0 <= i < batches.len() && 0 <= j < batches[i].len() ==> (#[trigger] batches[i][j]).amount == 1,
    ensures
        run_calls(batches, data) as int == (data + sections_in(batches)) % 0x1_0000_0000_0000_0000,
    decreases batches.len(),
{
    if batches.len() > 0 {
        let init = batches.drop_last();
        assert forall|i: int, j: int|
            0 <= i < init.len() && 0 <= j < init[i].len() implies (#[trigger] init[i][j]).amount == 1 by {
            assert(init[i] == batches[i]);
        }
        law_lock_calls_count(init, data);
        let prev = run_calls(init, data);
        let last = batches.last();
        assert forall|j: int| 0 <= j < last.len() implies #[trigger] last[j].amount == 1 by {
            assert(last == batches[batches.len() - 1]);
        }
        lemma_unit_jobs_total(last);
        law_cc_counter_total(last, prev);
        let t = sections_in(init);
        vstd::arithmetic::div_mod::lemma_add_mod_noop_right(0, data + t, 0x1_0000_0000_0000_0000);
        vstd::arithmetic::div_mod::lemma_add_mod_noop(
            data + t,
            last.len() as int,
            0x1_0000_0000_0000_0000,
        );
        vstd::arithmetic::div_mod::lemma_add_mod_noop(
            prev as int,
            last.len() as int,
            0x1_0000_0000_0000_0000,
        );
        vstd::arithmetic::div_mod::lemma_small_mod(prev as nat, 0x1_0000_0000_0000_0000);
    } else {
        vstd::arithmetic::div_mod::lemma_small_mod(data as nat, 0x1_0000_0000_0000_0000);
    }
}

/// Law: a combining round neither loses nor reorders critical sections: it
/// runs exactly the oldest `min(queued, limit)` of them, and those it ran
/// followed by those still queued are the queue it started from.
pub proof fn law_combine_is_fifo<F>(queue: Seq<CcRequest<F>>, limit: nat, n: nat)
    requires
        n == batch_len(queue.len(), limit),
        limit > 0,
    ensures
        n <= limit,
        n <= queue.len(),
        queue.len() > 0 ==> n > 0,
        queue.take(n as int) + queue.skip(n as int) == queue,
{
    assert(queue.take(n as int) + queue.skip(n as int) =~= queue);
}

/// The fairness state of CCSynch with banning: the running average of
/// critical-section lengths, how many ran, how many threads take part, and
/// each thread's ban deadline.
pub struct CCBanStats {
    pub avg_cs: i64,
    pub num_exec: i64,
    pub num_waiting_thread: i32,
    pub banned_until: Vec<i64>,
}

impl CCBanStats {
    pub fn new() -> (s: Self)
        ensures
            s.avg_cs == 0,
            s.num_exec == 0,
            s.num_waiting_thread == 0,
            s.banned_until@.len() == 0,
    {
        CCBanStats { avg_cs: 0, num_exec: 0, num_waiting_thread: 0, banned_until: Vec::new() }
    }

    /// A thread's first use: it is counted and starts unbanned.
    pub fn register(&mut self) -> (owner: usize)
        requires
            old(self).num_waiting_thread < i32::MAX,
        ensures
            owner == old(self).banned_until@.len(),
            final(self).banned_until@ == old(self).banned_until@.push(0),
            final(self).num_waiting_thread == old(self).num_waiting_thread + 1,
            final(self).avg_cs == old(self).avg_cs,
            final(self).num_exec == old(self).num_exec,
    {
        let owner = self.banned_until.len();
        self.banned_until.push(0);
        self.num_waiting_thread = self.num_waiting_thread + 1;
        owner
    }

    /// Folds the length of one more critical section into the average.
    pub fn record_cs(&mut self, cs: u64)
        requires
            old(self).num_exec >= 0,
            old(self).num_exec < i64::MAX,
        ensures
            final(self).num_exec == old(self).num_exec + 1,
            final(self).avg_cs == wrapping_average(old(self).avg_cs, cs as i64, (old(self).num_exec + 1) as i64),
            final(self).num_waiting_thread == old(self).num_waiting_thread,
            final(self).banned_until@ == old(self).banned_until@,
    {
        self.num_exec = self.num_exec + 1;
        self.avg_cs = running_average(self.avg_cs, cs as i64, self.num_exec);
    }

    /// Bans thread `owner` after a critical section of length `current_cs`
    /// that completed at time-stamp `now`.
    pub fn ban(&mut self, owner: usize, now: u64, current_cs: u64)
        requires
            owner < old(self).banned_until@.len(),
        ensures
            final(self).banned_until@ == old(self).banned_until@.update(
                owner as int,
                ban_deadline_spec(now, current_cs, old(self).num_waiting_thread, old(self).avg_cs),
            ),
            final(self).avg_cs == old(self).avg_cs,
            final(self).num_exec == old(self).num_exec,
            final(self).num_waiting_thread == old(self).num_waiting_thread,
    {
        let deadline = ban_deadline(now, current_cs, self.num_waiting_thread, self.avg_cs);
        self.banned_until.set(owner, deadline);
    }

    /// Whether thread `owner` may publish again at time-stamp `now`.
    pub fn may_enter(&self, owner: usize, now: u64) -> (r: bool)
        requires
            owner < self.banned_until@.len(),
        ensures
            r == ((now as i64) >= self.banned_until@[owner as int]),
    {
        ban_expired(now, self.banned_until[owner])
    }
}

/// The average after folding in the samples of `trace` one by one, the
/// count of samples starting from `n`.
pub open spec fn average_after(avg: i64, n: int, trace: Seq<u64>) -> i64
    decreases trace.len(),
{
    if trace.len() == 0 {
        avg
    } else {
        wrapping_average(
            average_after(avg, n, trace.drop_last()),
            trace.last() as i64,
            (n + trace.len()) as i64,
        )
    }
}

/// What one `CCBan::lock` call by `owner` with section `f` did, taking the
/// lock from `before` to `after` and handing back `r`: the queued sections
/// and `f` ran in arrival order, the others stay completed for their owners,
/// every section was timed into the running average, and `owner` was banned
/// by the length of its own section.
pub open spec fn ccban_locked<T, F: DLockDelegate<T>>(
    before: CCBan<T, F>,
    after: CCBan<T, F>,
    owner: usize,
    f: F,
    r: F,
) -> bool {
        let all = before.lock.queue@.push(CcRequest { owner, f });
        let c0 = before.lock.completed@.len() as int;
        &&& after.lock.data == run_all(request_fs(all), before.lock.data)
        &&& r == applied_all(request_fs(all), before.lock.data).last()
        &&& after.lock.queue@.len() == 0
        &&& after.lock.completed@.len() == c0 + before.lock.queue@.len()
        &&& after.lock.completed@.take(c0) == before.lock.completed@
        &&& request_fs(after.lock.completed@.skip(c0)) == applied_all(
            request_fs(all),
            before.lock.data,
        ).drop_last()
        &&& request_owners(after.lock.completed@.skip(c0)) == request_owners(
            before.lock.queue@,
        )
        &&& after.stats.num_exec == before.stats.num_exec + all.len()
        &&& after.stats.num_waiting_thread == before.stats.num_waiting_thread
        &&& exists|trace: Seq<u64>, now: u64|
            {
                &&& trace.len() == all.len()
                &&& after.completed_cs@ == before.completed_cs@ + trace.drop_last()
                &&& after.stats.avg_cs == average_after(
                    before.stats.avg_cs,
                    before.stats.num_exec as int,
                    trace,
                )
                &&& after.stats.banned_until@ == before.stats.banned_until@.update(
                    owner as int,
                    ban_deadline_spec(
                        now,
                        trace.last(),
                        before.stats.num_waiting_thread,
                        after.stats.avg_cs,
                    ),
                )
            }
}

/// CCSynch with banning: the request queue, its fairness statistics, and
/// the length of each completed critical section, from which its owner's
/// ban is computed when the owner takes the section back.
pub struct CCBan<T, F> {
    pub lock: CCSynch<T, F>,
    pub stats: CCBanStats,
    pub completed_cs: Vec<u64>,
}

impl<T, F: DLockDelegate<T>> CCBan<T, F> {
    /// Each completed critical section has its length.
    pub open spec fn wf(&self) -> bool {
        self.completed_cs@.len() == self.lock.completed@.len()
    }

    /// A lock protecting `data`: nothing published, no statistics yet.
    pub fn new(data: T) -> (l: Self)
        ensures
            l.wf(),
            l.lock.data == data,
            l.lock.queue@.len() == 0,
            l.lock.completed@.len() == 0,
            l.stats.avg_cs == 0,
            l.stats.num_exec == 0,
            l.stats.num_waiting_thread == 0,
            l.stats.banned_until@.len() == 0,
    {
        CCBan { lock: CCSynch::new(data), stats: CCBanStats::new(), completed_cs: Vec::new() }
    }

    /// Runs `f` for thread `owner` at time-stamp `now`, by which its ban has
    /// expired (a thread that would still be banned waits first; `enter`
    /// makes that check): publishes it at the tail and serves
    /// the queue in arrival order, timing each critical section and folding
    /// its length into the running average; then bans `owner` by the length
    /// of its own section. Returns the section after it ran.
    pub fn lock(&mut self, owner: usize, f: F, now: u64, clock: &Clock) -> (r: F)
        requires
            old(self).wf(),
            owner < old(self).stats.banned_until@.len(),
            (now as i64) >= old(self).stats.banned_until@[owner as int],
            old(self).stats.num_exec >= 0,
            old(self).stats.num_exec + old(self).lock.queue@.len() + 1 <= i64::MAX,
        ensures
            final(self).wf(),
            ccban_locked(*old(self), *final(self), owner, f, r),
    {
        let ghost c0 = self.lock.completed@;
        let ghost d0 = self.lock.data;
        let ghost cs0 = self.completed_cs@;
        let ghost n0 = self.stats.num_exec;
        let ghost avg0 = self.stats.avg_cs;
        self.lock.publish(owner, f);
        let ghost all = self.lock.queue@;
        let mut served: usize = 0;
        let mut trace: Vec<u64> = Vec::new();
        proof {
            assert(all.len() == self.lock.queue.len());
            assert(all.take(0) =~= seq![]);
            assert(all.skip(0) =~= all);
            assert(self.lock.completed@.skip(c0.len() as int) =~= seq![]);
            assert(request_fs(all.take(0)) =~= seq![]);
            assert(applied_all(request_fs(all.take(0)), d0) =~= seq![]);
            assert(request_fs(self.lock.completed@.skip(c0.len() as int)) =~= seq![]);
            assert(request_owners(self.lock.completed@.skip(c0.len() as int)) =~= seq![]);
            assert(request_owners(all.take(0)) =~= seq![]);
            assert(self.lock.completed@.take(c0.len() as int) =~= c0);
            assert(self.completed_cs@ =~= cs0 + trace@);
        }
        while self.lock.queue.len() > 0
            invariant
                served <= all.len(),
                all.len() <= usize::MAX,
                all.len() == old(self).lock.queue@.len() + 1,
                n0 + all.len() <= i64::MAX,
                n0 >= 0,
                self.lock.queue@ == all.skip(served as int),
                self.lock.data == run_all(request_fs(all.take(served as int)), d0),
                self.lock.completed@.len() == c0.len() + served,
                self.lock.completed@.take(c0.len() as int) == c0,
                request_fs(self.lock.completed@.skip(c0.len() as int)) == applied_all(
                    request_fs(all.take(served as int)),
                    d0,
                ),
                request_owners(self.lock.completed@.skip(c0.len() as int)) == request_owners(
                    all.take(served as int),
                ),
                c0.len() == cs0.len(),
                trace@.len() == served,
                self.completed_cs@ == cs0 + trace@,
                self.stats.num_exec == n0 + served,
                self.stats.avg_cs == average_after(avg0, n0 as int, trace@),
                self.stats.banned_until@ == old(self).stats.banned_until@,
                self.stats.num_waiting_thread == old(self).stats.num_waiting_thread,
            decreases all.len() - served,
        {
            let ghost done_before = self.lock.completed@;
            let ghost trace_before = trace@;
            let begin = read_clock(clock);
            let n = self.lock.combine(1);
            let end = read_clock(clock);
            let cs = end.wrapping_sub(begin);
            self.stats.record_cs(cs);
            self.completed_cs.push(cs);
            trace.push(cs);
            proof {
                assert(n == 1);
                let a = all.take(served as int);
                let b = all.skip(served as int).take(n as int);
                assert(all.take(served + n) =~= a + b);
                assert(request_fs(a + b) =~= request_fs(a) + request_fs(b));
                assert(request_owners(a + b) =~= request_owners(a) + request_owners(b));
                lemma_run_all_append(request_fs(a), request_fs(b), d0);
                lemma_applied_all_append(request_fs(a), request_fs(b), d0);
                let new_part = self.lock.completed@.skip(done_before.len() as int);
                assert(self.lock.completed@.skip(c0.len() as int) =~= done_before.skip(c0.len() as int)
                    + new_part) by {
                    assert(self.lock.completed@.take(done_before.len() as int) == done_before);
                }
                assert(request_fs(self.lock.completed@.skip(c0.len() as int)) =~= request_fs(
                    done_before.skip(c0.len() as int),
                ) + request_fs(new_part));
                assert(request_owners(self.lock.completed@.skip(c0.len() as int)) =~= request_owners(
                    done_before.skip(c0.len() as int),
                ) + request_owners(new_part));
                assert(self.lock.completed@.take(c0.len() as int) =~= done_before.take(c0.len() as int)) by {
                    assert(self.lock.completed@.take(done_before.len() as int) == done_before);
                }
                assert(all.skip(served as int).skip(n as int) =~= all.skip(served + n));
                assert(trace@.drop_last() =~= trace_before);
                assert(self.completed_cs@ =~= cs0 + trace@);
            }
            served = served + n;
        }
        proof {
            assert(all.take(all.len() as int) =~= all);
            lemma_applied_all_len(request_fs(all), d0);
        }
        let last = self.lock.completed.pop().unwrap();
        let own_cs = self.completed_cs.pop().unwrap();
        let banned_at = read_clock(clock);
        self.stats.ban(owner, banned_at, own_cs);
        proof {
            let full = request_fs(all);
            let before = self.lock.completed@.push(last);
            assert(before.skip(c0.len() as int) =~= self.lock.completed@.skip(c0.len() as int).push(last));
            assert(request_fs(before.skip(c0.len() as int)) =~= request_fs(
                self.lock.completed@.skip(c0.len() as int),
            ).push(last.f));
            assert(request_owners(before.skip(c0.len() as int)) =~= request_owners(
                self.lock.completed@.skip(c0.len() as int),
            ).push(last.owner));
            assert(request_owners(all) =~= request_owners(old(self).lock.queue@).push(owner));
            assert(self.lock.completed@.take(c0.len() as int) =~= before.take(c0.len() as int));
            let aa = applied_all(full, d0);
            assert(request_fs(before.skip(c0.len() as int)) == aa);
            assert(aa.last() == last.f);
            assert(aa.drop_last() =~= request_fs(self.lock.completed@.skip(c0.len() as int)));
            let ob = request_owners(before.skip(c0.len() as int));
            assert(ob == request_owners(all));
            assert(ob.drop_last() =~= request_owners(self.lock.completed@.skip(c0.len() as int)));
            assert(request_owners(all).drop_last() =~= request_owners(old(self).lock.queue@));
            assert(request_owners(self.lock.completed@.skip(c0.len() as int)) =~= request_owners(
                old(self).lock.queue@,
            ));
            let tr = trace@;
            assert(own_cs == tr.last());
            assert(self.completed_cs@ =~= cs0 + tr.drop_last());
            assert(tr.len() == all.len());
            assert(self.lock.completed@.take(c0.len() as int) =~= c0);
            assert({
                &&& tr.len() == all.len()
                &&& self.completed_cs@ == old(self).completed_cs@ + tr.drop_last()
                &&& self.stats.avg_cs == average_after(
                    old(self).stats.avg_cs,
                    old(self).stats.num_exec as int,
                    tr,
                )
                &&& self.stats.banned_until@ == old(self).stats.banned_until@.update(
                    owner as int,
                    ban_deadline_spec(banned_at, tr.last(), old(self).stats.num_waiting_thread, self.stats.avg_cs),
                )
            });
        }
        last.f
    }

    /// Thread `owner` asks to run `f` at time-stamp `now`: while its ban
    /// lasts (`now`, read as a signed value, is before its deadline) nothing
    /// is queued and `f` is handed back unrun; otherwise it locks as `lock`
    /// does. A thread that was never banned (deadline 0) enters at once.
    pub fn enter(&mut self, owner: usize, f: F, now: u64, clock: &Clock) -> (r: Result<F, F>)
        requires
            old(self).wf(),
            owner < old(self).stats.banned_until@.len(),
            old(self).stats.num_exec >= 0,
            old(self).stats.num_exec + old(self).lock.queue@.len() + 1 <= i64::MAX,
        ensures
            final(self).wf(),
            r is Ok <==> (now as i64) >= old(self).stats.banned_until@[owner as int],
            r matches Ok(g) ==> ccban_locked(*old(self), *final(self), owner, f, g),
            r matches Err(g) ==> g == f && *final(self) == *old(self),
    {
        if self.stats.may_enter(owner, now) {
            Ok(self.lock(owner, f, now, clock))
        } else {
            Err(f)
        }
    }

    /// A waiting thread finds its critical section completed by a combiner:
    /// it takes back the oldest completed section and is banned by that
    /// section's length, from the current clock reading.
    pub fn take_completed(&mut self, clock: &Clock) -> (r: Option<CcRequest<F>>)
        requires
            old(self).wf(),
            old(self).lock.completed@.len() > 0 ==> old(self).lock.completed@[0].owner < old(
                self,
            ).stats.banned_until@.len(),
        ensures
            final(self).wf(),
            final(self).lock.queue@ == old(self).lock.queue@,
            final(self).lock.data == old(self).lock.data,
            final(self).stats.avg_cs == old(self).stats.avg_cs,
            final(self).stats.num_exec == old(self).stats.num_exec,
            final(self).stats.num_waiting_thread == old(self).stats.num_waiting_thread,
            old(self).lock.completed@.len() == 0 ==> r.is_none() && *final(self) == *old(self),
            old(self).lock.completed@.len() > 0 ==> {
                &&& r == Some(old(self).lock.completed@[0])
                &&& final(self).lock.completed@ == old(self).lock.completed@.drop_first()
                &&& final(self).completed_cs@ == old(self).completed_cs@.drop_first()
                &&& exists|now: u64|
                    final(self).stats.banned_until@ == old(self).stats.banned_until@.update(
                        old(self).lock.completed@[0].owner as int,
                        ban_deadline_spec(
                            now,
                            old(self).completed_cs@[0],
                            old(self).stats.num_waiting_thread,
                            old(self).stats.avg_cs,
                        ),
                    )
            },
    {
        if self.lock.completed.len() == 0 {
            return None;
        }
        let req = self.lock.completed.remove(0);
        let cs = self.completed_cs.remove(0);
        let now = read_clock(clock);
        self.stats.ban(req.owner, now, cs);
        proof {
            assert(self.lock.completed@ =~= old(self).lock.completed@.drop_first());
            assert(self.completed_cs@ =~= old(self).completed_cs@.drop_first());
        }
        Some(req)
    }
}

/// Law: a thread whose weighted critical section is no longer than twice the
/// average gets no penalty: its ban deadline is no later than the moment it
/// was banned, so it may enter again at once (as long as the arithmetic
/// stays within `i64`).
pub proof fn law_short_sections_not_banned(now: u64, current_cs: u64, num_waiting: i32, avg_cs: i64)
    requires
        now <= i64::MAX,
        current_cs <= i64::MAX,
        i64::MIN <= (current_cs as i64) * (num_waiting as i64) <= i64::MAX,
        i64::MIN <= avg_cs * 2 <= i64::MAX,
        i64::MIN <= now + (current_cs as i64) * (num_waiting as i64) - avg_cs * 2,
        (current_cs as i64) * (num_waiting as i64) <= avg_cs * 2,
    ensures
        ban_deadline_spec(now, current_cs, num_waiting, avg_cs) <= now as i64,
{
}

} // verus!
