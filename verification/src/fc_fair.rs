use vstd::prelude::*;

use quanta::Clock;
use vstd::wrapping::i64_specs;
use vstd::wrapping::u64_specs;

use crate::clock::read_clock;
use crate::dlock::{CounterJob, DLockDelegate};
use crate::fairness::{div_toward_zero, wrapping_average};
use crate::fc::{FcLock, FcNode, CLEAN_UP_PERIOD};
use crate::guard::DLockGuard;

verus! {

/// Running statistics of a slice-fair flat-combining lock.
pub struct FairStats {
    /// Average critical-section length.
    pub avg_cs: i64,
    /// Average combining work per pass.
    pub avg_combiner_slice: i64,
    /// Critical sections run so far.
    pub num_exec: i32,
}

/// What the combiner saw at one position of the publication list.
#[derive(PartialEq, Eq, Structural, Clone, Copy, Debug)]
pub struct ServeTrace {
    /// The node held a critical section.
    pub pending: bool,
    /// The combiner ran it (the node was not banned).
    pub served: bool,
    /// Clock reading before the ban check.
    pub begin: u64,
    /// Clock reading after the critical section.
    pub end: u64,
}

/// The length of a served critical section, in the release build's wrapping
/// arithmetic (the clock source need not be monotonic).
pub open spec fn trace_cs(t: ServeTrace) -> i64 {
    u64_specs::wrapping_sub(t.end, t.begin) as i64
}

/// Statistics `(runs, average length, combining work)` after one more run.
pub open spec fn fair_step(s: (i32, i64, i64), cs: i64) -> (i32, i64, i64) {
    let n = (s.0 + 1) as i32;
    (n, wrapping_average(s.1, cs, n as i64), i64_specs::wrapping_add(s.2, cs))
}

/// Statistics after the first `k` positions of the trace.
pub open spec fn fair_stats_upto(trace: Seq<ServeTrace>, init: (i32, i64, i64), k: int) -> (
    i32,
    i64,
    i64,
)
    decreases k,
{
    if k <= 0 {
        init
    } else {
        let p = fair_stats_upto(trace, init, k - 1);
        if trace[k - 1].served {
            fair_step(p, trace_cs(trace[k - 1]))
        } else {
            p
        }
    }
}

/// The data after the critical sections served at the first `k` positions.
pub open spec fn fair_data_upto<T, F: DLockDelegate<T>>(
    nodes: Seq<FcNode<F>>,
    list: Seq<usize>,
    trace: Seq<ServeTrace>,
    data: T,
    k: int,
) -> T
    decreases k,
{
    if k <= 0 {
        data
    } else {
        let p = fair_data_upto(nodes, list, trace, data, k - 1);
        if trace[k - 1].served {
            match nodes[list[k - 1] as int].f {
                Some(f) => f.applied(p).1,
                None => p,
            }
        } else {
            p
        }
    }
}

/// The ban a served node gets: the end of its critical section plus the
/// excess of its length times the waiting threads over the average.
pub open spec fn fair_ban(t: ServeTrace, num_waiting: i32, avg: i64) -> u64 {
    let excess = i64_specs::wrapping_sub(
        i64_specs::wrapping_mul(trace_cs(t), num_waiting as i64),
        avg,
    );
    u64_specs::wrapping_add(
        t.end,
        (if excess > 0 {
            excess
        } else {
            0
        }) as u64,
    )
}

/// Law: a served node whose weighted critical section does not exceed the
/// average is not banned: it may be served again from the moment its
/// section ended.
pub proof fn law_fair_ban_short_sections(t: ServeTrace, num_waiting: i32, avg: i64)
    requires
        i64_specs::wrapping_sub(i64_specs::wrapping_mul(trace_cs(t), num_waiting as i64), avg) <= 0,
    ensures
        fair_ban(t, num_waiting, avg) == t.end,
{
}

/// Law: unless the clock is about to wrap around, a ban never ends before the
/// critical section it follows, and it lasts exactly the excess of the
/// weighted length over the average.
pub proof fn law_fair_ban_not_before_end(t: ServeTrace, num_waiting: i32, avg: i64)
    requires
        ({
            let excess = i64_specs::wrapping_sub(
                i64_specs::wrapping_mul(trace_cs(t), num_waiting as i64),
                avg,
            );
            t.end + (if excess > 0 { excess as int } else { 0int }) <= u64::MAX
        }),
    ensures
        fair_ban(t, num_waiting, avg) >= t.end,
        fair_ban(t, num_waiting, avg) == t.end + ({
            let excess = i64_specs::wrapping_sub(
                i64_specs::wrapping_mul(trace_cs(t), num_waiting as i64),
                avg,
            );
            if excess > 0 { excess as int } else { 0int }
        }),
{
}

/// The node at position `k` after a fair combining pass.
pub open spec fn fair_node<T, F: DLockDelegate<T>>(
    nodes: Seq<FcNode<F>>,
    list: Seq<usize>,
    trace: Seq<ServeTrace>,
    data: T,
    pass: u32,
    num_waiting: i32,
    init: (i32, i64, i64),
    k: int,
) -> FcNode<F> {
    let node = nodes[list[k] as int];
    match node.f {
        Some(f) => if trace[k].served {
            FcNode {
                age: pass,
                f: None,
                done: Some(f.applied(fair_data_upto(nodes, list, trace, data, k)).0),
                banned_until: fair_ban(
                    trace[k],
                    num_waiting,
                    fair_stats_upto(trace, init, k + 1).1,
                ),
                ..node
            }
        } else {
            FcNode { age: pass, ..node }
        },
        None => node,
    }
}

/// The combining pass of the slice-fair flat-combining lock, run by thread
/// `combiner`. Every pending node is stamped with the pass; a node whose ban
/// lasts beyond the clock reading is skipped, every other one is served in
/// list order, its length folded into the running average and its ban set
/// from it. Returns what it saw at each position; the statistics, the data
/// and the nodes afterwards are determined by that trace.
pub fn fair_combine<T, F: DLockDelegate<T>>(
    lock: &mut FcLock<T, F>,
    stats: &mut FairStats,
    combiner: usize,
    clock: &Clock,
) -> (trace: Vec<ServeTrace>)
    requires
        old(lock).wf(),
        combiner < old(lock).nodes@.len(),
        old(lock).pass != 0,
        old(stats).num_exec >= 0,
        old(stats).num_exec + old(lock).list@.len() <= i32::MAX,
    ensures
        final(lock).wf(),
        final(lock).pass == vstd::wrapping::u32_specs::wrapping_add(old(lock).pass, 1),
        final(lock).list@ == old(lock).list@,
        final(lock).nodes@.len() == old(lock).nodes@.len(),
        final(lock).num_waiting_threads == old(lock).num_waiting_threads,
        trace@.len() == old(lock).list@.len(),
        forall|k: int|
            0 <= k < trace@.len() ==> (#[trigger] trace@[k]).pending == old(lock).nodes@[old(lock).list@[k] as int].f.is_some(),
        forall|k: int|
            0 <= k < trace@.len() && (#[trigger] trace@[k]).served ==> trace@[k].pending && !(old(lock).nodes@[old(lock).list@[k] as int].banned_until > trace@[k].begin),
        forall|k: int|
            0 <= k < trace@.len() && (#[trigger] trace@[k]).pending && !trace@[k].served ==> old(lock).nodes@[old(lock).list@[k] as int].banned_until > trace@[k].begin,
        final(lock).data == fair_data_upto(
            old(lock).nodes@,
            old(lock).list@,
            trace@,
            old(lock).data,
            trace@.len() as int,
        ),
        ({
            let init = (
                old(stats).num_exec,
                old(stats).avg_cs,
                old(lock).nodes@[combiner as int].combiner_time,
            );
            let fin = fair_stats_upto(trace@, init, trace@.len() as int);
            &&& final(stats).num_exec == fin.0
            &&& final(stats).avg_cs == fin.1
            &&& final(stats).avg_combiner_slice == i64_specs::wrapping_add(
                old(stats).avg_combiner_slice,
                div_toward_zero(
                    i64_specs::wrapping_sub(fin.2, old(stats).avg_combiner_slice) as int,
                    old(lock).pass as int,
                ) as i64,
            )
            &&& forall|k: int|
                0 <= k < old(lock).list@.len() && old(lock).list@[k] != combiner ==> final(lock).nodes@[old(lock).list@[k] as int] == fair_node(
                    old(lock).nodes@,
                    old(lock).list@,
                    trace@,
                    old(lock).data,
                    old(lock).pass,
                    old(lock).num_waiting_threads,
                    init,
                    k,
                )
            &&& final(lock).nodes@[combiner as int].combiner_time == fin.2
            &&& forall|k: int|
                0 <= k < old(lock).list@.len() && old(lock).list@[k] == combiner ==> final(lock).nodes@[combiner as int]
                    == (FcNode {
                    combiner_time: fin.2,
                    ..fair_node(
                        old(lock).nodes@,
                        old(lock).list@,
                        trace@,
                        old(lock).data,
                        old(lock).pass,
                        old(lock).num_waiting_threads,
                        init,
                        k,
                    )
                })
            &&& !old(lock).list@.contains(combiner) ==> final(lock).nodes@[combiner as int] == (FcNode {
                combiner_time: fin.2,
                ..old(lock).nodes@[combiner as int]
            })
        }),
        forall|id: int|
            0 <= id < old(lock).nodes@.len() && id != combiner && !old(lock).list@.contains(
                id as usize,
            ) ==> final(lock).nodes@[id] == old(lock).nodes@[id],
{
    let pass = lock.pass;
    lock.pass = lock.pass.wrapping_add(1);
    let nw = lock.num_waiting_threads;
    let ghost nodes0 = lock.nodes@;
    let ghost list0 = lock.list@;
    let ghost data0 = lock.data;
    let ghost init = (stats.num_exec, stats.avg_cs, nodes0[combiner as int].combiner_time);
    let mut work = lock.nodes[combiner].combiner_time;
    let mut trace: Vec<ServeTrace> = Vec::new();
    let n = lock.list.len();
    let mut k: usize = 0;
    while k < n
        invariant
            0 <= k <= n,
            n == list0.len(),
            lock.list@ == list0,
            lock.pass == vstd::wrapping::u32_specs::wrapping_add(pass, 1),
            pass == old(lock).pass,
            nw == old(lock).num_waiting_threads,
            nodes0 == old(lock).nodes@,
            list0 == old(lock).list@,
            data0 == old(lock).data,
            old(lock).wf(),
            combiner < nodes0.len(),
            lock.num_waiting_threads == nw,
            lock.nodes@.len() == nodes0.len(),
            init == (old(stats).num_exec, old(stats).avg_cs, nodes0[combiner as int].combiner_time),
            old(stats).num_exec >= 0,
            old(stats).num_exec + n <= i32::MAX,
            stats.avg_combiner_slice == old(stats).avg_combiner_slice,
            trace@.len() == k,
            (stats.num_exec, stats.avg_cs, work) == fair_stats_upto(trace@, init, k as int),
            old(stats).num_exec <= stats.num_exec <= old(stats).num_exec + k,
            forall|j: int|
                0 <= j < k ==> (#[trigger] trace@[j]).pending == nodes0[list0[j] as int].f.is_some(),
            forall|j: int|
                0 <= j < k && (#[trigger] trace@[j]).served ==> trace@[j].pending && !(
                nodes0[list0[j] as int].banned_until > trace@[j].begin),
            forall|j: int|
                0 <= j < k && (#[trigger] trace@[j]).pending && !trace@[j].served
                    ==> nodes0[list0[j] as int].banned_until > trace@[j].begin,
            lock.data == fair_data_upto(nodes0, list0, trace@, data0, k as int),
            forall|j: int|
                0 <= j < k ==> lock.nodes@[list0[j] as int] == fair_node(
                    nodes0,
                    list0,
                    trace@,
                    data0,
                    pass,
                    nw,
                    init,
                    j,
                ),
            forall|id: int|
                0 <= id < nodes0.len() && !list0.take(k as int).contains(id as usize)
                    ==> lock.nodes@[id] == nodes0[id],
        decreases n - k,
    {
        let id = lock.list[k];
        let ghost trace_before = trace@;
        proof {
            assert(!list0.take(k as int).contains(id)) by {
                if list0.take(k as int).contains(id) {
                    let j = choose|j: int| 0 <= j < k && list0.take(k as int)[j] == id;
                    assert(list0[j] == list0[k as int]);
                }
            }
            assert(lock.nodes@[id as int] == nodes0[id as int]);
        }
        if lock.nodes[id].f.is_some() {
            lock.nodes[id].age = pass;
            let begin = read_clock(clock);
            if lock.nodes[id].banned_until > begin {
                trace.push(ServeTrace { pending: true, served: false, begin, end: begin });
                proof {
                    assert(lock.nodes@[id as int] == fair_node(nodes0, list0, trace@, data0, pass, nw, init, k as int));
                }
            } else {
                let ghost data_pre = lock.data;
                let taken = lock.nodes[id].f.take();
                let mut f = taken.unwrap();
                let ghost f_pre = f;
                f.apply(DLockGuard::new(&mut lock.data));
                let end = read_clock(clock);
                let cs = end.wrapping_sub(begin) as i64;
                let ghost prev = (stats.num_exec, stats.avg_cs, work);
                stats.num_exec = stats.num_exec + 1;
                let diff = cs.wrapping_sub(stats.avg_cs);
                let q = diff / (stats.num_exec as i64);
                proof {
                    assert(q == div_toward_zero(diff as int, stats.num_exec as int));
                }
                stats.avg_cs = stats.avg_cs.wrapping_add(q);
                let excess = cs.wrapping_mul(nw as i64).wrapping_sub(stats.avg_cs);
                let wait: i64 = if excess > 0 {
                    excess
                } else {
                    0
                };
                lock.nodes[id].banned_until = end.wrapping_add(wait as u64);
                lock.nodes[id].done = Some(f);
                work = work.wrapping_add(cs);
                trace.push(ServeTrace { pending: true, served: true, begin, end });
                proof {
                    assert(trace@[k as int].served);
                    assert(trace_cs(trace@[k as int]) == cs);
                    lemma_stats_prefix(trace_before, trace@, init, k as int);
                    assert(fair_stats_upto(trace@, init, k as int) == prev);
                    assert(fair_stats_upto(trace@, init, k as int + 1) == fair_step(prev, cs));
                    assert(fair_step(prev, cs) == (stats.num_exec, stats.avg_cs, work));
                    lemma_data_prefix(nodes0, list0, trace_before, trace@, data0, k as int);
                    assert(data_pre == fair_data_upto(nodes0, list0, trace@, data0, k as int));
                    assert(f_pre == nodes0[id as int].f.unwrap());
                    assert(fair_ban(trace@[k as int], nw, stats.avg_cs) == lock.nodes@[id as int].banned_until);
                    assert(lock.nodes@[id as int] == fair_node(nodes0, list0, trace@, data0, pass, nw, init, k as int));
                }
            }
        } else {
            trace.push(ServeTrace { pending: false, served: false, begin: 0, end: 0 });
            proof {
                assert(lock.nodes@[id as int] == fair_node(nodes0, list0, trace@, data0, pass, nw, init, k as int));
            }
        }
        proof {
            assert(lock.nodes@[id as int] == fair_node(nodes0, list0, trace@, data0, pass, nw, init, k as int));
        }
        proof {
            assert forall|j: int| 0 <= j < k implies trace@[j] == trace_before[j] by {}
            assert(fair_stats_upto(trace@, init, k as int) == fair_stats_upto(
                trace_before,
                init,
                k as int,
            )) by {
                lemma_stats_prefix(trace_before, trace@, init, k as int);
            }
            assert(fair_data_upto(nodes0, list0, trace@, data0, k as int) == fair_data_upto(
                nodes0,
                list0,
                trace_before,
                data0,
                k as int,
            )) by {
                lemma_data_prefix(nodes0, list0, trace_before, trace@, data0, k as int);
            }
            assert forall|j: int| 0 <= j < k + 1 implies lock.nodes@[list0[j] as int] == fair_node(
                nodes0,
                list0,
                trace@,
                data0,
                pass,
                nw,
                init,
                j,
            ) by {
                if j < k {
                    assert(list0[j] != list0[k as int]);
                    lemma_stats_prefix(trace_before, trace@, init, j + 1);
                    lemma_data_prefix(nodes0, list0, trace_before, trace@, data0, j);
                    assert(trace@[j] == trace_before[j]);
                    assert(fair_node(nodes0, list0, trace@, data0, pass, nw, init, j) == fair_node(nodes0, list0, trace_before, data0, pass, nw, init, j));
                }
            }
            assert forall|x: int|
                0 <= x < nodes0.len() && !list0.take(k as int + 1).contains(
                    x as usize,
                ) implies lock.nodes@[x] == nodes0[x] by {
                assert(list0.take(k as int + 1)[k as int] == id);
                if list0.take(k as int).contains(x as usize) {
                    let j = choose|j: int| 0 <= j < k && list0.take(k as int)[j] == x as usize;
                    assert(list0.take(k as int + 1)[j] == x as usize);
                }
            }
        }
        k = k + 1;
    }
    let ghost nodes_before_time = lock.nodes@;
    lock.nodes[combiner].combiner_time = work;
    stats.avg_combiner_slice = stats.avg_combiner_slice.wrapping_add(
        work.wrapping_sub(stats.avg_combiner_slice) / (pass as i64),
    );
    proof {
        assert(list0.take(n as int) =~= list0);
        assert forall|id: int| 0 <= id < lock.nodes.len() implies (lock.nodes@[id].active
            <==> lock.list@.contains(id as usize)) by {
            assert(nodes0[id].active <==> list0.contains(id as usize));
            if lock.list@.contains(id as usize) {
                let j = choose|j: int| 0 <= j < n && list0[j] == id as usize;
                assert(nodes_before_time[list0[j] as int] == fair_node(
                    nodes0,
                    list0,
                    trace@,
                    data0,
                    pass,
                    nw,
                    init,
                    j,
                ));
            } else {
                assert(nodes_before_time[id] == nodes0[id]);
            }
        }
    }
    trace
}

proof fn lemma_stats_prefix(
    a: Seq<ServeTrace>,
    b: Seq<ServeTrace>,
    init: (i32, i64, i64),
    k: int,
)
    requires
        0 <= k <= a.len(),
        k <= b.len(),
        forall|j: int| 0 <= j < k ==> a[j] == b[j],
    ensures
        fair_stats_upto(a, init, k) == fair_stats_upto(b, init, k),
    decreases k,
{
    if k > 0 {
        lemma_stats_prefix(a, b, init, k - 1);
    }
}

proof fn lemma_data_prefix<T, F: DLockDelegate<T>>(
    nodes: Seq<FcNode<F>>,
    list: Seq<usize>,
    a: Seq<ServeTrace>,
    b: Seq<ServeTrace>,
    data: T,
    k: int,
)
    requires
        0 <= k <= a.len(),
        k <= b.len(),
        forall|j: int| 0 <= j < k ==> a[j] == b[j],
    ensures
        fair_data_upto(nodes, list, a, data, k) == fair_data_upto(nodes, list, b, data, k),
    decreases k,
{
    if k > 0 {
        lemma_data_prefix(nodes, list, a, b, data, k - 1);
    }
}

/// The sum of the increments that a fair pass served at its first `k`
/// positions.
pub open spec fn served_total(nodes: Seq<FcNode<CounterJob>>, list: Seq<usize>, trace: Seq<ServeTrace>, k: int) -> int
    decreases k,
{
    if k <= 0 {
        0
    } else {
        served_total(nodes, list, trace, k - 1) + if trace[k - 1].served {
            match nodes[list[k - 1] as int].f {
                Some(job) => job.amount as int,
                None => 0,
            }
        } else {
            0
        }
    }
}

/// Law: a fair pass over counter jobs adds to the counter exactly the
/// increments of the nodes it served, and nothing for the banned ones
/// (modulo 2^64, as the counter wraps).
pub proof fn law_fair_counter_total(
    nodes: Seq<FcNode<CounterJob>>,
    list: Seq<usize>,
    trace: Seq<ServeTrace>,
    data: u64,
    k: int,
)
    ensures
        fair_data_upto(nodes, list, trace, data, k) as int == (data + served_total(nodes, list, trace, k))
            % 0x1_0000_0000_0000_0000,
    decreases k,
{
    if k > 0 {
        law_fair_counter_total(nodes, list, trace, data, k - 1);
        let prev = fair_data_upto(nodes, list, trace, data, k - 1);
        let t = served_total(nodes, list, trace, k - 1);
        if trace[k - 1].served {
            match nodes[list[k - 1] as int].f {
                Some(job) => {
                    vstd::arithmetic::div_mod::lemma_add_mod_noop_right(
                        job.amount as int,
                        data + t,
                        0x1_0000_0000_0000_0000,
                    );
                    assert((prev + job.amount) % 0x1_0000_0000_0000_0000 == (data + t + job.amount)
                        % 0x1_0000_0000_0000_0000);
                },
                None => {
                    vstd::arithmetic::div_mod::lemma_small_mod(prev as nat, 0x1_0000_0000_0000_0000);
                },
            }
        } else {
            vstd::arithmetic::div_mod::lemma_small_mod(prev as nat, 0x1_0000_0000_0000_0000);
        }
    } else {
        vstd::arithmetic::div_mod::lemma_small_mod(data as nat, 0x1_0000_0000_0000_0000);
    }
}

/// The statistics' starting point for a pass run by a combiner whose
/// accumulated combining work is `combiner_time`.
pub open spec fn fair_init(stats: FairStats, combiner_time: i64) -> (i32, i64, i64) {
    (stats.num_exec, stats.avg_cs, combiner_time)
}

/// The statistics after pass number `pass` saw `trace`.
pub open spec fn stats_after(stats: FairStats, trace: Seq<ServeTrace>, combiner_time: i64, pass: u32) -> FairStats {
    let fin = fair_stats_upto(trace, fair_init(stats, combiner_time), trace.len() as int);
    FairStats {
        num_exec: fin.0,
        avg_cs: fin.1,
        avg_combiner_slice: i64_specs::wrapping_add(
            stats.avg_combiner_slice,
            div_toward_zero(
                i64_specs::wrapping_sub(fin.2, stats.avg_combiner_slice) as int,
                pass as int,
            ) as i64,
        ),
    }
}

/// A slice-fair flat-combining lock: the publication list and the running
/// statistics its combiners keep.
pub struct FairFcLock<T, F> {
    pub lock: FcLock<T, F>,
    pub stats: FairStats,
}

impl<T, F: DLockDelegate<T>> FairFcLock<T, F> {
    /// A lock protecting `data`: no thread registered, passes numbered from
    /// one, no statistics yet.
    pub fn new(data: T) -> (l: Self)
        ensures
            l.lock.wf(),
            l.lock.pass == 1,
            l.lock.data == data,
            l.lock.nodes@.len() == 0,
            l.lock.list@.len() == 0,
            l.stats == (FairStats { avg_cs: 0, avg_combiner_slice: 0, num_exec: 0 }),
    {
        FairFcLock {
            lock: FcLock { pass: 1, data, nodes: Vec::new(), list: Vec::new(), num_waiting_threads: 0 },
            stats: FairStats { avg_cs: 0, avg_combiner_slice: 0, num_exec: 0 },
        }
    }

    /// One round of thread `id`'s wait for the critical section it
    /// published (its node is linked in): it runs a fair combining pass as
    /// combiner, prunes the list every `CLEAN_UP_PERIOD` passes, and takes
    /// back its critical section if the pass ran it. When it did not (the
    /// node was banned), the node is linked back in if the pruning removed
    /// it, and the thread backs off before its next round. Returns the
    /// critical section if it ran, and the pass's trace.
    pub fn lock_round(&mut self, id: usize, clock: &Clock) -> (r: (Option<F>, Vec<ServeTrace>))
        requires
            old(self).lock.wf(),
            id < old(self).lock.nodes@.len(),
            old(self).lock.nodes@[id as int].active,
            old(self).lock.pass != 0,
            old(self).stats.num_exec >= 0,
            old(self).stats.num_exec + old(self).lock.list@.len() <= i32::MAX,
        ensures
            final(self).lock.wf(),
            final(self).lock.pass == vstd::wrapping::u32_specs::wrapping_add(old(self).lock.pass, 1),
            r.1@.len() == old(self).lock.list@.len(),
            forall|k: int|
                0 <= k < r.1@.len() ==> (#[trigger] r.1@[k]).pending == old(self).lock.nodes@[old(
                    self,
                ).lock.list@[k] as int].f.is_some(),
            forall|k: int|
                0 <= k < r.1@.len() && (#[trigger] r.1@[k]).served ==> r.1@[k].pending && !(old(
                    self,
                ).lock.nodes@[old(self).lock.list@[k] as int].banned_until > r.1@[k].begin),
            forall|k: int|
                0 <= k < r.1@.len() && (#[trigger] r.1@[k]).pending && !r.1@[k].served ==> old(
                    self,
                ).lock.nodes@[old(self).lock.list@[k] as int].banned_until > r.1@[k].begin,
            final(self).lock.data == fair_data_upto(
                old(self).lock.nodes@,
                old(self).lock.list@,
                r.1@,
                old(self).lock.data,
                r.1@.len() as int,
            ),
            final(self).stats == stats_after(
                old(self).stats,
                r.1@,
                old(self).lock.nodes@[id as int].combiner_time,
                old(self).lock.pass,
            ),
            forall|k: int|
                0 <= k < old(self).lock.list@.len() && old(self).lock.list@[k] == id ==> r.0
                    == fair_node(
                    old(self).lock.nodes@,
                    old(self).lock.list@,
                    r.1@,
                    old(self).lock.data,
                    old(self).lock.pass,
                    old(self).lock.num_waiting_threads,
                    fair_init(old(self).stats, old(self).lock.nodes@[id as int].combiner_time),
                    k,
                ).done,
            final(self).lock.nodes@[id as int].done.is_none(),
            final(self).lock.nodes@[id as int].combiner_time == fair_stats_upto(
                r.1@,
                fair_init(old(self).stats, old(self).lock.nodes@[id as int].combiner_time),
                r.1@.len() as int,
            ).2,
            r.0.is_none() ==> final(self).lock.nodes@[id as int].active,
            forall|k: int|
                0 <= k < old(self).lock.list@.len() && old(self).lock.list@[k] != id
                    ==> final(self).lock.nodes@[old(self).lock.list@[k] as int] == (FcNode {
                    active: final(self).lock.nodes@[old(self).lock.list@[k] as int].active,
                    ..fair_node(
                        old(self).lock.nodes@,
                        old(self).lock.list@,
                        r.1@,
                        old(self).lock.data,
                        old(self).lock.pass,
                        old(self).lock.num_waiting_threads,
                        fair_init(old(self).stats, old(self).lock.nodes@[id as int].combiner_time),
                        k,
                    )
                }),
            final(self).lock.nodes@.len() == old(self).lock.nodes@.len(),
            final(self).lock.num_waiting_threads == old(self).lock.num_waiting_threads,
            final(self).lock.pass % CLEAN_UP_PERIOD != 0 ==> final(self).lock.list@ == old(self).lock.list@,
    {
        let ghost nodes0 = self.lock.nodes@;
        let ghost list0 = self.lock.list@;
        proof {
            assert(list0.contains(id));
        }
        let trace = fair_combine(&mut self.lock, &mut self.stats, id, clock);
        let ghost nodes1 = self.lock.nodes@;
        if self.lock.pass % CLEAN_UP_PERIOD == 0 {
            let p = self.lock.pass;
            self.lock.clean_unactive_node(p);
        }
        let ghost nodes2 = self.lock.nodes@;
        proof {
            assert forall|x: int| 0 <= x < nodes0.len() implies (#[trigger] nodes2[x]) == (FcNode {
                active: nodes2[x].active,
                ..nodes1[x]
            }) by {}
        }
        let done = self.lock.take_done(id);
        if done.is_none() {
            self.lock.push_if_unactive(id);
        }
        proof {
            let k = choose|k: int| 0 <= k < list0.len() && list0[k] == id;
            assert forall|j: int| 0 <= j < list0.len() && list0[j] == id implies j == k by {}
            assert forall|j: int| 0 <= j < list0.len() && list0[j] != id implies self.lock.nodes@[list0[j] as int]
                == (FcNode { active: self.lock.nodes@[list0[j] as int].active, ..nodes1[list0[j] as int] }) by {}
        }
        (done, trace)
    }
}

/// `std::hint::spin_loop`: a hint to the processor; it has no effect
/// that the program can observe.
#[verifier::external_body]
fn spin_loop_hint() {
    std::hint::spin_loop();
}

/// Busy-waits for `num` spin-loop hints (none when `num` is not positive);
/// returns how many it issued.
pub fn spin(num: i64) -> (spins: u64)
    ensures
        spins == (if num > 0 {
            num as int
        } else {
            0
        }),
{
    let mut spins: u64 = 0;
    let mut i: i64 = 0;
    while i < num
        invariant
            0 <= i,
            num > 0 ==> i <= num,
            num <= 0 ==> i == 0,
            spins == i,
        decreases num - i,
    {
        spin_loop_hint();
        i = i + 1;
        spins = spins + 1;
    }
    spins
}

} // verus!
