use vstd::prelude::*;

use crossbeam_skiplist::SkipMap;
use quanta::Clock;
use vstd::wrapping::u64_specs;

use crate::clock::read_clock;
use crate::dlock::{CounterJob, DLockDelegate};
use crate::guard::DLockGuard;

verus! {

/// How much critical-section time (in clock ticks: 100 µs at 2.4 GHz) one
/// combiner spends before it stops taking jobs.
pub const COMBINER_SLICE: u64 = 240_000_000;

#[verifier::external_type_specification]
#[verifier::external_body]
#[verifier::reject_recursive_types(K)]
#[verifier::reject_recursive_types(V)]
pub struct ExSkipMap<K, V>(SkipMap<K, V>);

/// The entries a job skip map holds: priority key to node index.
pub uninterp spec fn skip_map_entries(m: SkipMap<u64, usize>) -> Map<u64, usize>;

/// `SkipMap::new`: an empty map.
#[verifier::external_body]
fn skip_map_new() -> (fresh: SkipMap<u64, usize>)
    ensures
        skip_map_entries(fresh).dom() == Set::<u64>::empty(),
{
    SkipMap::new()
}

/// `SkipMap::insert`: per its documentation, an existing entry with the same
/// key is removed before the new one is inserted.
#[verifier::external_body]
fn skip_map_insert(m: &mut SkipMap<u64, usize>, key: u64, value: usize)
    ensures
        skip_map_entries(*final(m)) == skip_map_entries(*old(m)).insert(key, value),
{
    m.insert(key, value);
}

/// Whether `k` is the lowest key of `m`.
pub open spec fn is_lowest_key(m: Map<u64, usize>, k: u64) -> bool {
    m.dom().contains(k) && forall|j: u64| m.dom().contains(j) ==> k <= j
}

/// `SkipMap::pop_front`: removes and returns the entry with the lowest key,
/// or nothing when the map is empty.
#[verifier::external_body]
fn skip_map_pop_front(m: &mut SkipMap<u64, usize>) -> (r: Option<(u64, usize)>)
    ensures
        match r {
            None => skip_map_entries(*old(m)).dom() == Set::<u64>::empty() && skip_map_entries(
                *final(m),
            ) == skip_map_entries(*old(m)),
            Some((k, v)) => is_lowest_key(skip_map_entries(*old(m)), k) && v == skip_map_entries(
                *old(m),
            )[k] && skip_map_entries(*final(m)) == skip_map_entries(*old(m)).remove(k),
        },
{
    match m.pop_front() {
        Some(e) => Some((*e.key(), *e.value())),
        None => None,
    }
}

/// A thread's node: whether it is queued, the critical-section time it was
/// granted so far, and its pending and completed critical sections.
pub struct SlNode<F> {
    pub active: bool,
    pub usage: u64,
    pub tid: u64,
    pub f: Option<F>,
    pub done: Option<F>,
}

/// Flat combining over a skip list: waiting threads are queued by the
/// critical-section time they were granted so far plus their thread id, and
/// the combiner serves the least-served first, for one time slice.
pub struct FcSL<T, F> {
    pub data: T,
    pub nodes: Vec<SlNode<F>>,
    pub jobs: SkipMap<u64, usize>,
}

/// One job the combiner took: its key, its node, and the time it took.
#[derive(PartialEq, Eq, Structural, Clone, Copy, Debug)]
pub struct SlJob {
    pub key: u64,
    pub node: usize,
    pub cs: u64,
}

/// The jobs left after the first `k` taken ones were removed.
pub open spec fn jobs_left(entries: Map<u64, usize>, taken: Seq<SlJob>, k: int) -> Map<u64, usize>
    decreases k,
{
    if k <= 0 {
        entries
    } else {
        jobs_left(entries, taken, k - 1).remove(taken[k - 1].key)
    }
}

/// The nodes after the first `k` taken jobs ran.
pub open spec fn sl_nodes_after<T, F: DLockDelegate<T>>(
    nodes: Seq<SlNode<F>>,
    taken: Seq<SlJob>,
    data: T,
    k: int,
) -> (Seq<SlNode<F>>, T)
    decreases k,
{
    if k <= 0 {
        (nodes, data)
    } else {
        let (ns, d) = sl_nodes_after(nodes, taken, data, k - 1);
        let j = taken[k - 1];
        let node = ns[j.node as int];
        let (f_after, d_after) = match node.f {
            Some(f) => (Some(f.applied(d).0), f.applied(d).1),
            None => (node.done, d),
        };
        (
            ns.update(
                j.node as int,
                SlNode {
                    active: false,
                    usage: u64_specs::wrapping_add(node.usage, j.cs),
                    tid: node.tid,
                    f: None,
                    done: f_after,
                },
            ),
            d_after,
        )
    }
}

/// The sum of the increments that the first `k` taken jobs found pending
/// (a node whose section already ran in this pass adds nothing).
pub open spec fn sl_served_total(nodes: Seq<SlNode<CounterJob>>, taken: Seq<SlJob>, data: u64, k: int) -> int
    decreases k,
{
    if k <= 0 {
        0
    } else {
        sl_served_total(nodes, taken, data, k - 1) + match sl_nodes_after(nodes, taken, data, k - 1).0[taken[k
            - 1].node as int].f {
            Some(job) => job.amount as int,
            None => 0,
        }
    }
}

/// Law: a skip-list combining pass over counter jobs adds to the counter
/// exactly the increments it found pending, each once (modulo 2^64, as the
/// counter wraps).
pub proof fn law_sl_counter_total(nodes: Seq<SlNode<CounterJob>>, taken: Seq<SlJob>, data: u64, k: int)
    ensures
        sl_nodes_after(nodes, taken, data, k).1 as int == (data + sl_served_total(nodes, taken, data, k))
            % 0x1_0000_0000_0000_0000,
    decreases k,
{
    if k > 0 {
        law_sl_counter_total(nodes, taken, data, k - 1);
        let prev = sl_nodes_after(nodes, taken, data, k - 1).1;
        let t = sl_served_total(nodes, taken, data, k - 1);
        match sl_nodes_after(nodes, taken, data, k - 1).0[taken[k - 1].node as int].f {
            Some(job) => {
                vstd::arithmetic::div_mod::lemma_add_mod_noop_right(
                    job.amount as int,
                    data + t,
                    0x1_0000_0000_0000_0000,
                );
                assert((prev + job.amount) % 0x1_0000_0000_0000_0000 == (data + t + job.amount)
                    % 0x1_0000_0000_0000_0000);
            },
            None => {
                vstd::arithmetic::div_mod::lemma_small_mod(prev as nat, 0x1_0000_0000_0000_0000);
            },
        }
    } else {
        vstd::arithmetic::div_mod::lemma_small_mod(data as nat, 0x1_0000_0000_0000_0000);
    }
}

/// Total time of the first `k` taken jobs, in wrapping arithmetic.
pub open spec fn slice_used(taken: Seq<SlJob>, k: int) -> u64
    decreases k,
{
    if k <= 0 {
        0
    } else {
        u64_specs::wrapping_add(slice_used(taken, k - 1), taken[k - 1].cs)
    }
}

/// The time of the first `k` taken jobs that ran on behalf of node `id`.
pub open spec fn charged(taken: Seq<SlJob>, id: int, k: int) -> int
    decreases k,
{
    if k <= 0 {
        0
    } else {
        charged(taken, id, k - 1) + if taken[k - 1].node == id {
            taken[k - 1].cs as int
        } else {
            0int
        }
    }
}

/// The time of the first `k` taken jobs, whoever they ran for.
pub open spec fn time_taken(taken: Seq<SlJob>, k: int) -> int
    decreases k,
{
    if k <= 0 {
        0
    } else {
        time_taken(taken, k - 1) + taken[k - 1].cs
    }
}

/// Law: after the first `k` taken jobs ran, each node's usage is its usage
/// before plus the time of the jobs that ran on its behalf (modulo 2^64, as
/// usage wraps); nodes no job named keep their usage.
pub proof fn law_sl_usage_charged<T, F: DLockDelegate<T>>(
    nodes: Seq<SlNode<F>>,
    taken: Seq<SlJob>,
    data: T,
    k: int,
    id: int,
)
    requires
        0 <= id < nodes.len(),
        forall|j: int| 0 <= j < k ==> taken[j].node < nodes.len(),
    ensures
        sl_nodes_after(nodes, taken, data, k).0.len() == nodes.len(),
        sl_nodes_after(nodes, taken, data, k).0[id].usage as int == (nodes[id].usage + charged(
            taken,
            id,
            k,
        )) % 0x1_0000_0000_0000_0000,
    decreases k,
{
    if k > 0 {
        law_sl_usage_charged(nodes, taken, data, k - 1, id);
        let prev = sl_nodes_after(nodes, taken, data, k - 1).0[id].usage;
        let c = charged(taken, id, k - 1);
        if taken[k - 1].node == id {
            let cs = taken[k - 1].cs;
            vstd::arithmetic::div_mod::lemma_add_mod_noop_right(
                cs as int,
                nodes[id].usage + c,
                0x1_0000_0000_0000_0000,
            );
            assert((prev + cs) % 0x1_0000_0000_0000_0000 == (nodes[id].usage + c + cs)
                % 0x1_0000_0000_0000_0000);
            if prev + cs > u64::MAX {
                vstd::arithmetic::div_mod::lemma_mod_add_multiples_vanish(
                    prev + cs - 0x1_0000_0000_0000_0000,
                    0x1_0000_0000_0000_0000,
                );
                vstd::arithmetic::div_mod::lemma_small_mod(
                    (prev + cs - 0x1_0000_0000_0000_0000) as nat,
                    0x1_0000_0000_0000_0000,
                );
            } else {
                vstd::arithmetic::div_mod::lemma_small_mod((prev + cs) as nat, 0x1_0000_0000_0000_0000);
            }
        }
    } else {
        vstd::arithmetic::div_mod::lemma_small_mod(nodes[id].usage as nat, 0x1_0000_0000_0000_0000);
    }
}

/// Law: the slice that a combining pass counts is the time of all the jobs
/// it took (modulo 2^64, as the count wraps).
pub proof fn law_slice_is_time_taken(taken: Seq<SlJob>, k: int)
    ensures
        slice_used(taken, k) as int == time_taken(taken, k) % 0x1_0000_0000_0000_0000,
    decreases k,
{
    if k > 0 {
        law_slice_is_time_taken(taken, k - 1);
        let prev = slice_used(taken, k - 1);
        let cs = taken[k - 1].cs;
        let t = time_taken(taken, k - 1);
        vstd::arithmetic::div_mod::lemma_add_mod_noop_right(cs as int, t, 0x1_0000_0000_0000_0000);
        assert((prev + cs) % 0x1_0000_0000_0000_0000 == (t + cs) % 0x1_0000_0000_0000_0000);
        if prev + cs > u64::MAX {
            vstd::arithmetic::div_mod::lemma_mod_add_multiples_vanish(
                prev + cs - 0x1_0000_0000_0000_0000,
                0x1_0000_0000_0000_0000,
            );
            vstd::arithmetic::div_mod::lemma_small_mod(
                (prev + cs - 0x1_0000_0000_0000_0000) as nat,
                0x1_0000_0000_0000_0000,
            );
        } else {
            vstd::arithmetic::div_mod::lemma_small_mod((prev + cs) as nat, 0x1_0000_0000_0000_0000);
        }
    } else {
        vstd::arithmetic::div_mod::lemma_small_mod(0, 0x1_0000_0000_0000_0000);
    }
}


proof fn lemma_jobs_left_concat(e: Map<u64, usize>, a: Seq<SlJob>, b: Seq<SlJob>, k: int)
    requires
        0 <= k <= b.len(),
    ensures
        jobs_left(e, a + b, a.len() + k) == jobs_left(jobs_left(e, a, a.len() as int), b, k),
    decreases k,
{
    if k > 0 {
        lemma_jobs_left_concat(e, a, b, k - 1);
        assert((a + b)[a.len() + k - 1] == b[k - 1]);
    } else {
        assert forall|j: int| 0 <= j < a.len() implies (a + b)[j] == a[j] by {}
        lemma_jobs_left_prefix(e, a + b, a, a.len() as int);
    }
}

proof fn lemma_nodes_after_concat<T, F: DLockDelegate<T>>(
    n: Seq<SlNode<F>>,
    a: Seq<SlJob>,
    b: Seq<SlJob>,
    d: T,
    k: int,
)
    requires
        0 <= k <= b.len(),
    ensures
        sl_nodes_after(n, a + b, d, a.len() + k) == sl_nodes_after(
            sl_nodes_after(n, a, d, a.len() as int).0,
            b,
            sl_nodes_after(n, a, d, a.len() as int).1,
            k,
        ),
    decreases k,
{
    if k > 0 {
        lemma_nodes_after_concat(n, a, b, d, k - 1);
        assert((a + b)[a.len() + k - 1] == b[k - 1]);
    } else {
        assert forall|j: int| 0 <= j < a.len() implies (a + b)[j] == a[j] by {}
        lemma_nodes_after_prefix(n, a + b, a, d, a.len() as int);
    }
}

/// A key no taken job removed stays, with its value.
proof fn lemma_jobs_left_keeps(e: Map<u64, usize>, t: Seq<SlJob>, k: int, key: u64)
    requires
        e.dom().contains(key),
        forall|j: int| 0 <= j < k ==> t[j].key != key,
    ensures
        jobs_left(e, t, k).dom().contains(key),
        jobs_left(e, t, k)[key] == e[key],
    decreases k,
{
    if k > 0 {
        lemma_jobs_left_keeps(e, t, k - 1, key);
    }
}

/// The first taken key is gone once it was taken.
proof fn lemma_jobs_left_removes_first(e: Map<u64, usize>, t: Seq<SlJob>, k: int)
    requires
        k >= 1,
    ensures
        !jobs_left(e, t, k).dom().contains(t[0].key),
    decreases k,
{
    if k > 1 {
        lemma_jobs_left_removes_first(e, t, k - 1);
    }
}

/// Once a taken job named the node, its critical section is gone; a node
/// with a pending or completed section keeps one of the two.
proof fn lemma_nodes_after_served<T, F: DLockDelegate<T>>(
    n: Seq<SlNode<F>>,
    t: Seq<SlJob>,
    d: T,
    k: int,
    id: int,
)
    requires
        0 <= id < n.len(),
        n[id].f.is_some() || n[id].done.is_some(),
        forall|j: int| 0 <= j < k ==> t[j].node < n.len(),
    ensures
        sl_nodes_after(n, t, d, k).0.len() == n.len(),
        sl_nodes_after(n, t, d, k).0[id].f.is_some() || sl_nodes_after(n, t, d, k).0[id].done.is_some(),
        (exists|j: int| 0 <= j < k && t[j].node == id) ==> sl_nodes_after(n, t, d, k).0[id].f.is_none(),
    decreases k,
{
    if k > 0 {
        lemma_nodes_after_served(n, t, d, k - 1, id);
        if exists|j: int| 0 <= j < k && t[j].node == id {
            let j = choose|j: int| 0 <= j < k && t[j].node == id;
            if j < k - 1 {
                assert(exists|j: int| 0 <= j < k - 1 && t[j].node == id);
            }
        }
    }
}

/// What `FcSL::lock` keeps while it waits: the jobs taken so far, `all`,
/// determine the queue, the nodes and the data, each was the lowest key of
/// what was left, and the thread's node holds its critical section, pending
/// and queued under `key0`, or completed.
#[verifier::opaque]
spec fn sl_lock_inv<T, F: DLockDelegate<T>>(
    jobs: Map<u64, usize>,
    nodes: Seq<SlNode<F>>,
    data: T,
    e0: Map<u64, usize>,
    key0: u64,
    id: usize,
    n0: Seq<SlNode<F>>,
    d0: T,
    all: Seq<SlJob>,
) -> bool {
    &&& jobs == jobs_left(e0, all, all.len() as int)
    &&& forall|k: int|
        0 <= k < all.len() ==> is_lowest_key(jobs_left(e0, all, k), (#[trigger] all[k]).key)
            && all[k].node == e0[all[k].key]
    &&& (nodes, data) == sl_nodes_after(n0, all, d0, all.len() as int)
    &&& nodes.len() == n0.len()
    &&& nodes[id as int].f.is_some() ==> jobs.dom().contains(key0) && jobs[key0] == id
    &&& nodes[id as int].f.is_some() || nodes[id as int].done.is_some()
}

/// One combining pass of `FcSL::lock` keeps `sl_lock_inv`, with the pass's
/// jobs `t` appended, and takes at least one job.
proof fn lemma_lock_round<T, F: DLockDelegate<T>>(
    e0: Map<u64, usize>,
    key0: u64,
    id: usize,
    n0: Seq<SlNode<F>>,
    d0: T,
    before: Seq<SlJob>,
    t: Seq<SlJob>,
    m: Map<u64, usize>,
    m2: Map<u64, usize>,
    ns: Seq<SlNode<F>>,
    d: T,
    ns2: Seq<SlNode<F>>,
    d2: T,
)
    requires
        e0.dom().finite(),
        e0.dom().contains(key0),
        e0[key0] == id,
        id < ns.len(),
        sl_lock_inv(m, ns, d, e0, key0, id, n0, d0, before),
        forall|k: u64| m.dom().contains(k) ==> m[k] < ns.len(),
        ns[id as int].f.is_some(),
        m2 == jobs_left(m, t, t.len() as int),
        m2.dom().len() + t.len() == m.dom().len(),
        forall|k: int|
            0 <= k < t.len() ==> is_lowest_key(jobs_left(m, t, k), (#[trigger] t[k]).key) && t[k].node
                == m[t[k].key],
        slice_used(t, t.len() as int) < COMBINER_SLICE ==> m2.dom() == Set::<u64>::empty(),
        (ns2, d2) == sl_nodes_after(ns, t, d, t.len() as int),
    ensures
        m2.dom().len() < m.dom().len(),
        ns2.len() == ns.len(),
        sl_lock_inv(m2, ns2, d2, e0, key0, id, n0, d0, before + t),
{
    reveal(sl_lock_inv);
    if t.len() == 0 {
        assert(jobs_left(m, t, 0) == m);
        assert(m2.dom().contains(key0));
        assert(false);
    }
    let a = before + t;
    lemma_jobs_left_concat(e0, before, t, t.len() as int);
    lemma_nodes_after_concat(n0, before, t, d0, t.len() as int);
    assert forall|k: int| 0 <= k < a.len() implies is_lowest_key(jobs_left(e0, a, k), (#[trigger] a[k]).key)
        && a[k].node == e0[a[k].key] by {
        if k < before.len() {
            assert(a[k] == before[k]);
            assert forall|j: int| 0 <= j < k implies a[j] == before[j] by {}
            lemma_jobs_left_prefix(e0, a, before, k);
        } else {
            let j = k - before.len();
            assert(a[k] == t[j]);
            lemma_jobs_left_concat(e0, before, t, j);
            let key = t[j].key;
            lemma_jobs_left_sub(m, t, j);
            lemma_jobs_left_values(e0, before, before.len() as int, key);
        }
    }
    assert forall|j: int| 0 <= j < t.len() implies t[j].node < ns.len() by {
        lemma_jobs_left_sub(m, t, j);
    }
    lemma_nodes_after_served(ns, t, d, t.len() as int, id as int);
    if ns2[id as int].f.is_some() {
        assert forall|j: int| 0 <= j < t.len() implies t[j].key != key0 by {
            if t[j].key == key0 {
                assert(t[j].node == m[key0]);
                assert(exists|j: int| 0 <= j < t.len() && t[j].node == id);
            }
        }
        lemma_jobs_left_keeps(m, t, t.len() as int, key0);
    }
}

/// The nodes once thread `id` has placed `f` in its node and queued it.
pub open spec fn sl_published<F>(nodes: Seq<SlNode<F>>, id: usize, f: F) -> Seq<SlNode<F>> {
    nodes.update(id as int, SlNode { active: true, f: Some(f), ..nodes[id as int] })
}

/// The key a node is queued under: its granted time plus its thread id.
pub open spec fn sl_key<F>(node: SlNode<F>) -> u64 {
    (node.usage + node.tid) as u64
}

impl<T, F: DLockDelegate<T>> FcSL<T, F> {
    /// Every job names a registered node, and the job map is finite.
    pub open spec fn wf(&self) -> bool {
        &&& skip_map_entries(self.jobs).dom().finite()
        &&& forall|k: u64|
            skip_map_entries(self.jobs).dom().contains(k) ==> skip_map_entries(self.jobs)[k]
                < self.nodes@.len()
    }

    /// A lock protecting `data`, with no thread registered.
    pub fn new(data: T) -> (l: Self)
        ensures
            l.wf(),
            l.data == data,
            l.nodes@.len() == 0,
            skip_map_entries(l.jobs) == Map::<u64, usize>::empty(),
    {
        FcSL { data, nodes: Vec::new(), jobs: skip_map_new() }
    }

    /// Registers the thread with id `tid`; its node starts idle.
    pub fn register(&mut self, tid: u64) -> (id: usize)
        requires
            old(self).wf(),
        ensures
            final(self).wf(),
            id == old(self).nodes@.len(),
            final(self).nodes@ == old(self).nodes@.push(
                SlNode { active: false, usage: 0, tid, f: None, done: None },
            ),
            final(self).data == old(self).data,
            skip_map_entries(final(self).jobs) == skip_map_entries(old(self).jobs),
    {
        let id = self.nodes.len();
        self.nodes.push(SlNode { active: false, usage: 0, tid, f: None, done: None });
        id
    }

    /// Queues node `id` under the key `usage + tid`.
    pub fn push_node(&mut self, id: usize)
        requires
            old(self).wf(),
            id < old(self).nodes@.len(),
            old(self).nodes@[id as int].usage + old(self).nodes@[id as int].tid <= u64::MAX,
        ensures
            final(self).wf(),
            final(self).nodes@ == old(self).nodes@.update(
                id as int,
                SlNode { active: true, ..old(self).nodes@[id as int] },
            ),
            skip_map_entries(final(self).jobs) == skip_map_entries(old(self).jobs).insert(
                (old(self).nodes@[id as int].usage + old(self).nodes@[id as int].tid) as u64,
                id,
            ),
            final(self).data == old(self).data,
    {
        self.nodes[id].active = true;
        let key = self.nodes[id].usage + self.nodes[id].tid;
        skip_map_insert(&mut self.jobs, key, id);
    }

    /// Queues node `id` unless it is already queued.
    pub fn push_if_unactive(&mut self, id: usize)
        requires
            old(self).wf(),
            id < old(self).nodes@.len(),
            old(self).nodes@[id as int].usage + old(self).nodes@[id as int].tid <= u64::MAX,
        ensures
            final(self).wf(),
            old(self).nodes@[id as int].active ==> *final(self) == *old(self),
            !old(self).nodes@[id as int].active ==> skip_map_entries(final(self).jobs)
                == skip_map_entries(old(self).jobs).insert(
                (old(self).nodes@[id as int].usage + old(self).nodes@[id as int].tid) as u64,
                id,
            ),
            final(self).nodes@ == old(self).nodes@.update(
                id as int,
                SlNode { active: true, ..old(self).nodes@[id as int] },
            ),
            final(self).data == old(self).data,
    {
        if self.nodes[id].active {
            proof {
                assert(old(self).nodes@.update(
                    id as int,
                    SlNode { active: true, ..old(self).nodes@[id as int] },
                ) =~= old(self).nodes@);
            }
            return ;
        }
        self.push_node(id);
    }

    /// One combining pass: takes jobs lowest key first, runs each one's
    /// critical section, charges the time it took to its node and unqueues
    /// it, until the slice is used up or no job is left. Returns the jobs it
    /// took, in order.
    pub fn combine(&mut self, clock: &Clock) -> (taken: Vec<SlJob>)
        requires
            old(self).wf(),
        ensures
            final(self).wf(),
            taken@.len() <= skip_map_entries(old(self).jobs).dom().len(),
            skip_map_entries(final(self).jobs).dom().len() + taken@.len() == skip_map_entries(
                old(self).jobs,
            ).dom().len(),
            forall|k: int|
                0 <= k < taken@.len() ==> is_lowest_key(
                    jobs_left(skip_map_entries(old(self).jobs), taken@, k),
                    (#[trigger] taken@[k]).key,
                ) && taken@[k].node == skip_map_entries(old(self).jobs)[taken@[k].key],
            skip_map_entries(final(self).jobs) == jobs_left(
                skip_map_entries(old(self).jobs),
                taken@,
                taken@.len() as int,
            ),
            (final(self).nodes@, final(self).data) == sl_nodes_after(
                old(self).nodes@,
                taken@,
                old(self).data,
                taken@.len() as int,
            ),
            forall|k: int| 1 <= k < taken@.len() ==> #[trigger] slice_used(taken@, k) < COMBINER_SLICE,
            slice_used(taken@, taken@.len() as int) < COMBINER_SLICE ==> skip_map_entries(
                final(self).jobs,
            ).dom() == Set::<u64>::empty(),
            final(self).nodes@.len() == old(self).nodes@.len(),
            forall|i: int|
                0 <= i < old(self).nodes@.len() ==> (#[trigger] final(self).nodes@[i]).usage as int == (old(
                    self,
                ).nodes@[i].usage + charged(taken@, i, taken@.len() as int)) % 0x1_0000_0000_0000_0000,
            slice_used(taken@, taken@.len() as int) as int == time_taken(taken@, taken@.len() as int)
                % 0x1_0000_0000_0000_0000,
    {
        let ghost e0 = skip_map_entries(self.jobs);
        let ghost n0 = self.nodes@;
        let ghost d0 = self.data;
        let mut taken: Vec<SlJob> = Vec::new();
        let mut slice: u64 = 0;
        let mut emptied = false;
        while slice < COMBINER_SLICE && !emptied
            invariant
                self.wf(),
                e0 == skip_map_entries(old(self).jobs),
                n0 == old(self).nodes@,
                d0 == old(self).data,
                e0.dom().finite(),
                self.nodes@.len() == n0.len(),
                skip_map_entries(self.jobs) == jobs_left(e0, taken@, taken@.len() as int),
                skip_map_entries(self.jobs).dom().len() + taken@.len() == e0.dom().len(),
                forall|k: int|
                    0 <= k < taken@.len() ==> is_lowest_key(
                        jobs_left(e0, taken@, k),
                        (#[trigger] taken@[k]).key,
                    ) && taken@[k].node == e0[taken@[k].key],
                (self.nodes@, self.data) == sl_nodes_after(n0, taken@, d0, taken@.len() as int),
                slice == slice_used(taken@, taken@.len() as int),
                forall|k: int| 1 <= k < taken@.len() ==> #[trigger] slice_used(taken@, k) < COMBINER_SLICE,
                emptied ==> skip_map_entries(self.jobs).dom() == Set::<u64>::empty(),
            decreases skip_map_entries(self.jobs).dom().len() + (if emptied { 0int } else { 1int }),
        {
            let ghost taken_before = taken@;
            let begin = read_clock(clock);
            let front = skip_map_pop_front(&mut self.jobs);
            match front {
                Some((key, id)) => {
                    proof {
                        assert(jobs_left(e0, taken_before, taken_before.len() as int).dom().contains(key));
                        lemma_jobs_left_sub(e0, taken_before, taken_before.len() as int);
                        assert(e0.dom().contains(key));
                        assert(jobs_left(e0, taken_before, taken_before.len() as int)[key] == e0[key]) by {
                            lemma_jobs_left_values(e0, taken_before, taken_before.len() as int, key);
                        }
                    }
                    let ghost ns_pre = self.nodes@;
                    let ghost d_pre = self.data;
                    let f_opt = self.nodes[id].f.take();
                    match f_opt {
                        Some(mut f) => {
                            f.apply(DLockGuard::new(&mut self.data));
                            self.nodes[id].done = Some(f);
                        },
                        None => {},
                    }
                    let end = read_clock(clock);
                    let cs = end.wrapping_sub(begin);
                    slice = slice.wrapping_add(cs);
                    self.nodes[id].usage = self.nodes[id].usage.wrapping_add(cs);
                    self.nodes[id].active = false;
                    taken.push(SlJob { key, node: id, cs });
                    proof {
                        let t = taken@;
                        let k = taken_before.len() as int;
                        assert forall|j: int| 0 <= j < k implies t[j] == taken_before[j] by {}
                        lemma_jobs_left_prefix(e0, taken_before, t, k);
                        lemma_nodes_after_prefix(n0, taken_before, t, d0, k);
                        lemma_slice_prefix(taken_before, t, k);
                        assert forall|j: int| 0 <= j < t.len() implies is_lowest_key(
                            jobs_left(e0, t, j),
                            (#[trigger] t[j]).key,
                        ) && t[j].node == e0[t[j].key] by {
                            if j < k {
                                lemma_jobs_left_prefix(e0, taken_before, t, j);
                            }
                        }
                        assert(self.nodes@ =~= sl_nodes_after(n0, t, d0, k + 1).0);
                        assert forall|j: int| 1 <= j < t.len() implies #[trigger] slice_used(t, j)
                            < COMBINER_SLICE by {
                            if j < k {
                                lemma_slice_prefix(taken_before, t, j);
                            }
                        }
                    }
                },
                None => {
                    emptied = true;
                },
            }
        }
        proof {
            let t = taken@;
            assert forall|j: int| 0 <= j < t.len() implies t[j].node < n0.len() by {
                assert(is_lowest_key(jobs_left(e0, t, j), t[j].key));
                lemma_jobs_left_sub(e0, t, j);
                assert(e0.dom().contains(t[j].key));
            }
            assert forall|i: int| 0 <= i < n0.len() implies (#[trigger] self.nodes@[i]).usage as int == (
            n0[i].usage + charged(t, i, t.len() as int)) % 0x1_0000_0000_0000_0000 by {
                law_sl_usage_charged(n0, t, d0, t.len() as int, i);
            }
            law_slice_is_time_taken(t, t.len() as int);
        }
        taken
    }

    /// Runs `f` under the lock on behalf of thread `id`, whose node is idle:
    /// places `f` in the node and queues it, then runs combining passes
    /// until one has served the node. Returns the critical section after it
    /// ran, and every job the passes took, in order.
    pub fn lock(&mut self, id: usize, f: F, clock: &Clock) -> (r: (F, Vec<SlJob>))
        requires
            old(self).wf(),
            id < old(self).nodes@.len(),
            !old(self).nodes@[id as int].active,
            old(self).nodes@[id as int].usage + old(self).nodes@[id as int].tid <= u64::MAX,
        ensures
            final(self).wf(),
            ({
                let e0 = skip_map_entries(old(self).jobs).insert(sl_key(old(self).nodes@[id as int]), id);
                let n0 = sl_published(old(self).nodes@, id, f);
                let fin = sl_nodes_after(n0, r.1@, old(self).data, r.1@.len() as int);
                &&& skip_map_entries(final(self).jobs) == jobs_left(e0, r.1@, r.1@.len() as int)
                &&& forall|k: int|
                    0 <= k < r.1@.len() ==> is_lowest_key(jobs_left(e0, r.1@, k), (#[trigger] r.1@[k]).key)
                        && r.1@[k].node == e0[r.1@[k].key]
                &&& final(self).data == fin.1
                &&& fin.0[id as int].done == Some(r.0)
                &&& final(self).nodes@ == fin.0.update(id as int, SlNode { done: None, ..fin.0[id as int] })
            }),
            final(self).nodes@.len() == old(self).nodes@.len(),
            forall|i: int|
                0 <= i < old(self).nodes@.len() ==> (#[trigger] final(self).nodes@[i]).usage as int == (old(
                    self,
                ).nodes@[i].usage + charged(r.1@, i, r.1@.len() as int)) % 0x1_0000_0000_0000_0000,
    {
        let ghost e0 = skip_map_entries(self.jobs).insert(sl_key(self.nodes@[id as int]), id);
        let ghost key0 = sl_key(self.nodes@[id as int]);
        let ghost n0 = sl_published(self.nodes@, id, f);
        let ghost d0 = self.data;
        self.nodes[id].f = Some(f);
        self.push_if_unactive(id);
        proof {
            assert(self.nodes@ =~= n0);
        }
        let mut all: Vec<SlJob> = Vec::new();
        proof {
            reveal(sl_lock_inv);
            assert(jobs_left(e0, all@, 0) == e0);
        }
        while self.nodes[id].f.is_some()
            invariant
                self.wf(),
                id < self.nodes@.len(),
                e0.dom().finite(),
                e0.dom().contains(key0),
                e0[key0] == id,
                sl_lock_inv(skip_map_entries(self.jobs), self.nodes@, self.data, e0, key0, id, n0, d0, all@),
            decreases skip_map_entries(self.jobs).dom().len(),
        {
            let ghost m = skip_map_entries(self.jobs);
            let ghost ns = self.nodes@;
            let ghost d = self.data;
            let ghost before = all@;
            let mut t = self.combine(clock);
            proof {
                lemma_lock_round(
                    e0,
                    key0,
                    id,
                    n0,
                    d0,
                    before,
                    t@,
                    m,
                    skip_map_entries(self.jobs),
                    ns,
                    d,
                    self.nodes@,
                    self.data,
                );
            }
            all.append(&mut t);
        }
        proof {
            reveal(sl_lock_inv);
        }
        let done = self.nodes[id].done.take();
        proof {
            assert(self.nodes@ =~= sl_nodes_after(n0, all@, d0, all@.len() as int).0.update(
                id as int,
                SlNode { done: None, ..sl_nodes_after(n0, all@, d0, all@.len() as int).0[id as int] },
            ));
            let t = all@;
            assert forall|j: int| 0 <= j < t.len() implies t[j].node < n0.len() by {
                assert(is_lowest_key(jobs_left(e0, t, j), t[j].key));
                lemma_jobs_left_sub(e0, t, j);
                assert(e0.dom().contains(t[j].key));
            }
            assert forall|i: int| 0 <= i < n0.len() implies (#[trigger] self.nodes@[i]).usage as int == (
            n0[i].usage + charged(t, i, t.len() as int)) % 0x1_0000_0000_0000_0000 by {
                law_sl_usage_charged(n0, t, d0, t.len() as int, i);
            }
        }
        (done.unwrap(), all)
    }
}

proof fn lemma_jobs_left_sub(e: Map<u64, usize>, t: Seq<SlJob>, k: int)
    ensures
        jobs_left(e, t, k).dom().subset_of(e.dom()),
    decreases k,
{
    if k > 0 {
        lemma_jobs_left_sub(e, t, k - 1);
    }
}

proof fn lemma_jobs_left_values(e: Map<u64, usize>, t: Seq<SlJob>, k: int, key: u64)
    requires
        jobs_left(e, t, k).dom().contains(key),
    ensures
        jobs_left(e, t, k)[key] == e[key],
    decreases k,
{
    if k > 0 {
        lemma_jobs_left_values(e, t, k - 1, key);
    }
}

proof fn lemma_jobs_left_prefix(e: Map<u64, usize>, a: Seq<SlJob>, b: Seq<SlJob>, k: int)
    requires
        k <= a.len(),
        k <= b.len(),
        forall|j: int| 0 <= j < k ==> a[j] == b[j],
    ensures
        jobs_left(e, a, k) == jobs_left(e, b, k),
    decreases k,
{
    if k > 0 {
        lemma_jobs_left_prefix(e, a, b, k - 1);
    }
}

proof fn lemma_nodes_after_prefix<T, F: DLockDelegate<T>>(
    n: Seq<SlNode<F>>,
    a: Seq<SlJob>,
    b: Seq<SlJob>,
    d: T,
    k: int,
)
    requires
        k <= a.len(),
        k <= b.len(),
        forall|j: int| 0 <= j < k ==> a[j] == b[j],
    ensures
        sl_nodes_after(n, a, d, k) == sl_nodes_after(n, b, d, k),
    decreases k,
{
    if k > 0 {
        lemma_nodes_after_prefix(n, a, b, d, k - 1);
    }
}

proof fn lemma_slice_prefix(a: Seq<SlJob>, b: Seq<SlJob>, k: int)
    requires
        k <= a.len(),
        k <= b.len(),
        forall|j: int| 0 <= j < k ==> a[j] == b[j],
    ensures
        slice_used(a, k) == slice_used(b, k),
    decreases k,
{
    if k > 0 {
        lemma_slice_prefix(a, b, k - 1);
    }
}

} // verus!
