use vstd::prelude::*;

use crate::dlock::{CounterJob, DLockDelegate};
use crate::guard::DLockGuard;

verus! {

/// Every this many combining passes the combiner prunes the publication list.
pub const CLEAN_UP_PERIOD: u32 = 50;

/// A node not served for more than this many passes leaves the list.
pub const CLEAN_UP_AGE: u32 = 50;

/// One thread's node in the publication list of a flat-combining lock.
pub struct FcNode<F> {
    /// The pass in which the combiner last served this node.
    pub age: u32,
    /// Whether the node is linked into the publication list.
    pub active: bool,
    /// The critical section the owner is waiting on, if any.
    pub f: Option<F>,
    /// The critical section after the combiner ran it, until the owner takes it.
    pub done: Option<F>,
    /// Time-stamp before which a fair combiner skips this node.
    pub banned_until: u64,
    /// Combining work this thread did, for its back-off.
    pub combiner_time: i64,
}

/// Flat-combining lock: threads publish their critical sections in a list
/// and whichever thread holds the combiner role runs all of them.
///
/// `nodes` holds one node per registered thread; `list` is the publication
/// list, head first, as indices into `nodes`.
pub struct FcLock<T, F> {
    pub pass: u32,
    pub data: T,
    pub nodes: Vec<FcNode<F>>,
    pub list: Vec<usize>,
    pub num_waiting_threads: i32,
}

/// `pass - age` in 32-bit wrapping arithmetic exceeds the clean-up age.
pub open spec fn is_stale(pass: u32, age: u32) -> bool {
    vstd::wrapping::u32_specs::wrapping_sub(pass, age) > CLEAN_UP_AGE
}

/// The data after the combiner serves, in list order, every listed node
/// that holds a critical section.
pub open spec fn served_data<T, F: DLockDelegate<T>>(
    nodes: Seq<FcNode<F>>,
    list: Seq<usize>,
    data: T,
) -> T
    decreases list.len(),
{
    if list.len() == 0 {
        data
    } else {
        let prev = served_data(nodes, list.drop_last(), data);
        match nodes[list.last() as int].f {
            Some(f) => f.applied(prev).1,
            None => prev,
        }
    }
}

/// The node at position `k` of the list after one combining pass.
pub open spec fn served_node<T, F: DLockDelegate<T>>(
    nodes: Seq<FcNode<F>>,
    list: Seq<usize>,
    data: T,
    pass: u32,
    k: int,
) -> FcNode<F> {
    let node = nodes[list[k] as int];
    match node.f {
        Some(f) => FcNode {
            age: pass,
            f: None,
            done: Some(f.applied(served_data(nodes, list.take(k), data)).0),
            ..node
        },
        None => node,
    }
}

/// The ids that survive a clean-up, in order.
pub open spec fn young_ids<F>(nodes: Seq<FcNode<F>>, ids: Seq<usize>, pass: u32) -> Seq<usize>
    decreases ids.len(),
{
    if ids.len() == 0 {
        seq![]
    } else {
        let rest = young_ids(nodes, ids.drop_last(), pass);
        if is_stale(pass, nodes[ids.last() as int].age) {
            rest
        } else {
            rest.push(ids.last())
        }
    }
}

pub proof fn lemma_young_ids<F>(nodes: Seq<FcNode<F>>, ids: Seq<usize>, pass: u32)
    ensures
        forall|x: usize|
            young_ids(nodes, ids, pass).contains(x) <==> (ids.contains(x) && !is_stale(
                pass,
                nodes[x as int].age,
            )),
        ids.no_duplicates() ==> young_ids(nodes, ids, pass).no_duplicates(),
    decreases ids.len(),
{
    if ids.len() > 0 {
        let prev = ids.drop_last();
        lemma_young_ids(nodes, prev, pass);
        assert(ids == prev.push(ids.last()));
        assert forall|x: usize| ids.contains(x) <==> (prev.contains(x) || x == ids.last()) by {
            if ids.contains(x) {
                let i = choose|i: int| 0 <= i < ids.len() && ids[i] == x;
                if i < ids.len() - 1 {
                    assert(prev[i] == x);
                }
            }
            if prev.contains(x) {
                let i = choose|i: int| 0 <= i < prev.len() && prev[i] == x;
                assert(ids[i] == x);
            }
            if x == ids.last() {
                assert(ids[ids.len() - 1] == x);
            }
        }
        let rest = young_ids(nodes, prev, pass);
        if !is_stale(pass, nodes[ids.last() as int].age) {
            assert forall|x: usize| rest.push(ids.last()).contains(x) <==> (rest.contains(x) || x
                == ids.last()) by {
                let r = rest.push(ids.last());
                if r.contains(x) {
                    let i = choose|i: int| 0 <= i < r.len() && r[i] == x;
                    if i < rest.len() {
                        assert(rest[i] == x);
                    }
                }
                if rest.contains(x) {
                    let i = choose|i: int| 0 <= i < rest.len() && rest[i] == x;
                    assert(r[i] == x);
                }
                if x == ids.last() {
                    assert(r[rest.len() as int] == x);
                }
            }
            if ids.no_duplicates() {
                assert(!prev.contains(ids.last())) by {
                    if prev.contains(ids.last()) {
                        let i = choose|i: int| 0 <= i < prev.len() && prev[i] == ids.last();
                        assert(ids[i] == ids[ids.len() - 1]);
                    }
                }
                assert(prev.no_duplicates()) by {
                    assert forall|i: int, j: int|
                        0 <= i < prev.len() && 0 <= j < prev.len() && i != j implies prev[i]
                        != prev[j] by {
                        assert(prev[i] == ids[i] && prev[j] == ids[j]);
                    }
                }
                let r = rest.push(ids.last());
                assert forall|i: int, j: int|
                    0 <= i < r.len() && 0 <= j < r.len() && i != j implies r[i] != r[j] by {
                    if i < rest.len() && j < rest.len() {
                    } else if i < rest.len() {
                        assert(rest.contains(r[i]));
                    } else if j < rest.len() {
                        assert(rest.contains(r[j]));
                    }
                }
            }
        } else {
            if ids.no_duplicates() {
                assert(prev.no_duplicates()) by {
                    assert forall|i: int, j: int|
                        0 <= i < prev.len() && 0 <= j < prev.len() && i != j implies prev[i]
                        != prev[j] by {
                        assert(prev[i] == ids[i] && prev[j] == ids[j]);
                    }
                }
            }
        }
    }
}

proof fn lemma_young_ids_ages<F>(n1: Seq<FcNode<F>>, n2: Seq<FcNode<F>>, ids: Seq<usize>, pass: u32)
    requires
        forall|i: int| 0 <= i < ids.len() ==> n1[ids[i] as int].age == n2[ids[i] as int].age,
    ensures
        young_ids(n1, ids, pass) == young_ids(n2, ids, pass),
    decreases ids.len(),
{
    if ids.len() > 0 {
        let prev = ids.drop_last();
        assert forall|i: int| 0 <= i < prev.len() implies n1[prev[i] as int].age == n2[prev[i] as int].age by {
            assert(prev[i] == ids[i]);
        }
        lemma_young_ids_ages(n1, n2, prev, pass);
    }
}

proof fn lemma_served_only_one<T, F: DLockDelegate<T>>(
    nodes: Seq<FcNode<F>>,
    list: Seq<usize>,
    data: T,
    p: int,
    m: int,
)
    requires
        0 <= p < list.len(),
        0 <= m <= list.len(),
        forall|k: int| 0 <= k < list.len() ==> list[k] < nodes.len(),
        forall|k: int| 0 <= k < list.len() && k != p ==> nodes[list[k] as int].f.is_none(),
        nodes[list[p] as int].f.is_some(),
    ensures
        served_data(nodes, list.take(m), data) == (if m <= p {
            data
        } else {
            nodes[list[p] as int].f.unwrap().applied(data).1
        }),
    decreases m,
{
    if m > 0 {
        lemma_served_only_one(nodes, list, data, p, m - 1);
        assert(list.take(m).drop_last() =~= list.take(m - 1));
        assert(list.take(m).last() == list[m - 1]);
    }
}

/// Law: a thread that locks while every other thread is idle has its
/// critical section run exactly once, on the data as it was: the data
/// afterwards and the critical section handed back are exactly those of
/// one run of `f`.
pub proof fn law_lock_alone<T, F: DLockDelegate<T>>(lock: FcLock<T, F>, id: usize, f: F)
    requires
        lock.wf(),
        id < lock.nodes.len(),
        forall|j: int| 0 <= j < lock.nodes.len() && j != id ==> lock.nodes@[j].f.is_none(),
    ensures
        served_data(lock.published_nodes(id, f), lock.published_list(id), lock.data) == f.applied(
            lock.data,
        ).1,
        forall|k: int|
            0 <= k < lock.published_list(id).len() && lock.published_list(id)[k] == id ==> f.applied(
                served_data(lock.published_nodes(id, f), lock.published_list(id).take(k), lock.data),
            ).0 == f.applied(lock.data).0,
{
    let nodes = lock.published_nodes(id, f);
    let list = lock.published_list(id);
    let old_list = lock.list@;
    assert forall|x: usize| list.contains(x) <==> (x == id || old_list.contains(x)) by {
        if !lock.nodes@[id as int].active {
            if list.contains(x) {
                let k = choose|k: int| 0 <= k < list.len() && list[k] == x;
                if k > 0 {
                    assert(old_list[k - 1] == x);
                }
            }
            if old_list.contains(x) {
                let k = choose|k: int| 0 <= k < old_list.len() && old_list[k] == x;
                assert(list[k + 1] == x);
            }
            if x == id {
                assert(list[0] == x);
            }
        }
    }
    assert(list.contains(id));
    let p = choose|p: int| 0 <= p < list.len() && list[p] == id;
    assert forall|k: int| 0 <= k < list.len() implies list[k] < nodes.len() by {
        assert(list.contains(list[k]));
        if list[k] != id {
            assert(old_list.contains(list[k]));
            let j = choose|j: int| 0 <= j < old_list.len() && old_list[j] == list[k];
        }
    }
    assert(list.no_duplicates()) by {
        if !lock.nodes@[id as int].active {
            assert(!old_list.contains(id));
            assert forall|i: int, j: int|
                0 <= i < list.len() && 0 <= j < list.len() && i != j implies list[i] != list[j] by {
                if i > 0 && j > 0 {
                    assert(list[i] == old_list[i - 1] && list[j] == old_list[j - 1]);
                } else if i == 0 {
                    assert(old_list.contains(list[j]));
                } else {
                    assert(old_list.contains(list[i]));
                }
            }
        }
    }
    assert forall|k: int| 0 <= k < list.len() && k != p implies nodes[list[k] as int].f.is_none() by {
        assert(list[k] != list[p]);
    }
    lemma_served_only_one(nodes, list, lock.data, p, list.len() as int);
    assert(list.take(list.len() as int) =~= list);
    assert forall|k: int| 0 <= k < list.len() && list[k] == id implies f.applied(
        served_data(nodes, list.take(k), lock.data),
    ).0 == f.applied(lock.data).0 by {
        assert(k == p);
        lemma_served_only_one(nodes, list, lock.data, p, k);
    }
}

/// The sum of the increments that the listed nodes hold pending.
pub open spec fn pending_total(nodes: Seq<FcNode<CounterJob>>, list: Seq<usize>) -> int
    decreases list.len(),
{
    if list.len() == 0 {
        0
    } else {
        pending_total(nodes, list.drop_last()) + match nodes[list.last() as int].f {
            Some(job) => job.amount as int,
            None => 0,
        }
    }
}

/// Law: a combining pass over counter jobs adds exactly the pending
/// increments to the counter, whichever nodes hold them and in whatever
/// order they are listed (modulo 2^64, as the counter wraps).
pub proof fn law_fc_counter_total(nodes: Seq<FcNode<CounterJob>>, list: Seq<usize>, data: u64)
    ensures
        served_data(nodes, list, data) as int == (data + pending_total(nodes, list)) % 0x1_0000_0000_0000_0000,
    decreases list.len(),
{
    if list.len() > 0 {
        law_fc_counter_total(nodes, list.drop_last(), data);
        let prev = served_data(nodes, list.drop_last(), data);
        let t = pending_total(nodes, list.drop_last());
        match nodes[list.last() as int].f {
            Some(job) => {
                vstd::arithmetic::div_mod::lemma_add_mod_noop_right(
                    job.amount as int,
                    data + t,
                    0x1_0000_0000_0000_0000,
                );
                assert((prev + job.amount) % 0x1_0000_0000_0000_0000 == (data + t + job.amount)
                    % 0x1_0000_0000_0000_0000);
            },
            None => {
                vstd::arithmetic::div_mod::lemma_small_mod(prev as nat, 0x1_0000_0000_0000_0000);
            },
        }
    } else {
        vstd::arithmetic::div_mod::lemma_small_mod(data as nat, 0x1_0000_0000_0000_0000);
    }
}

impl<T, F: DLockDelegate<T>> FcLock<T, F> {
    /// The structural invariant: the list holds distinct registered nodes,
    /// exactly the active ones, and each registered thread is counted.
    pub open spec fn wf(&self) -> bool {
        &&& forall|k: int| 0 <= k < self.list.len() ==> self.list@[k] < self.nodes.len()
        &&& self.list@.no_duplicates()
        &&& forall|id: int|
            0 <= id < self.nodes.len() ==> (self.nodes@[id].active <==> self.list@.contains(
                id as usize,
            ))
        &&& self.num_waiting_threads == self.nodes.len()
    }

    /// A lock protecting `data`, with no thread registered yet.
    pub fn new(data: T) -> (lock: Self)
        ensures
            lock.wf(),
            lock.pass == 0,
            lock.data == data,
            lock.nodes@.len() == 0,
            lock.list@.len() == 0,
    {
        FcLock { pass: 0, data, nodes: Vec::new(), list: Vec::new(), num_waiting_threads: 0 }
    }

    /// Gives the calling thread its node, unlinked and idle, and counts it
    /// among the waiting threads.
    pub fn register(&mut self) -> (id: usize)
        requires
            old(self).wf(),
            old(self).nodes.len() < i32::MAX,
        ensures
            final(self).wf(),
            id == old(self).nodes.len(),
            final(self).nodes@ == old(self).nodes@.push(
                FcNode { age: 0, active: false, f: None, done: None, banned_until: 0, combiner_time: 0 },
            ),
            final(self).list@ == old(self).list@,
            final(self).data == old(self).data,
            final(self).pass == old(self).pass,
    {
        let id = self.nodes.len();
        self.nodes.push(FcNode { age: 0, active: false, f: None, done: None, banned_until: 0, combiner_time: 0 });
        self.num_waiting_threads = self.num_waiting_threads + 1;
        proof {
            assert forall|i: int| 0 <= i < self.nodes.len() implies (self.nodes@[i].active
                <==> self.list@.contains(i as usize)) by {
                if i == id as int {
                    assert(!self.list@.contains(id)) by {
                        if self.list@.contains(id) {
                            let k = choose|k: int| 0 <= k < self.list.len() && self.list@[k] == id;
                        }
                    }
                }
            }
        }
        id
    }

    /// Links node `id` in at the head of the publication list.
    pub fn push_node(&mut self, id: usize)
        requires
            old(self).wf(),
            id < old(self).nodes.len(),
            !old(self).nodes@[id as int].active,
        ensures
            final(self).wf(),
            final(self).list@ == seq![id].add(old(self).list@),
            final(self).nodes@ == old(self).nodes@.update(
                id as int,
                FcNode { active: true, ..old(self).nodes@[id as int] },
            ),
            final(self).data == old(self).data,
            final(self).pass == old(self).pass,
            final(self).num_waiting_threads == old(self).num_waiting_threads,
    {
        let ghost old_list = self.list@;
        self.list.insert(0, id);
        self.nodes[id].active = true;
        proof {
            assert(self.list@ =~= seq![id].add(old_list));
            assert(!old_list.contains(id));
            assert forall|x: usize| self.list@.contains(x) <==> (x == id || old_list.contains(x)) by {
                if self.list@.contains(x) {
                    let k = choose|k: int| 0 <= k < self.list.len() && self.list@[k] == x;
                    if k > 0 {
                        assert(old_list[k - 1] == x);
                    }
                }
                if old_list.contains(x) {
                    let k = choose|k: int| 0 <= k < old_list.len() && old_list[k] == x;
                    assert(self.list@[k + 1] == x);
                }
                if x == id {
                    assert(self.list@[0] == x);
                }
            }
            assert forall|i: int, j: int|
                0 <= i < self.list.len() && 0 <= j < self.list.len() && i != j implies self.list@[i]
                != self.list@[j] by {
                if i > 0 && j > 0 {
                    assert(self.list@[i] == old_list[i - 1] && self.list@[j] == old_list[j - 1]);
                } else if i == 0 {
                    assert(old_list.contains(self.list@[j]));
                } else {
                    assert(old_list.contains(self.list@[i]));
                }
            }
            assert forall|k: int| 0 <= k < self.list.len() implies self.list@[k] < self.nodes.len() by {
                if k > 0 {
                    assert(self.list@[k] == old_list[k - 1]);
                }
            }
        }
    }

    /// Links node `id` in unless it is already in the list.
    pub fn push_if_unactive(&mut self, id: usize)
        requires
            old(self).wf(),
            id < old(self).nodes.len(),
        ensures
            final(self).wf(),
            old(self).nodes@[id as int].active ==> *final(self) == *old(self),
            !old(self).nodes@[id as int].active ==> final(self).list@ == seq![id].add(
                old(self).list@,
            ),
            final(self).nodes@ == old(self).nodes@.update(
                id as int,
                FcNode { active: true, ..old(self).nodes@[id as int] },
            ),
            final(self).data == old(self).data,
            final(self).pass == old(self).pass,
            final(self).num_waiting_threads == old(self).num_waiting_threads,
    {
        if self.nodes[id].active {
            proof {
                assert(old(self).nodes@.update(
                    id as int,
                    FcNode { active: true, ..old(self).nodes@[id as int] },
                ) =~= old(self).nodes@);
            }
            return ;
        }
        self.push_node(id);
    }

    /// One combining pass: takes the pass number, then runs every pending
    /// critical section in list order, stamping each served node with it.
    pub fn combine(&mut self)
        requires
            old(self).wf(),
        ensures
            final(self).wf(),
            final(self).pass == vstd::wrapping::u32_specs::wrapping_add(old(self).pass, 1),
            final(self).list@ == old(self).list@,
            final(self).num_waiting_threads == old(self).num_waiting_threads,
            final(self).nodes@.len() == old(self).nodes@.len(),
            final(self).data == served_data(old(self).nodes@, old(self).list@, old(self).data),
            forall|k: int|
                0 <= k < old(self).list@.len() ==> final(self).nodes@[old(self).list@[k] as int]
                    == served_node(
                    old(self).nodes@,
                    old(self).list@,
                    old(self).data,
                    old(self).pass,
                    k,
                ),
            forall|id: int|
                0 <= id < old(self).nodes@.len() && !old(self).list@.contains(id as usize)
                    ==> final(self).nodes@[id] == old(self).nodes@[id],
    {
        let pass = self.pass;
        self.pass = self.pass.wrapping_add(1);
        let ghost nodes0 = self.nodes@;
        let ghost list0 = self.list@;
        let ghost data0 = self.data;
        let n = self.list.len();
        let mut k: usize = 0;
        while k < n
            invariant
                0 <= k <= n,
                n == list0.len(),
                self.list@ == list0,
                self.pass == vstd::wrapping::u32_specs::wrapping_add(pass, 1),
                pass == old(self).pass,
                nodes0 == old(self).nodes@,
                list0 == old(self).list@,
                data0 == old(self).data,
                old(self).wf(),
                self.num_waiting_threads == old(self).num_waiting_threads,
                self.nodes@.len() == nodes0.len(),
                self.data == served_data(nodes0, list0.take(k as int), data0),
                forall|j: int|
                    0 <= j < k ==> self.nodes@[list0[j] as int] == served_node(
                        nodes0,
                        list0,
                        data0,
                        pass,
                        j,
                    ),
                forall|id: int|
                    0 <= id < nodes0.len() && !list0.take(k as int).contains(id as usize)
                        ==> self.nodes@[id] == nodes0[id],
            decreases n - k,
        {
            let id = self.list[k];
            proof {
                assert(list0.take(k as int + 1).drop_last() =~= list0.take(k as int));
                assert(list0.take(k as int + 1).last() == id);
                assert(!list0.take(k as int).contains(id)) by {
                    if list0.take(k as int).contains(id) {
                        let j = choose|j: int| 0 <= j < k && list0.take(k as int)[j] == id;
                        assert(list0[j] == list0[k as int]);
                    }
                }
            }
            let taken = self.nodes[id].f.take();
            match taken {
                Some(mut f) => {
                    f.apply(DLockGuard::new(&mut self.data));
                    self.nodes[id].age = pass;
                    self.nodes[id].done = Some(f);
                },
                None => {},
            }
            proof {
                assert forall|j: int| 0 <= j < k + 1 implies self.nodes@[list0[j] as int]
                    == served_node(nodes0, list0, data0, pass, j) by {
                    if j < k {
                        assert(list0[j] != list0[k as int]);
                    }
                }
                assert forall|x: int|
                    0 <= x < nodes0.len() && !list0.take(k as int + 1).contains(
                        x as usize,
                    ) implies self.nodes@[x] == nodes0[x] by {
                    assert(list0.take(k as int + 1)[k as int] == id);
                    if list0.take(k as int).contains(x as usize) {
                        let j = choose|j: int|
                            0 <= j < k && list0.take(k as int)[j] == x as usize;
                        assert(list0.take(k as int + 1)[j] == x as usize);
                    }
                }
            }
            k = k + 1;
        }
        proof {
            assert(list0.take(n as int) =~= list0);
            assert forall|id: int| 0 <= id < self.nodes.len() implies (self.nodes@[id].active
                <==> self.list@.contains(id as usize)) by {
                assert(nodes0[id].active <==> list0.contains(id as usize));
                if self.list@.contains(id as usize) {
                    let j = choose|j: int| 0 <= j < n && list0[j] == id as usize;
                    assert(self.nodes@[list0[j] as int] == served_node(
                        nodes0,
                        list0,
                        data0,
                        pass,
                        j,
                    ));
                    assert(self.nodes@[id].active == nodes0[id].active);
                } else {
                    assert(self.nodes@[id] == nodes0[id]);
                }
            }
        }
    }

    /// Prunes the publication list: every node after the head that was not
    /// served within the clean-up age is unlinked and marked inactive.
    pub fn clean_unactive_node(&mut self, pass: u32)
        requires
            old(self).wf(),
            old(self).list@.len() > 0,
        ensures
            final(self).wf(),
            final(self).list@ == seq![old(self).list@[0]].add(
                young_ids(old(self).nodes@, old(self).list@.skip(1), pass),
            ),
            final(self).nodes@.len() == old(self).nodes@.len(),
            forall|id: int|
                0 <= id < old(self).nodes@.len() ==> final(self).nodes@[id] == (if old(
                    self,
                ).list@.skip(1).contains(id as usize) && is_stale(
                    pass,
                    old(self).nodes@[id].age,
                ) {
                    FcNode { active: false, ..old(self).nodes@[id] }
                } else {
                    old(self).nodes@[id]
                }),
            final(self).data == old(self).data,
            final(self).pass == old(self).pass,
            final(self).num_waiting_threads == old(self).num_waiting_threads,
    {
        let ghost nodes0 = self.nodes@;
        let ghost list0 = self.list@;
        let n = self.list.len();
        let mut new_list: Vec<usize> = Vec::new();
        new_list.push(self.list[0]);
        let mut k: usize = 1;
        while k < n
            invariant
                1 <= k <= n,
                n == list0.len(),
                self.list@ == list0,
                nodes0 == old(self).nodes@,
                list0 == old(self).list@,
                old(self).wf(),
                self.data == old(self).data,
                self.pass == old(self).pass,
                self.num_waiting_threads == old(self).num_waiting_threads,
                self.nodes@.len() == nodes0.len(),
                new_list@ == seq![list0[0]].add(young_ids(nodes0, list0.subrange(1, k as int), pass)),
                forall|id: int|
                    0 <= id < nodes0.len() ==> self.nodes@[id] == (if list0.subrange(
                        1,
                        k as int,
                    ).contains(id as usize) && is_stale(pass, nodes0[id].age) {
                        FcNode { active: false, ..nodes0[id] }
                    } else {
                        nodes0[id]
                    }),
            decreases n - k,
        {
            let id = self.list[k];
            proof {
                assert(list0.subrange(1, k as int + 1).drop_last() =~= list0.subrange(1, k as int));
                assert(list0.subrange(1, k as int + 1).last() == id);
                assert(!list0.subrange(1, k as int).contains(id)) by {
                    if list0.subrange(1, k as int).contains(id) {
                        let j = choose|j: int|
                            0 <= j < k - 1 && list0.subrange(1, k as int)[j] == id;
                        assert(list0[j + 1] == list0[k as int]);
                    }
                }
                assert forall|x: usize|
                    list0.subrange(1, k as int + 1).contains(x) <==> (list0.subrange(
                        1,
                        k as int,
                    ).contains(x) || x == id) by {
                    let a = list0.subrange(1, k as int + 1);
                    let b = list0.subrange(1, k as int);
                    if a.contains(x) {
                        let j = choose|j: int| 0 <= j < a.len() && a[j] == x;
                        if j < b.len() {
                            assert(b[j] == x);
                        }
                    }
                    if b.contains(x) {
                        let j = choose|j: int| 0 <= j < b.len() && b[j] == x;
                        assert(a[j] == x);
                    }
                    if x == id {
                        assert(a[k - 1] == x);
                    }
                }
            }
            let age = self.nodes[id].age;
            if pass.wrapping_sub(age) > CLEAN_UP_AGE {
                self.nodes[id].active = false;
            } else {
                new_list.push(id);
                proof {
                    assert(new_list@ =~= seq![list0[0]].add(
                        young_ids(nodes0, list0.subrange(1, k as int + 1), pass),
                    ));
                }
            }
            k = k + 1;
        }
        self.list = new_list;
        proof {
            let rest = list0.skip(1);
            assert(list0.subrange(1, n as int) =~= rest);
            lemma_young_ids(nodes0, rest, pass);
            assert(rest.no_duplicates()) by {
                assert forall|i: int, j: int|
                    0 <= i < rest.len() && 0 <= j < rest.len() && i != j implies rest[i]
                    != rest[j] by {
                    assert(rest[i] == list0[i + 1] && rest[j] == list0[j + 1]);
                }
            }
            let young = young_ids(nodes0, rest, pass);
            let head = list0[0];
            assert(!rest.contains(head)) by {
                if rest.contains(head) {
                    let j = choose|j: int| 0 <= j < rest.len() && rest[j] == head;
                    assert(list0[j + 1] == list0[0]);
                }
            }
            assert forall|x: usize| self.list@.contains(x) <==> (x == head || young.contains(x)) by {
                if self.list@.contains(x) {
                    let j = choose|j: int| 0 <= j < self.list@.len() && self.list@[j] == x;
                    if j > 0 {
                        assert(young[j - 1] == x);
                    }
                }
                if young.contains(x) {
                    let j = choose|j: int| 0 <= j < young.len() && young[j] == x;
                    assert(self.list@[j + 1] == x);
                }
                if x == head {
                    assert(self.list@[0] == x);
                }
            }
            assert forall|x: usize| list0.contains(x) <==> (x == head || rest.contains(x)) by {
                if list0.contains(x) {
                    let j = choose|j: int| 0 <= j < list0.len() && list0[j] == x;
                    if j > 0 {
                        assert(rest[j - 1] == x);
                    }
                }
                if rest.contains(x) {
                    let j = choose|j: int| 0 <= j < rest.len() && rest[j] == x;
                    assert(list0[j + 1] == x);
                }
                if x == head {
                    assert(list0[0] == x);
                }
            }
            assert forall|i: int, j: int|
                0 <= i < self.list.len() && 0 <= j < self.list.len() && i != j implies self.list@[i]
                != self.list@[j] by {
                if i > 0 && j > 0 {
                    assert(self.list@[i] == young[i - 1] && self.list@[j] == young[j - 1]);
                } else if i == 0 {
                    assert(young.contains(self.list@[j]));
                } else {
                    assert(young.contains(self.list@[i]));
                }
            }
            assert forall|k: int| 0 <= k < self.list.len() implies self.list@[k] < self.nodes.len() by {
                assert(self.list@.contains(self.list@[k]));
                if self.list@[k] != head {
                    assert(young.contains(self.list@[k]));
                    assert(rest.contains(self.list@[k]));
                    let j = choose|j: int| 0 <= j < rest.len() && rest[j] == self.list@[k];
                    assert(list0[j + 1] == self.list@[k]);
                }
            }
            assert forall|id: int| 0 <= id < self.nodes.len() implies (self.nodes@[id].active
                <==> self.list@.contains(id as usize)) by {
                assert(nodes0[id].active <==> list0.contains(id as usize));
            }
        }
    }

    /// The nodes once thread `id` has published `f`.
    pub open spec fn published_nodes(&self, id: usize, f: F) -> Seq<FcNode<F>> {
        self.nodes@.update(
            id as int,
            FcNode { active: true, f: Some(f), done: None, ..self.nodes@[id as int] },
        )
    }

    /// The list once thread `id` has published.
    pub open spec fn published_list(&self, id: usize) -> Seq<usize> {
        if self.nodes@[id as int].active {
            self.list@
        } else {
            seq![id].add(self.list@)
        }
    }

    /// Thread `id` publishes `f`: links its node in if needed and places the
    /// critical section in it.
    pub fn publish(&mut self, id: usize, f: F)
        requires
            old(self).wf(),
            id < old(self).nodes.len(),
        ensures
            final(self).wf(),
            final(self).nodes@ == old(self).published_nodes(id, f),
            final(self).list@ == old(self).published_list(id),
            final(self).data == old(self).data,
            final(self).pass == old(self).pass,
            final(self).num_waiting_threads == old(self).num_waiting_threads,
    {
        self.push_if_unactive(id);
        self.nodes[id].f = Some(f);
        self.nodes[id].done = None;
        proof {
            assert(self.nodes@ =~= old(self).published_nodes(id, f));
        }
    }

    /// Takes back the critical section of thread `id` once it was run.
    pub fn take_done(&mut self, id: usize) -> (r: Option<F>)
        requires
            old(self).wf(),
            id < old(self).nodes.len(),
        ensures
            final(self).wf(),
            r == old(self).nodes@[id as int].done,
            final(self).nodes@ == old(self).nodes@.update(
                id as int,
                FcNode { done: None, ..old(self).nodes@[id as int] },
            ),
            final(self).list@ == old(self).list@,
            final(self).data == old(self).data,
            final(self).pass == old(self).pass,
            final(self).num_waiting_threads == old(self).num_waiting_threads,
    {
        let r = self.nodes[id].done.take();
        proof {
            assert(self.nodes@ =~= old(self).nodes@.update(
                id as int,
                FcNode { done: None, ..old(self).nodes@[id as int] },
            ));
        }
        r
    }

    /// Runs `f` under the lock on behalf of thread `id`: publishes it, acts
    /// as combiner for one pass (serving every published critical section in
    /// list order), prunes the list every `CLEAN_UP_PERIOD` passes, and hands
    /// back the critical section after it ran.
    pub fn lock(&mut self, id: usize, f: F) -> (r: F)
        requires
            old(self).wf(),
            id < old(self).nodes.len(),
        ensures
            final(self).wf(),
            final(self).pass == vstd::wrapping::u32_specs::wrapping_add(old(self).pass, 1),
            final(self).data == served_data(
                old(self).published_nodes(id, f),
                old(self).published_list(id),
                old(self).data,
            ),
            forall|k: int|
                0 <= k < old(self).published_list(id).len() && old(self).published_list(id)[k]
                    == id ==> r == f.applied(
                    served_data(
                        old(self).published_nodes(id, f),
                        old(self).published_list(id).take(k),
                        old(self).data,
                    ),
                ).0,
            final(self).nodes@[id as int].f.is_none(),
            final(self).nodes@[id as int].done.is_none(),
            final(self).nodes@[id as int].active,
            final(self).nodes@.len() == old(self).nodes@.len(),
            final(self).num_waiting_threads == old(self).num_waiting_threads,
            forall|k: int|
                0 <= k < old(self).published_list(id).len() && old(self).published_list(id)[k]
                    != id ==> final(self).nodes@[old(self).published_list(id)[k] as int] == (FcNode {
                    active: final(self).nodes@[old(self).published_list(id)[k] as int].active,
                    ..served_node(
                        old(self).published_nodes(id, f),
                        old(self).published_list(id),
                        old(self).data,
                        old(self).pass,
                        k,
                    )
                }),
            forall|j: int|
                0 <= j < old(self).nodes@.len() && !old(self).published_list(id).contains(
                    j as usize,
                ) ==> final(self).nodes@[j] == old(self).nodes@[j],
            final(self).pass % CLEAN_UP_PERIOD != 0 ==> final(self).list@ == old(self).published_list(
                id,
            ),
            final(self).pass % CLEAN_UP_PERIOD == 0 ==> final(self).list@ == seq![
                old(self).published_list(id)[0],
            ].add(young_ids(final(self).nodes@, old(self).published_list(id).skip(1), final(self).pass)),
    {
        self.publish(id, f);
        let ghost nodes1 = self.nodes@;
        let ghost list1 = self.list@;
        let ghost data1 = self.data;
        let ghost pass1 = self.pass;
        proof {
            assert(self.nodes@[id as int].active);
            assert(list1.contains(id));
        }
        self.combine();
        let ghost k = choose|k: int| 0 <= k < list1.len() && list1[k] == id;
        proof {
            assert(self.nodes@[id as int] == served_node(nodes1, list1, data1, pass1, k));
        }
        let ghost nodes2 = self.nodes@;
        if self.pass % CLEAN_UP_PERIOD == 0 {
            let p = self.pass;
            proof {
                assert(self.nodes@[id as int].age == pass1);
                assert(vstd::wrapping::u32_specs::wrapping_sub(p, pass1) == 1);
                assert(!is_stale(p, self.nodes@[id as int].age));
            }
            self.clean_unactive_node(p);
        }
        let r = self.take_done(id);
        proof {
            if self.pass % CLEAN_UP_PERIOD == 0 {
                assert forall|i: int| 0 <= i < list1.skip(1).len() implies nodes2[list1.skip(1)[i] as int].age
                    == self.nodes@[list1.skip(1)[i] as int].age by {
                    assert(list1.skip(1)[i] == list1[i + 1]);
                }
                lemma_young_ids_ages(nodes2, self.nodes@, list1.skip(1), self.pass);
            }
            assert forall|j: int| 0 <= j < list1.len() && list1[j] == id implies j == k by {}
        }
        r.unwrap()
    }
}

} // verus!
