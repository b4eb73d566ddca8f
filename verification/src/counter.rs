use vstd::prelude::*;

use quanta::Clock;

use crate::clock::read_clock;

verus! {

/// The counter after a critical section of `loop_limit` increments.
pub fn counter_critical_section(data: &mut usize, loop_limit: u64) -> (r: usize)
    requires
        *old(data) + loop_limit <= usize::MAX,
    ensures
        *final(data) == *old(data) + loop_limit,
        r == *final(data),
{
    let mut remaining = loop_limit;
    while remaining > 0
        invariant
            *data + remaining == *old(data) + loop_limit,
            remaining <= loop_limit,
            *old(data) + loop_limit <= usize::MAX,
        decreases remaining,
    {
        *data = *data + 1;
        remaining = remaining - 1;
    }
    *data
}

/// One step of the 32-bit xorshift generator that drives the random walk.
pub open spec fn xorshift32(x: u32) -> u32 {
    let a = x ^ (x << 13u32);
    let b = a ^ (a >> 17u32);
    b ^ (b << 5u32)
}

/// The slots a sequential critical section of `n` iterations touches, in
/// order: `0, 1, 2, ...` modulo the length.
pub open spec fn touched_slots(n: nat, len: nat) -> Seq<nat> {
    Seq::new(n, |k: int| (k as nat) % len)
}

/// The random walk after `n` iterations over an array of `len` slots, from
/// generator state `seed`: the slot order, the generator state, the
/// position within the current pass, and the slots touched so far. Each
/// iteration steps the generator, swaps the slot at the position with one
/// drawn from the rest of the pass, and touches the slot now at the
/// position; a pass ends after `len` iterations.
pub open spec fn shuffle_state(n: nat, len: nat, seed: u32) -> (Seq<usize>, u32, nat, Seq<nat>)
    decreases n,
{
    if n == 0 {
        (Seq::new(len, |i: int| i as usize), seed, 0nat, Seq::<nat>::empty())
    } else {
        let prev = shuffle_state((n - 1) as nat, len, seed);
        let o = prev.0;
        let p = prev.2;
        let r = xorshift32(prev.1);
        let t = p + (r as nat) % ((len - p) as nat);
        let o2 = o.update(p as int, o[t as int]).update(t as int, o[p as int]);
        (o2, r, if p + 1 == len { 0nat } else { (p + 1) as nat }, prev.3.push(o2[p as int] as nat))
    }
}

/// The slots a random walk of `n` iterations touches, in order.
pub open spec fn shuffle_slots(n: nat, len: nat, seed: u32) -> Seq<nat> {
    shuffle_state(n, len, seed).3
}

/// The slots a critical section of `n` iterations touches: the sequential
/// walk, or the random walk seeded from the low 32 bits of `n` with the
/// lowest bit set.
pub open spec fn walk_slots(n: u64, len: nat, random_access: bool) -> Seq<nat> {
    if random_access {
        shuffle_slots(n as nat, len, (n as u32) | 1u32)
    } else {
        touched_slots(n as nat, len)
    }
}

/// The array after one wrapping increment of each slot in `slots`, first
/// to last.
pub open spec fn bump_slots(data: Seq<u64>, slots: Seq<nat>) -> Seq<u64>
    decreases slots.len(),
{
    if slots.len() == 0 {
        data
    } else {
        let prev = bump_slots(data, slots.drop_last());
        let i = slots.last() as int;
        prev.update(i, vstd::wrapping::u64_specs::wrapping_add(prev[i], 1))
    }
}

/// `slots` are `n` slot indices of an array of `len`, and as long as no more
/// than `len` iterations have run each one touches a slot not touched yet.
pub open spec fn array_walk(slots: Seq<nat>, n: nat, len: nat) -> bool {
    &&& slots.len() == n
    &&& forall|j: int| 0 <= j < n ==> #[trigger] slots[j] < len
    &&& slots.take(if n < len { n as int } else { len as int }).no_duplicates()
}

/// The array after one wrapping increment of each of the distinct slots in
/// `slots`, the other slots left as they were.
pub open spec fn bumped_once(data: Seq<u64>, slots: Seq<nat>) -> Seq<u64> {
    Seq::new(
        data.len(),
        |i: int|
            if slots.contains(i as nat) {
                vstd::wrapping::u64_specs::wrapping_add(data[i], 1)
            } else {
                data[i]
            },
    )
}

proof fn lemma_bump_slots_len(data: Seq<u64>, slots: Seq<nat>, len: nat)
    requires
        data.len() == len,
        forall|k: int| 0 <= k < slots.len() ==> slots[k] < len,
    ensures
        bump_slots(data, slots).len() == len,
    decreases slots.len(),
{
    if slots.len() > 0 {
        lemma_bump_slots_len(data, slots.drop_last(), len);
    }
}

/// Distinct slots are each incremented once.
proof fn lemma_bump_distinct(data: Seq<u64>, slots: Seq<nat>)
    requires
        slots.no_duplicates(),
        forall|k: int| 0 <= k < slots.len() ==> slots[k] < data.len(),
    ensures
        bump_slots(data, slots) == bumped_once(data, slots),
    decreases slots.len(),
{
    if slots.len() > 0 {
        let init = slots.drop_last();
        let last = slots.last();
        lemma_bump_distinct(data, init);
        lemma_bump_slots_len(data, init, data.len());
        assert(!init.contains(last)) by {
            if init.contains(last) {
                let j = choose|j: int| 0 <= j < init.len() && init[j] == last;
                assert(slots[j] == slots[slots.len() - 1]);
            }
        }
        assert forall|i: int| 0 <= i < data.len() implies #[trigger] slots.contains(i as nat) == (
        init.contains(i as nat) || i == last) by {
            if slots.contains(i as nat) {
                let j = choose|j: int| 0 <= j < slots.len() && slots[j] == i as nat;
                if j < slots.len() - 1 {
                    assert(init[j] == i as nat);
                }
            }
            if init.contains(i as nat) {
                let j = choose|j: int| 0 <= j < init.len() && init[j] == i as nat;
                assert(slots[j] == i as nat);
            }
            if i == last {
                assert(slots[slots.len() - 1] == i as nat);
            }
        }
        assert(bump_slots(data, slots) =~= bumped_once(data, slots));
    } else {
        assert(bump_slots(data, slots) =~= bumped_once(data, slots));
    }
}

fn xorshift_step(x: u32) -> (r: u32)
    ensures
        r == xorshift32(x),
{
    let mut rng = x;
    rng ^= rng << 13;
    rng ^= rng >> 17;
    rng ^= rng << 5;
    rng
}

/// The critical section of the array-counter benchmark: `loop_limit`
/// wrapping increments, each of one slot of the protected array. It walks
/// the array in order or, with `random_access`, in a random order drawn by
/// an xorshift generator seeded from the low 32 bits of `loop_limit` with
/// the lowest bit set; either way each run of up to the array's length
/// iterations touches distinct slots. Returns slot 0.
pub fn counter_array_critical_section(data: &mut Vec<u64>, loop_limit: u64, random_access: bool) -> (r:
    usize)
    requires
        old(data)@.len() > 0,
    ensures
        array_walk(walk_slots(loop_limit, old(data)@.len(), random_access), loop_limit as nat, old(data)@.len()),
        final(data)@ == bump_slots(old(data)@, walk_slots(loop_limit, old(data)@.len(), random_access)),
        loop_limit <= old(data)@.len() ==> final(data)@ == bumped_once(
            old(data)@,
            walk_slots(loop_limit, old(data)@.len(), random_access),
        ),
        r == final(data)@[0] as usize,
{
    let len = data.len();
    let ghost d0 = data@;
    let ghost mut slots: Seq<nat> = seq![];
    let mut done: u64 = 0;
    if random_access {
        let mut order: Vec<usize> = Vec::new();
        let mut k: usize = 0;
        while k < len
            invariant
                0 <= k <= len,
                order@.len() == k,
                forall|j: int| 0 <= j < k ==> order@[j] == j,
            decreases len - k,
        {
            order.push(k);
            k = k + 1;
        }
        proof {
            assert(order@.no_duplicates());
        }
        let mut rng: u32 = (loop_limit as u32) | 1;
        let mut pos: usize = 0;
        proof {
            assert(order@ =~= Seq::new(len as nat, |i: int| i as usize));
            assert(slots =~= Seq::<nat>::empty());
        }
        while done < loop_limit
            invariant
                0 <= done <= loop_limit,
                len == data@.len(),
                len == d0.len(),
                len > 0,
                order@.len() == len,
                order@.no_duplicates(),
                forall|j: int| 0 <= j < len ==> #[trigger] order@[j] < len,
                pos < len,
                done < len ==> pos == done,
                slots.len() == done,
                forall|j: int| 0 <= j < done ==> #[trigger] slots[j] < len,
                done <= len ==> forall|q: int| 0 <= q < done ==> slots[q] == order@[q] as nat,
                done >= len ==> slots.take(len as int).no_duplicates(),
                data@ == bump_slots(d0, slots),
                shuffle_state(done as nat, len as nat, (loop_limit as u32) | 1u32) == (
                    order@,
                    rng,
                    pos as nat,
                    slots,
                ),
            decreases loop_limit - done,
        {
            rng = xorshift_step(rng);
            let t = pos + (rng as usize) % (len - pos);
            let ghost before = order@;
            let a = order[pos];
            let b = order[t];
            order.set(pos, b);
            order.set(t, a);
            proof {
                assert(order@ =~= before.update(pos as int, b).update(t as int, a));
                assert forall|x: int, y: int|
                    0 <= x < len && 0 <= y < len && x != y implies order@[x] != order@[y] by {
                    let sx = if x == pos { t as int } else if x == t { pos as int } else { x };
                    let sy = if y == pos { t as int } else if y == t { pos as int } else { y };
                    assert(order@[x] == before[sx]);
                    assert(order@[y] == before[sy]);
                }
                assert forall|j: int| 0 <= j < len implies #[trigger] order@[j] < len by {
                    let sj = if j == pos { t as int } else if j == t { pos as int } else { j };
                    assert(order@[j] == before[sj]);
                }
            }
            let i = order[pos];
            proof {
                lemma_bump_slots_len(d0, slots, len as nat);
                assert(slots.push(i as nat).drop_last() =~= slots);
                slots = slots.push(i as nat);
            }
            proof {
                let prev = slots.drop_last();
                if done + 1 == len {
                    assert(slots.take(len as int) =~= slots);
                    assert forall|x: int, y: int|
                        0 <= x < len && 0 <= y < len && x != y implies slots[x] != slots[y] by {
                        assert(slots[x] == order@[x] as nat);
                        assert(slots[y] == order@[y] as nat);
                    }
                } else if done + 1 > len {
                    assert(slots.take(len as int) =~= prev.take(len as int));
                }
            }
            data.set(i, data[i].wrapping_add(1));
            pos = if pos + 1 == len {
                0
            } else {
                pos + 1
            };
            done = done + 1;
        }
        proof {
            let n = if loop_limit < len { loop_limit as int } else { len as int };
            if loop_limit < len {
                assert forall|x: int, y: int|
                    0 <= x < n && 0 <= y < n && x != y implies slots.take(n)[x] != slots.take(n)[y] by {
                    assert(slots[x] == order@[x] as nat);
                    assert(slots[y] == order@[y] as nat);
                }
            }
            assert(array_walk(slots, loop_limit as nat, len as nat));
        }
    } else {
        let mut idx: usize = 0;
        while done < loop_limit
            invariant
                0 <= done <= loop_limit,
                len == data@.len(),
                len == d0.len(),
                len > 0,
                slots == touched_slots(done as nat, len as nat),
                data@ == bump_slots(d0, slots),
                idx as nat == (done as nat) % (len as nat),
                idx < len,
            decreases loop_limit - done,
        {
            proof {
                let next = touched_slots(done as nat + 1, len as nat);
                assert(next.drop_last() =~= slots);
                assert(next.last() == idx as nat);
                lemma_bump_slots_len(d0, slots, len as nat);
                slots = next;
            }
            data.set(idx, data[idx].wrapping_add(1));
            proof {
                assert((done as nat + 1) % (len as nat) == (if idx + 1 == len {
                    0
                } else {
                    idx + 1
                })) by (nonlinear_arith)
                    requires
                        idx as nat == (done as nat) % (len as nat),
                        idx < len,
                        len > 0,
                ;
            }
            idx = if idx + 1 == len {
                0
            } else {
                idx + 1
            };
            done = done + 1;
        }
        proof {
            let n = if loop_limit < len { loop_limit as int } else { len as int };
            assert forall|j: int| 0 <= j < loop_limit implies #[trigger] slots[j] < len by {
                vstd::arithmetic::div_mod::lemma_mod_bound(j, len as int);
            }
            assert forall|x: int, y: int|
                0 <= x < n && 0 <= y < n && x != y implies slots.take(n)[x] != slots.take(n)[y] by {
                vstd::arithmetic::div_mod::lemma_small_mod(x as nat, len as nat);
                vstd::arithmetic::div_mod::lemma_small_mod(y as nat, len as nat);
            }
            assert(array_walk(slots, loop_limit as nat, len as nat));
        }
    }
    proof {
        if loop_limit <= len {
            assert(slots.take(loop_limit as int) =~= slots);
            lemma_bump_distinct(d0, slots);
        }
    }
    data[0] as usize
}

/// Requests to, and replies from, a counter protected by a delegation
/// lock: a request asks for `data` increments on behalf of thread
/// `thread_id`; a reply gives the clock ticks the critical section took,
/// whether the thread that ran it was the one that asked, and the counter
/// (or first slot) afterwards.
#[derive(PartialEq, Eq, Structural, Clone, Copy, Debug)]
pub enum Data {
    Nothing,
    Input { data: u64, thread_id: u64 },
    Output { hold_time: u64, is_combiner: bool, data: usize },
}

impl Default for Data {
    fn default() -> (d: Self)
        ensures
            d is Nothing,
    {
        Data::Nothing
    }
}

/// The critical section of the proportional-counter benchmark, run by
/// thread `current` on a request: adds the requested number of increments
/// to the counter. With `stat_hold_time` the reply carries the clock ticks
/// the section took (wrapping, as the clock need not be monotonic), else
/// zero.
pub fn counter_operation(
    data: &mut usize,
    input: Data,
    current: u64,
    stat_hold_time: bool,
    clock: &Clock,
) -> (r: Data)
    requires
        input matches Data::Input { data: n, .. } && *old(data) + n <= usize::MAX,
    ensures
        input matches Data::Input { data: n, thread_id } && {
            &&& *final(data) == *old(data) + n
            &&& r matches Data::Output { hold_time, is_combiner, data: out }
            &&& out == *final(data)
            &&& is_combiner == (current == thread_id)
            &&& !stat_hold_time ==> hold_time == 0
        },
{
    match input {
        Data::Input { data: loop_limit, thread_id } => {
            let ts: u64 = if stat_hold_time {
                read_clock(clock)
            } else {
                0
            };
            let out = counter_critical_section(data, loop_limit);
            let hold_time: u64 = if stat_hold_time {
                read_clock(clock).wrapping_sub(ts)
            } else {
                0
            };
            Data::Output { hold_time, is_combiner: current == thread_id, data: out }
        },
        _ => Data::Nothing,
    }
}

/// The critical section of the array-counter benchmark, run by thread
/// `current` on a request: the requested number of slot increments, in
/// order or at random positions (see `counter_array_critical_section`).
/// With `stat_hold_time` the reply carries the clock ticks the section took
/// (wrapping), else zero.
pub fn counter_array_operation(
    data: &mut Vec<u64>,
    input: Data,
    current: u64,
    random_access: bool,
    stat_hold_time: bool,
    clock: &Clock,
) -> (r: Data)
    requires
        input is Input,
        old(data)@.len() > 0,
    ensures
        input matches Data::Input { data: n, thread_id } && {
            &&& array_walk(walk_slots(n, old(data)@.len(), random_access), n as nat, old(data)@.len())
            &&& final(data)@ == bump_slots(old(data)@, walk_slots(n, old(data)@.len(), random_access))
            &&& n <= old(data)@.len() ==> final(data)@ == bumped_once(
                old(data)@,
                walk_slots(n, old(data)@.len(), random_access),
            )
            &&& r matches Data::Output { hold_time, is_combiner, data: out }
            &&& out == final(data)@[0] as usize
            &&& is_combiner == (current == thread_id)
            &&& !stat_hold_time ==> hold_time == 0
        },
{
    match input {
        Data::Input { data: loop_limit, thread_id } => {
            let ts: u64 = if stat_hold_time {
                read_clock(clock)
            } else {
                0
            };
            let out = counter_array_critical_section(data, loop_limit, random_access);
            let hold_time: u64 = if stat_hold_time {
                read_clock(clock).wrapping_sub(ts)
            } else {
                0
            };
            Data::Output { hold_time, is_combiner: current == thread_id, data: out }
        },
        _ => Data::Nothing,
    }
}

} // verus!
