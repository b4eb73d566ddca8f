use vstd::prelude::*;

verus! {

/// What a thread of the hash-map benchmark does: the last `scan_threads`
/// of the `num_thread` threads are scanners, each scanning the size chosen
/// from `scan_sizes` by its id (none when no size is given); the others look
/// keys up and insert them. `Some(size)` for a scanner, `None` for the rest.
pub fn thread_role(id: usize, num_thread: usize, scan_threads: usize, scan_sizes: &Vec<usize>) -> (s:
    Option<usize>)
    requires
        scan_threads <= num_thread,
    ensures
        s.is_some() == (scan_threads > 0 && id >= num_thread - scan_threads),
        s matches Some(size) ==> size == if scan_sizes@.len() == 0 {
            0
        } else {
            scan_sizes@[(id as int) % (scan_sizes@.len() as int)]
        },
{
    let is_scanner = scan_threads > 0 && id >= num_thread - scan_threads;
    if is_scanner {
        if scan_sizes.len() == 0 {
            Some(0)
        } else {
            Some(scan_sizes[id % scan_sizes.len()])
        }
    } else {
        None
    }
}

/// The critical-section and outside-section loop sizes of thread `id`: the
/// two lists are cycled over the threads; with either list empty no thread
/// is started.
pub fn thread_loops(id: usize, cs_loops: &Vec<u64>, non_cs_loops: &Vec<u64>) -> (r: Option<(u64, u64)>)
    ensures
        r is None <==> (cs_loops@.len() == 0 || non_cs_loops@.len() == 0),
        r matches Some(p) ==> p == (
            cs_loops@[(id as int) % (cs_loops@.len() as int)],
            non_cs_loops@[(id as int) % (non_cs_loops@.len() as int)],
        ),
{
    if cs_loops.len() == 0 || non_cs_loops.len() == 0 {
        None
    } else {
        Some((cs_loops[id % cs_loops.len()], non_cs_loops[id % non_cs_loops.len()]))
    }
}

/// The latencies of the first `n` acquisitions, split into those a thread
/// spent as combiner and those it spent waiting, each in order.
pub open spec fn split_upto(lat: Seq<u64>, comb: Seq<bool>, n: int) -> (Seq<u64>, Seq<u64>)
    decreases n,
{
    if n <= 0 {
        (seq![], seq![])
    } else {
        let (c, w) = split_upto(lat, comb, n - 1);
        if comb[n - 1] {
            (c.push(lat[n - 1]), w)
        } else {
            (c, w.push(lat[n - 1]))
        }
    }
}

/// Splits a thread's latencies by whether it was the combiner at each
/// acquisition (the two lists paired while both last): combiner latencies
/// first, waiter latencies second, each in order.
pub fn split_latencies(lat: &Vec<u64>, comb: &Vec<bool>) -> (r: (Vec<u64>, Vec<u64>))
    ensures
        (r.0@, r.1@) == split_upto(
            lat@,
            comb@,
            if lat@.len() < comb@.len() {
                lat@.len() as int
            } else {
                comb@.len() as int
            },
        ),
{
    let n = if lat.len() < comb.len() {
        lat.len()
    } else {
        comb.len()
    };
    let mut combiner: Vec<u64> = Vec::new();
    let mut waiter: Vec<u64> = Vec::new();
    let mut k: usize = 0;
    while k < n
        invariant
            0 <= k <= n,
            n <= lat@.len(),
            n <= comb@.len(),
            (combiner@, waiter@) == split_upto(lat@, comb@, k as int),
        decreases n - k,
    {
        if comb[k] {
            combiner.push(lat[k]);
        } else {
            waiter.push(lat[k]);
        }
        k = k + 1;
    }
    (combiner, waiter)
}

/// Law: splitting loses and invents no latency: the two lists together are
/// as long as the acquisitions split, and the combiner list is as long as
/// the number of them spent as combiner.
pub proof fn law_split_keeps_every_latency(lat: Seq<u64>, comb: Seq<bool>, n: int)
    requires
        0 <= n <= lat.len(),
        n <= comb.len(),
    ensures
        split_upto(lat, comb, n).0.len() + split_upto(lat, comb, n).1.len() == n,
        split_upto(lat, comb, n).0.len() == comb.take(n).filter(|b: bool| b).len(),
    decreases n,
{
    if n > 0 {
        law_split_keeps_every_latency(lat, comb, n - 1);
        let t = comb.take(n);
        assert(t.drop_last() =~= comb.take(n - 1));
        comb.take(n - 1).lemma_filter_push(comb[n - 1], |b: bool| b);
        assert(comb.take(n - 1).push(comb[n - 1]) =~= t);
    } else {
        assert(comb.take(0) =~= seq![]);
        assert(comb.take(0).filter(|b: bool| b) =~= seq![]);
    }
}

} // verus!
