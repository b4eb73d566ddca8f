use vstd::prelude::*;

use std::collections::HashMap;

use quanta::Clock;

use crate::clock::read_clock;

verus! {

broadcast use vstd::std_specs::hash::group_hash_axioms;

/// Requests to, and replies from, a hash map of cache-line values
/// protected by a delegation lock. A request carries the number of the
/// thread that made it; a reply says how long the critical section held
/// the lock and whether the thread that ran it was the one that asked.
#[derive(Clone, Copy, Debug)]
pub enum HashMapOp {
    Get { key: u64, thread_id: u64 },
    Put { key: u64, value: [u8; 64], thread_id: u64 },
    Scan { count: usize, thread_id: u64 },
    GetResult { found: bool, hold_time: u64, is_combiner: bool },
    PutResult { hold_time: u64, is_combiner: bool },
    ScanResult { entries_scanned: usize, hold_time: u64, is_combiner: bool },
    Nothing,
}

impl Default for HashMapOp {
    fn default() -> (d: Self)
        ensures
            d is Nothing,
    {
        HashMapOp::Nothing
    }
}

/// `std::hint::black_box`: std documents it as the identity function that
/// keeps the compiler from optimising the value's computation away.
#[verifier::external_body]
fn black_box(x: u64) -> (r: u64)
    ensures
        r == x,
{
    std::hint::black_box(x)
}

/// Whether `op` is a request (rather than a reply or nothing).
pub open spec fn is_request(op: HashMapOp) -> bool {
    op is Get || op is Put || op is Scan
}

/// Runs one request on the map, as the thread numbered `current` (the
/// combiner). A get looks the key up, a put inserts or replaces it, a scan
/// walks the map until it has visited `count` entries or all of them. With
/// `stat_hold_time` the reply carries the clock ticks the operation took
/// (wrapping, as the clock need not be monotonic), else zero.
pub fn hashmap_operation(
    data: &mut HashMap<u64, [u8; 64]>,
    input: HashMapOp,
    current: u64,
    stat_hold_time: bool,
    clock: &Clock,
) -> (r: HashMapOp)
    requires
        is_request(input),
    ensures
        match input {
            HashMapOp::Get { key, thread_id } => {
                &&& final(data)@ == old(data)@
                &&& r matches HashMapOp::GetResult { found, hold_time, is_combiner }
                &&& found == old(data)@.contains_key(key)
                &&& is_combiner == (current == thread_id)
                &&& !stat_hold_time ==> hold_time == 0
            },
            HashMapOp::Put { key, value, thread_id } => {
                &&& final(data)@ == old(data)@.insert(key, value)
                &&& r matches HashMapOp::PutResult { hold_time, is_combiner }
                &&& is_combiner == (current == thread_id)
                &&& !stat_hold_time ==> hold_time == 0
            },
            HashMapOp::Scan { count, thread_id } => {
                &&& final(data)@ == old(data)@
                &&& r matches HashMapOp::ScanResult { entries_scanned, hold_time, is_combiner }
                &&& entries_scanned == if count < old(data)@.len() {
                    count as nat
                } else {
                    old(data)@.len()
                }
                &&& is_combiner == (current == thread_id)
                &&& !stat_hold_time ==> hold_time == 0
            },
            _ => false,
        },
{
    let ts: u64 = if stat_hold_time {
        read_clock(clock)
    } else {
        0
    };
    match input {
        HashMapOp::Get { key, thread_id } => {
            let found = data.contains_key(&key);
            let hold_time: u64 = if stat_hold_time {
                read_clock(clock).wrapping_sub(ts)
            } else {
                0
            };
            HashMapOp::GetResult { found, hold_time, is_combiner: current == thread_id }
        },
        HashMapOp::Put { key, value, thread_id } => {
            data.insert(key, value);
            let hold_time: u64 = if stat_hold_time {
                read_clock(clock).wrapping_sub(ts)
            } else {
                0
            };
            HashMapOp::PutResult { hold_time, is_combiner: current == thread_id }
        },
        HashMapOp::Scan { count, thread_id } => {
            let ghost len = data@.len();
            let mut scanned: usize = 0;
            let mut checksum: u64 = 0;
            for entry in iter: data.iter()
                invariant_except_break
                    scanned == iter.index(),
                invariant
                    scanned <= count,
                    iter.seq().len() == len,
                ensures
                    scanned == if count < len {
                        count as nat
                    } else {
                        len
                    },
            {
                if scanned >= count {
                    break;
                }
                let (k, v) = entry;
                checksum = checksum.wrapping_add(*k);
                checksum = checksum.wrapping_add(v[0] as u64);
                scanned = scanned + 1;
            }
            black_box(checksum);
            let hold_time: u64 = if stat_hold_time {
                read_clock(clock).wrapping_sub(ts)
            } else {
                0
            };
            HashMapOp::ScanResult { entries_scanned: scanned, hold_time, is_combiner: current == thread_id }
        },
        _ => HashMapOp::Nothing,
    }
}

} // verus!
