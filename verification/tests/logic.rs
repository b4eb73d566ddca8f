use dlock::workload::{split_latencies, thread_loops, thread_role};
use dlock::hashmap::{hashmap_operation, HashMapOp};
use std::collections::HashMap;
use std::collections::VecDeque;
use std::time::Duration;

use dlock::command::{
    extract_targets, parse_duration, DLock1Experiment, DLock1Option, DLock1Target, DLock2Target, LockFreeQueue, SeqPQType,
    SeqQueueType, WaiterType,
};
use dlock::counter::{counter_array_critical_section, counter_array_operation, counter_critical_section, counter_operation, Data};
use dlock::fairness::{backoff_rounds, ban_deadline, ban_expired, running_average};
use dlock::parker::{
    BlockParkerFlag, SpinParkerFlag, SpinStep, State, WaitStep, EMPTY, NOTIFIED, PARKED, PRENOTIFIED, SPIN_EMPTY,
    SPIN_NOTIFIED, SPIN_PRENOTIFIED,
};
use dlock::priority_queue::{pq_operation, MaxHeap, MinSet, PQData, SequentialPriorityQueue};
use dlock::queue::{queue_operation, QueueData, SequentialQueue};
use dlock::records::{clone_u64s, CombinerSample, CombinerStatistics, Latency, Record, Records, Spec};

#[test]
fn waiter_type_defaults_to_all() {
    assert!(WaiterType::default() == WaiterType::All);
    assert_eq!(WaiterType::Spin.name(), "Spin");
    assert_eq!(WaiterType::Block.name(), "Block");
    assert_eq!(WaiterType::All.name(), "All");
}

#[test]
fn dlock1_targets_that_delegate() {
    let delegating = [
        DLock1Target::FCSLNaive,
        DLock1Target::FCSL,
        DLock1Target::FC,
        DLock1Target::FCBan,
        DLock1Target::FCBanSlice,
        DLock1Target::CC,
        DLock1Target::CCBan,
        DLock1Target::RCL,
    ];
    for t in delegating {
        assert!(t.is_dlock());
    }
    for t in [DLock1Target::Mutex, DLock1Target::SpinLock, DLock1Target::USCL] {
        assert!(!t.is_dlock());
    }
}

#[test]
fn dlock2_targets_that_delegate() {
    let delegating = [
        DLock2Target::FC,
        DLock2Target::FCBan,
        DLock2Target::CC,
        DLock2Target::CCBan,
        DLock2Target::DSM,
        DLock2Target::FcSL,
        DLock2Target::FcPqBTree,
        DLock2Target::FcPqBHeap,
        DLock2Target::FcC,
        DLock2Target::CcC,
    ];
    for t in delegating {
        assert!(t.is_dlock());
    }
    for t in [DLock2Target::Mutex, DLock2Target::SpinLock, DLock2Target::USCL] {
        assert!(!t.is_dlock());
    }
}

#[test]
fn all_dlock1_experiments_in_order() {
    let v = DLock1Experiment::to_vec_ref();
    assert_eq!(v.len(), 6);
    assert!(matches!(v[0], DLock1Experiment::CounterRatioOneThree));
    assert!(matches!(v[1], DLock1Experiment::CounterSubversion));
    assert!(matches!(v[2], DLock1Experiment::CounterRatioOneThreeNonCS));
    match &v[3] {
        DLock1Experiment::CounterProportional { cs_durations, non_cs_durations, file_name } => {
            assert!(cs_durations.is_empty());
            assert!(non_cs_durations.is_empty());
            assert!(file_name.is_empty());
        }
        _ => panic!("expected the proportional counter"),
    }
    assert!(matches!(v[4], DLock1Experiment::ResponseTimeSingleAddition));
    assert!(matches!(v[5], DLock1Experiment::ResponseTimeRatioOneThree));
}

#[test]
fn option_and_type_defaults() {
    let o = DLock1Option::default();
    assert!(o.experiment.is_none());
    assert!(o.lock_targets.is_none());
    assert!(o.waiter == WaiterType::All);
    assert!(SeqQueueType::default() == SeqQueueType::LinkedList);
    assert!(SeqPQType::default() == SeqPQType::BinaryHeap);
    assert!(LockFreeQueue::MCSQueue == LockFreeQueue::MCSQueue);
}

#[test]
fn parse_duration_reads_nanoseconds() {
    assert_eq!(parse_duration("1000").unwrap(), Duration::from_nanos(1000));
    assert_eq!(parse_duration("0").unwrap(), Duration::ZERO);
    assert_eq!(parse_duration("+25").unwrap(), Duration::from_nanos(25));
    assert_eq!(parse_duration("18446744073709551615").unwrap(), Duration::from_nanos(u64::MAX));
    assert!(parse_duration("18446744073709551616").is_err());
    assert!(parse_duration("").is_err());
    assert!(parse_duration("-1").is_err());
    assert!(parse_duration("1ms").is_err());
    assert!(parse_duration(" 1").is_err());
    // the error is the one `str::parse::<u64>` reports
    for bad in ["", "abc", "18446744073709551616", "-1", "+"] {
        assert_eq!(parse_duration(bad).unwrap_err(), bad.parse::<u64>().unwrap_err());
    }
}

#[test]
fn block_parker_protocol() {
    let mut p = BlockParkerFlag::new();
    assert_eq!(p.value, EMPTY);
    assert!(p.state() == State::Empty);
    assert!(p.begin_wait() == WaitStep::Sleep);
    assert_eq!(p.value, PARKED);
    assert!(p.state() == State::Parked);
    // the owner sleeps: a prewake must wake the futex
    assert!(p.prewake());
    assert_eq!(p.value, PRENOTIFIED);
    assert!(p.after_sleep() == WaitStep::SpinWhilePrenotified);
    assert!(!p.wake());
    assert_eq!(p.value, NOTIFIED);
    assert!(p.after_sleep() == WaitStep::Return);
    assert_eq!(p.value, EMPTY);
    // wake before wait: nothing to wake, and the wait returns at once
    assert!(!p.wake());
    assert!(!p.prewake());
    assert!(p.state() == State::Notified);
    assert!(p.begin_wait() == WaitStep::Return);
    p.reset();
    assert!(p.state() == State::Empty);
    // wake of a sleeping owner wakes the futex
    p.begin_wait();
    assert!(p.wake());
}

#[test]
fn spin_parker_protocol() {
    let mut p = SpinParkerFlag::new();
    assert!(p.poll() == SpinStep::Snooze);
    p.prewake();
    assert_eq!(p.value, SPIN_PRENOTIFIED);
    assert!(p.poll() == SpinStep::SpinThenYield);
    assert!(p.timed_out(10, 5));
    p.wake();
    assert_eq!(p.value, SPIN_NOTIFIED);
    assert!(!p.timed_out(10, 5));
    p.prewake();
    assert_eq!(p.value, SPIN_NOTIFIED);
    assert!(p.poll() == SpinStep::Return);
    assert_eq!(p.value, SPIN_EMPTY);
    p.wake();
    p.reset();
    assert_eq!(p.value, SPIN_EMPTY);
}

#[test]
fn fairness_formulas() {
    assert_eq!(running_average(0, 10, 1), 10);
    assert_eq!(running_average(10, 0, 3), 7);
    assert_eq!(running_average(10, 20, 4), 12);
    assert_eq!(running_average(-5, -20, 2), -12);
    assert_eq!(ban_deadline(1000, 30, 4, 50), 1000 + 120 - 100);
    // clock readings are unbounded: the arithmetic wraps as a release build's does
    assert_eq!(running_average(i64::MAX, i64::MIN, 1), i64::MIN);
    assert_eq!(ban_deadline(u64::MAX, 1, 1, 0), (u64::MAX as i64).wrapping_add(1));
    assert!(ban_expired(1020, 1020));
    assert!(!ban_expired(1019, 1020));
    assert_eq!(backoff_rounds(100, 0), 0);
    assert_eq!(backoff_rounds(100, 30), 3);
    assert_eq!(backoff_rounds(-100, 30), 0);
    assert_eq!(backoff_rounds(-100, -30), 3);
    assert_eq!(backoff_rounds(100, -30), 0);
}

#[test]
fn queue_is_fifo() {
    let mut q: VecDeque<u64> = VecDeque::new();
    assert_eq!(queue_operation(&mut q, QueueData::Push { data: 1 }), QueueData::Nothing);
    assert_eq!(queue_operation(&mut q, QueueData::Push { data: 2 }), QueueData::Nothing);
    assert_eq!(queue_operation(&mut q, QueueData::Pop), QueueData::OutputT { data: 1 });
    assert_eq!(queue_operation(&mut q, QueueData::Pop), QueueData::OutputT { data: 2 });
    assert_eq!(queue_operation(&mut q, QueueData::Pop), QueueData::OutputEmpty);
    assert_eq!(QueueData::<u64>::default(), QueueData::Nothing);
    SequentialQueue::push(&mut q, 9);
    assert_eq!(SequentialQueue::pop(&mut q), Some(9));
}

#[test]
fn max_heap_pops_largest_first() {
    let mut h = MaxHeap::new();
    for x in [5u64, 1, 9, 9, 3] {
        assert_eq!(pq_operation(&mut h, PQData::Push { data: x }), PQData::Nothing);
    }
    assert_eq!(pq_operation(&mut h, PQData::Peek), PQData::PeekResult(Some(9)));
    assert_eq!(pq_operation(&mut h, PQData::Pop), PQData::PopResult(Some(9)));
    assert_eq!(pq_operation(&mut h, PQData::Pop), PQData::PopResult(Some(9)));
    assert_eq!(pq_operation(&mut h, PQData::Pop), PQData::PopResult(Some(5)));
    assert_eq!(pq_operation(&mut h, PQData::Pop), PQData::PopResult(Some(3)));
    assert_eq!(pq_operation(&mut h, PQData::Pop), PQData::PopResult(Some(1)));
    assert_eq!(pq_operation(&mut h, PQData::Pop), PQData::PopResult(None));
    assert_eq!(pq_operation(&mut h, PQData::Peek), PQData::PeekResult(None));
    assert_eq!(PQData::<u64>::default(), PQData::Nothing);
}

#[test]
fn min_set_pops_smallest_once() {
    let mut s = MinSet::new();
    for x in [5u64, 1, 9, 1, 3] {
        pq_operation(&mut s, PQData::Push { data: x });
    }
    assert!(s.contains(1));
    assert!(!s.contains(2));
    assert_eq!(s.peek(), Some(&1));
    assert_eq!(pq_operation(&mut s, PQData::Pop), PQData::PopResult(Some(1)));
    assert_eq!(pq_operation(&mut s, PQData::Pop), PQData::PopResult(Some(3)));
    assert_eq!(pq_operation(&mut s, PQData::Pop), PQData::PopResult(Some(5)));
    assert_eq!(pq_operation(&mut s, PQData::Pop), PQData::PopResult(Some(9)));
    assert_eq!(pq_operation(&mut s, PQData::Pop), PQData::PopResult(None));
}

#[test]
fn counter_section_adds_loop_limit() {
    let mut c = 10usize;
    assert_eq!(counter_critical_section(&mut c, 1000), 1010);
    assert_eq!(c, 1010);
    assert_eq!(counter_critical_section(&mut c, 0), 1010);
}

#[test]
fn counter_array_sequential_walk() {
    let mut data = vec![0u64; 4];
    let first = counter_array_critical_section(&mut data, 10, false);
    assert_eq!(data, vec![3, 3, 2, 2]);
    assert_eq!(first, 3);
    let mut wrap = vec![u64::MAX];
    assert_eq!(counter_array_critical_section(&mut wrap, 2, false), 1);
}

fn shuffled_walk(n: u64, len: usize) -> Vec<u64> {
    let mut counts = vec![0u64; len];
    let mut order: Vec<usize> = (0..len).collect();
    let mut rng = (n as u32) | 1;
    let mut pos = 0usize;
    for _ in 0..n {
        rng ^= rng << 13;
        rng ^= rng >> 17;
        rng ^= rng << 5;
        let t = pos + (rng as usize) % (len - pos);
        order.swap(pos, t);
        counts[order[pos]] += 1;
        pos = if pos + 1 == len { 0 } else { pos + 1 };
    }
    counts
}

#[test]
fn counter_array_random_walk() {
    // the walk is the xorshift-driven swap sequence, not the sequential one
    for (len, n) in [(7usize, 3u64), (7, 25), (5, 5), (16, 9)] {
        let mut data = vec![0u64; len];
        counter_array_critical_section(&mut data, n, true);
        assert_eq!(data, shuffled_walk(n, len));
    }
    let mut data = vec![0u64; 16];
    counter_array_critical_section(&mut data, 9, true);
    assert_ne!(data, [vec![1u64; 9], vec![0u64; 7]].concat());
    // each run of up to the array's length iterations touches distinct slots
    let mut data = vec![0u64; 2];
    counter_array_critical_section(&mut data, 2, true);
    assert_eq!(data, vec![1, 1]);
    for len in 1..9usize {
        for n in 0..=(len as u64) {
            let mut data = vec![5u64; len];
            let first = counter_array_critical_section(&mut data, n, true);
            assert_eq!(data.iter().filter(|&&v| v == 6).count() as u64, n);
            assert_eq!(data.iter().filter(|&&v| v == 5).count() as u64, len as u64 - n);
            assert_eq!(first as u64, data[0]);
        }
    }
    // longer walks go round the array: 25 increments over 7 slots
    let mut data = vec![0u64; 7];
    counter_array_critical_section(&mut data, 25, true);
    assert_eq!(data.iter().sum::<u64>(), 25);
    assert!(data.iter().all(|&v| v >= 3));
}

#[test]
fn combiner_statistics_unfold_sizes() {
    let sample = CombinerSample { combine_time: vec![7, 8], combine_size: vec![(1, 2), (4, 0), (3, 1)] };
    let stats = CombinerStatistics::from_combiner_sample(&sample);
    assert_eq!(stats.combine_size, vec![1, 1, 3]);
    assert_eq!(stats.combine_time, vec![7, 8]);
    assert_eq!(clone_u64s(&vec![1, 2, 3]), vec![1, 2, 3]);
    let lat = Latency { combiner_latency: vec![1], waiter_latency: vec![] };
    assert_eq!(lat.combiner_latency.len(), 1);
    let spec = Spec {
        id: 1,
        cpu_id: 2,
        thread_num: 3,
        cpu_num: 4,
        loop_count: 5,
        num_acquire: 6,
        duration: 7,
        target_name: "FC".to_string(),
        cs_length: 0,
        non_cs_length: 0,
        hold_time: 0,
        waiter_type: None,
    };
    assert_eq!(spec.target_name, "FC");
}

fn sample_records(rt: Option<Vec<Option<Duration>>>, ic: Option<Vec<Option<bool>>>) -> Records {
    Records {
        id: 3,
        cpu_id: 1,
        thread_num: 8,
        cpu_num: 4,
        loop_count: 100,
        num_acquire: 10,
        cs_length: Duration::from_nanos(5),
        non_cs_length: None,
        is_combiner: ic,
        response_times: rt,
        hold_time: Duration::from_nanos(50),
        combine_time: None,
        locktype: "FC".to_string(),
        waiter_type: "Spin".to_string(),
    }
}

#[test]
fn records_plain_row() {
    let r = sample_records(None, None);
    let rows: Vec<Record> = r.to_records();
    assert_eq!(rows.len(), 1);
    assert_eq!(rows[0].id, 3);
    assert_eq!(rows[0].loop_count, 100);
    assert_eq!(rows[0].locktype, "FC");
    assert!(rows[0].is_combiner.is_none());
    assert!(rows[0].response_time.is_none());
}

#[test]
fn records_rows_per_response_time() {
    let rt = vec![Some(Duration::from_nanos(1)), None, Some(Duration::from_nanos(3))];
    let r = sample_records(Some(rt.clone()), Some(vec![Some(true), Some(false)]));
    let rows = r.to_records();
    assert_eq!(rows.len(), 2);
    assert_eq!(rows[0].response_time, rt[0]);
    assert_eq!(rows[0].is_combiner, Some(Some(true)));
    assert_eq!(rows[1].response_time, None);
    assert_eq!(rows[1].is_combiner, Some(Some(false)));
    let r2 = sample_records(Some(rt.clone()), None);
    let rows2 = r2.to_records();
    assert_eq!(rows2.len(), 3);
    assert_eq!(rows2[2].response_time, rt[2]);
    assert_eq!(rows2[2].is_combiner, None);
    assert_eq!(rows2[2].waiter_type, "Spin");
}

#[test]
fn hashmap_operations_get_put_scan() {
    let clock = quanta::Clock::new();
    let mut map: HashMap<u64, [u8; 64]> = HashMap::new();
    for k in 0..5u64 {
        map.insert(k, [k as u8; 64]);
    }
    match hashmap_operation(&mut map, HashMapOp::Get { key: 3, thread_id: 7 }, 7, false, &clock) {
        HashMapOp::GetResult { found, hold_time, is_combiner } => {
            assert!(found);
            assert_eq!(hold_time, 0);
            assert!(is_combiner);
        }
        other => panic!("unexpected reply {:?}", other),
    }
    match hashmap_operation(&mut map, HashMapOp::Get { key: 9, thread_id: 7 }, 8, true, &clock) {
        HashMapOp::GetResult { found, is_combiner, .. } => {
            assert!(!found);
            assert!(!is_combiner);
        }
        other => panic!("unexpected reply {:?}", other),
    }
    match hashmap_operation(&mut map, HashMapOp::Put { key: 9, value: [1; 64], thread_id: 1 }, 1, false, &clock) {
        HashMapOp::PutResult { hold_time, is_combiner } => {
            assert_eq!(hold_time, 0);
            assert!(is_combiner);
        }
        other => panic!("unexpected reply {:?}", other),
    }
    assert_eq!(map.len(), 6);
    assert_eq!(map[&9][0], 1);
    match hashmap_operation(&mut map, HashMapOp::Scan { count: 4, thread_id: 1 }, 2, false, &clock) {
        HashMapOp::ScanResult { entries_scanned, .. } => assert_eq!(entries_scanned, 4),
        other => panic!("unexpected reply {:?}", other),
    }
    match hashmap_operation(&mut map, HashMapOp::Scan { count: 100, thread_id: 1 }, 2, false, &clock) {
        HashMapOp::ScanResult { entries_scanned, .. } => assert_eq!(entries_scanned, 6),
        other => panic!("unexpected reply {:?}", other),
    }
    assert_eq!(map.len(), 6);
}

#[test]
fn counter_operations_answer_requests() {
    let clock = quanta::Clock::new();
    let mut counter: usize = 10;
    let reply = counter_operation(&mut counter, Data::Input { data: 5, thread_id: 3 }, 3, false, &clock);
    assert_eq!(reply, Data::Output { hold_time: 0, is_combiner: true, data: 15 });
    let reply = counter_operation(&mut counter, Data::Input { data: 0, thread_id: 3 }, 4, true, &clock);
    match reply {
        Data::Output { is_combiner, data, .. } => {
            assert!(!is_combiner);
            assert_eq!(data, 15);
        }
        other => panic!("unexpected reply {:?}", other),
    }
    let mut slots = vec![0u64; 3];
    let reply = counter_array_operation(&mut slots, Data::Input { data: 7, thread_id: 1 }, 1, false, false, &clock);
    assert_eq!(slots, vec![3, 2, 2]);
    assert_eq!(reply, Data::Output { hold_time: 0, is_combiner: true, data: 3 });
    assert_eq!(Data::default(), Data::Nothing);
}

#[test]
fn hashmap_thread_roles() {
    let sizes = vec![10usize, 20];
    assert_eq!(thread_role(0, 4, 2, &sizes), None);
    assert_eq!(thread_role(1, 4, 2, &sizes), None);
    assert_eq!(thread_role(2, 4, 2, &sizes), Some(10));
    assert_eq!(thread_role(3, 4, 2, &sizes), Some(20));
    assert_eq!(thread_role(3, 4, 0, &sizes), None);
    assert_eq!(thread_role(3, 4, 1, &vec![]), Some(0));
    assert_eq!(thread_loops(3, &vec![100, 200], &vec![0]), Some((200, 0)));
    assert_eq!(thread_loops(4, &vec![100, 200, 300], &vec![1, 2]), Some((200, 1)));
    assert_eq!(thread_loops(0, &vec![], &vec![1]), None);
    let (c, w) = split_latencies(&vec![5, 6, 7, 8], &vec![true, false, true]);
    assert_eq!(c, vec![5, 7]);
    assert_eq!(w, vec![6]);
}

#[test]
fn extract_targets_pairs_parkers() {
    let targets = vec![DLock1Target::FC, DLock1Target::Mutex, DLock1Target::RCL];
    assert_eq!(
        extract_targets(WaiterType::All, &targets),
        vec![
            (DLock1Target::FC, WaiterType::Spin),
            (DLock1Target::FC, WaiterType::Block),
            (DLock1Target::Mutex, WaiterType::Spin),
            (DLock1Target::RCL, WaiterType::Spin),
            (DLock1Target::RCL, WaiterType::Block),
        ]
    );
    assert_eq!(
        extract_targets(WaiterType::Block, &targets),
        vec![
            (DLock1Target::FC, WaiterType::Block),
            (DLock1Target::Mutex, WaiterType::Block),
            (DLock1Target::RCL, WaiterType::Block),
        ]
    );
    assert!(extract_targets(WaiterType::Spin, &vec![]).is_empty());
}
