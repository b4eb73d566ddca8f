use dlock::ccsynch::{CCBan, CCBanStats, CCSynch, CcRequest, BAN_COMBINE_LIMIT, COMBINE_LIMIT};
use dlock::dlock::{CounterJob, DLock, ThirdPartyLock};
use dlock::fc::{FcLock, CLEAN_UP_AGE};
use dlock::fc_fair::{fair_combine, spin, FairFcLock, FairStats};
use dlock::lock_target::{LockTarget, LockType};
use dlock::fc_sl::FcSL;
use dlock::guard::DLockGuard;
use dlock::rcl::{after_pass, new_server, RclLock, RclRequest, RequestCallable, ServerStep, NO_HOLDER, NUM_REQUEST_SLOTS};
use dlock::spin_lock::{RawSpinLock, SpinLock};
use dlock::parker::State;
use dlock::RawSimpleLock;

fn job(amount: u64) -> CounterJob {
    CounterJob { amount, runs: 0 }
}

#[test]
fn counter_job_adds_and_counts() {
    let mut data = 5u64;
    let mut j = job(3);
    dlock::dlock::DLockDelegate::apply(&mut j, DLockGuard::new(&mut data));
    assert_eq!(data, 8);
    assert_eq!(j.runs, 1);
    let mut big = u64::MAX;
    let mut w = job(2);
    dlock::dlock::DLockDelegate::apply(&mut w, DLockGuard::new(&mut big));
    assert_eq!(big, 1);
}

#[test]
fn fc_lock_alone_runs_once() {
    let mut lock: FcLock<u64, CounterJob> = FcLock::new(10);
    let me = lock.register();
    let r = lock.lock(me, job(7));
    assert_eq!(lock.data, 17);
    assert_eq!(r.runs, 1);
    assert_eq!(lock.pass, 1);
    assert!(lock.nodes[me].active);
    assert_eq!(lock.list, vec![me]);
    assert_eq!(lock.num_waiting_threads, 1);
}

#[test]
fn fc_combiner_serves_all_published() {
    let mut lock: FcLock<u64, CounterJob> = FcLock::new(0);
    let ids: Vec<usize> = (0..5).map(|_| lock.register()).collect();
    for (k, id) in ids.iter().enumerate().skip(1) {
        lock.publish(*id, job(k as u64 * 10));
    }
    // the last published node is at the head of the list
    assert_eq!(lock.list, vec![4, 3, 2, 1]);
    let r = lock.lock(ids[0], job(1));
    assert_eq!(lock.data, 1 + 10 + 20 + 30 + 40);
    assert_eq!(r.runs, 1);
    for id in &ids[1..] {
        assert!(lock.nodes[*id].f.is_none());
        assert_eq!(lock.nodes[*id].done.unwrap().runs, 1);
        assert_eq!(lock.nodes[*id].age, 0);
    }
}

#[test]
fn fc_combine_stamps_pass_and_skips_idle() {
    let mut lock: FcLock<u64, CounterJob> = FcLock::new(0);
    let a = lock.register();
    let b = lock.register();
    lock.push_node(a);
    lock.push_node(b);
    lock.publish(b, job(4));
    lock.pass = 9;
    lock.combine();
    assert_eq!(lock.pass, 10);
    assert_eq!(lock.data, 4);
    assert_eq!(lock.nodes[b].age, 9);
    assert_eq!(lock.nodes[a].age, 0);
    assert!(lock.nodes[a].done.is_none());
}

#[test]
fn fc_clean_up_unlinks_stale_nodes_but_not_head() {
    let mut lock: FcLock<u64, CounterJob> = FcLock::new(0);
    let ids: Vec<usize> = (0..4).map(|_| lock.register()).collect();
    for id in &ids {
        lock.push_node(*id);
    }
    // list is [3, 2, 1, 0]; make node 3 (head) and node 1 stale
    lock.nodes[2].age = 100;
    lock.nodes[0].age = 100 - CLEAN_UP_AGE;
    lock.clean_unactive_node(100 + 1);
    assert_eq!(lock.list, vec![3, 2]);
    assert!(lock.nodes[3].active);
    assert!(lock.nodes[2].active);
    assert!(!lock.nodes[1].active);
    assert!(!lock.nodes[0].active);
    // a stale node rejoins at the head when its thread publishes again
    lock.push_if_unactive(1);
    assert_eq!(lock.list, vec![1, 3, 2]);
}

#[test]
fn fc_clean_up_age_wraps_like_the_pass_counter() {
    let mut lock: FcLock<u64, CounterJob> = FcLock::new(0);
    let a = lock.register();
    let b = lock.register();
    lock.push_node(a);
    lock.push_node(b);
    lock.nodes[a].age = u32::MAX - 10;
    lock.clean_unactive_node(20);
    // 20 - (MAX - 10) wraps to 31, not above the clean-up age
    assert_eq!(lock.list, vec![b, a]);
    lock.clean_unactive_node(60);
    assert_eq!(lock.list, vec![b]);
}

#[test]
fn fc_lock_prunes_every_clean_up_period() {
    let mut lock: FcLock<u64, CounterJob> = FcLock::new(0);
    let a = lock.register();
    let b = lock.register();
    lock.lock(a, job(1));
    for _ in 0..49 {
        lock.lock(b, job(1));
    }
    assert_eq!(lock.pass, 50);
    // node a was served in pass 0: 50 - 0 is not above the age
    assert!(lock.nodes[a].active);
    for _ in 0..50 {
        lock.lock(b, job(1));
    }
    assert_eq!(lock.pass, 100);
    assert!(!lock.nodes[a].active);
    assert_eq!(lock.list, vec![b]);
    assert_eq!(lock.data, 100);
}

#[test]
fn fair_combine_skips_banned_nodes() {
    let clock = quanta::Clock::new();
    let mut lock: FcLock<u64, CounterJob> = FcLock::new(0);
    lock.pass = 1;
    let a = lock.register();
    let b = lock.register();
    lock.publish(a, job(1));
    lock.publish(b, job(2));
    lock.nodes[a].banned_until = u64::MAX;
    let mut stats = FairStats { avg_cs: 0, avg_combiner_slice: 0, num_exec: 0 };
    let trace = fair_combine(&mut lock, &mut stats, b, &clock);
    assert_eq!(trace.len(), 2);
    // list is [b, a]
    assert!(trace[0].served);
    assert!(trace[1].pending && !trace[1].served);
    assert_eq!(lock.data, 2);
    assert!(lock.nodes[a].f.is_some());
    assert_eq!(lock.nodes[a].age, 1);
    assert_eq!(lock.nodes[b].done.unwrap().runs, 1);
    assert_eq!(stats.num_exec, 1);
    assert_eq!(lock.pass, 2);
    // one run so far: the average is that run's length, and with two
    // waiting threads the ban lasts one more such length past its end
    let cs = trace[0].end.wrapping_sub(trace[0].begin) as i64;
    assert_eq!(stats.avg_cs, cs);
    let excess = cs.wrapping_mul(2).wrapping_sub(cs);
    let wait = if excess > 0 { excess as u64 } else { 0 };
    assert_eq!(lock.nodes[b].banned_until, trace[0].end.wrapping_add(wait));
}

#[test]
fn fc_skiplist_serves_least_served_first() {
    let clock = quanta::Clock::new();
    let mut lock: FcSL<u64, CounterJob> = FcSL::new(0);
    let a = lock.register(30);
    let b = lock.register(10);
    let c = lock.register(20);
    for (id, amount) in [(a, 1u64), (b, 100), (c, 10)] {
        lock.nodes[id].f = Some(job(amount));
        lock.push_if_unactive(id);
    }
    let taken = lock.combine(&clock);
    let order: Vec<usize> = taken.iter().map(|j| j.node).collect();
    assert_eq!(order, vec![b, c, a]);
    let keys: Vec<u64> = taken.iter().map(|j| j.key).collect();
    assert_eq!(keys, vec![10, 20, 30]);
    assert_eq!(lock.data, 111);
    for id in [a, b, c] {
        assert!(!lock.nodes[id].active);
        assert_eq!(lock.nodes[id].done.unwrap().runs, 1);
    }
    assert!(lock.combine(&clock).is_empty());
}

#[test]
fn ccsynch_lock_alone_runs_once() {
    let mut lock: CCSynch<u64, CounterJob> = CCSynch::new(1);
    let r = lock.lock(0, job(41));
    assert_eq!(lock.data, 42);
    assert_eq!(r.runs, 1);
    assert!(lock.queue.is_empty());
}

#[test]
fn ccsynch_combiner_runs_at_most_the_limit_in_order() {
    let mut lock: CCSynch<u64, CounterJob> = CCSynch::new(0);
    for owner in 0..20usize {
        lock.publish(owner, job(1));
    }
    let n = lock.combine(COMBINE_LIMIT);
    assert_eq!(n, 16);
    assert_eq!(lock.data, 16);
    assert_eq!(lock.queue.len(), 4);
    let owners: Vec<usize> = lock.completed.iter().map(|r| r.owner).collect();
    assert_eq!(owners, (0..16).collect::<Vec<_>>());
    assert_eq!(lock.queue[0].owner, 16);
    let first = lock.take_completed().unwrap();
    assert_eq!(first.owner, 0);
    assert_eq!(first.f.runs, 1);
    let n2 = lock.combine(BAN_COMBINE_LIMIT);
    assert_eq!(n2, 4);
    assert_eq!(lock.data, 20);
    assert!(lock.queue.is_empty());
    let _unused: Option<CcRequest<CounterJob>> = None;
}

#[test]
fn ccban_stats_average_and_ban() {
    let mut s = CCBanStats::new();
    let a = s.register();
    let b = s.register();
    assert_eq!(s.num_waiting_thread, 2);
    s.record_cs(100);
    assert_eq!(s.avg_cs, 100);
    s.record_cs(40);
    assert_eq!(s.avg_cs, 70);
    s.ban(a, 1000, 100);
    // 1000 + 100 * 2 - 70 * 2
    assert_eq!(s.banned_until[a], 1060);
    assert!(!s.may_enter(a, 1059));
    assert!(s.may_enter(a, 1060));
    s.ban(b, 1000, 10);
    assert_eq!(s.banned_until[b], 1000 + 20 - 140);
    assert!(s.may_enter(b, 1000));
}

#[test]
fn spin_lock_is_exclusive() {
    let mut raw = RawSpinLock::new();
    assert!(raw.try_lock());
    assert!(!raw.try_lock());
    raw.unlock();
    assert!(raw.try_lock());
    let mut other = <RawSpinLock as RawSimpleLock>::new_lock();
    assert!(RawSimpleLock::try_lock(&mut other));
    RawSimpleLock::unlock(&mut other);
    assert!(!other.flag);
}

#[test]
fn spin_lock_runs_critical_sections() {
    let mut lock = SpinLock::new(0u64);
    {
        let g = lock.lock();
        assert_eq!(*g.get(), 0);
        assert!(g.lock.lock.flag);
        g.unlock();
    }
    assert!(!lock.lock.flag);
    let r = DLock::lock(&mut lock, job(5));
    assert_eq!(r.runs, 1);
    assert_eq!(lock.data, 5);
    assert!(!lock.lock.flag);
}

#[test]
fn third_party_lock_names() {
    let m: ThirdPartyLock<u64> = ThirdPartyLock::Mutex(std::sync::Mutex::new(0));
    let s: ThirdPartyLock<u64> = ThirdPartyLock::SpinLock(SpinLock::new(0));
    assert_eq!(m.name(), "Mutex");
    assert_eq!(s.name(), "SpinLock");
}

#[test]
fn rcl_server_serves_parked_clients_in_slot_order() {
    let locks = vec![RclLock { holder: NO_HOLDER, data: 0u64 }, RclLock { holder: NO_HOLDER, data: 100u64 }];
    let mut server = new_server::<u64, CounterJob>(locks);
    assert_eq!(server.requests.len(), NUM_REQUEST_SLOTS);
    let c0 = server.register_client();
    let c1 = server.register_client();
    let c2 = server.register_client();
    server.request(c0, 0, job(1));
    server.request(c2, 1, job(5));
    let served = server.serve_pass();
    assert_eq!(served, 3);
    assert_eq!(server.locks[0].data, 1);
    assert_eq!(server.locks[1].data, 105);
    assert_eq!(server.locks[0].holder, NO_HOLDER);
    assert!(server.requests[c0].parker == State::Notified);
    assert!(server.requests[c1].parker == State::Empty);
    assert_eq!(server.requests[c2].done.unwrap().runs, 1);
    assert!(server.requests[c2].f.is_none());
}

#[test]
fn rcl_request_call_runs_once() {
    let mut r: RclRequest<CounterJob> = RclRequest::with_lock(0);
    let mut data = 3u64;
    r.call(&mut data);
    assert_eq!(data, 3);
    r.f = Some(job(4));
    r.call(&mut data);
    assert_eq!(data, 7);
    assert!(r.f.is_none());
    r.call(&mut data);
    assert_eq!(data, 7);
}

#[test]
fn rcl_after_pass_decisions() {
    assert_eq!(after_pass(1, 5), ServerStep::Continue);
    assert_eq!(after_pass(2, 1), ServerStep::Yield);
    assert_eq!(after_pass(2, 2), ServerStep::Retire);
}

#[test]
fn spin_counts_hints() {
    assert_eq!(spin(5), 5);
    assert_eq!(spin(0), 0);
    assert_eq!(spin(-3), 0);
}

#[test]
fn rcl_lone_request_runs_exactly_once() {
    let locks = vec![RclLock { holder: NO_HOLDER, data: 10u64 }, RclLock { holder: NO_HOLDER, data: 20u64 }];
    let mut server = new_server::<u64, CounterJob>(locks);
    let c0 = server.register_client();
    let c1 = server.register_client();
    server.request(c1, 1, job(7));
    assert_eq!(server.serve_pass(), 2);
    assert_eq!(server.locks[1].data, 27);
    assert_eq!(server.locks[0].data, 10);
    assert_eq!(server.requests[c1].done.unwrap().runs, 1);
    assert!(server.requests[c1].parker == State::Notified);
    assert!(server.requests[c0].done.is_none());
    // a second pass finds the slot no longer parked and runs nothing
    assert_eq!(server.serve_pass(), 2);
    assert_eq!(server.locks[1].data, 27);
}

#[test]
fn fair_lock_round_serves_then_bans() {
    let clock = quanta::Clock::new();
    let mut fair: FairFcLock<u64, CounterJob> = FairFcLock::new(0);
    assert_eq!(fair.lock.pass, 1);
    let id = fair.lock.register();
    fair.lock.publish(id, job(3));
    let (done, trace) = fair.lock_round(id, &clock);
    assert_eq!(done.unwrap().runs, 1);
    assert_eq!(trace.len(), 1);
    assert!(trace[0].served);
    assert_eq!(fair.lock.data, 3);
    assert_eq!(fair.stats.num_exec, 1);
    assert_eq!(fair.lock.pass, 2);
    // a node banned far into the future is skipped and stays linked
    fair.lock.publish(id, job(5));
    fair.lock.nodes[id].banned_until = u64::MAX;
    let (done, trace) = fair.lock_round(id, &clock);
    assert!(done.is_none());
    assert!(trace[0].pending && !trace[0].served);
    assert_eq!(fair.lock.data, 3);
    assert!(fair.lock.nodes[id].active);
    assert!(fair.lock.nodes[id].f.is_some());
    assert_eq!(fair.stats.num_exec, 1);
}

#[test]
fn lock_targets_build_fresh_locks() {
    assert!(LockTarget::RCL.to_locktype::<CounterJob>().is_none());
    assert_eq!(LockTarget::FcSL.to_locktype::<CounterJob>().unwrap().name(), "Flat Combining (SkipList)");
    assert_eq!(
        LockTarget::FcFairBanSliceLock.to_locktype::<CounterJob>().unwrap().name(),
        "Flat Combining Fair With Combiner Slice"
    );
    assert_eq!(LockTarget::Mutex.to_locktype::<CounterJob>().unwrap().name(), "Mutex");
    match LockTarget::FcLock.to_locktype::<CounterJob>() {
        Some(LockType::FcLock(l)) => {
            assert_eq!(l.pass, 0);
            assert_eq!(l.data, 0);
            assert!(l.nodes.is_empty() && l.list.is_empty());
        }
        _ => panic!("expected a flat-combining lock"),
    }
    match LockTarget::FcFairBanSliceLock.to_locktype::<CounterJob>() {
        Some(LockType::FcFairBanSliceLock(l)) => {
            assert_eq!(l.lock.pass, 1);
            assert_eq!(l.stats.num_exec, 0);
        }
        _ => panic!("expected a fair flat-combining lock"),
    }
    match LockTarget::Mutex.to_locktype::<CounterJob>() {
        Some(LockType::Mutex(m)) => assert_eq!(*m.lock().unwrap(), 0),
        _ => panic!("expected a mutex"),
    }
    match LockTarget::SpinLock.to_locktype::<CounterJob>() {
        Some(LockType::SpinLock(l)) => assert!(!l.lock.flag && l.data == 0),
        _ => panic!("expected a spin lock"),
    }
    assert!(matches!(LockTarget::CCSynch.to_locktype::<CounterJob>(), Some(LockType::CCSynch(_))));
    assert!(matches!(LockTarget::FcSL.to_locktype::<CounterJob>(), Some(LockType::FcSL(_))));
    assert!(matches!(LockTarget::FcFairBanLock.to_locktype::<CounterJob>(), Some(LockType::FcFairBanLock(_))));
}

#[test]
fn fc_skiplist_lock_waits_until_served() {
    let clock = quanta::Clock::new();
    let mut lock: FcSL<u64, CounterJob> = FcSL::new(0);
    let a = lock.register(1);
    let b = lock.register(2);
    // another thread's job is already queued, with a lower key
    lock.nodes[a].f = Some(job(10));
    lock.push_if_unactive(a);
    let (mine, taken) = lock.lock(b, job(5), &clock);
    assert_eq!(mine.runs, 1);
    assert!(taken.len() >= 2);
    assert_eq!(taken[0].node, a);
    assert_eq!(taken[1].node, b);
    assert_eq!(lock.data, 15);
    assert!(lock.nodes[b].done.is_none());
    assert!(!lock.nodes[b].active);
    assert_eq!(lock.nodes[a].done.unwrap().runs, 1);
    // the node is idle again and can lock once more
    let (mine, _) = lock.lock(b, job(1), &clock);
    assert_eq!(mine.runs, 1);
    assert_eq!(lock.data, 16);
}

#[test]
fn ccban_lock_serves_in_order_and_bans() {
    let clock = quanta::Clock::new();
    let mut lock: CCBan<u64, CounterJob> = CCBan::new(0);
    let a = lock.stats.register();
    let b = lock.stats.register();
    // thread `a` published earlier and waits
    lock.lock.publish(a, job(4));
    let mine = lock.lock(b, job(6), 0, &clock);
    assert_eq!(mine.runs, 1);
    assert_eq!(lock.lock.data, 10);
    assert!(lock.lock.queue.is_empty());
    assert_eq!(lock.stats.num_exec, 2);
    assert_eq!(lock.completed_cs.len(), 1);
    assert_eq!(lock.lock.completed.len(), 1);
    // `a` finds its section completed and takes it back, getting banned
    let back = lock.take_completed(&clock).unwrap();
    assert_eq!(back.owner, a);
    assert_eq!(back.f.runs, 1);
    assert!(lock.lock.completed.is_empty() && lock.completed_cs.is_empty());
    assert!(lock.take_completed(&clock).is_none());
}

// The shared-counter workload of the lock tests: every thread runs the same
// number of critical sections, each adding the same amount, and the counter
// must end at the product. The threads take turns here, each turn going
// through the lock's own publication and combining protocol.
const THREAD_NUM: usize = 127;
const ITERATION: usize = 20;
const INNER_ITERATION: u64 = 100000;

#[test]
fn fc_counter_in_turns() {
    let mut lock: FcLock<u64, CounterJob> = FcLock::new(0);
    let ids: Vec<usize> = (0..THREAD_NUM).map(|_| lock.register()).collect();
    for _ in 0..ITERATION {
        for &id in &ids {
            let done = lock.lock(id, job(INNER_ITERATION));
            assert_eq!(done.runs, 1);
        }
    }
    assert_eq!(lock.data, THREAD_NUM as u64 * ITERATION as u64 * INNER_ITERATION);
}

#[test]
fn cc_counter_in_turns() {
    let mut lock: CCSynch<u64, CounterJob> = CCSynch::new(0);
    for _ in 0..ITERATION {
        for id in 0..THREAD_NUM {
            let done = lock.lock(id, job(INNER_ITERATION));
            assert_eq!(done.runs, 1);
        }
    }
    assert_eq!(lock.data, THREAD_NUM as u64 * ITERATION as u64 * INNER_ITERATION);
}

#[test]
fn rcl_counter_in_turns() {
    let mut server = new_server::<u64, CounterJob>(vec![RclLock { holder: NO_HOLDER, data: 0 }]);
    let ids: Vec<usize> = (0..THREAD_NUM).map(|_| server.register_client()).collect();
    for _ in 0..ITERATION {
        for &id in &ids {
            server.request(id, 0, job(INNER_ITERATION));
        }
        assert_eq!(server.serve_pass(), THREAD_NUM);
        for &id in &ids {
            assert_eq!(server.requests[id].done.take().unwrap().runs, 1);
        }
    }
    assert_eq!(server.locks[0].data, THREAD_NUM as u64 * ITERATION as u64 * INNER_ITERATION);
}

#[test]
fn ccban_enter_waits_out_the_ban() {
    let clock = quanta::Clock::new();
    let mut lock: CCBan<u64, CounterJob> = CCBan::new(0);
    let a = lock.stats.register();
    // never banned: enters at once
    let mine = lock.enter(a, job(2), 0, &clock).ok().unwrap();
    assert_eq!(mine.runs, 1);
    assert_eq!(lock.lock.data, 2);
    lock.stats.banned_until[a] = 1000;
    match lock.enter(a, job(3), 999, &clock) {
        Err(back) => assert_eq!(back.runs, 0),
        Ok(_) => panic!("a banned thread must not be queued"),
    }
    assert_eq!(lock.lock.data, 2);
    assert!(lock.lock.queue.is_empty());
    assert!(lock.enter(a, job(3), 1000, &clock).is_ok());
    assert_eq!(lock.lock.data, 5);
}
