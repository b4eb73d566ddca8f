use vstd::prelude::*;

use std::num::ParseIntError;
use std::time::Duration;

verus! {

/// Which parkers the waiting threads of a delegation lock are benchmarked with.
#[derive(PartialEq, Eq, Structural, Clone, Copy, Debug)]
pub enum WaiterType {
    Spin,
    Block,
    All,
}

impl Default for WaiterType {
    fn default() -> (w: Self)
        ensures
            w == WaiterType::All,
    {
        WaiterType::All
    }
}

impl WaiterType {
    /// The variant's name, as the command line and the reports spell it.
    pub fn name(&self) -> (s: &'static str)
        ensures
            s@ == match self {
                WaiterType::Spin => "Spin"@,
                WaiterType::Block => "Block"@,
                WaiterType::All => "All"@,
            },
    {
        match self {
            WaiterType::Spin => "Spin",
            WaiterType::Block => "Block",
            WaiterType::All => "All",
        }
    }
}

/// The locks of the closure-based benchmark suite.
#[derive(PartialEq, Eq, Structural, Clone, Copy, Debug)]
pub enum DLock1Target {
    /// Flat combining over a naive skip list.
    FCSLNaive,
    /// Flat combining over a skip list.
    FCSL,
    /// Flat combining.
    FC,
    /// Flat combining with banning.
    FCBan,
    /// Flat combining with banning and a combiner slice.
    FCBanSlice,
    /// CCSynch.
    CC,
    /// CCSynch with banning.
    CCBan,
    /// Remote core locking.
    RCL,
    /// `std::sync::Mutex`.
    Mutex,
    /// A spin lock.
    SpinLock,
    /// U-SCL.
    USCL,
}

impl DLock1Target {
    /// Whether the target is a delegation lock (rather than a lock whose
    /// holder runs its own critical section).
    pub fn is_dlock(&self) -> (r: bool)
        ensures
            r == !(*self == DLock1Target::Mutex || *self == DLock1Target::SpinLock || *self
                == DLock1Target::USCL),
    {
        match self {
            DLock1Target::FCSLNaive
            | DLock1Target::FCSL
            | DLock1Target::FC
            | DLock1Target::FCBan
            | DLock1Target::FCBanSlice
            | DLock1Target::CC
            | DLock1Target::CCBan
            | DLock1Target::RCL => true,
            DLock1Target::Mutex | DLock1Target::SpinLock | DLock1Target::USCL => false,
        }
    }
}

/// The (target, parker) pairs that one target is benchmarked with: with
/// `All`, a delegation lock with both parkers, spinning first, and any other
/// lock once, with the spinning parker.
pub open spec fn plan_for(waiter: WaiterType, t: DLock1Target) -> Seq<(DLock1Target, WaiterType)> {
    match waiter {
        WaiterType::Spin => seq![(t, WaiterType::Spin)],
        WaiterType::Block => seq![(t, WaiterType::Block)],
        WaiterType::All => if !(t == DLock1Target::Mutex || t == DLock1Target::SpinLock || t
            == DLock1Target::USCL) {
            seq![(t, WaiterType::Spin), (t, WaiterType::Block)]
        } else {
            seq![(t, WaiterType::Spin)]
        },
    }
}

/// The pairs for a list of targets, in order.
pub open spec fn plan_spec(waiter: WaiterType, targets: Seq<DLock1Target>) -> Seq<(DLock1Target, WaiterType)>
    decreases targets.len(),
{
    if targets.len() == 0 {
        seq![]
    } else {
        plan_spec(waiter, targets.drop_last()) + plan_for(waiter, targets.last())
    }
}

/// Which locks to build, and with which parker, for a run of the
/// closure-based suite: each target with the waiter asked for, or with
/// `All` each delegation lock with both parkers and any other lock once.
pub fn extract_targets(waiter: WaiterType, targets: &Vec<DLock1Target>) -> (plan: Vec<(DLock1Target, WaiterType)>)
    ensures
        plan@ == plan_spec(waiter, targets@),
{
    let mut plan: Vec<(DLock1Target, WaiterType)> = Vec::new();
    let mut k: usize = 0;
    while k < targets.len()
        invariant
            0 <= k <= targets@.len(),
            plan@ == plan_spec(waiter, targets@.take(k as int)),
        decreases targets@.len() - k,
    {
        let t = targets[k];
        let ghost before = plan@;
        match waiter {
            WaiterType::Spin => plan.push((t, WaiterType::Spin)),
            WaiterType::Block => plan.push((t, WaiterType::Block)),
            WaiterType::All => {
                if t.is_dlock() {
                    plan.push((t, WaiterType::Spin));
                    plan.push((t, WaiterType::Block));
                } else {
                    plan.push((t, WaiterType::Spin));
                }
            },
        }
        proof {
            assert(targets@.take(k as int + 1).drop_last() =~= targets@.take(k as int));
            assert(targets@.take(k as int + 1).last() == t);
            assert(plan@ =~= before + plan_for(waiter, t));
        }
        k = k + 1;
    }
    proof {
        assert(targets@.take(targets@.len() as int) =~= targets@);
    }
    plan
}

/// The locks of the input/output benchmark suite.
#[derive(PartialEq, Eq, Structural, Clone, Copy, Debug)]
pub enum DLock2Target {
    /// Flat combining.
    FC,
    /// Flat combining with banning.
    FCBan,
    /// CCSynch.
    CC,
    /// CCSynch with banning.
    CCBan,
    /// DSMSynch.
    DSM,
    /// Flat combining over a skip list.
    FcSL,
    /// Flat-combining priority queue over a B-tree.
    FcPqBTree,
    /// Flat-combining priority queue over a binary heap.
    FcPqBHeap,
    /// `std::sync::Mutex`.
    Mutex,
    /// A spin lock.
    SpinLock,
    /// U-SCL.
    USCL,
    /// Flat combining, C implementation.
    FcC,
    /// CCSynch, C implementation.
    CcC,
}

impl DLock2Target {
    /// Whether the target is a delegation lock.
    pub fn is_dlock(&self) -> (r: bool)
        ensures
            r == !(*self == DLock2Target::Mutex || *self == DLock2Target::SpinLock || *self
                == DLock2Target::USCL),
    {
        match self {
            DLock2Target::FC
            | DLock2Target::FCBan
            | DLock2Target::CC
            | DLock2Target::CCBan
            | DLock2Target::DSM
            | DLock2Target::FcC
            | DLock2Target::CcC
            | DLock2Target::FcSL
            | DLock2Target::FcPqBHeap
            | DLock2Target::FcPqBTree => true,
            DLock2Target::Mutex | DLock2Target::SpinLock | DLock2Target::USCL => false,
        }
    }
}

/// The experiments of the closure-based suite.
pub enum DLock1Experiment {
    CounterRatioOneThree,
    CounterSubversion,
    CounterRatioOneThreeNonCS,
    CounterProportional {
        cs_durations: Vec<Duration>,
        non_cs_durations: Vec<Duration>,
        file_name: String,
    },
    ResponseTimeSingleAddition,
    ResponseTimeRatioOneThree,
}

/// The experiments in declaration order, with the fields of
/// `CounterProportional` at their defaults (empty lists, empty name).
pub open spec fn dlock1_experiment_at(i: int, e: DLock1Experiment) -> bool {
    if i == 0 {
        e is CounterRatioOneThree
    } else if i == 1 {
        e is CounterSubversion
    } else if i == 2 {
        e is CounterRatioOneThreeNonCS
    } else if i == 3 {
        &&& e is CounterProportional
        &&& e->cs_durations@.len() == 0
        &&& e->non_cs_durations@.len() == 0
        &&& e->file_name@.len() == 0
    } else if i == 4 {
        e is ResponseTimeSingleAddition
    } else {
        e is ResponseTimeRatioOneThree
    }
}

impl DLock1Experiment {
    /// Every experiment once, in declaration order; the benchmark runs them
    /// all when none is named.
    pub fn to_vec_ref() -> (v: Vec<DLock1Experiment>)
        ensures
            v@.len() == 6,
            forall|i: int| 0 <= i < 6 ==> dlock1_experiment_at(i, #[trigger] v@[i]),
    {
        let mut v = Vec::new();
        v.push(DLock1Experiment::CounterRatioOneThree);
        v.push(DLock1Experiment::CounterSubversion);
        v.push(DLock1Experiment::CounterRatioOneThreeNonCS);
        v.push(
            DLock1Experiment::CounterProportional {
                cs_durations: Vec::new(),
                non_cs_durations: Vec::new(),
                file_name: String::new(),
            },
        );
        v.push(DLock1Experiment::ResponseTimeSingleAddition);
        v.push(DLock1Experiment::ResponseTimeRatioOneThree);
        v
    }
}

/// Options of the closure-based suite.
pub struct DLock1Option {
    pub experiment: Option<DLock1Experiment>,
    pub lock_targets: Option<Vec<DLock1Target>>,
    pub waiter: WaiterType,
}

impl Default for DLock1Option {
    fn default() -> (o: Self)
        ensures
            o.experiment.is_none(),
            o.lock_targets.is_none(),
            o.waiter == WaiterType::All,
    {
        DLock1Option { experiment: None, lock_targets: None, waiter: WaiterType::All }
    }
}

/// The sequential queue a delegation lock protects in the queue experiment.
#[derive(PartialEq, Eq, Structural, Clone, Copy, Debug)]
pub enum SeqQueueType {
    LinkedList,
    VecDeque,
}

impl Default for SeqQueueType {
    fn default() -> (t: Self)
        ensures
            t == SeqQueueType::LinkedList,
    {
        SeqQueueType::LinkedList
    }
}

/// The sequential priority queue a delegation lock protects.
#[derive(PartialEq, Eq, Structural, Clone, Copy, Debug)]
pub enum SeqPQType {
    BTreeSet,
    BinaryHeap,
}

impl Default for SeqPQType {
    fn default() -> (t: Self)
        ensures
            t == SeqPQType::BinaryHeap,
    {
        SeqPQType::BinaryHeap
    }
}

/// Lock-free queues benchmarked next to the delegation locks.
#[derive(PartialEq, Eq, Structural, Clone, Copy, Debug)]
pub enum LockFreeQueue {
    MCSQueue,
}

/// Whether `s` is one or more ASCII decimal digits.
pub open spec fn is_decimal(s: Seq<char>) -> bool {
    s.len() > 0 && forall|i: int| 0 <= i < s.len() ==> '0' <= #[trigger] s[i] <= '9'
}

/// The number that a string of decimal digits spells.
pub open spec fn decimal_value(s: Seq<char>) -> nat
    decreases s.len(),
{
    if s.len() == 0 {
        0
    } else {
        decimal_value(s.drop_last()) * 10 + ((s.last() as nat) - ('0' as nat)) as nat
    }
}

/// What `str::parse::<u64>` accepts: an optional `+` followed by decimal
/// digits whose value fits in a `u64`.
pub open spec fn u64_literal(s: Seq<char>) -> Option<u64> {
    let digits = if s.len() > 0 && s[0] == '+' {
        s.drop_first()
    } else {
        s
    };
    if is_decimal(digits) && decimal_value(digits) <= u64::MAX {
        Some(decimal_value(digits) as u64)
    } else {
        None
    }
}

#[verifier::external_type_specification]
#[verifier::external_body]
pub struct ExParseIntError(ParseIntError);

/// The error that `str::parse::<u64>` reports for text it refuses.
pub uninterp spec fn u64_parse_error(s: Seq<char>) -> ParseIntError;

/// `str::parse::<u64>`: per std's documentation of `u64::from_str`, it
/// accepts an optional `+` followed by ASCII digits whose value fits in a
/// `u64`, and fails on anything else with an error that depends on the text
/// alone, named `u64_parse_error`.
#[verifier::external_body]
fn parse_u64(s: &str) -> (r: Result<u64, ParseIntError>)
    ensures
        match u64_literal(s@) {
            Some(v) => r == Ok::<u64, ParseIntError>(v),
            None => r == Err::<u64, ParseIntError>(u64_parse_error(s@)),
        },
{
    s.parse::<u64>()
}

/// The `Duration` that `Duration::from_nanos` builds from a count of nanoseconds.
pub uninterp spec fn duration_from_nanos(nanos: u64) -> Duration;

/// `Duration::from_nanos`: the duration of `nanos` nanoseconds, named by
/// `duration_from_nanos`.
#[verifier::external_body]
fn from_nanos(nanos: u64) -> (d: Duration)
    ensures
        d == duration_from_nanos(nanos),
{
    Duration::from_nanos(nanos)
}

/// Reads a command-line duration given in nanoseconds; text that is not a
/// `u64` gives the error `str::parse::<u64>` reports for it.
pub fn parse_duration(arg: &str) -> (r: Result<Duration, ParseIntError>)
    ensures
        match u64_literal(arg@) {
            Some(v) => r == Ok::<Duration, ParseIntError>(duration_from_nanos(v)),
            None => r == Err::<Duration, ParseIntError>(u64_parse_error(arg@)),
        },
{
    match parse_u64(arg) {
        Ok(nanos) => Ok(from_nanos(nanos)),
        Err(e) => Err(e),
    }
}

} // verus!
