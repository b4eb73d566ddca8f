use vstd::prelude::*;

use std::time::Duration;

verus! {

/// What one benchmark thread reports about its run.
pub struct Spec {
    pub id: usize,
    pub cpu_id: usize,
    pub thread_num: usize,
    pub cpu_num: usize,
    pub loop_count: u64,
    pub num_acquire: u64,
    pub duration: u64,
    pub target_name: String,
    pub cs_length: u64,
    pub non_cs_length: u64,
    pub hold_time: u64,
    pub waiter_type: Option<String>,
}

/// Response times of one thread, split by whether it was combiner.
pub struct Latency {
    pub combiner_latency: Vec<u64>,
    pub waiter_latency: Vec<u64>,
}

/// What a combiner recorded: how long each combining pass took, and for
/// each batch size how many passes served that many critical sections.
pub struct CombinerSample {
    pub combine_time: Vec<u64>,
    pub combine_size: Vec<(usize, usize)>,
}

/// Combiner statistics as reported: one entry per combining pass.
pub struct CombinerStatistics {
    pub combine_time: Vec<u64>,
    pub combine_size: Vec<usize>,
}

/// Each batch size repeated as many times as passes had it, in order.
pub open spec fn expand_sizes(counts: Seq<(usize, usize)>) -> Seq<usize>
    decreases counts.len(),
{
    if counts.len() == 0 {
        seq![]
    } else {
        let (size, times) = counts.last();
        expand_sizes(counts.drop_last()) + Seq::new(times as nat, |i: int| size)
    }
}

impl CombinerStatistics {
    /// Unfolds a combiner sample into one batch size per pass.
    pub fn from_combiner_sample(sample: &CombinerSample) -> (s: Self)
        ensures
            s.combine_size@ == expand_sizes(sample.combine_size@),
            s.combine_time@ == sample.combine_time@,
    {
        let mut sizes: Vec<usize> = Vec::new();
        let n = sample.combine_size.len();
        let mut k: usize = 0;
        while k < n
            invariant
                0 <= k <= n,
                n == sample.combine_size@.len(),
                sizes@ == expand_sizes(sample.combine_size@.take(k as int)),
            decreases n - k,
        {
            let (size, times) = sample.combine_size[k];
            let ghost before = sizes@;
            let mut j: usize = 0;
            while j < times
                invariant
                    0 <= j <= times,
                    sizes@ == before + Seq::new(j as nat, |i: int| size),
                decreases times - j,
            {
                sizes.push(size);
                proof {
                    assert(sizes@ =~= before + Seq::new((j + 1) as nat, |i: int| size));
                }
                j = j + 1;
            }
            proof {
                assert(sample.combine_size@.take(k as int + 1).drop_last() =~= sample.combine_size@.take(
                    k as int,
                ));
                assert(sample.combine_size@.take(k as int + 1).last() == (size, times));
            }
            k = k + 1;
        }
        proof {
            assert(sample.combine_size@.take(n as int) =~= sample.combine_size@);
        }
        let combine_time = clone_u64s(&sample.combine_time);
        CombinerStatistics { combine_size: sizes, combine_time }
    }
}

/// A copy of a list of counters.
pub fn clone_u64s(v: &Vec<u64>) -> (r: Vec<u64>)
    ensures
        r@ == v@,
{
    let mut r: Vec<u64> = Vec::new();
    let mut k: usize = 0;
    while k < v.len()
        invariant
            0 <= k <= v@.len(),
            r@ == v@.take(k as int),
        decreases v@.len() - k,
    {
        r.push(v[k]);
        proof {
            assert(r@ =~= v@.take(k as int + 1));
        }
        k = k + 1;
    }
    proof {
        assert(v@.take(v@.len() as int) =~= v@);
    }
    r
}

/// One row of the response-time table.
pub struct Record {
    pub id: usize,
    pub cpu_id: usize,
    pub thread_num: usize,
    pub cpu_num: usize,
    pub loop_count: u64,
    pub num_acquire: u64,
    pub cs_length: Duration,
    pub non_cs_length: Option<Duration>,
    pub is_combiner: Option<Option<bool>>,
    pub response_time: Option<Duration>,
    pub hold_time: Duration,
    pub locktype: String,
    pub waiter_type: String,
}

/// What one thread of a response-time benchmark gathered: its counters and,
/// per acquisition, the response time and whether it was combiner.
pub struct Records {
    pub id: usize,
    pub cpu_id: usize,
    pub thread_num: usize,
    pub cpu_num: usize,
    pub loop_count: u64,
    pub num_acquire: u64,
    pub cs_length: Duration,
    pub non_cs_length: Option<Duration>,
    pub is_combiner: Option<Vec<Option<bool>>>,
    pub response_times: Option<Vec<Option<Duration>>>,
    pub hold_time: Duration,
    pub combine_time: Option<u64>,
    pub locktype: String,
    pub waiter_type: String,
}

/// The row carrying a thread's counters with the given per-acquisition fields.
pub open spec fn row_of(
    r: Records,
    is_combiner: Option<Option<bool>>,
    response_time: Option<Duration>,
) -> Record {
    Record {
        id: r.id,
        cpu_id: r.cpu_id,
        thread_num: r.thread_num,
        cpu_num: r.cpu_num,
        loop_count: r.loop_count,
        num_acquire: r.num_acquire,
        cs_length: r.cs_length,
        non_cs_length: r.non_cs_length,
        is_combiner,
        response_time,
        hold_time: r.hold_time,
        locktype: r.locktype,
        waiter_type: r.waiter_type,
    }
}

/// Rows agree with the expected ones, the text fields by their contents.
pub open spec fn same_row(a: Record, b: Record) -> bool {
    &&& a.id == b.id
    &&& a.cpu_id == b.cpu_id
    &&& a.thread_num == b.thread_num
    &&& a.cpu_num == b.cpu_num
    &&& a.loop_count == b.loop_count
    &&& a.num_acquire == b.num_acquire
    &&& a.cs_length == b.cs_length
    &&& a.non_cs_length == b.non_cs_length
    &&& a.is_combiner == b.is_combiner
    &&& a.response_time == b.response_time
    &&& a.hold_time == b.hold_time
    &&& a.locktype@ == b.locktype@
    &&& a.waiter_type@ == b.waiter_type@
}

impl Records {
    /// The thread's counters as one row, without per-acquisition fields.
    pub fn generate_plain_record(&self) -> (r: Record)
        ensures
            same_row(r, row_of(*self, None, None)),
    {
        Record {
            id: self.id,
            cpu_id: self.cpu_id,
            thread_num: self.thread_num,
            cpu_num: self.cpu_num,
            cs_length: self.cs_length,
            non_cs_length: self.non_cs_length,
            is_combiner: None,
            loop_count: self.loop_count,
            num_acquire: self.num_acquire,
            response_time: None,
            hold_time: self.hold_time,
            locktype: self.locktype.clone(),
            waiter_type: self.waiter_type.clone(),
        }
    }

    /// The table rows of this thread: one per recorded response time (paired
    /// with the combiner flags while both lists last), or a single plain row
    /// when nothing per acquisition was recorded. Combiner flags without
    /// response times are not a valid record.
    pub fn to_records(&self) -> (rows: Vec<Record>)
        requires
            !(self.response_times.is_none() && self.is_combiner.is_some()),
        ensures
            self.response_times.is_none() ==> rows@.len() == 1 && same_row(
                rows@[0],
                row_of(*self, None, None),
            ),
            self.response_times.is_some() && self.is_combiner.is_some() ==> {
                let rt = self.response_times.unwrap()@;
                let ic = self.is_combiner.unwrap()@;
                &&& rows@.len() == if rt.len() < ic.len() {
                    rt.len()
                } else {
                    ic.len()
                }
                &&& forall|i: int|
                    0 <= i < rows@.len() ==> same_row(
                        #[trigger] rows@[i],
                        row_of(*self, Some(ic[i]), rt[i]),
                    )
            },
            self.response_times.is_some() && self.is_combiner.is_none() ==> {
                let rt = self.response_times.unwrap()@;
                &&& rows@.len() == rt.len()
                &&& forall|i: int|
                    0 <= i < rows@.len() ==> same_row(#[trigger] rows@[i], row_of(*self, None, rt[i]))
            },
    {
        let mut rows: Vec<Record> = Vec::new();
        match &self.response_times {
            None => {
                rows.push(self.generate_plain_record());
            },
            Some(rt) => {
                let n = match &self.is_combiner {
                    Some(ic) => if rt.len() < ic.len() {
                        rt.len()
                    } else {
                        ic.len()
                    },
                    None => rt.len(),
                };
                let mut k: usize = 0;
                while k < n
                    invariant
                        0 <= k <= n,
                        self.response_times == Some(*rt),
                        n <= rt@.len(),
                        self.is_combiner.is_some() ==> n <= self.is_combiner.unwrap()@.len(),
                        rows@.len() == k,
                        forall|i: int|
                            0 <= i < k ==> same_row(
                                #[trigger] rows@[i],
                                row_of(
                                    *self,
                                    match self.is_combiner {
                                        Some(ic) => Some(ic@[i]),
                                        None => None,
                                    },
                                    rt@[i],
                                ),
                            ),
                    decreases n - k,
                {
                    let mut row = self.generate_plain_record();
                    row.response_time = rt[k];
                    match &self.is_combiner {
                        Some(ic) => {
                            row.is_combiner = Some(ic[k]);
                        },
                        None => {},
                    }
                    rows.push(row);
                    k = k + 1;
                }
            },
        }
        rows
    }
}

} // verus!
