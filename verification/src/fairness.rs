use vstd::prelude::*;

use vstd::wrapping::i64_specs;

verus! {

/// Integer division rounding toward zero, as Rust's `/` on signed integers.
pub open spec fn div_toward_zero(a: int, b: int) -> int {
    let q = abs(a) / abs(b);
    if (a < 0) != (b < 0) {
        -q
    } else {
        q
    }
}

pub open spec fn abs(a: int) -> int {
    if a < 0 {
        -a
    } else {
        a
    }
}

/// The running mean of the critical-section lengths seen so far, after one
/// more sample: `avg + (sample - avg) / count`, dividing toward zero.
pub open spec fn next_average(avg: int, sample: int, count: int) -> int {
    avg + div_toward_zero(sample - avg, count)
}

/// `next_average` in the wrapping `i64` arithmetic of a release build,
/// where the samples come from clock readings that nothing bounds.
pub open spec fn wrapping_average(avg: i64, sample: i64, count: i64) -> i64 {
    i64_specs::wrapping_add(avg, div_toward_zero(i64_specs::wrapping_sub(sample, avg) as int, count as int) as i64)
}

/// Folds one more sample into a running average taken over `count` samples
/// (this one included).
pub fn running_average(avg: i64, sample: i64, count: i64) -> (r: i64)
    requires
        count > 0,
    ensures
        r == wrapping_average(avg, sample, count),
        i64::MIN <= sample - avg <= i64::MAX ==> r == next_average(avg as int, sample as int, count as int),
{
    let diff = sample.wrapping_sub(avg);
    let step = diff / count;
    proof {
        lemma_div_toward_zero_bounds(diff as int, count as int);
        if i64::MIN <= sample - avg <= i64::MAX {
            assert(diff == sample - avg);
        }
    }
    avg.wrapping_add(step)
}

proof fn lemma_div_toward_zero_bounds(a: int, b: int)
    requires
        b > 0,
    ensures
        abs(div_toward_zero(a, b)) <= abs(a),
        a >= 0 ==> 0 <= div_toward_zero(a, b) <= a,
        a < 0 ==> a <= div_toward_zero(a, b) <= 0,
{
    assert(abs(a) / b <= abs(a)) by (nonlinear_arith)
        requires
            b > 0,
            abs(a) >= 0,
    ;
    assert(abs(a) / b >= 0) by (nonlinear_arith)
        requires
            b > 0,
            abs(a) >= 0,
    ;
}

/// Law: a running average never leaves the interval between the previous
/// average and the new sample.
pub proof fn law_running_average_between(avg: int, sample: int, count: int)
    requires
        count > 0,
    ensures
        avg <= sample ==> avg <= next_average(avg, sample, count) <= sample,
        sample <= avg ==> sample <= next_average(avg, sample, count) <= avg,
{
    lemma_div_toward_zero_bounds(sample - avg, count);
}

/// The time-stamp until which CCSynch-with-banning keeps a thread from
/// publishing again: now plus a penalty of the thread's critical-section
/// length times the number of waiting threads, less twice the average
/// length; in the wrapping `i64` arithmetic of a release build, as the
/// inputs are clock readings that nothing bounds.
pub open spec fn ban_deadline_spec(now: u64, current_cs: u64, num_waiting: i32, avg_cs: i64) -> i64 {
    i64_specs::wrapping_add(
        now as i64,
        i64_specs::wrapping_sub(
            i64_specs::wrapping_mul(current_cs as i64, num_waiting as i64),
            i64_specs::wrapping_mul(avg_cs, 2),
        ),
    )
}

/// Computes `ban_deadline_spec`.
pub fn ban_deadline(now: u64, current_cs: u64, num_waiting: i32, avg_cs: i64) -> (r: i64)
    ensures
        r == ban_deadline_spec(now, current_cs, num_waiting, avg_cs),
{
    let penalty = (current_cs as i64).wrapping_mul(num_waiting as i64).wrapping_sub(avg_cs.wrapping_mul(2));
    (now as i64).wrapping_add(penalty)
}

/// A banned thread may publish again once the time-stamp counter, read as
/// a signed value, has reached its deadline.
pub fn ban_expired(now: u64, banned_until: i64) -> (r: bool)
    ensures
        r == ((now as i64) >= banned_until),
{
    (now as i64) >= banned_until
}

/// How many extra back-off rounds a thread waits after failing to become
/// combiner: its own combining time over the average combiner slice, none
/// when there is no average yet or the quotient is not positive.
pub fn backoff_rounds(combiner_time: i64, avg_combiner_slice: i64) -> (r: u64)
    requires
        !(combiner_time == i64::MIN && avg_combiner_slice == -1),
    ensures
        avg_combiner_slice == 0 ==> r == 0,
        avg_combiner_slice != 0 ==> r == (if div_toward_zero(
            combiner_time as int,
            avg_combiner_slice as int,
        ) > 0 {
            div_toward_zero(combiner_time as int, avg_combiner_slice as int)
        } else {
            0
        }),
{
    if avg_combiner_slice == 0 {
        0
    } else {
        // Rust's `/` rounds toward zero; a negative divisor is handled by
        // dividing by its magnitude in a wider type and negating.
        let q: i128 = if avg_combiner_slice > 0 {
            (combiner_time / avg_combiner_slice) as i128
        } else {
            -((combiner_time as i128) / (-(avg_combiner_slice as i128)))
        };
        proof {
            if avg_combiner_slice < 0 {
                let a = combiner_time as int;
                let b = avg_combiner_slice as int;
                assert(div_toward_zero(a, b) == -div_toward_zero(a, -b));
            }
        }
        if q > 0 {
            q as u64
        } else {
            0
        }
    }
}

} // verus!
