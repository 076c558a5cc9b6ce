//! The latency-sampling arithmetic: out of one connect-latency sample per
//! address (a duration in nanoseconds, or nothing for a failed attempt),
//! the per-family average over exactly the successful samples.

use vstd::prelude::*;
use vstd::arithmetic::div_mod::lemma_div_by_multiple;
use vstd::arithmetic::div_mod::lemma_div_is_ordered;
use vstd::arithmetic::mul::lemma_mul_inequality;

verus! {

/// How many samples succeeded.
pub open spec fn succ_count(s: Seq<Option<u64>>) -> nat
    decreases s.len(),
{
    if s.len() == 0 {
        0
    } else {
        succ_count(s.drop_last()) + (if s.last() is Some {
            1nat
        } else {
            0nat
        })
    }
}

/// The sum of the successful samples.
pub open spec fn succ_sum(s: Seq<Option<u64>>) -> nat
    decreases s.len(),
{
    if s.len() == 0 {
        0
    } else {
        succ_sum(s.drop_last()) + (if s.last() is Some {
            s.last()->0 as nat
        } else {
            0nat
        })
    }
}

/// The average connect latency over exactly the successful samples; zero when
/// no sample in the family succeeded (or the family's list is empty).
pub open spec fn avg_of(s: Seq<Option<u64>>) -> nat {
    if succ_count(s) == 0 {
        0
    } else {
        succ_sum(s) / succ_count(s)
    }
}

/// A failed sample contributes to neither the sum nor the count.
proof fn lemma_succ_take_step(s: Seq<Option<u64>>, i: int)
    requires
        0 <= i < s.len(),
    ensures
        succ_count(s.take(i + 1)) == succ_count(s.take(i)) + (if s[i] is Some {
            1nat
        } else {
            0nat
        }),
        succ_sum(s.take(i + 1)) == succ_sum(s.take(i)) + (if s[i] is Some {
            s[i]->0 as nat
        } else {
            0nat
        }),
{
    assert(s.take(i + 1).drop_last() =~= s.take(i));
    assert(s.take(i + 1).last() == s[i]);
}

/// Every successful sample is a `u64`, so the sum is bounded by the count
/// times the largest `u64`.
proof fn lemma_succ_sum_bound(s: Seq<Option<u64>>)
    ensures
        succ_sum(s) <= succ_count(s) * 0xffff_ffff_ffff_ffff,
    decreases s.len(),
{
    if s.len() > 0 {
        lemma_succ_sum_bound(s.drop_last());
        let c = succ_count(s.drop_last()) as int;
        assert((c + 1) * 0xffff_ffff_ffff_ffff == c * 0xffff_ffff_ffff_ffff
            + 0xffff_ffff_ffff_ffff) by (nonlinear_arith);
    }
}

/// A family with an empty address list yields no samples, so the timing
/// phase records a zero average for it.
pub proof fn lemma_avg_of_no_samples(s: Seq<Option<u64>>)
    requires
        s.len() == 0,
    ensures
        avg_of(s) == 0,
{
}

/// The average of exactly the successful samples, as the timing phase defines
/// it: the sum of the successful connect latencies divided by their number,
/// or zero when none succeeded.
pub fn average(samples: &Vec<Option<u64>>) -> (r: u64)
    ensures
        r as nat == avg_of(samples@),
{
    let mut sum: u128 = 0;
    let mut count: usize = 0;
    let mut i: usize = 0;
    while i < samples.len()
        invariant
            i <= samples@.len(),
            count <= i,
            count as nat == succ_count(samples@.take(i as int)),
            sum as nat == succ_sum(samples@.take(i as int)),
        decreases samples@.len() - i,
    {
        proof {
            lemma_succ_take_step(samples@, i as int);
        }
        match samples[i] {
            Some(d) => {
                proof {
                    lemma_succ_sum_bound(samples@.take(i as int));
                    lemma_mul_inequality(
                        count as int,
                        usize::MAX as int,
                        0xffff_ffff_ffff_ffff,
                    );
                }
                sum = sum + d as u128;
                count = count + 1;
            },
            None => {},
        }
        i += 1;
    }
    proof {
        assert(samples@.take(samples@.len() as int) =~= samples@);
    }
    if count == 0 {
        0
    } else {
        proof {
            lemma_succ_sum_bound(samples@);
            lemma_div_is_ordered(
                sum as int,
                count as int * 0xffff_ffff_ffff_ffff,
                count as int,
            );
            lemma_div_by_multiple(0xffff_ffff_ffff_ffff, count as int);
            assert(count as int * 0xffff_ffff_ffff_ffff
                == 0xffff_ffff_ffff_ffff * count as int) by (nonlinear_arith);
        }
        (sum / (count as u128)) as u64
    }
}

} // verus!
