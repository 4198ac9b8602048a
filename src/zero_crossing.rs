//! Zero-crossing rate of a raw sample sequence.
use vstd::prelude::*;
use crate::descriptors::FULL_SCALE;

verus! {

/// Number of sign changes among the first `n` samples, where `negative[i]`
/// tells whether sample `i` is below zero (zero itself counts as
/// non-negative).
pub open spec fn crossings_prefix(negative: Seq<bool>, n: int) -> int
    decreases n,
{
    if n <= 1 {
        0
    } else {
        crossings_prefix(negative, n - 1) + if negative[n - 1] != negative[n - 2] {
            1int
        } else {
            0int
        }
    }
}

pub open spec fn crossings(negative: Seq<bool>) -> int {
    crossings_prefix(negative, negative.len() as int)
}

/// The crossing rate `crossings / len`, scaled so that a rate of 0.15 (a
/// very sharp or noisy signal) is 100%, in score units, rounded down and
/// saturating at 100%; zero for fewer than two samples.
pub open spec fn zero_crossing_rate_of(negative: Seq<bool>) -> int {
    if negative.len() < 2 {
        0
    } else {
        let x = crossings(negative) * 20 * FULL_SCALE / (3 * negative.len() as int);
        if x > FULL_SCALE as int {
            FULL_SCALE as int
        } else {
            x
        }
    }
}

proof fn lemma_crossings_bounds(negative: Seq<bool>, n: int)
    requires
        0 <= n <= negative.len(),
    ensures
        0 <= crossings_prefix(negative, n),
        n >= 1 ==> crossings_prefix(negative, n) <= n - 1,
        (forall|i: int| 1 <= i < n ==> #[trigger] negative[i] == negative[i - 1]) ==> crossings_prefix(
            negative,
            n,
        ) == 0,
        (forall|i: int| 1 <= i < n ==> #[trigger] negative[i] != negative[i - 1]) && n >= 1
            ==> crossings_prefix(negative, n) == n - 1,
    decreases n,
{
    if n > 1 {
        lemma_crossings_bounds(negative, n - 1);
    }
}

/// The normalised zero-crossing rate of a sample sequence given by the sign
/// of each sample (`negative[i]` is `samples[i] < 0`). A sequence without
/// sign changes scores 0; one whose sign changes at every step scores 100%.
pub fn calculate_zero_crossing_rate(negative: &Vec<bool>) -> (r: u64)
    ensures
        r == zero_crossing_rate_of(negative@),
        r <= FULL_SCALE,
        (forall|i: int| 1 <= i < negative@.len() ==> #[trigger] negative@[i] == negative@[i - 1]) ==> r
            == 0,
        (forall|i: int| 1 <= i < negative@.len() ==> #[trigger] negative@[i] != negative@[i - 1])
            && negative@.len() >= 2 ==> r == FULL_SCALE,
{
    let n: usize = negative.len();
    if n < 2 {
        return 0;
    }
    let mut count: usize = 0;
    let mut i: usize = 1;
    while i < n
        invariant
            n == negative@.len(),
            1 <= i <= n,
            count == crossings_prefix(negative@, i as int),
            count <= i - 1,
        decreases n - i,
    {
        proof {
            lemma_crossings_bounds(negative@, i as int + 1);
        }
        if negative[i] != negative[i - 1] {
            count = count + 1;
        }
        i = i + 1;
    }
    proof {
        lemma_crossings_bounds(negative@, n as int);
    }
    let x: u128 = (count as u128) * 20 * (FULL_SCALE as u128) / (3 * (n as u128));
    let r: u64 = if x > FULL_SCALE as u128 {
        FULL_SCALE
    } else {
        x as u64
    };
    proof {
        if forall|j: int| 1 <= j < negative@.len() ==> #[trigger] negative@[j] != negative@[j - 1] {
            assert(x >= FULL_SCALE) by (nonlinear_arith)
                requires
                    x == count * 20 * FULL_SCALE / (3 * n),
                    count == n - 1,
                    n >= 2,
            {
                assert(count * 20 * FULL_SCALE >= FULL_SCALE * (3 * n)) by (nonlinear_arith)
                    requires
                        count == n - 1,
                        n >= 2,
                ;
                vstd::arithmetic::div_mod::lemma_div_is_ordered(
                    FULL_SCALE * (3 * n),
                    count * 20 * FULL_SCALE,
                    3 * n,
                );
                vstd::arithmetic::div_mod::lemma_div_multiples_vanish(FULL_SCALE as int, 3 * n);
            }
        }
    }
    r
}

} // verus!
