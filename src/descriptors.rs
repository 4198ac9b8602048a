//! Band percentages, spectral centroid and spectral spread, derived from the
//! averaged energy of each band.
use vstd::prelude::*;
use crate::bands::BAND_COUNT;

verus! {

/// 100% in score units: one unit is `10^-8` of a percentage point.
pub const FULL_SCALE: u64 = 10_000_000_000;

/// One position of the 0..100 low-to-high axis in score units
/// (`FULL_SCALE / 100`).
pub const POSITION_SCALE: u64 = 100_000_000;

/// The typical maximum spread is 35 positions, which counts as 100%. The
/// square root of the scaled variance divided by this constant is the
/// normalised spread in score units.
pub const SPREAD_DIVISOR: u128 = 35_000;

/// The perceptual descriptors of one track, every value in score units
/// (`FULL_SCALE` is 100%).
#[derive(Clone, Debug)]
pub struct SpectrumMetrics {
    /// Where the energy sits on the low-to-high axis, `0..=FULL_SCALE`.
    pub centroid: u64,
    /// How widely the energy is spread, `0..=FULL_SCALE`.
    pub spread: u64,
    /// Sharpness or noisiness of the waveform, `0..=FULL_SCALE`.
    pub zero_crossing_rate: u64,
    /// Share of the total energy in each band, in band order.
    pub band_percentages: Vec<u64>,
}

/// Sum of the first `n` entries of `s`.
pub open spec fn sum_prefix(s: Seq<u64>, n: int) -> int
    decreases n,
{
    if n <= 0 {
        0
    } else {
        sum_prefix(s, n - 1) + s[n - 1]
    }
}

pub open spec fn total_energy(e: Seq<u64>) -> int {
    sum_prefix(e, e.len() as int)
}

/// The share of `energy` in `total`, in score units, rounded down; zero when
/// `total` is zero.
pub open spec fn percentage(energy: int, total: int) -> int {
    if total > 0 {
        energy * FULL_SCALE / total
    } else {
        0
    }
}

pub open spec fn percentages_of(e: Seq<u64>) -> Seq<u64> {
    Seq::new(e.len(), |i: int| percentage(e[i] as int, total_energy(e)) as u64)
}

/// Position of each band on the 0..100 low-to-high axis.
pub open spec fn position_table() -> Seq<u64> {
    seq![8, 18, 30, 45, 62, 78, 92]
}

/// `sum p[i] * pos[i]` over the first `n` bands.
pub open spec fn weighted_prefix(p: Seq<u64>, pos: Seq<u64>, n: int) -> int
    decreases n,
{
    if n <= 0 {
        0
    } else {
        weighted_prefix(p, pos, n - 1) + p[n - 1] * pos[n - 1]
    }
}

/// The centroid in score units: the percentage-weighted sum of positions
/// divided by 100 (not by the actual sum of the percentages).
pub open spec fn centroid_of(p: Seq<u64>, pos: Seq<u64>) -> int {
    weighted_prefix(p, pos, p.len() as int) / 100
}

pub open spec fn sq(x: int) -> int {
    x * x
}

/// `sum p[i] * (POSITION_SCALE * pos[i] - c)^2` over the first `n` bands:
/// with `p` and `c` in score units, this is the variance (in squared
/// positions) times `FULL_SCALE * POSITION_SCALE^2`.
pub open spec fn deviation_prefix(p: Seq<u64>, pos: Seq<u64>, c: int, n: int) -> int
    decreases n,
{
    if n <= 0 {
        0
    } else {
        deviation_prefix(p, pos, c, n - 1) + p[n - 1] * sq(POSITION_SCALE * pos[n - 1] - c)
    }
}

pub open spec fn scaled_variance(p: Seq<u64>, pos: Seq<u64>, c: int) -> int {
    deviation_prefix(p, pos, c, p.len() as int)
}

/// `r` is the square root of `v`, rounded down.
pub open spec fn is_floor_sqrt(r: int, v: int) -> bool {
    0 <= r && r * r <= v && v < (r + 1) * (r + 1)
}

/// The square root of `v`, rounded down.
pub open spec fn floor_sqrt(v: int) -> int {
    choose|r: int| is_floor_sqrt(r, v)
}

/// The normalised spread in score units from the square root of the scaled
/// variance, saturating at `FULL_SCALE`: the spread in positions, over 35,
/// as a share of 100%.
pub open spec fn normalized_spread(root: int) -> int {
    if root / SPREAD_DIVISOR as int > FULL_SCALE as int {
        FULL_SCALE as int
    } else {
        root / SPREAD_DIVISOR as int
    }
}

proof fn lemma_sum_prefix_bounds(s: Seq<u64>, n: int)
    requires
        0 <= n <= s.len(),
    ensures
        0 <= sum_prefix(s, n) <= n * 0x1_0000_0000_0000_0000,
        forall|i: int| 0 <= i < n ==> s[i] <= sum_prefix(s, n),
    decreases n,
{
    if n > 0 {
        lemma_sum_prefix_bounds(s, n - 1);
    }
}

/// `T * sum_{i<n} pct_i + n * T > sum_{i<n} e_i * FULL_SCALE >= T * sum_{i<n} pct_i`.
proof fn lemma_percentage_prefix(e: Seq<u64>, t: int, n: int)
    requires
        0 <= n <= e.len(),
        t > 0,
        forall|i: int| 0 <= i < e.len() ==> e[i] <= t,
    ensures
        t * sum_prefix(Seq::new(e.len(), |i: int| percentage(e[i] as int, t) as u64), n)
            <= sum_prefix(e, n) * FULL_SCALE,
        sum_prefix(e, n) * FULL_SCALE
            <= t * sum_prefix(Seq::new(e.len(), |i: int| percentage(e[i] as int, t) as u64), n)
            + n * (t - 1),
    decreases n,
{
    let p = Seq::new(e.len(), |i: int| percentage(e[i] as int, t) as u64);
    if n > 0 {
        lemma_percentage_prefix(e, t, n - 1);
        let x = e[n - 1] as int * FULL_SCALE;
        let q = x / t;
        assert(q * t <= x && x < q * t + t) by (nonlinear_arith)
            requires
                q == x / t,
                t > 0,
                x >= 0,
        ;
        assert(0 <= q <= FULL_SCALE) by (nonlinear_arith)
            requires
                q == x / t,
                t > 0,
                x == e[n - 1] * FULL_SCALE,
                0 <= e[n - 1] <= t,
        ;
        assert(p[n - 1] == q);
        assert(t * sum_prefix(p, n) == t * sum_prefix(p, n - 1) + t * q) by (nonlinear_arith)
            requires
                sum_prefix(p, n) == sum_prefix(p, n - 1) + q,
        ;
        assert(sum_prefix(e, n) * FULL_SCALE == sum_prefix(e, n - 1) * FULL_SCALE + x);
        assert(n * (t - 1) == (n - 1) * (t - 1) + (t - 1)) by (nonlinear_arith);
    }
}

/// For band energies with a positive total, every percentage lies in
/// `0..=FULL_SCALE` and the percentages sum to 100% up to rounding: at most
/// `FULL_SCALE`, and less than one unit (`10^-8` points) short per band.
pub proof fn lemma_percentages_sum(e: Seq<u64>)
    requires
        total_energy(e) > 0,
    ensures
        forall|i: int| 0 <= i < e.len() ==> percentages_of(e)[i] <= FULL_SCALE,
        sum_prefix(percentages_of(e), e.len() as int) <= FULL_SCALE,
        sum_prefix(percentages_of(e), e.len() as int) + e.len() > FULL_SCALE,
{
    let t = total_energy(e);
    let n = e.len() as int;
    lemma_sum_prefix_bounds(e, n);
    lemma_percentage_prefix(e, t, n);
    let p = Seq::new(e.len(), |i: int| percentage(e[i] as int, t) as u64);
    assert(p == percentages_of(e));
    assert forall|i: int| 0 <= i < e.len() implies percentages_of(e)[i] <= FULL_SCALE by {
        let x = e[i] as int;
        assert(x * FULL_SCALE / t <= FULL_SCALE) by (nonlinear_arith)
            requires
                0 <= x <= t,
                t > 0,
        ;
    }
    let s = sum_prefix(p, n);
    assert(s <= FULL_SCALE) by (nonlinear_arith)
        requires
            t * s <= t * FULL_SCALE,
            t > 0,
    ;
    assert(s + n > FULL_SCALE) by {
        if s + n <= FULL_SCALE {
            assert(t * (FULL_SCALE - s) >= t * n) by (nonlinear_arith)
                requires
                    FULL_SCALE - s >= n,
                    t > 0,
            ;
            assert(n * (t - 1) < t * n || n == 0) by (nonlinear_arith)
                requires
                    t > 0,
                    n >= 0,
            ;
            assert(t * FULL_SCALE == t * (FULL_SCALE - s) + t * s) by (nonlinear_arith);
        }
    }
}

/// The share of each band's energy in the total, in score units: each
/// value lies in `0..=FULL_SCALE`; with a positive total they sum to at most
/// `FULL_SCALE` and to more than `FULL_SCALE - e.len()`; with a zero total
/// all are zero.
pub fn band_percentages(e: &Vec<u64>) -> (r: Vec<u64>)
    ensures
        r@ == percentages_of(e@),
        forall|i: int| 0 <= i < r@.len() ==> r@[i] <= FULL_SCALE,
        total_energy(e@) > 0 ==> sum_prefix(r@, r@.len() as int) <= FULL_SCALE,
        total_energy(e@) > 0 ==> sum_prefix(r@, r@.len() as int) + r@.len() > FULL_SCALE,
        total_energy(e@) == 0 ==> forall|i: int| 0 <= i < r@.len() ==> r@[i] == 0,
{
    let mut total: u128 = 0;
    let mut i: usize = 0;
    while i < e.len()
        invariant
            0 <= i <= e@.len(),
            total == sum_prefix(e@, i as int),
            total <= i * 0x1_0000_0000_0000_0000,
        decreases e@.len() - i,
    {
        total = total + e[i] as u128;
        i = i + 1;
    }
    proof {
        lemma_sum_prefix_bounds(e@, e@.len() as int);
    }
    let mut r: Vec<u64> = Vec::new();
    let mut k: usize = 0;
    while k < e.len()
        invariant
            0 <= k <= e@.len(),
            total == total_energy(e@),
            forall|j: int| 0 <= j < e@.len() ==> e@[j] <= total_energy(e@),
            r@.len() == k,
            forall|j: int| 0 <= j < k ==> r@[j] == percentages_of(e@)[j],
            forall|j: int| 0 <= j < k ==> r@[j] <= FULL_SCALE,
        decreases e@.len() - k,
    {
        let v: u64 = if total > 0 {
            let x: u128 = e[k] as u128 * FULL_SCALE as u128;
            let q: u128 = x / total;
            assert(q <= FULL_SCALE) by (nonlinear_arith)
                requires
                    q == x / total,
                    x == e@[k as int] * FULL_SCALE,
                    e@[k as int] <= total,
                    total > 0,
            ;
            q as u64
        } else {
            0
        };
        r.push(v);
        k = k + 1;
    }
    assert(r@ =~= percentages_of(e@));
    proof {
        if total_energy(e@) > 0 {
            lemma_percentages_sum(e@);
        }
    }
    r
}


proof fn lemma_floor_sqrt_unique(r: int, v: int)
    requires
        is_floor_sqrt(r, v),
    ensures
        floor_sqrt(v) == r,
{
    assert(exists|x: int| is_floor_sqrt(x, v));
    let f = floor_sqrt(v);
    assert(is_floor_sqrt(f, v));
    if f < r {
        assert((f + 1) * (f + 1) <= r * r) by (nonlinear_arith)
            requires
                0 <= f + 1 <= r,
        ;
    } else if r < f {
        assert((r + 1) * (r + 1) <= f * f) by (nonlinear_arith)
            requires
                0 <= r + 1 <= f,
        ;
    }
}

proof fn lemma_sum_prefix_mono(s: Seq<u64>, i: int, n: int)
    requires
        0 <= i <= n <= s.len(),
    ensures
        sum_prefix(s, i) <= sum_prefix(s, n),
    decreases n - i,
{
    if i < n {
        lemma_sum_prefix_mono(s, i, n - 1);
    }
}

/// The square root of `v`, rounded down.
fn floor_sqrt_u128(v: u128) -> (r: u128)
    ensures
        is_floor_sqrt(r as int, v as int),
        r as int == floor_sqrt(v as int),
{
    let mut lo: u128 = 0;
    let mut hi: u128 = 0x1_0000_0000_0000_0000;
    assert(v < hi * hi) by (nonlinear_arith)
        requires
            hi == 0x1_0000_0000_0000_0000,
            v <= 0xffff_ffff_ffff_ffff_ffff_ffff_ffff_ffff,
    ;
    while hi - lo > 1
        invariant
            lo < hi <= 0x1_0000_0000_0000_0000,
            lo * lo <= v,
            v < hi * hi,
        decreases hi - lo,
    {
        let mid: u128 = lo + (hi - lo) / 2;
        assert(mid * mid < 0x1_0000_0000_0000_0000 * 0x1_0000_0000_0000_0000) by (nonlinear_arith)
            requires
                mid < 0x1_0000_0000_0000_0000,
        ;
        if mid * mid <= v {
            lo = mid;
        } else {
            hi = mid;
        }
    }
    proof {
        lemma_floor_sqrt_unique(lo as int, v as int);
    }
    lo
}

/// The centroid of percentages `p` over positions `pos`, in score units.
fn centroid(p: &Vec<u64>, pos: &Vec<u64>) -> (r: u64)
    requires
        p@.len() == pos@.len(),
        sum_prefix(p@, p@.len() as int) <= FULL_SCALE,
        forall|i: int| 0 <= i < pos@.len() ==> pos@[i] <= 100,
    ensures
        r == centroid_of(p@, pos@),
        r <= FULL_SCALE,
{
    let mut w: u64 = 0;
    let mut i: usize = 0;
    while i < p.len()
        invariant
            0 <= i <= p@.len(),
            p@.len() == pos@.len(),
            sum_prefix(p@, p@.len() as int) <= FULL_SCALE,
            forall|j: int| 0 <= j < pos@.len() ==> pos@[j] <= 100,
            w == weighted_prefix(p@, pos@, i as int),
            w <= 100 * sum_prefix(p@, i as int),
        decreases p@.len() - i,
    {
        proof {
            lemma_sum_prefix_mono(p@, i as int + 1, p@.len() as int);
        }
        let x: u64 = p[i];
        let y: u64 = pos[i];
        assert(x * y <= 100 * x) by (nonlinear_arith)
            requires
                y <= 100,
        ;
        w = w + x * y;
        i = i + 1;
    }
    w / 100
}

/// `|POSITION_SCALE * pos - c|`, squared.
fn squared_deviation(pos: u64, c: u64) -> (r: u128)
    requires
        pos <= 100,
        c <= FULL_SCALE,
    ensures
        r == sq(POSITION_SCALE * pos - c),
        r <= 100_000_000_000_000_000_000,
{
    assert(POSITION_SCALE * pos <= 10_000_000_000) by (nonlinear_arith)
        requires
            pos <= 100,
    ;
    let a: u128 = POSITION_SCALE as u128 * pos as u128;
    assert(a <= 10_000_000_000) by (nonlinear_arith)
        requires
            a == POSITION_SCALE * pos,
            pos <= 100,
    ;
    let d: u128 = if a >= c as u128 {
        a - c as u128
    } else {
        c as u128 - a
    };
    assert(d * d <= 100_000_000_000_000_000_000) by (nonlinear_arith)
        requires
            d <= 10_000_000_000,
    ;
    assert(d * d == sq(POSITION_SCALE * pos - c)) by (nonlinear_arith)
        requires
            d == POSITION_SCALE * pos - c || d == c - POSITION_SCALE * pos,
    ;
    d * d
}

/// The scaled variance `sum p[i] * (POSITION_SCALE * pos[i] - c)^2`.
fn scaled_variance_of(p: &Vec<u64>, pos: &Vec<u64>, c: u64) -> (r: u128)
    requires
        p@.len() == pos@.len(),
        sum_prefix(p@, p@.len() as int) <= FULL_SCALE,
        forall|i: int| 0 <= i < pos@.len() ==> pos@[i] <= 100,
        c <= FULL_SCALE,
    ensures
        r == scaled_variance(p@, pos@, c as int),
{
    let mut v: u128 = 0;
    let mut i: usize = 0;
    while i < p.len()
        invariant
            0 <= i <= p@.len(),
            p@.len() == pos@.len(),
            sum_prefix(p@, p@.len() as int) <= FULL_SCALE,
            forall|j: int| 0 <= j < pos@.len() ==> pos@[j] <= 100,
            c <= FULL_SCALE,
            v == deviation_prefix(p@, pos@, c as int, i as int),
            v <= 100_000_000_000_000_000_000 * sum_prefix(p@, i as int),
        decreases p@.len() - i,
    {
        proof {
            lemma_sum_prefix_mono(p@, i as int + 1, p@.len() as int);
        }
        let x: u128 = p[i] as u128;
        let d: u128 = squared_deviation(pos[i], c);
        assert(x * d <= 100_000_000_000_000_000_000 * x) by (nonlinear_arith)
            requires
                d <= 100_000_000_000_000_000_000,
        ;
        assert(100_000_000_000_000_000_000 * sum_prefix(p@, i as int + 1)
            <= 100_000_000_000_000_000_000 * FULL_SCALE) by (nonlinear_arith)
            requires
                sum_prefix(p@, i as int + 1) <= FULL_SCALE,
        ;
        v = v + x * d;
        i = i + 1;
    }
    v
}

/// The position of each band of the table that `get_bands` returns.
pub fn band_positions() -> (r: Vec<u64>)
    ensures
        r@ == position_table(),
{
    let r = vec![8, 18, 30, 45, 62, 78, 92];
    assert(r@ =~= position_table());
    r
}

/// The descriptors of a track from its averaged band energies (in the order
/// of the band table) and its zero-crossing rate. Centroid and spread lie in
/// `0..=FULL_SCALE`; when all energies are zero, so are the percentages, the
/// centroid and the spread.
pub fn calculate_metrics(band_energies: &Vec<u64>, zero_crossing_rate: u64) -> (r: SpectrumMetrics)
    requires
        band_energies@.len() == BAND_COUNT,
    ensures
        r.band_percentages@ == percentages_of(band_energies@),
        r.centroid == centroid_of(r.band_percentages@, position_table()),
        r.spread == normalized_spread(
            floor_sqrt(scaled_variance(r.band_percentages@, position_table(), r.centroid as int)),
        ),
        r.zero_crossing_rate == zero_crossing_rate,
        r.centroid <= FULL_SCALE,
        r.spread <= FULL_SCALE,
        total_energy(band_energies@) == 0 ==> r.centroid == 0 && r.spread == 0 && forall|i: int|
            0 <= i < r.band_percentages@.len() ==> r.band_percentages@[i] == 0,
{
    let p = band_percentages(band_energies);
    let pos = band_positions();
    proof {
        lemma_sum_prefix_bounds(band_energies@, band_energies@.len() as int);
        if total_energy(band_energies@) == 0 {
            assert(forall|i: int| 0 <= i <= p@.len() ==> sum_prefix(p@, i) == 0) by {
                assert forall|i: int| 0 <= i <= p@.len() implies sum_prefix(p@, i) == 0 by {
                    lemma_zero_prefix(p@, i);
                }
            }
        }
    }
    let c = centroid(&p, &pos);
    let v = scaled_variance_of(&p, &pos, c);
    let root = floor_sqrt_u128(v);
    let q: u128 = root / SPREAD_DIVISOR;
    let spread: u64 = if q > FULL_SCALE as u128 {
        FULL_SCALE
    } else {
        q as u64
    };
    proof {
        if total_energy(band_energies@) == 0 {
            lemma_zero_weighted(p@, pos@, c as int, p@.len() as int);
            assert(is_floor_sqrt(0, 0));
            lemma_floor_sqrt_unique(0, 0);
        }
    }
    SpectrumMetrics { centroid: c, spread, zero_crossing_rate, band_percentages: p }
}

proof fn lemma_zero_prefix(p: Seq<u64>, n: int)
    requires
        0 <= n <= p.len(),
        forall|i: int| 0 <= i < p.len() ==> p[i] == 0,
    ensures
        sum_prefix(p, n) == 0,
    decreases n,
{
    if n > 0 {
        lemma_zero_prefix(p, n - 1);
    }
}

proof fn lemma_zero_weighted(p: Seq<u64>, pos: Seq<u64>, c: int, n: int)
    requires
        0 <= n <= p.len(),
        forall|i: int| 0 <= i < p.len() ==> p[i] == 0,
    ensures
        weighted_prefix(p, pos, n) == 0,
        deviation_prefix(p, pos, c, n) == 0,
    decreases n,
{
    if n > 0 {
        lemma_zero_weighted(p, pos, c, n - 1);
    }
}

} // verus!
