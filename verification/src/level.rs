//! Loudness of a block of samples, measured on every `stride`-th sample.
//!
//! Levels are compared in exact integer arithmetic: the root mean square of
//! the visited samples is at least `level` exactly when their energy is at
//! least `level * level` times their number.

use vstd::prelude::*;
use vstd::arithmetic::div_mod::*;

verus! {

/// Number of samples visited when every `stride`-th of `len` samples is
/// taken, beginning with the first.
pub open spec fn strided_count(len: nat, stride: nat) -> nat
    recommends
        stride > 0,
{
    if stride == 0 {
        0
    } else {
        ((len + stride - 1) / (stride as int)) as nat
    }
}

/// Sum of the squares of the first `count` visited samples.
pub open spec fn partial_energy(samples: Seq<i16>, stride: nat, count: nat) -> nat
    decreases count,
{
    if count == 0 {
        0
    } else {
        let s = samples[(count - 1) * stride] as int;
        partial_energy(samples, stride, (count - 1) as nat) + (s * s) as nat
    }
}

/// Sum of the squares of all visited samples.
pub open spec fn energy(samples: Seq<i16>, stride: nat) -> nat {
    partial_energy(samples, stride, strided_count(samples.len(), stride))
}

/// The root mean square of the visited samples is at least `level`. An empty
/// block has level zero.
pub open spec fn rms_at_least(samples: Seq<i16>, stride: nat, level: nat) -> bool {
    energy(samples, stride) >= level * level * strided_count(samples.len(), stride) && (
    samples.len() > 0 || level == 0)
}

/// The root mean square of the visited samples is greater than `level`.
pub open spec fn rms_above(samples: Seq<i16>, stride: nat, level: nat) -> bool {
    energy(samples, stride) > level * level * strided_count(samples.len(), stride)
}

/// The root mean square of the visited samples, rounded down.
pub open spec fn rms_floor(samples: Seq<i16>, stride: nat) -> nat {
    if samples.len() == 0 || stride == 0 {
        0
    } else {
        floor_sqrt(energy(samples, stride) / strided_count(samples.len(), stride))
    }
}

/// `r` is the greatest number whose square is at most `x`.
pub open spec fn is_floor_sqrt(x: nat, r: nat) -> bool {
    r * r <= x < (r + 1) * (r + 1)
}

/// The greatest `r` with `r * r <= x`.
pub open spec fn floor_sqrt(x: nat) -> nat {
    choose|r: nat| is_floor_sqrt(x, r)
}

/// Energy and number of the visited samples of one block.
#[derive(Clone, Copy, Debug)]
pub struct Level {
    /// Sum of the squares of the visited samples.
    pub energy: u128,
    /// Number of visited samples.
    pub count: usize,
}

/// The energy of `count` samples is at most `count * 2^30`.
pub proof fn lemma_partial_energy_bound(samples: Seq<i16>, stride: nat, count: nat)
    ensures
        partial_energy(samples, stride, count) <= count * 0x4000_0000,
    decreases count,
{
    if count > 0 {
        lemma_partial_energy_bound(samples, stride, (count - 1) as nat);
        let s = samples[(count - 1) * stride] as int;
        assert(0 <= s * s <= 0x4000_0000) by (nonlinear_arith)
            requires
                -0x8000 <= s <= 0x7fff,
        ;
    }
}

/// A block of zeros has no energy.
pub proof fn lemma_zero_energy(samples: Seq<i16>, stride: nat, count: nat)
    requires
        stride > 0,
        count <= strided_count(samples.len(), stride),
        forall|i: int| 0 <= i < samples.len() ==> samples[i] == 0,
    ensures
        partial_energy(samples, stride, count) == 0,
    decreases count,
{
    if count > 0 {
        lemma_zero_energy(samples, stride, (count - 1) as nat);
        lemma_count_step((count - 1) as nat, samples.len(), stride);
        assert((count - 1) * stride >= 0) by (nonlinear_arith)
            requires
                count >= 1,
                stride >= 0,
        ;
    }
}

/// The rounded-down square root is the only number that `is_floor_sqrt`
/// holds of.
pub proof fn lemma_floor_sqrt_unique(x: nat, r: nat)
    requires
        is_floor_sqrt(x, r),
    ensures
        floor_sqrt(x) == r,
{
    let q = floor_sqrt(x);
    assert(is_floor_sqrt(x, q));
    assert(q == r) by (nonlinear_arith)
        requires
            q * q <= x < (q + 1) * (q + 1),
            r * r <= x < (r + 1) * (r + 1),
            q >= 0,
            r >= 0,
    ;
}

impl Level {
    /// Measures `samples` on every `stride`-th sample.
    pub fn measure(samples: &[i16], stride: usize) -> (level: Level)
        requires
            stride > 0,
        ensures
            level.count == strided_count(samples@.len(), stride as nat),
            level.energy == energy(samples@, stride as nat),
            level.energy <= level.count * 0x4000_0000,
            level.count > 0 <==> samples@.len() > 0,
    {
        let n: usize = samples.len();
        let mut total: u128 = 0;
        let mut count: usize = 0;
        let mut i: usize = 0;
        proof {
            lemma_count_step(0, n as nat, stride as nat);
        }
        while i < n
            invariant
                stride > 0,
                n == samples@.len(),
                i < n ==> i == count * stride,
                i < n ==> count < strided_count(n as nat, stride as nat),
                i >= n ==> count == strided_count(n as nat, stride as nat),
                count <= n,
                total == partial_energy(samples@, stride as nat, count as nat),
            decreases n - i, n - count,
        {
            let s: i64 = samples[i] as i64;
            proof {
                lemma_partial_energy_bound(samples@, stride as nat, count as nat);
                assert(0 <= s * s <= 0x4000_0000) by (nonlinear_arith)
                    requires
                        -0x8000 <= s <= 0x7fff,
                ;
                assert(count * 0x4000_0000 <= 0xffff_ffff_ffff_ffff * 0x4000_0000)
                    by (nonlinear_arith)
                    requires
                        count <= 0xffff_ffff_ffff_ffff,
                ;
                assert(count * stride + stride == (count + 1) * stride) by (nonlinear_arith);
                assert(count <= count * stride) by (nonlinear_arith)
                    requires
                        stride >= 1,
                        count >= 0,
                ;
                lemma_count_step((count + 1) as nat, n as nat, stride as nat);
                lemma_count_step(count as nat, n as nat, stride as nat);
            }
            total = total + ((s * s) as u128);
            count = count + 1;
            if n - i <= stride {
                i = n;
            } else {
                i = i + stride;
            }
        }
        proof {
            lemma_partial_energy_bound(samples@, stride as nat, count as nat);
            lemma_count_step(0, n as nat, stride as nat);
        }
        Level { energy: total, count }
    }

    /// Whether the root mean square is at least `threshold`.
    pub fn at_least(&self, threshold: u32) -> (r: bool)
        ensures
            r == (self.energy >= threshold * threshold * self.count && (self.count > 0
                || threshold == 0)),
    {
        let bound: u128 = self.threshold_energy(threshold);
        self.energy >= bound && (self.count > 0 || threshold == 0)
    }

    /// Whether the root mean square is greater than `threshold`.
    pub fn above(&self, threshold: u32) -> (r: bool)
        ensures
            r == (self.energy > threshold * threshold * self.count),
    {
        let bound: u128 = self.threshold_energy(threshold);
        self.energy > bound
    }

    /// The energy of `count` samples that all equal `threshold`.
    fn threshold_energy(&self, threshold: u32) -> (r: u128)
        ensures
            r == threshold * threshold * self.count,
    {
        let t: u128 = threshold as u128;
        assert(t * t <= 0xffff_ffff * 0xffff_ffff) by (nonlinear_arith)
            requires
                0 <= t <= 0xffff_ffff,
        ;
        let square: u128 = t * t;
        assert(square * self.count <= 0xffff_ffff * 0xffff_ffff * 0xffff_ffff_ffff_ffff)
            by (nonlinear_arith)
            requires
                0 <= square <= 0xffff_ffff * 0xffff_ffff,
                0 <= self.count <= 0xffff_ffff_ffff_ffff,
        ;
        square * (self.count as u128)
    }

    /// The root of the mean square, rounded down; zero for no samples.
    pub fn rms_floor(&self) -> (r: u64)
        ensures
            self.count > 0 ==> r == floor_sqrt((self.energy / (self.count as u128)) as nat),
            self.count == 0 ==> r == 0,
    {
        if self.count == 0 {
            return 0;
        }
        let mean: u128 = self.energy / (self.count as u128);
        let mut lo: u128 = 0;
        let mut hi: u128 = 0x1_0000_0000_0000_0000;
        assert(0x1_0000_0000_0000_0000 * 0x1_0000_0000_0000_0000 > u128::MAX) by (nonlinear_arith);
        while hi - lo > 1
            invariant
                lo < hi <= 0x1_0000_0000_0000_0000,
                lo * lo <= mean,
                mean < hi * hi,
            decreases hi - lo,
        {
            let mid: u128 = lo + (hi - lo) / 2;
            assert(mid * mid <= 0xffff_ffff_ffff_ffff * 0xffff_ffff_ffff_ffff) by (nonlinear_arith)
                requires
                    0 <= mid <= 0xffff_ffff_ffff_ffff,
            ;
            if mid * mid <= mean {
                lo = mid;
            } else {
                hi = mid;
            }
        }
        proof {
            lemma_floor_sqrt_unique(mean as nat, lo as nat);
        }
        lo as u64
    }
}

/// The level of 16-bit samples is at most 32768.
pub proof fn lemma_rms_floor_bound(samples: Seq<i16>, stride: nat)
    requires
        stride > 0,
    ensures
        rms_floor(samples, stride) <= 0x8000,
{
    if samples.len() > 0 {
        let count = strided_count(samples.len(), stride);
        let total = energy(samples, stride);
        lemma_partial_energy_bound(samples, stride, count);
        lemma_count_step(0, samples.len(), stride);
        let mean = total / count;
        lemma_fundamental_div_mod(total as int, count as int);
        lemma_mod_bound(total as int, count as int);
        assert(mean <= 0x4000_0000) by (nonlinear_arith)
            requires
                total <= count * 0x4000_0000,
                count > 0,
                total == count * mean + total % count,
                0 <= total % count,
        ;
        let r = floor_sqrt(mean);
        lemma_floor_sqrt_exists(mean);
        assert(r <= 0x8000) by (nonlinear_arith)
            requires
                r * r <= mean,
                mean <= 0x4000_0000,
                r >= 0,
        ;
    }
}

/// Every number has a rounded-down square root.
pub proof fn lemma_floor_sqrt_exists(x: nat)
    ensures
        is_floor_sqrt(x, floor_sqrt(x)),
    decreases x,
{
    if x == 0 {
        assert(0nat * 0nat <= 0 < (0nat + 1) * (0nat + 1)) by (nonlinear_arith);
        assert(is_floor_sqrt(0, 0));
    } else {
        lemma_floor_sqrt_exists((x - 1) as nat);
        let r = floor_sqrt((x - 1) as nat);
        if x < (r + 1) * (r + 1) {
            assert(is_floor_sqrt(x, r));
        } else {
            assert(is_floor_sqrt(x, r + 1)) by (nonlinear_arith)
                requires
                    r * r <= x - 1 < (r + 1) * (r + 1),
                    x >= (r + 1) * (r + 1),
            ;
        }
    }
}

/// After `count` strides the index is inside the block exactly when
/// samples are left to visit.
pub proof fn lemma_count_step(count: nat, len: nat, stride: nat)
    requires
        stride > 0,
    ensures
        count * stride < len <==> count < strided_count(len, stride),
{
    let total = strided_count(len, stride) as int;
    let d = stride as int;
    lemma_fundamental_div_mod(len + d - 1, d);
    lemma_mod_bound(len + d - 1, d);
    let r = (len + d - 1) % d;
    if count < total {
        assert(count * d < len) by (nonlinear_arith)
            requires
                count + 1 <= total,
                d > 0,
                len + d - 1 == d * total + r,
                0 <= r,
        ;
    } else {
        assert(count * d >= len) by (nonlinear_arith)
            requires
                count >= total,
                d > 0,
                len + d - 1 == d * total + r,
                r < d,
        ;
    }
}

} // verus!
