//! The neighborhood kernel: symmetric discrete Gaussian offsets and
//! weights that model voter-position uncertainty.
//!
//! The kernel covers three standard deviations on each side of a pixel,
//! with the deviation set to a third of the map side, so offsets span one
//! full map width in each direction.  Weights follow a fixed-point
//! approximation of the Gaussian bell `exp(-9 t^2 / 2)` for the relative
//! offset `t`, built from integer arithmetic alone: the curve is
//! evaluated as `(1 - u/64)^64` via six squarings, which keeps every run
//! bit-for-bit reproducible.  Offsets step by a stride that keeps the
//! sample count bounded as the resolution grows (a fixed sample density
//! relative to the deviation).

use vstd::prelude::*;
use crate::{MAX_RESOLUTION, WEIGHT_ONE};

verus! {

/// Distance in pixels between adjacent kernel samples.
pub open spec fn kernel_stride(size: int) -> int {
    if size >= 16 {
        size / 16
    } else {
        1
    }
}

/// Number of kernel samples on each side of the center.
pub open spec fn kernel_half(size: int) -> int {
    size / kernel_stride(size)
}

/// Total number of kernel samples: the center plus both sides.
pub open spec fn kernel_count(size: int) -> int {
    2 * kernel_half(size) + 1
}

/// Pixel offset of kernel sample `j`, counted from `-half` to `half`.
pub open spec fn kernel_offset(size: int, j: int) -> int {
    (j - kernel_half(size)) * kernel_stride(size)
}

/// One squaring step of the fixed-point bell evaluation.
pub open spec fn gauss_square(w: int) -> int {
    (w * w) / 65536
}

/// `k` squaring steps applied to `w`.
pub open spec fn gauss_iter(w: int, k: nat) -> int
    decreases k,
{
    if k == 0 {
        w
    } else {
        gauss_square(gauss_iter(w, (k - 1) as nat))
    }
}

/// Kernel weight for a sample at absolute pixel distance `d` from the
/// center, in fixed-point units of [`WEIGHT_ONE`].
pub open spec fn kernel_weight_at(size: int, d: int) -> int {
    let t = d * 65536 / size;
    let u = 9 * t * t / 131072;
    let base = 65536 - u / 64;
    gauss_iter(base, 6)
}

/// Kernel weight of sample `j`.
pub open spec fn kernel_weight(size: int, j: int) -> int {
    let h = kernel_half(size);
    let d = if j >= h {
        j - h
    } else {
        h - j
    };
    kernel_weight_at(size, d * kernel_stride(size))
}

/// The stride is positive and sample offsets stay within one map width.
pub proof fn lemma_kernel_bounds(size: int)
    requires
        1 <= size,
    ensures
        1 <= kernel_stride(size) <= size,
        1 <= kernel_half(size) <= size,
        kernel_half(size) * kernel_stride(size) <= size,
        3 <= kernel_count(size) <= 2 * size + 1,
        forall|j: int|
            0 <= j < kernel_count(size) ==> -size <= #[trigger] kernel_offset(size, j) <= size,
{
    let s = kernel_stride(size);
    let h = kernel_half(size);
    assert(1 <= s <= size) by (nonlinear_arith)
        requires
            1 <= size,
            s == if size >= 16 {
                size / 16
            } else {
                1
            },
    ;
    assert(h * s <= size && h >= 1) by (nonlinear_arith)
        requires
            1 <= s <= size,
            h == size / s,
    ;
    assert(h <= size) by (nonlinear_arith)
        requires
            1 <= s,
            h == size / s,
            1 <= size,
    ;
    assert forall|j: int| 0 <= j < kernel_count(size) implies -size <= #[trigger] kernel_offset(
        size,
        j,
    ) <= size by {
        assert(-h <= j - h <= h);
        assert(-(h * s) <= (j - h) * s <= h * s) by (nonlinear_arith)
            requires
                -h <= j - h <= h,
                s >= 1,
        ;
    }
}

/// Iterated squaring keeps fixed-point values within one unit.
proof fn lemma_gauss_iter_range(w: int, k: nat)
    requires
        0 <= w <= 65536,
    ensures
        0 <= gauss_iter(w, k) <= 65536,
    decreases k,
{
    if k > 0 {
        lemma_gauss_iter_range(w, (k - 1) as nat);
        let v = gauss_iter(w, (k - 1) as nat);
        assert(0 <= v * v / 65536 <= 65536) by (nonlinear_arith)
            requires
                0 <= v <= 65536,
        ;
    }
}

/// Every kernel weight lies between zero and one unit.
pub proof fn lemma_kernel_weight_range(size: int, j: int)
    requires
        1 <= size,
        0 <= j < kernel_count(size),
    ensures
        0 <= kernel_weight(size, j) <= 65536,
{
    lemma_kernel_bounds(size);
    let h = kernel_half(size);
    let s = kernel_stride(size);
    let d = if j >= h {
        j - h
    } else {
        h - j
    };
    assert(d * s <= h * s && 0 <= d * s) by (nonlinear_arith)
        requires
            0 <= d <= h,
            0 < s,
    ;
    let dd = d * s;
    let t = dd * 65536 / size;
    assert(0 <= dd * 65536 && dd * 65536 <= size * 65536 && 0 <= t <= 65536) by (nonlinear_arith)
        requires
            0 <= dd <= size,
            1 <= size,
            t == dd * 65536 / size,
    ;
    let u = 9 * t * t / 131072;
    assert(0 <= u <= 294912) by (nonlinear_arith)
        requires
            0 <= t <= 65536,
            u == 9 * t * t / 131072,
    ;
    let base = 65536 - u / 64;
    assert(0 <= base <= 65536);
    lemma_gauss_iter_range(base, 6);
}

/// Computes the kernel weight for absolute pixel distance `d`.
fn gauss_weight(size: usize, d: usize) -> (w: u64)
    requires
        1 <= size <= MAX_RESOLUTION,
        d <= size,
    ensures
        w as int == kernel_weight_at(size as int, d as int),
        w <= WEIGHT_ONE,
{
    proof {
        let di = d as int;
        let si = size as int;
        assert(di * 65536 <= si * 65536 && di * 65536 / si <= 65536) by (nonlinear_arith)
            requires
                0 <= di <= si,
                1 <= si,
        ;
    }
    let t: u64 = (d as u64) * 65536 / (size as u64);
    proof {
        let ti = t as int;
        assert(9 * ti * ti <= 9 * 65536 * 65536 && 9 * ti * ti / 131072 <= 294912)
            by (nonlinear_arith)
            requires
                0 <= ti <= 65536,
        ;
    }
    let u: u64 = 9 * t * t / 131072;
    let base: u64 = 65536 - u / 64;
    let mut w: u64 = base;
    let mut k: usize = 0;
    while k < 6
        invariant
            0 <= k <= 6,
            w <= 65536,
            w as int == gauss_iter(base as int, k as nat),
        decreases 6 - k,
    {
        proof {
            let wi = w as int;
            assert(wi * wi <= 65536 * 65536 && wi * wi / 65536 <= 65536) by (nonlinear_arith)
                requires
                    0 <= wi <= 65536,
            ;
        }
        w = w * w / 65536;
        k = k + 1;
    }
    w
}

/// Builds the kernel weight table for one render call: entry `j` is the
/// weight of the sample at offset `kernel_offset(size, j)`.
pub fn build_kernel(size: usize) -> (weights: Vec<u64>)
    requires
        1 <= size <= MAX_RESOLUTION,
    ensures
        weights@.len() == kernel_count(size as int),
        forall|j: int|
            0 <= j < weights@.len() ==> #[trigger] weights@[j] as int == kernel_weight(
                size as int,
                j,
            ),
        forall|j: int| 0 <= j < weights@.len() ==> #[trigger] weights@[j] <= WEIGHT_ONE,
{
    proof {
        lemma_kernel_bounds(size as int);
    }
    let stride: usize = if size >= 16 {
        size / 16
    } else {
        1
    };
    let half: usize = size / stride;
    let count: usize = 2 * half + 1;
    let mut weights: Vec<u64> = Vec::new();
    let mut j: usize = 0;
    while j < count
        invariant
            0 <= j <= count,
            1 <= size <= MAX_RESOLUTION,
            stride == kernel_stride(size as int),
            half == kernel_half(size as int),
            count == kernel_count(size as int),
            half * stride <= size,
            weights@.len() == j,
            forall|i: int|
                0 <= i < j ==> #[trigger] weights@[i] as int == kernel_weight(size as int, i),
            forall|i: int| 0 <= i < j ==> #[trigger] weights@[i] <= WEIGHT_ONE,
        decreases count - j,
    {
        let d_steps: usize = if j >= half {
            j - half
        } else {
            half - j
        };
        proof {
            assert(d_steps <= half);
            assert(d_steps * stride <= half * stride) by (nonlinear_arith)
                requires
                    d_steps <= half,
                    stride >= 1,
            ;
        }
        let w = gauss_weight(size, d_steps * stride);
        weights.push(w);
        j = j + 1;
    }
    weights
}

} // verus!
