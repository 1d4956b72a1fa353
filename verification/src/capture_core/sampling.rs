//! Sampled absolute RGB differences between two row-major RGBA frames: the
//! integer part of the stitcher's match scores.

use vstd::prelude::*;
use vstd::arithmetic::div_mod::lemma_fundamental_div_mod;

verus! {

pub open spec fn abs_diff(a: u8, b: u8) -> int {
    if a >= b { a - b } else { b - a }
}

/// The summed absolute difference of the R, G and B bytes at `p[i..]` and `q[j..]`.
pub open spec fn rgb_diff(p: Seq<u8>, i: int, q: Seq<u8>, j: int) -> int {
    abs_diff(p[i], q[j]) + abs_diff(p[i + 1], q[j + 1]) + abs_diff(p[i + 2], q[j + 2])
}

/// How many of the columns `0, step, 2 * step, ...` lie below `end`.
pub open spec fn sample_count(end: int, step: int) -> nat {
    if end <= 0 || step <= 0 {
        0
    } else {
        ((end + step - 1) / step) as nat
    }
}

/// The RGB difference summed over the first `n` sampled pixels of the rows
/// starting at byte `a` of `p` and byte `b` of `q`.
pub open spec fn row_samples_diff(p: Seq<u8>, a: int, q: Seq<u8>, b: int, step: int, n: nat) -> int
    decreases n,
{
    if n == 0 {
        0
    } else {
        row_samples_diff(p, a, q, b, step, (n - 1) as nat) + rgb_diff(
            p,
            a + (n - 1) * step * 4,
            q,
            b + (n - 1) * step * 4,
        )
    }
}

/// The sampled difference over the first `m` sampled rows: sampled row `k`
/// compares row `p_row0 + k * y_step` of `p` with row `q_row0 + k * y_step` of
/// `q`, each sampled at columns below `x_end` every `x_step`.
pub open spec fn grid_diff(
    p: Seq<u8>,
    p_row0: int,
    q: Seq<u8>,
    q_row0: int,
    width: int,
    x_step: int,
    x_end: int,
    y_step: int,
    m: nat,
) -> int
    decreases m,
{
    if m == 0 {
        0
    } else {
        grid_diff(p, p_row0, q, q_row0, width, x_step, x_end, y_step, (m - 1) as nat)
            + row_samples_diff(
            p,
            (p_row0 + (m - 1) * y_step) * width * 4,
            q,
            (q_row0 + (m - 1) * y_step) * width * 4,
            x_step,
            sample_count(x_end, x_step),
        )
    }
}

/// A sampling step that yields about `k` samples over `total`: `total / k`, at least 1.
pub open spec fn step_for(total: int, k: int) -> int {
    if total / k >= 1 { total / k } else { 1 }
}

/// The last sample lies below `end` and the next one does not.
pub proof fn lemma_sample_count(end: int, step: int)
    requires
        end > 0,
        step > 0,
    ensures
        sample_count(end, step) >= 1,
        (sample_count(end, step) - 1) * step < end,
        sample_count(end, step) * step >= end,
{
    let n = (end + step - 1) / step;
    lemma_fundamental_div_mod(end + step - 1, step);
    let r = (end + step - 1) % step;
    assert(0 <= r < step);
    assert(n * step == end + step - 1 - r) by (nonlinear_arith)
        requires
            end + step - 1 == step * n + r,
    ;
    assert(n >= 1) by (nonlinear_arith)
        requires
            n * step == end + step - 1 - r,
            r < step,
            end > 0,
            step > 0,
    ;
    assert((n - 1) * step == n * step - step) by (nonlinear_arith);
}

/// Sampling `end <= total` every `step_for(total, k)` takes at most `2 * k` samples.
pub proof fn lemma_sample_count_bound(end: int, total: int, k: int)
    requires
        0 < end <= total,
        k > 0,
    ensures
        sample_count(end, step_for(total, k)) <= 2 * k,
{
    let s = step_for(total, k);
    lemma_sample_count(end, s);
    let n = sample_count(end, s) as int;
    if total / k >= 1 {
        lemma_fundamental_div_mod(total, k);
        assert(total < (s + 1) * k) by (nonlinear_arith)
            requires
                total == k * s + total % k,
                total % k < k,
        ;
        assert(n <= 2 * k) by (nonlinear_arith)
            requires
                (n - 1) * s < end,
                end <= total,
                total < (s + 1) * k,
                s >= 1,
                k > 0,
        ;
    } else {
        assert(total < k) by {
            lemma_fundamental_div_mod(total, k);
            assert(total / k == 0) by (nonlinear_arith)
                requires
                    total / k < 1,
                    total > 0,
                    k > 0,
            ;
        }
    }
}

/// Sums the sampled RGB differences and counts the sampled channels.
pub fn grid_diff_sums(
    p: &[u8],
    p_row0: usize,
    q: &[u8],
    q_row0: usize,
    width: usize,
    x_step: usize,
    x_end: usize,
    y_step: usize,
    rows: usize,
) -> (out: (u64, u64))
    requires
        0 < x_end <= width,
        0 < x_step,
        0 < y_step,
        0 < rows,
        sample_count(x_end as int, x_step as int) <= 256,
        sample_count(rows as int, y_step as int) <= 256,
        rows + y_step <= usize::MAX,
        x_end + x_step <= usize::MAX,
        (p_row0 + rows) * width * 4 <= p@.len(),
        (q_row0 + rows) * width * 4 <= q@.len(),
    ensures
        out.0 == grid_diff(
            p@,
            p_row0 as int,
            q@,
            q_row0 as int,
            width as int,
            x_step as int,
            x_end as int,
            y_step as int,
            sample_count(rows as int, y_step as int),
        ),
        out.1 == 3 * sample_count(rows as int, y_step as int) * sample_count(
            x_end as int,
            x_step as int,
        ),
{
    let ghost nx = sample_count(x_end as int, x_step as int);
    let ghost ny = sample_count(rows as int, y_step as int);
    proof {
        lemma_sample_count(x_end as int, x_step as int);
        lemma_sample_count(rows as int, y_step as int);
    }
    let plen = p.len();
    let qlen = q.len();
    let mut diff: u64 = 0;
    let mut samples: u64 = 0;
    let mut y: usize = 0;
    let ghost mut j: nat = 0;
    assert(3 * j * nx == 0 && 765 * j * nx == 0) by (nonlinear_arith)
        requires
            j == 0,
    ;
    while y < rows
        invariant
            0 < x_end <= width,
            0 < x_step,
            0 < y_step,
            nx == sample_count(x_end as int, x_step as int),
            ny == sample_count(rows as int, y_step as int),
            nx <= 256,
            ny <= 256,
            (nx - 1) * x_step < x_end,
            nx * x_step >= x_end,
            (ny - 1) * y_step < rows,
            ny * y_step >= rows,
            rows + y_step <= usize::MAX,
            x_end + x_step <= usize::MAX,
            plen == p@.len(),
            qlen == q@.len(),
            (p_row0 + rows) * width * 4 <= p@.len(),
            (q_row0 + rows) * width * 4 <= q@.len(),
            j <= ny,
            y == j * y_step,
            y < rows <==> j < ny,
            diff == grid_diff(
                p@,
                p_row0 as int,
                q@,
                q_row0 as int,
                width as int,
                x_step as int,
                x_end as int,
                y_step as int,
                j,
            ),
            diff <= 765 * j * nx,
            samples == 3 * j * nx,
        decreases ny - j,
    {
        proof {
            assert((p_row0 + y) * width * 4 + width * 4 <= (p_row0 + rows) * width * 4) by (nonlinear_arith)
                requires
                    y < rows,
            ;
            assert((q_row0 + y) * width * 4 + width * 4 <= (q_row0 + rows) * width * 4) by (nonlinear_arith)
                requires
                    y < rows,
            ;
        }
        assert(p_row0 + y <= (p_row0 + y) * width <= (p_row0 + y) * width * 4) by (nonlinear_arith)
            requires
                p_row0 + y >= 0,
                width >= 1,
        ;
        assert(q_row0 + y <= (q_row0 + y) * width <= (q_row0 + y) * width * 4) by (nonlinear_arith)
            requires
                q_row0 + y >= 0,
                width >= 1,
        ;
        let a = (p_row0 + y) * width * 4;
        let b = (q_row0 + y) * width * 4;
        let mut row_diff: u64 = 0;
        let mut row_samples: u64 = 0;
        let mut x: usize = 0;
        let ghost mut k: nat = 0;
        while x < x_end
            invariant
                0 < x_end <= width,
                0 < x_step,
                nx == sample_count(x_end as int, x_step as int),
                nx <= 256,
                (nx - 1) * x_step < x_end,
                nx * x_step >= x_end,
                x_end + x_step <= usize::MAX,
                plen == p@.len(),
                qlen == q@.len(),
                a + width * 4 <= p@.len(),
                b + width * 4 <= q@.len(),
                k <= nx,
                x == k * x_step,
                x < x_end <==> k < nx,
                row_diff == row_samples_diff(p@, a as int, q@, b as int, x_step as int, k),
                row_diff <= 765 * k,
                row_samples == 3 * k,
            decreases nx - k,
        {
            let i = x * 4;
            let da = if p[a + i] >= q[b + i] { p[a + i] - q[b + i] } else { q[b + i] - p[a + i] };
            let db = if p[a + i + 1] >= q[b + i + 1] { p[a + i + 1] - q[b + i + 1] } else { q[b + i + 1] - p[a + i + 1] };
            let dc = if p[a + i + 2] >= q[b + i + 2] { p[a + i + 2] - q[b + i + 2] } else { q[b + i + 2] - p[a + i + 2] };
            row_diff = row_diff + da as u64 + db as u64 + dc as u64;
            assert(a + k * x_step * 4 == a + i) by (nonlinear_arith)
                requires
                    x == k * x_step,
                    i == x * 4,
            ;
            x = x + x_step;
            row_samples = row_samples + 3;
            proof {
                k = k + 1;
                assert(x == k * x_step) by (nonlinear_arith)
                    requires
                        x == (k - 1) * x_step + x_step,
                ;
                if k < nx {
                    assert(x < x_end) by (nonlinear_arith)
                        requires
                            x == k * x_step,
                            k <= nx - 1,
                            (nx - 1) * x_step < x_end,
                            x_step > 0,
                    ;
                } else {
                    assert(x >= x_end) by (nonlinear_arith)
                        requires
                            x == k * x_step,
                            k == nx,
                            nx * x_step >= x_end,
                    ;
                }
            }
        }
        assert(k == nx);
        assert(765 * j * nx + 765 * nx <= 765 * 256 * 256) by (nonlinear_arith)
            requires
                j < ny,
                ny <= 256,
                nx <= 256,
        ;
        assert(765 * j * nx >= 0 && 3 * j * nx + 3 * nx <= 3 * 256 * 256) by (nonlinear_arith)
            requires
                j < ny,
                ny <= 256,
                nx <= 256,
        ;
        diff = diff + row_diff;
        samples = samples + row_samples;
        proof {
            assert(a == (p_row0 + j * y_step) * width * 4);
            assert(b == (q_row0 + j * y_step) * width * 4);
            assert(diff <= 765 * (j + 1) * nx) by (nonlinear_arith)
                requires
                    diff <= 765 * j * nx + 765 * nx,
            ;
            assert(samples == 3 * (j + 1) * nx) by (nonlinear_arith)
                requires
                    samples == 3 * j * nx + 3 * nx,
            ;
        }
        y = y + y_step;
        proof {
            j = j + 1;
            assert(y == j * y_step) by (nonlinear_arith)
                requires
                    y == (j - 1) * y_step + y_step,
            ;
            if j < ny {
                assert(y < rows) by (nonlinear_arith)
                    requires
                        y == j * y_step,
                        j <= ny - 1,
                        (ny - 1) * y_step < rows,
                        y_step > 0,
                ;
            } else {
                assert(y >= rows) by (nonlinear_arith)
                    requires
                        y == j * y_step,
                        j == ny,
                        ny * y_step >= rows,
                ;
            }
        }
    }
    (diff, samples)
}

} // verus!
