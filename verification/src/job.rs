//! Raster jobs: the per-frame partition of the target raster into
//! horizontal strips, and the fixed-point coordinates of a strip's pixels.
//!
//! The producer cuts the raster into strips of `max(height / target, 1)`
//! rows once per frame; the strips cover the row range exactly once, with
//! no gaps and no overlaps, and each carries the frame's view transform
//! copied by value.  The destination bytes are not part of the job here:
//! the caller pairs each job with a disjoint slice of the frame buffer.

use crate::fixed_point::f8_120;
use core::ops::Neg;
use vstd::prelude::*;

verus! {

/// One horizontal strip of the target raster, with the view transform of
/// the frame it belongs to.
pub struct Job {
    /// First raster row the strip covers.
    pub row: usize,
    /// Number of rows the strip covers.
    pub rows: usize,
    /// Raster width in pixels.
    pub width: usize,
    /// Full raster height in pixels.
    pub height: usize,
    /// View scale, copied by value for the job's lifetime.
    pub scale: f8_120,
    /// View centre, copied by value for the job's lifetime.
    pub center: (f8_120, f8_120),
}

impl Job {
    /// Bundle a strip's extent and the frame's view transform.
    pub fn new(
        row: usize,
        rows: usize,
        width: usize,
        height: usize,
        scale: f8_120,
        center: (f8_120, f8_120),
    ) -> (r: Job)
        ensures
            r == (Job { row, rows, width, height, scale, center }),
    {
        Job { row, rows, width, height, scale, center }
    }
}

/// The raw x position of pixel column `c` within a row: minus one,
/// advanced by `step_x` once per pixel.  The stepping accumulates, so any
/// rounding of `step_x` carries across the row, bounded by the row width.
pub open spec fn x_pos(step_x: f8_120, c: int) -> f8_120
    decreases c,
{
    if c <= 0 {
        f8_120::one_spec().negated()
    } else {
        x_pos(step_x, c - 1).add_spec(step_x)
    }
}

/// The raw y position of strip row `rr`: the strip's starting y advanced
/// by `step_y` once per row.
pub open spec fn y_pos(y0: f8_120, step_y: f8_120, rr: int) -> f8_120
    decreases rr,
{
    if rr <= 0 {
        y0
    } else {
        y_pos(y0, step_y, rr - 1).add_spec(step_y)
    }
}

/// A raw position taken through the view transform: `-center + p * scale`.
pub open spec fn view_map(p: f8_120, scale: f8_120, center: f8_120) -> f8_120 {
    center.negated().add_spec(p.mul_spec(scale))
}

impl Job {
    /// The transformed coordinate of the pixel at strip row `rr`, column
    /// `cc`: the raw position mapped through `-center + position * scale`.
    pub open spec fn coord_spec(self, y0: f8_120, step_x: f8_120, step_y: f8_120, rr: int, cc: int)
        -> (f8_120, f8_120) {
        (
            view_map(x_pos(step_x, cc), self.scale, self.center.0),
            view_map(y_pos(y0, step_y, rr), self.scale, self.center.1),
        )
    }

    /// The coordinates of every pixel of the strip, row major.  The x
    /// position restarts at minus one for each row, so only intra-row
    /// stepping accumulates rounding error, while y advances once per row;
    /// each raw position goes through the view transform.  The caller
    /// supplies the strip's starting y and the per-pixel steps.
    pub fn coords(&self, y0: f8_120, step_x: f8_120, step_y: f8_120) -> (v: Vec<
        (f8_120, f8_120),
    >)
        requires
            self.rows * self.width <= usize::MAX,
        ensures
            v@.len() == self.rows * self.width,
            forall|rr: int, cc: int|
                0 <= rr < self.rows && 0 <= cc < self.width ==> v@[rr * self.width + cc]
                    == self.coord_spec(y0, step_x, step_y, rr, cc),
    {
        let w: usize = self.width;
        let mut v: Vec<(f8_120, f8_120)> = Vec::new();
        let mut y = y0;
        let mut rr: usize = 0;
        while rr < self.rows
            invariant
                rr <= self.rows,
                self.rows * self.width <= usize::MAX,
                w == self.width,
                y == y_pos(y0, step_y, rr as int),
                v@.len() == rr * w,
                forall|idx: int|
                    0 <= idx < v@.len() ==> #[trigger] v@[idx] == self.coord_spec(
                        y0,
                        step_x,
                        step_y,
                        idx / (w as int),
                        idx % (w as int),
                    ),
            decreases self.rows - rr,
        {
            proof {
                vstd::arithmetic::mul::lemma_mul_inequality(
                    rr as int + 1,
                    self.rows as int,
                    w as int,
                );
                assert((rr + 1) * w == rr * w + w) by (nonlinear_arith);
            }
            let mut x = f8_120::one().neg();
            let mut cc: usize = 0;
            while cc < w
                invariant
                    cc <= w,
                    rr < self.rows,
                    self.rows * self.width <= usize::MAX,
                    w == self.width,
                    rr * w + w <= self.rows * self.width,
                    x == x_pos(step_x, cc as int),
                    y == y_pos(y0, step_y, rr as int),
                    v@.len() == rr * w + cc,
                    forall|idx: int|
                        0 <= idx < v@.len() ==> #[trigger] v@[idx] == self.coord_spec(
                            y0,
                            step_x,
                            step_y,
                            idx / (w as int),
                            idx % (w as int),
                        ),
                decreases w - cc,
            {
                let px = self.center.0.neg() + x * self.scale;
                let py = self.center.1.neg() + y * self.scale;
                proof {
                    vstd::arithmetic::div_mod::lemma_fundamental_div_mod_converse(
                        rr * w + cc,
                        w as int,
                        rr as int,
                        cc as int,
                    );
                }
                v.push((px, py));
                x = x + step_x;
                cc = cc + 1;
            }
            y = y + step_y;
            rr = rr + 1;
        }
        proof {
            assert forall|rr2: int, cc2: int|
                0 <= rr2 < self.rows && 0 <= cc2 < self.width implies v@[rr2 * self.width + cc2]
                == self.coord_spec(y0, step_x, step_y, rr2, cc2) by {
                vstd::arithmetic::div_mod::lemma_fundamental_div_mod_converse(
                    rr2 * self.width + cc2,
                    self.width as int,
                    rr2,
                    cc2,
                );
                vstd::arithmetic::mul::lemma_mul_inequality(
                    rr2 + 1,
                    self.rows as int,
                    self.width as int,
                );
                assert((rr2 + 1) * self.width == rr2 * self.width + self.width)
                    by (nonlinear_arith);
            }
        }
        v
    }
}

/// Rows per strip: `height / target`, but at least one.
pub open spec fn strip_rows(height: int, target: int) -> int {
    if height / target >= 1 {
        height / target
    } else {
        1
    }
}

/// The number of strips that cover `height` rows: `height / strip` rounded
/// up.
pub open spec fn strip_count(height: int, target: int) -> int {
    (height + strip_rows(height, target) - 1) / strip_rows(height, target)
}

/// Cut the raster into horizontal strips of `max(height / target, 1)` rows
/// each — the last strip keeps only what is left — all carrying the same
/// view transform.  Together the strips cover rows `0 .. height` exactly
/// once, in order and without gaps or overlaps.
pub fn make_jobs(
    width: usize,
    height: usize,
    target: usize,
    scale: f8_120,
    center: (f8_120, f8_120),
) -> (jobs: Vec<Job>)
    requires
        target >= 1,
    ensures
        jobs@.len() == strip_count(height as int, target as int),
        forall|k: int|
            0 <= k < jobs@.len() ==> (#[trigger] jobs@[k]) == (Job {
                row: (k * strip_rows(height as int, target as int)) as usize,
                rows: (if k * strip_rows(height as int, target as int) + strip_rows(
                    height as int,
                    target as int,
                ) <= height {
                    strip_rows(height as int, target as int)
                } else {
                    height - k * strip_rows(height as int, target as int)
                }) as usize,
                width,
                height,
                scale,
                center,
            }),
{
    let h: usize = if height / target >= 1 {
        height / target
    } else {
        1
    };
    let mut jobs: Vec<Job> = Vec::new();
    let mut row: usize = 0;
    proof {
        vstd::arithmetic::mul::lemma_mul_basics(h as int);
    }
    while row < height
        invariant
            target >= 1,
            h == strip_rows(height as int, target as int),
            1 <= h,
            row <= height,
            row as int == (if jobs@.len() * h <= height {
                jobs@.len() * h
            } else {
                height as int
            }),
            jobs@.len() >= 1 ==> (jobs@.len() - 1) * h < height,
            forall|k: int|
                0 <= k < jobs@.len() ==> (#[trigger] jobs@[k]) == (Job {
                    row: (k * h) as usize,
                    rows: (if k * h + h <= height {
                        h as int
                    } else {
                        height - k * h
                    }) as usize,
                    width,
                    height,
                    scale,
                    center,
                }),
        decreases height - row,
    {
        let rows: usize = if height - row >= h {
            h
        } else {
            height - row
        };
        let ghost k = jobs@.len() as int;
        proof {
            assert(k * h <= height);
            assert(row == k * h);
            assert((k + 1) * h == k * h + h) by (nonlinear_arith);
        }
        jobs.push(Job::new(row, rows, width, height, scale, center));
        row = row + rows;
    }
    proof {
        let h_i = strip_rows(height as int, target as int);
        let n = jobs@.len() as int;
        if height == 0 {
            assert(strip_count(height as int, target as int) == (h_i - 1) / h_i);
            vstd::arithmetic::div_mod::lemma_basic_div(h_i - 1, h_i);
        } else {
            // the loop stopped exactly at `height`: n strips of h rows round
            // `height` up to the next multiple of h
            assert(n >= 1);
            assert((n - 1) * h_i < height);
            assert(n * h_i >= height) by {
                if n * h_i <= height {
                    assert(row == n * h_i);
                }
            }
            assert(n * h_i == (n - 1) * h_i + h_i) by (nonlinear_arith);
            vstd::arithmetic::div_mod::lemma_fundamental_div_mod_converse(
                height + h_i - 1,
                h_i,
                n,
                height + h_i - 1 - n * h_i,
            );
        }
    }
    jobs
}

/// Each raster row of `0 .. height` lies in exactly one strip of the
/// partition `make_jobs` builds: row `r` falls in strip `r / strip_rows`,
/// and in no other.
pub proof fn lemma_partition_covers(height: int, target: int, r: int)
    requires
        target >= 1,
        0 <= r < height,
    ensures
        ({
            let h = strip_rows(height, target);
            let k = r / h;
            &&& 0 <= k < strip_count(height, target)
            &&& k * h <= r < k * h + (if k * h + h <= height {
                h
            } else {
                height - k * h
            })
            &&& forall|j: int|
                0 <= j < strip_count(height, target) && j != k ==> !((#[trigger] (j * h)) <= r < j
                    * h + (if j * h + h <= height {
                    h
                } else {
                    height - j * h
                }))
        }),
{
    let h = strip_rows(height, target);
    let k = r / h;
    vstd::arithmetic::div_mod::lemma_fundamental_div_mod(r, h);
    vstd::arithmetic::div_mod::lemma_mod_bound(r, h);
    assert(k * h <= r < k * h + h) by (nonlinear_arith)
        requires
            r == h * k + r % h,
            0 <= r % h < h,
    ;
    vstd::arithmetic::div_mod::lemma_div_pos_is_pos(r, h);
    // the strip exists: its first row is below `height`
    let n = strip_count(height, target);
    vstd::arithmetic::div_mod::lemma_fundamental_div_mod(height + h - 1, h);
    vstd::arithmetic::div_mod::lemma_mod_bound(height + h - 1, h);
    assert(k < n) by (nonlinear_arith)
        requires
            k * h <= r,
            r < height,
            height + h - 1 == h * n + (height + h - 1) % h,
            0 <= (height + h - 1) % h < h,
            h >= 1,
    ;
    // no other strip contains `r`
    assert forall|j: int|
        0 <= j < n && j != k implies !((#[trigger] (j * h)) <= r < j * h + (if j * h + h
        <= height {
        h
    } else {
        height - j * h
    })) by {
        if j < k {
            assert(j * h + h <= k * h) by (nonlinear_arith)
                requires
                    j < k,
                    h >= 1,
            ;
        } else {
            assert(k * h + h <= j * h) by (nonlinear_arith)
                requires
                    k < j,
                    h >= 1,
            ;
        }
    }
}

} // verus!
