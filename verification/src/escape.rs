//! The fixed-point phase of the escape-time iteration.
//!
//! A pixel's orbit `z <- z^2 + c` is iterated in Q8.120 arithmetic while
//! the squared magnitude stays within the given radius and the counter
//! stays under the cap.  At extreme zoom the early iterations need
//! sub-double precision, which is exactly what this phase provides; once
//! the orbit leaves the unit disk the caller may continue the identical
//! iteration in double precision without losing accuracy.

use crate::fixed_point::f8_120;
use core::cmp::Ordering;
use vstd::prelude::*;

verus! {

/// One step of the escape-time iteration `z <- z^2 + c`, carried out in
/// Q8.120 arithmetic exactly as the evaluator computes it: the new real
/// part is `zx^2 - zy^2 + cx`, the new imaginary part `two*zx*zy + cy`.
pub open spec fn orbit_step(
    zx: f8_120,
    zy: f8_120,
    cx: f8_120,
    cy: f8_120,
    two: f8_120,
) -> (f8_120, f8_120) {
    let xx = zx.mul_spec(zx);
    let yy = zy.mul_spec(zy);
    (xx.sub_spec(yy).add_spec(cx), two.mul_spec(zx).mul_spec(zy).add_spec(cy))
}

/// The state the iteration reaches when run from `(zx, zy)` with counter
/// `i`: it steps while the squared magnitude `zx^2 + zy^2` does not exceed
/// `max_xy` and the counter is below `max_i`, and stops at the first state
/// that fails either test.
pub open spec fn partial_et_spec(
    cx: f8_120,
    cy: f8_120,
    max_i: int,
    max_xy: f8_120,
    two: f8_120,
    zx: f8_120,
    zy: f8_120,
    i: int,
) -> (f8_120, f8_120, int)
    decreases max_i - i,
{
    let xx = zx.mul_spec(zx);
    let yy = zy.mul_spec(zy);
    if i < max_i && xx.add_spec(yy).cmp_spec(max_xy) != Ordering::Greater {
        let nxt = orbit_step(zx, zy, cx, cy, two);
        partial_et_spec(cx, cy, max_i, max_xy, two, nxt.0, nxt.1, i + 1)
    } else {
        (zx, zy, i)
    }
}

/// Run the escape-time iteration `z <- z^2 + c` in fixed point from state
/// `(x1, y1)` with counter `i`, until the squared magnitude exceeds
/// `max_xy` or the counter reaches `max_i`; the result is the state and
/// counter at that point.  The caller picks the escape radius and hands in
/// the constant two, so the same loop serves any radius.
pub fn partial_et(
    x: f8_120,
    y: f8_120,
    max_i: i32,
    max_xy: f8_120,
    two: f8_120,
    x1: f8_120,
    y1: f8_120,
    i: i32,
) -> (r: (f8_120, f8_120, i32))
    ensures
        (r.0, r.1, r.2 as int) == partial_et_spec(
            x,
            y,
            max_i as int,
            max_xy,
            two,
            x1,
            y1,
            i as int,
        ),
{
    let mut zx = x1;
    let mut zy = y1;
    let mut n: i32 = i;
    let mut xx = zx * zx;
    let mut yy = zy * zy;
    while xx + yy <= max_xy && n < max_i
        invariant
            xx == zx.mul_spec(zx),
            yy == zy.mul_spec(zy),
            n <= max_i || n == i,
            partial_et_spec(x, y, max_i as int, max_xy, two, zx, zy, n as int)
                == partial_et_spec(x, y, max_i as int, max_xy, two, x1, y1, i as int),
        decreases max_i - n,
    {
        let xtemp = xx - yy + x;
        zy = two * zx * zy + y;
        zx = xtemp;
        n = n + 1;
        xx = zx * zx;
        yy = zy * zy;
    }
    (zx, zy, n)
}

} // verus!
