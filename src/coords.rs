//! The coordinate mapper: from a pixel index to a point of the plane.
use vstd::prelude::*;
use crate::config::Bounds;
use crate::escape::Point;

verus! {

/// Linear interpolation on one axis: `lo + (p / dim) * (hi - lo)`, rounded down
/// to the fixed-point grid.
pub open spec fn axis_coord(lo: int, hi: int, p: int, dim: int) -> int {
    lo + (p * (hi - lo)) / dim
}

/// The top-left sample point of pixel `i` in row-major order.
pub open spec fn pixel_point(i: nat, resolution: (u32, u32), b: Bounds) -> (int, int) {
    let w = resolution.0 as int;
    let h = resolution.1 as int;
    (axis_coord(b.x_min as int, b.x_max as int, (i as int) % w, w), axis_coord(
        b.y_min as int,
        b.y_max as int,
        (i as int) / w,
        h,
    ))
}

/// One axis of the mapping; the result lies in `[lo, hi)`.
fn interpolate(lo: i32, hi: i32, p: u32, dim: u32) -> (r: i32)
    requires
        lo < hi,
        p < dim,
    ensures
        r == axis_coord(lo as int, hi as int, p as int, dim as int),
        lo <= r < hi,
{
    let span: u64 = (hi as i64 - lo as i64) as u64;
    assert((p as u64) * span < (dim as u64) * span) by (nonlinear_arith)
        requires
            p < dim,
            span > 0,
    ;
    assert((dim as u64) * span <= 0xffff_ffff * 0xffff_ffff) by (nonlinear_arith)
        requires
            dim <= 0xffff_ffff,
            span <= 0xffff_ffff,
    ;
    let prod: u64 = (p as u64) * span;
    let off: u64 = prod / (dim as u64);
    proof {
        vstd::arithmetic::div_mod::lemma_div_is_ordered_by_denominator(prod as int, 1, dim as int);
        assert(off < span) by (nonlinear_arith)
            requires
                off == prod / (dim as u64),
                prod < dim * span,
                dim > 0,
        ;
    }
    (lo as i64 + off as i64) as i32
}

/// Maps a pixel index to its point of the plane; the same arguments give the
/// same point, whoever asks.
pub fn get_coordinates_from_pixel_number(pixel_num: u32, resolution: (u32, u32), bounds: Bounds) -> (r: Point)
    requires
        resolution.0 > 0,
        resolution.1 > 0,
        pixel_num < resolution.0 * resolution.1,
        bounds.x_min < bounds.x_max,
        bounds.y_min < bounds.y_max,
    ensures
        (r.x as int, r.y as int) == pixel_point(pixel_num as nat, resolution, bounds),
{
    let x = pixel_num % resolution.0;
    let y = pixel_num / resolution.0;
    assert(y < resolution.1) by (nonlinear_arith)
        requires
            y == pixel_num / resolution.0,
            pixel_num < resolution.0 * resolution.1,
            resolution.0 > 0,
    ;
    Point {
        x: interpolate(bounds.x_min, bounds.x_max, x, resolution.0),
        y: interpolate(bounds.y_min, bounds.y_max, y, resolution.1),
    }
}

} // verus!
