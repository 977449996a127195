//! Plane geometry on integer coordinates: distances to a point and the test
//! whether a circle blocks the segment from a light to a pixel.
//!
//! Coordinates are whole numbers of sub-pixel units. Every executable
//! function here accepts coordinates of magnitude up to [`COORD_LIMIT`], which
//! keeps all intermediate products inside 128-bit arithmetic.

use vstd::prelude::*;

pub mod laws;

verus! {

/// Largest magnitude of a coordinate or radius that the executable functions
/// accept (2^28 units).
pub const COORD_LIMIT: i64 = 268_435_456;

/// `v` is a coordinate that the executable functions accept.
pub open spec fn in_range(v: int) -> bool {
    -(COORD_LIMIT as int) <= v <= COORD_LIMIT as int
}

/// Squared Euclidean distance between `(ax, ay)` and `(bx, by)`.
pub open spec fn dist_sq(ax: int, ay: int, bx: int, by: int) -> int {
    (bx - ax) * (bx - ax) + (by - ay) * (by - ay)
}

/// The point `(px, py)` lies in the closed disc of radius `r` around
/// `(cx, cy)`: its distance to the centre is at most `r`.
pub open spec fn within_radius(px: int, py: int, cx: int, cy: int, r: int) -> bool {
    r >= 0 && dist_sq(cx, cy, px, py) <= r * r
}

/// Coefficient of `t^2` in the ray equation: the squared length of the
/// segment from the light to the pixel.
pub open spec fn ray_a(lx: int, ly: int, px: int, py: int) -> int {
    dist_sq(lx, ly, px, py)
}

/// Coefficient of `t` in the ray equation: twice the dot product of
/// `light - centre` with `pixel - light`.
pub open spec fn ray_b(lx: int, ly: int, px: int, py: int, cx: int, cy: int) -> int {
    2 * ((lx - cx) * (px - lx) + (ly - cy) * (py - ly))
}

/// Constant term of the ray equation: the squared distance of the light from
/// the centre, less the squared radius.
pub open spec fn ray_c(lx: int, ly: int, cx: int, cy: int, r: int) -> int {
    dist_sq(cx, cy, lx, ly) - r * r
}

/// Discriminant of `a t^2 + b t + c`.
pub open spec fn discriminant(a: int, b: int, c: int) -> int {
    b * b - 4 * a * c
}

/// The non-negative square root of `d` is at most `k`.
pub open spec fn sqrt_at_most(d: int, k: int) -> bool {
    k >= 0 && d <= k * k
}

/// The non-negative square root of `d` is at least `k`.
pub open spec fn sqrt_at_least(d: int, k: int) -> bool {
    k <= 0 || d >= k * k
}

/// The smaller root `(-b - sqrt(d)) / (2a)` lies in `[0, 1]`, for `a > 0` and
/// `d >= 0` the discriminant: `0 <= -b - sqrt(d) <= 2a`.
pub open spec fn lower_root_in_unit(a: int, b: int, d: int) -> bool {
    sqrt_at_most(d, -b) && sqrt_at_least(d, -b - 2 * a)
}

/// The larger root `(-b + sqrt(d)) / (2a)` lies in `[0, 1]`, for `a > 0` and
/// `d >= 0` the discriminant: `0 <= -b + sqrt(d) <= 2a`.
pub open spec fn upper_root_in_unit(a: int, b: int, d: int) -> bool {
    sqrt_at_least(d, b) && sqrt_at_most(d, 2 * a + b)
}

/// The quadratic `a t^2 + b t + c` has a real root in the closed interval
/// `[0, 1]`. A quadratic whose leading coefficient is not positive has none
/// here: with `a == 0` the light and the pixel coincide, the roots are
/// undefined, and the answer is `false`.
pub open spec fn root_in_unit(a: int, b: int, c: int) -> bool {
    let d = discriminant(a, b, c);
    a > 0 && d >= 0 && (lower_root_in_unit(a, b, d) || upper_root_in_unit(a, b, d))
}

/// The circle of radius `r` around `(cx, cy)` meets the segment from the light
/// `(lx, ly)` to the pixel `(px, py)`, end points included.
pub open spec fn occluded(lx: int, ly: int, px: int, py: int, cx: int, cy: int, r: int) -> bool {
    root_in_unit(ray_a(lx, ly, px, py), ray_b(lx, ly, px, py, cx, cy), ray_c(lx, ly, cx, cy, r))
}

/// A product is bounded by the product of the bounds of its factors.
proof fn lemma_product_bound(x: int, y: int, bx: int, by: int)
    by (nonlinear_arith)
    requires
        -bx <= x <= bx,
        -by <= y <= by,
    ensures
        -(bx * by) <= x * y <= bx * by,
{
}

/// Decides whether `(px, py)` lies within distance `r` of `(cx, cy)`, the
/// distance `r` itself included.
pub fn is_within_radius(px: i64, py: i64, cx: i64, cy: i64, r: i64) -> (inside: bool)
    requires
        in_range(px as int),
        in_range(py as int),
        in_range(cx as int),
        in_range(cy as int),
        in_range(r as int),
    ensures
        inside == within_radius(px as int, py as int, cx as int, cy as int, r as int),
{
    if r < 0 {
        return false;
    }
    let dx: i64 = px - cx;
    let dy: i64 = py - cy;
    proof {
        lemma_product_bound(dx as int, dx as int, 536_870_912, 536_870_912);
        lemma_product_bound(dy as int, dy as int, 536_870_912, 536_870_912);
        lemma_product_bound(r as int, r as int, 268_435_456, 268_435_456);
    }
    dx * dx + dy * dy <= r * r
}

/// Decides whether the circle of radius `occluder_radius` around the occluder
/// blocks the line of sight from the light to the pixel.
///
/// The segment from the light to the pixel is `P(t) = light + t (pixel - light)`
/// for `t` in `[0, 1]`; the answer is `true` exactly when the equation
/// `a t^2 + b t + c = 0` of its meeting the circle has a real root in that
/// interval. When the pixel is the light itself the segment has no length and
/// the answer is `false`.
pub fn is_occluded(
    light_x: i64,
    light_y: i64,
    pixel_x: i64,
    pixel_y: i64,
    occluder_x: i64,
    occluder_y: i64,
    occluder_radius: i64,
) -> (blocked: bool)
    requires
        in_range(light_x as int),
        in_range(light_y as int),
        in_range(pixel_x as int),
        in_range(pixel_y as int),
        in_range(occluder_x as int),
        in_range(occluder_y as int),
        in_range(occluder_radius as int),
    ensures
        blocked == occluded(
            light_x as int,
            light_y as int,
            pixel_x as int,
            pixel_y as int,
            occluder_x as int,
            occluder_y as int,
            occluder_radius as int,
        ),
{
    let dx: i128 = (pixel_x - light_x) as i128;
    let dy: i128 = (pixel_y - light_y) as i128;
    let fx: i128 = (light_x - occluder_x) as i128;
    let fy: i128 = (light_y - occluder_y) as i128;
    let r: i128 = occluder_radius as i128;
    proof {
        let m: int = 536_870_912;
        lemma_product_bound(dx as int, dx as int, m, m);
        lemma_product_bound(dy as int, dy as int, m, m);
        lemma_product_bound(fx as int, dx as int, m, m);
        lemma_product_bound(fy as int, dy as int, m, m);
        lemma_product_bound(fx as int, fx as int, m, m);
        lemma_product_bound(fy as int, fy as int, m, m);
        lemma_product_bound(r as int, r as int, m, m);
    }
    let a: i128 = dx * dx + dy * dy;
    let b: i128 = 2 * (fx * dx + fy * dy);
    let c: i128 = fx * fx + fy * fy - r * r;
    if a <= 0 {
        return false;
    }
    let lo: i128 = -b;
    let lo_far: i128 = -b - 2 * a;
    let hi_far: i128 = 2 * a + b;
    proof {
        let q: int = 0x4000_0000_0000_0000;
        lemma_product_bound(b as int, b as int, q, q);
        lemma_product_bound(a as int, c as int, q, q);
        lemma_product_bound(lo as int, lo as int, q, q);
        lemma_product_bound(lo_far as int, lo_far as int, q, q);
        lemma_product_bound(hi_far as int, hi_far as int, q, q);
        assert(4 * (a * c) == 4 * a * c) by (nonlinear_arith);
    }
    let d: i128 = b * b - 4 * (a * c);
    if d < 0 {
        return false;
    }
    let lower: bool = (lo >= 0 && d <= lo * lo) && (lo_far <= 0 || d >= lo_far * lo_far);
    let upper: bool = (b <= 0 || d >= b * b) && (hi_far >= 0 && d <= hi_far * hi_far);
    lower || upper
}

} // verus!
