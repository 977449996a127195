//! Laws of the shadow test: what it depends on, and how its answer relates
//! to where the light, the pixel and the circle lie.

use vstd::prelude::*;
use crate::geometry::{
    discriminant, dist_sq, lower_root_in_unit, occluded, ray_a, ray_b, ray_c, root_in_unit,
    upper_root_in_unit, within_radius,
};

verus! {

/// Where a point goes horizontally under the map that multiplies by the
/// matrix `((xx, xy), (yx, yy))` and then shifts by `(tx, ty)`.
pub open spec fn moved_x(xx: int, xy: int, tx: int, x: int, y: int) -> int {
    xx * x + xy * y + tx
}

/// Where a point goes vertically under the same map.
pub open spec fn moved_y(yx: int, yy: int, ty: int, x: int, y: int) -> int {
    yx * x + yy * y + ty
}

/// The matrix `((xx, xy), (yx, yy))` turns or reflects the plane and scales
/// it by `k`: its columns have length `k` and are perpendicular. With `k ==
/// 1` these are the quarter turns and the reflections in the axes and the
/// diagonals; `((3, -4), (4, 3))` with `k == 5` is a turn by the angle whose
/// cosine is 3/5, together with a scaling by 5.
pub open spec fn is_similarity(xx: int, xy: int, yx: int, yy: int, k: int) -> bool {
    &&& k > 0
    &&& xx * xx + yx * yx == k * k
    &&& xy * xy + yy * yy == k * k
    &&& xx * xy + yx * yy == 0
}

/// The product of two sums of two terms, written out.
proof fn lemma_row_product(p: int, q: int, ux: int, uy: int, vx: int, vy: int)
    ensures
        (p * ux + q * uy) * (p * vx + q * vy) == (p * p) * (ux * vx) + (p * q) * (ux * vy + uy
            * vx) + (q * q) * (uy * vy),
{
    let a = p * ux;
    let b = q * uy;
    let c = p * vx;
    let d = q * vy;
    assert((a + b) * (c + d) == a * c + a * d + b * c + b * d) by (nonlinear_arith);
    assert(a * c == (p * p) * (ux * vx)) by (nonlinear_arith)
        requires
            a == p * ux,
            c == p * vx,
    ;
    assert(a * d == (p * q) * (ux * vy)) by (nonlinear_arith)
        requires
            a == p * ux,
            d == q * vy,
    ;
    assert(b * c == (p * q) * (uy * vx)) by (nonlinear_arith)
        requires
            b == q * uy,
            c == p * vx,
    ;
    assert(b * d == (q * q) * (uy * vy)) by (nonlinear_arith)
        requires
            b == q * uy,
            d == q * vy,
    ;
    assert((p * q) * (ux * vy + uy * vx) == (p * q) * (ux * vy) + (p * q) * (uy * vx))
        by (nonlinear_arith);
}

/// A similarity multiplies the dot product of two vectors by `k^2`.
proof fn lemma_dot_scaled(
    xx: int,
    xy: int,
    yx: int,
    yy: int,
    k: int,
    ux: int,
    uy: int,
    vx: int,
    vy: int,
)
    requires
        is_similarity(xx, xy, yx, yy, k),
    ensures
        (xx * ux + xy * uy) * (xx * vx + xy * vy) + (yx * ux + yy * uy) * (yx * vx + yy * vy) == (k
            * k) * (ux * vx + uy * vy),
{
    lemma_row_product(xx, xy, ux, uy, vx, vy);
    lemma_row_product(yx, yy, ux, uy, vx, vy);
    let s = ux * vx;
    let m = ux * vy + uy * vx;
    let t = uy * vy;
    assert((xx * xx) * s + (yx * yx) * s == (xx * xx + yx * yx) * s) by (nonlinear_arith);
    assert((xx * xy) * m + (yx * yy) * m == (xx * xy + yx * yy) * m) by (nonlinear_arith);
    assert((xy * xy) * t + (yy * yy) * t == (xy * xy + yy * yy) * t) by (nonlinear_arith);
    assert((k * k) * s + (k * k) * t == (k * k) * (s + t)) by (nonlinear_arith);
}

/// Multiplying the three coefficients of a quadratic by one positive number
/// leaves its roots, and so the test on them, as they are.
proof fn lemma_root_test_scales(a: int, b: int, c: int, s: int)
    requires
        s > 0,
    ensures
        root_in_unit(s * a, s * b, s * c) == root_in_unit(a, b, c),
{
    lemma_positive_times(s, a);
    lemma_positive_times(s, b);
    lemma_positive_times(s, c);
    lemma_positive_times(s, 2 * a + b);
    lemma_positive_times(s, a + b + c);
    assert(s * (2 * a + b) == 2 * (s * a) + s * b && s * (a + b + c) == s * a + s * b + s * c)
        by (nonlinear_arith);
    assert(discriminant(s * a, s * b, s * c) == (s * s) * discriminant(a, b, c)) by {
        assert((s * b) * (s * b) == (s * s) * (b * b)) by (nonlinear_arith);
        assert((s * a) * (s * c) == (s * s) * (a * c)) by (nonlinear_arith);
        assert(4 * (s * a) * (s * c) == 4 * ((s * a) * (s * c))) by (nonlinear_arith);
        assert(4 * a * c == 4 * (a * c)) by (nonlinear_arith);
        assert((s * s) * (b * b - 4 * (a * c)) == (s * s) * (b * b) - 4 * ((s * s) * (a * c)))
            by (nonlinear_arith);
    }
    assert(s * s > 0) by (nonlinear_arith)
        requires
            s > 0,
    ;
    lemma_positive_times(s * s, discriminant(a, b, c));
    if s * a > 0 {
        assert(a > 0) by (nonlinear_arith)
            requires
                s > 0,
                s * a > 0,
        ;
        law_root_test_by_end_values(s * a, s * b, s * c);
        law_root_test_by_end_values(a, b, c);
    } else {
        assert(a <= 0) by (nonlinear_arith)
            requires
                s > 0,
                s * a <= 0,
        ;
    }
}

/// The difference of two moved points is the matrix applied to their
/// difference.
proof fn lemma_moved_difference(p: int, q: int, t: int, ax: int, ay: int, bx: int, by: int)
    by (nonlinear_arith)
    ensures
        moved_x(p, q, t, bx, by) - moved_x(p, q, t, ax, ay) == p * (bx - ax) + q * (by - ay),
{
}

/// The shadow test depends on relative position only: shifting the light, the
/// pixel and the occluder by one and the same vector does not change it.
pub proof fn law_occluded_shift(
    tx: int,
    ty: int,
    lx: int,
    ly: int,
    px: int,
    py: int,
    cx: int,
    cy: int,
    r: int,
)
    ensures
        occluded(lx + tx, ly + ty, px + tx, py + ty, cx + tx, cy + ty, r) == occluded(
            lx,
            ly,
            px,
            py,
            cx,
            cy,
            r,
        ),
{
    assert((px + tx) - (lx + tx) == px - lx);
    assert((py + ty) - (ly + ty) == py - ly);
    assert((lx + tx) - (cx + tx) == lx - cx);
    assert((ly + ty) - (cy + ty) == ly - cy);
}

/// The shadow test depends on relative geometry only: it is the same after
/// the whole scene is turned or reflected, scaled by `k` and shifted, the
/// light, the pixel and the occluder's centre alike, with the radius scaled
/// by `k` too.
pub proof fn law_occluded_similarity(
    xx: int,
    xy: int,
    yx: int,
    yy: int,
    k: int,
    tx: int,
    ty: int,
    lx: int,
    ly: int,
    px: int,
    py: int,
    cx: int,
    cy: int,
    r: int,
)
    requires
        is_similarity(xx, xy, yx, yy, k),
    ensures
        occluded(
            moved_x(xx, xy, tx, lx, ly),
            moved_y(yx, yy, ty, lx, ly),
            moved_x(xx, xy, tx, px, py),
            moved_y(yx, yy, ty, px, py),
            moved_x(xx, xy, tx, cx, cy),
            moved_y(yx, yy, ty, cx, cy),
            k * r,
        ) == occluded(lx, ly, px, py, cx, cy, r),
{
    let dx = px - lx;
    let dy = py - ly;
    let fx = lx - cx;
    let fy = ly - cy;
    let a = ray_a(lx, ly, px, py);
    let b = ray_b(lx, ly, px, py, cx, cy);
    let c = ray_c(lx, ly, cx, cy, r);
    lemma_moved_difference(xx, xy, tx, lx, ly, px, py);
    lemma_moved_difference(yx, yy, ty, lx, ly, px, py);
    lemma_moved_difference(xx, xy, tx, cx, cy, lx, ly);
    lemma_moved_difference(yx, yy, ty, cx, cy, lx, ly);
    lemma_dot_scaled(xx, xy, yx, yy, k, dx, dy, dx, dy);
    lemma_dot_scaled(xx, xy, yx, yy, k, fx, fy, dx, dy);
    lemma_dot_scaled(xx, xy, yx, yy, k, fx, fy, fx, fy);
    assert(ray_a(
        moved_x(xx, xy, tx, lx, ly),
        moved_y(yx, yy, ty, lx, ly),
        moved_x(xx, xy, tx, px, py),
        moved_y(yx, yy, ty, px, py),
    ) == (k * k) * a);
    assert(ray_b(
        moved_x(xx, xy, tx, lx, ly),
        moved_y(yx, yy, ty, lx, ly),
        moved_x(xx, xy, tx, px, py),
        moved_y(yx, yy, ty, px, py),
        moved_x(xx, xy, tx, cx, cy),
        moved_y(yx, yy, ty, cx, cy),
    ) == (k * k) * b) by {
        assert(2 * ((k * k) * (fx * dx + fy * dy)) == (k * k) * (2 * (fx * dx + fy * dy)))
            by (nonlinear_arith);
    }
    assert(ray_c(
        moved_x(xx, xy, tx, lx, ly),
        moved_y(yx, yy, ty, lx, ly),
        moved_x(xx, xy, tx, cx, cy),
        moved_y(yx, yy, ty, cx, cy),
        k * r,
    ) == (k * k) * c) by {
        assert((k * r) * (k * r) == (k * k) * (r * r)) by (nonlinear_arith);
        assert((k * k) * (fx * fx + fy * fy) - (k * k) * (r * r) == (k * k) * (fx * fx + fy * fy
            - r * r)) by (nonlinear_arith);
    }
    assert(k * k > 0) by (nonlinear_arith)
        requires
            k > 0,
    ;
    lemma_root_test_scales(a, b, c, k * k);
}

/// The shadow test is the same after a rigid motion of the whole scene: a
/// quarter turn or a reflection followed by a shift, applied to the light,
/// the pixel and the occluder alike.
pub proof fn law_occluded_rigid_motion(
    xx: int,
    xy: int,
    yx: int,
    yy: int,
    tx: int,
    ty: int,
    lx: int,
    ly: int,
    px: int,
    py: int,
    cx: int,
    cy: int,
    r: int,
)
    requires
        is_similarity(xx, xy, yx, yy, 1),
    ensures
        occluded(
            moved_x(xx, xy, tx, lx, ly),
            moved_y(yx, yy, ty, lx, ly),
            moved_x(xx, xy, tx, px, py),
            moved_y(yx, yy, ty, px, py),
            moved_x(xx, xy, tx, cx, cy),
            moved_y(yx, yy, ty, cx, cy),
            r,
        ) == occluded(lx, ly, px, py, cx, cy, r),
{
    law_occluded_similarity(xx, xy, yx, yy, 1, tx, ty, lx, ly, px, py, cx, cy, r);
}

/// Squares keep the order of non-negative numbers.
proof fn lemma_square_order(x: int, y: int)
    by (nonlinear_arith)
    requires
        0 <= x <= y,
    ensures
        x * x <= y * y,
{
}

/// A common positive factor can be dropped from both sides of an inequality.
proof fn lemma_cancel_positive(x: int, y: int, k: int)
    by (nonlinear_arith)
    requires
        k > 0,
        x * k <= y * k,
    ensures
        x <= y,
{
}

/// A product with a positive number has the sign of the other factor.
proof fn lemma_sign_of_product(x: int, k: int)
    by (nonlinear_arith)
    requires
        k > 0,
    ensures
        x >= 0 <==> x * k >= 0,
        x > 0 <==> x * k > 0,
        (x * k) * (x * k) == (x * x) * (k * k),
{
}

/// The value of `a t^2 + b t + c` at `t = 1`, in the terms of the scene: the
/// squared distance of the pixel from the centre, less the squared radius.
proof fn lemma_value_at_pixel(lx: int, ly: int, px: int, py: int, cx: int, cy: int, r: int)
    by (nonlinear_arith)
    ensures
        ray_a(lx, ly, px, py) + ray_b(lx, ly, px, py, cx, cy) + ray_c(lx, ly, cx, cy, r)
            == dist_sq(cx, cy, px, py) - r * r,
{
}

/// The two squares that decide where the roots lie, set against the
/// discriminant.
proof fn lemma_discriminant_forms(a: int, b: int, c: int)
    by (nonlinear_arith)
    ensures
        b * b - discriminant(a, b, c) == 4 * (a * c),
        (2 * a + b) * (2 * a + b) - discriminant(a, b, c) == 4 * (a * (a + b + c)),
        (-b - 2 * a) * (-b - 2 * a) == (2 * a + b) * (2 * a + b),
        (-b) * (-b) == b * b,
{
}

/// The sign of a product with a positive first factor.
proof fn lemma_positive_times(a: int, x: int)
    by (nonlinear_arith)
    requires
        a > 0,
    ensures
        x >= 0 <==> a * x >= 0,
        x <= 0 <==> a * x <= 0,
{
}

/// The test on the roots, read off the values of the quadratic at the two
/// ends of the segment: `c` at the light and `a + b + c` at the pixel.
pub proof fn law_root_test_by_end_values(a: int, b: int, c: int)
    requires
        a > 0,
    ensures
        root_in_unit(a, b, c) <==> discriminant(a, b, c) >= 0 && ((b <= 0 && c >= 0 && (2 * a + b
            >= 0 || a + b + c <= 0)) || ((b <= 0 || c <= 0) && 2 * a + b >= 0 && a + b + c >= 0)),
{
    lemma_discriminant_forms(a, b, c);
    lemma_positive_times(a, c);
    lemma_positive_times(a, a + b + c);
}

/// A circle that holds exactly one end of the segment blocks it: when the
/// light is within the radius and the pixel is not, or the pixel is and the
/// light is not, the shadow test says blocked.
pub proof fn law_circle_around_one_end_blocks(
    lx: int,
    ly: int,
    px: int,
    py: int,
    cx: int,
    cy: int,
    r: int,
)
    requires
        r >= 0,
        within_radius(lx, ly, cx, cy, r) != within_radius(px, py, cx, cy, r),
    ensures
        occluded(lx, ly, px, py, cx, cy, r),
{
    let a = ray_a(lx, ly, px, py);
    let b = ray_b(lx, ly, px, py, cx, cy);
    let c = ray_c(lx, ly, cx, cy, r);
    lemma_value_at_pixel(lx, ly, px, py, cx, cy, r);
    assert(a >= 0) by (nonlinear_arith)
        requires
            a == (px - lx) * (px - lx) + (py - ly) * (py - ly),
    ;
    if a == 0 {
        assert(px - lx == 0 && py - ly == 0) by (nonlinear_arith)
            requires
                0 == (px - lx) * (px - lx) + (py - ly) * (py - ly),
        ;
        assert(false);
    }
    lemma_discriminant_forms(a, b, c);
    lemma_positive_times(a, c);
    lemma_positive_times(a, a + b + c);
    law_root_test_by_end_values(a, b, c);
    assert((2 * a + b) * (2 * a + b) >= 0) by (nonlinear_arith);
    assert(b * b >= 0) by (nonlinear_arith);
}

/// A circle that holds both ends of the segment strictly inside does not
/// block it: the segment never meets the circle's rim.
pub proof fn law_circle_around_both_ends_is_clear(
    lx: int,
    ly: int,
    px: int,
    py: int,
    cx: int,
    cy: int,
    r: int,
)
    requires
        dist_sq(cx, cy, lx, ly) < r * r,
        dist_sq(cx, cy, px, py) < r * r,
    ensures
        !occluded(lx, ly, px, py, cx, cy, r),
{
    let a = ray_a(lx, ly, px, py);
    let b = ray_b(lx, ly, px, py, cx, cy);
    let c = ray_c(lx, ly, cx, cy, r);
    lemma_value_at_pixel(lx, ly, px, py, cx, cy, r);
    if a > 0 {
        law_root_test_by_end_values(a, b, c);
    }
}

/// The test finds every exact hit: if the point of the segment at the
/// parameter `p / q`, a fraction between 0 and 1, is a root of the quadratic,
/// so that it lies on the circle, then the quadratic has a root in the unit
/// interval.
pub proof fn law_exact_hit_is_found(a: int, b: int, c: int, p: int, q: int)
    requires
        a > 0,
        0 <= p <= q,
        q > 0,
        a * (p * p) + b * (p * q) + c * (q * q) == 0,
    ensures
        root_in_unit(a, b, c),
{
    let d = discriminant(a, b, c);
    let u = 2 * (a * p) + b * q;
    lemma_discriminant_from_value(a, b, c, p, q);
    assert(4 * (a * 0) == 0);
    assert(q * q > 0) by (nonlinear_arith)
        requires
            q > 0,
    ;
    assert(u * u >= 0) by (nonlinear_arith);
    assert(0 * (q * q) == 0);
    lemma_cancel_positive(0, d, q * q);
    // The far end of the segment, scaled by q.
    let w = (2 * a + b) * q;
    assert(w - u == 2 * (a * (q - p)) && a * (q - p) >= 0 && a * p >= 0) by (nonlinear_arith)
        requires
            w == (2 * a + b) * q,
            u == 2 * (a * p) + b * q,
            a > 0,
            0 <= p <= q,
    ;
    lemma_sign_of_product(2 * a + b, q);
    lemma_sign_of_product(b, q);
    lemma_sign_of_product(-b, q);
    lemma_sign_of_product(-b - 2 * a, q);
    assert((-b) * q == -(b * q) && (-b - 2 * a) * q == -w) by (nonlinear_arith)
        requires
            w == (2 * a + b) * q,
    ;
    if u >= 0 {
        // The larger root.
        if b > 0 {
            lemma_square_order(b * q, u);
            lemma_cancel_positive(b * b, d, q * q);
        }
        lemma_square_order(u, w);
        lemma_cancel_positive(d, (2 * a + b) * (2 * a + b), q * q);
        assert(upper_root_in_unit(a, b, d));
    } else {
        // The smaller root.
        lemma_square_order(-u, -(b * q));
        assert((-u) * (-u) == u * u && (-(b * q)) * (-(b * q)) == (b * q) * (b * q)
            && (-w) * (-w) == w * w) by (nonlinear_arith);
        lemma_cancel_positive(d, b * b, q * q);
        assert((-b) * (-b) == b * b) by (nonlinear_arith);
        if -b - 2 * a > 0 {
            lemma_square_order(-w, -u);
            lemma_cancel_positive((2 * a + b) * (2 * a + b), d, q * q);
            assert((-b - 2 * a) * (-b - 2 * a) == (2 * a + b) * (2 * a + b)) by (nonlinear_arith);
        }
        assert(lower_root_in_unit(a, b, d));
    }
}

/// The square of `q f + p d`, with its terms sorted by the powers of `p` and
/// `q`.
proof fn lemma_scaled_sum_squared(q: int, f: int, p: int, d: int)
    ensures
        (q * f + p * d) * (q * f + p * d) == (f * f) * (q * q) + 2 * ((f * d) * (p * q)) + (d * d)
            * (p * p),
{
    let u = q * f;
    let v = p * d;
    assert((u + v) * (u + v) == u * u + 2 * (u * v) + v * v) by (nonlinear_arith);
    assert(u * u == (f * f) * (q * q)) by (nonlinear_arith)
        requires
            u == q * f,
    ;
    assert(u * v == (f * d) * (p * q)) by (nonlinear_arith)
        requires
            u == q * f,
            v == p * d,
    ;
    assert(v * v == (d * d) * (p * p)) by (nonlinear_arith)
        requires
            v == p * d,
    ;
}

/// The quadratic at the parameter `p / q`, cleared of fractions, is the
/// squared distance from the centre of the point `light + (p / q) (pixel -
/// light)`, less the squared radius, both scaled by `q^2`.
proof fn lemma_value_on_segment(
    lx: int,
    ly: int,
    px: int,
    py: int,
    cx: int,
    cy: int,
    r: int,
    p: int,
    q: int,
)
    ensures
        ray_a(lx, ly, px, py) * (p * p) + ray_b(lx, ly, px, py, cx, cy) * (p * q) + ray_c(
            lx,
            ly,
            cx,
            cy,
            r,
        ) * (q * q) == dist_sq(
            q * cx,
            q * cy,
            q * lx + p * (px - lx),
            q * ly + p * (py - ly),
        ) - (r * r) * (q * q),
{
    let dx = px - lx;
    let dy = py - ly;
    let fx = lx - cx;
    let fy = ly - cy;
    let pp = p * p;
    let pq = p * q;
    let qq = q * q;
    let x = q * lx + p * dx - q * cx;
    let y = q * ly + p * dy - q * cy;
    assert(x == q * fx + p * dx) by (nonlinear_arith)
        requires
            x == q * lx + p * dx - q * cx,
            fx == lx - cx,
    ;
    assert(y == q * fy + p * dy) by (nonlinear_arith)
        requires
            y == q * ly + p * dy - q * cy,
            fy == ly - cy,
    ;
    lemma_scaled_sum_squared(q, fx, p, dx);
    lemma_scaled_sum_squared(q, fy, p, dy);
    assert((dx * dx + dy * dy) * pp == (dx * dx) * pp + (dy * dy) * pp) by (nonlinear_arith);
    assert((2 * (fx * dx + fy * dy)) * pq == 2 * ((fx * dx) * pq) + 2 * ((fy * dy) * pq))
        by (nonlinear_arith);
    assert((fx * fx + fy * fy - r * r) * qq == (fx * fx) * qq + (fy * fy) * qq - (r * r) * qq)
        by (nonlinear_arith);
}

/// A point of the segment on the circle's rim is a shadow: if the point at
/// the fraction `p / q` of the way from the light to the pixel lies at
/// exactly the radius from the centre, and the pixel is not the light itself,
/// the shadow test says blocked. The point is given scaled by `q`, so that it
/// has whole coordinates.
pub proof fn law_rim_point_on_segment_blocks(
    lx: int,
    ly: int,
    px: int,
    py: int,
    cx: int,
    cy: int,
    r: int,
    p: int,
    q: int,
)
    requires
        lx != px || ly != py,
        0 <= p <= q,
        q > 0,
        dist_sq(q * cx, q * cy, q * lx + p * (px - lx), q * ly + p * (py - ly)) == (r * r) * (q
            * q),
    ensures
        occluded(lx, ly, px, py, cx, cy, r),
{
    let a = ray_a(lx, ly, px, py);
    assert(a > 0) by (nonlinear_arith)
        requires
            a == (px - lx) * (px - lx) + (py - ly) * (py - ly),
            lx != px || ly != py,
    ;
    lemma_value_on_segment(lx, ly, px, py, cx, cy, r, p, q);
    law_exact_hit_is_found(
        a,
        ray_b(lx, ly, px, py, cx, cy),
        ray_c(lx, ly, cx, cy, r),
        p,
        q,
    );
}

/// When the pixel is the light itself the segment has no length, and the
/// shadow test says clear, wherever the occluder is.
pub proof fn law_no_shadow_on_the_light(lx: int, ly: int, cx: int, cy: int, r: int)
    ensures
        !occluded(lx, ly, lx, ly, cx, cy, r),
{
}

/// The quadratic at `p / q`, cleared of fractions, written from the far end
/// of the segment: in powers of `q - p`.
proof fn lemma_value_from_far_end(a: int, b: int, c: int, p: int, q: int)
    ensures
        a * (p * p) + b * (p * q) + c * (q * q) == (a + b + c) * (q * q) - (2 * a + b) * ((q - p)
            * q) + a * ((q - p) * (q - p)),
{
    let pp = p * p;
    let pq = p * q;
    let qq = q * q;
    assert((q - p) * q == qq - pq) by (nonlinear_arith)
        requires
            pq == p * q,
            qq == q * q,
    ;
    assert((q - p) * (q - p) == qq - 2 * pq + pp) by (nonlinear_arith)
        requires
            pp == p * p,
            pq == p * q,
            qq == q * q,
    ;
    assert((a + b + c) * qq == a * qq + b * qq + c * qq) by (nonlinear_arith);
    assert((2 * a + b) * (qq - pq) == 2 * (a * qq) + b * qq - 2 * (a * pq) - b * pq)
        by (nonlinear_arith);
    assert(a * (qq - 2 * pq + pp) == a * qq - 2 * (a * pq) + a * pp) by (nonlinear_arith);
}

/// With `u = 2 a p + b q`, the square of `u` is the discriminant times `q^2`
/// and four times `a` times the quadratic at `p / q`, cleared of fractions.
proof fn lemma_discriminant_from_value(a: int, b: int, c: int, p: int, q: int)
    ensures
        (2 * (a * p) + b * q) * (2 * (a * p) + b * q) == discriminant(a, b, c) * (q * q) + 4 * (a
            * (a * (p * p) + b * (p * q) + c * (q * q))),
{
    let ap = a * p;
    let bq = b * q;
    let pp = p * p;
    let pq = p * q;
    let qq = q * q;
    assert((2 * ap + bq) * (2 * ap + bq) == 4 * (ap * ap) + 4 * (ap * bq) + bq * bq)
        by (nonlinear_arith);
    assert(ap * ap == a * (a * pp)) by (nonlinear_arith)
        requires
            ap == a * p,
            pp == p * p,
    ;
    assert(ap * bq == a * (b * pq)) by (nonlinear_arith)
        requires
            ap == a * p,
            bq == b * q,
            pq == p * q,
    ;
    assert(bq * bq == (b * b) * qq) by (nonlinear_arith)
        requires
            bq == b * q,
            qq == q * q,
    ;
    assert(a * (a * pp + b * pq + c * qq) == a * (a * pp) + a * (b * pq) + (a * c) * qq)
        by (nonlinear_arith);
    assert((b * b - 4 * a * c) * qq == (b * b) * qq - 4 * ((a * c) * qq)) by (nonlinear_arith);
}

/// A segment that reaches the disc and is not wholly inside it meets the rim:
/// if the quadratic is not positive at some fraction `p / q` between 0 and 1,
/// and is not negative at both ends, it has a root in the unit interval.
pub proof fn law_reached_disc_is_found(a: int, b: int, c: int, p: int, q: int)
    requires
        a > 0,
        0 <= p <= q,
        q > 0,
        a * (p * p) + b * (p * q) + c * (q * q) <= 0,
        c >= 0 || a + b + c >= 0,
    ensures
        root_in_unit(a, b, c),
{
    let d = discriminant(a, b, c);
    let pp = p * p;
    let pq = p * q;
    let qq = q * q;
    let rest = (q - p) * q;
    let far = (q - p) * (q - p);
    let value = a * pp + b * pq + c * qq;
    let u = 2 * (a * p) + b * q;
    law_root_test_by_end_values(a, b, c);
    lemma_discriminant_from_value(a, b, c, p, q);
    lemma_positive_times(a, value);
    assert(u * u >= 0) by (nonlinear_arith);
    assert(pp >= 0 && pq >= 0 && qq > 0 && rest >= 0 && far >= 0) by (nonlinear_arith)
        requires
            0 <= p <= q,
            q > 0,
            pp == p * p,
            pq == p * q,
            qq == q * q,
            rest == (q - p) * q,
            far == (q - p) * (q - p),
    ;
    assert(0 * qq == 0);
    lemma_cancel_positive(0, d, qq);
    if c > 0 && a + b + c > 0 {
        assert(a * pp >= 0 && c * qq > 0 && a * far >= 0 && (a + b + c) * qq > 0)
            by (nonlinear_arith)
            requires
                a > 0,
                c > 0,
                a + b + c > 0,
                pp >= 0,
                qq > 0,
                far >= 0,
        ;
        if b > 0 {
            assert(b * pq >= 0) by (nonlinear_arith)
                requires
                    b > 0,
                    pq >= 0,
            ;
            assert(false);
        }
        if 2 * a + b < 0 {
            lemma_value_from_far_end(a, b, c, p, q);
            assert((2 * a + b) * rest <= 0) by (nonlinear_arith)
                requires
                    2 * a + b < 0,
                    rest >= 0,
            ;
            assert(false);
        }
    }
}

/// The point at the fraction `p / q` of the way from the light to the pixel,
/// with `p / q` between 0 and 1, lies in the closed disc of radius `r` around
/// the centre. The point is taken scaled by `q`, so that it has whole
/// coordinates.
pub open spec fn reaches_disc_at(
    lx: int,
    ly: int,
    px: int,
    py: int,
    cx: int,
    cy: int,
    r: int,
    p: int,
    q: int,
) -> bool {
    &&& 0 <= p <= q
    &&& q > 0
    &&& dist_sq(q * cx, q * cy, q * lx + p * (px - lx), q * ly + p * (py - ly)) <= (r * r) * (q
        * q)
}

/// What the shadow test decides. The occluder blocks the light on its way to
/// the pixel exactly when the pixel is not the light itself, some point of
/// the segment between them lies in the occluder's closed disc, and the two
/// ends are not both strictly inside it: the segment meets the rim.
pub proof fn law_blocked_means_segment_meets_rim(
    lx: int,
    ly: int,
    px: int,
    py: int,
    cx: int,
    cy: int,
    r: int,
)
    ensures
        occluded(lx, ly, px, py, cx, cy, r) <==> {
            &&& (lx != px || ly != py)
            &&& !(dist_sq(cx, cy, lx, ly) < r * r && dist_sq(cx, cy, px, py) < r * r)
            &&& exists|p: int, q: int| reaches_disc_at(lx, ly, px, py, cx, cy, r, p, q)
        },
{
    let a = ray_a(lx, ly, px, py);
    let b = ray_b(lx, ly, px, py, cx, cy);
    let c = ray_c(lx, ly, cx, cy, r);
    lemma_value_at_pixel(lx, ly, px, py, cx, cy, r);
    if occluded(lx, ly, px, py, cx, cy, r) {
        law_root_test_by_end_values(a, b, c);
        if c <= 0 {
            lemma_value_on_segment(lx, ly, px, py, cx, cy, r, 0, 1);
            assert(reaches_disc_at(lx, ly, px, py, cx, cy, r, 0, 1));
        } else if a + b + c <= 0 {
            lemma_value_on_segment(lx, ly, px, py, cx, cy, r, 1, 1);
            assert(reaches_disc_at(lx, ly, px, py, cx, cy, r, 1, 1));
        } else {
            lemma_value_on_segment(lx, ly, px, py, cx, cy, r, -b, 2 * a);
            lemma_value_at_vertex(a, b, c);
            lemma_positive_times(a, discriminant(a, b, c));
            assert(reaches_disc_at(lx, ly, px, py, cx, cy, r, -b, 2 * a));
        }
    }
    if (lx != px || ly != py) && !(dist_sq(cx, cy, lx, ly) < r * r && dist_sq(cx, cy, px, py) < r
        * r) && exists|p: int, q: int| reaches_disc_at(lx, ly, px, py, cx, cy, r, p, q) {
        let (p, q) = choose|p: int, q: int| reaches_disc_at(lx, ly, px, py, cx, cy, r, p, q);
        assert(a > 0) by (nonlinear_arith)
            requires
                a == (px - lx) * (px - lx) + (py - ly) * (py - ly),
                lx != px || ly != py,
        ;
        lemma_value_on_segment(lx, ly, px, py, cx, cy, r, p, q);
        law_reached_disc_is_found(a, b, c, p, q);
    }
}

/// The quadratic at its vertex `-b / (2a)`, cleared of fractions, is `-a`
/// times the discriminant.
proof fn lemma_value_at_vertex(a: int, b: int, c: int)
    ensures
        a * ((-b) * (-b)) + b * ((-b) * (2 * a)) + c * ((2 * a) * (2 * a)) == -(a * discriminant(
            a,
            b,
            c,
        )),
{
    let bb = b * b;
    assert((-b) * (-b) == bb) by (nonlinear_arith)
        requires
            bb == b * b,
    ;
    assert(b * ((-b) * (2 * a)) == -2 * (a * bb)) by (nonlinear_arith)
        requires
            bb == b * b,
    ;
    assert(c * ((2 * a) * (2 * a)) == 4 * (a * (a * c))) by (nonlinear_arith);
    assert(a * (bb - 4 * a * c) == a * bb - 4 * (a * (a * c))) by (nonlinear_arith);
}

} // verus!
