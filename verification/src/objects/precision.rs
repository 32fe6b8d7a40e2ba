//! How close the reported point lies to the sphere.
//!
//! Rounding moves the reported point off the sphere. Here the distance of
//! the point from the centre is shown to differ from the radius by a few
//! billionths of the lengths involved, wherever no intermediate result is
//! held at the limit.

use crate::fixed::{floor_sqrt, lemma_floor_sqrt, magnitude, tdiv, LIMIT, ONE};
use crate::objects::sphere::{
    across, approach, far_distance, half_chord_squared, near_distance, near_root, sphere_hit,
    Approach, Sphere,
};
use crate::ray::RayModel;
use crate::vector::{
    lemma_component_within_length, lemma_unit_vector_bounds, lemma_unit_vector_length, v_div,
    v_length, v_neg, v_norm_squared, v_sub, v_unit, v_zero, V3,
};
use vstd::prelude::*;

verus! {

/// What rounding toward zero leaves behind: `y` is `d` times its quotient
/// plus a remainder smaller than `d` that has the sign of `y`.
pub proof fn lemma_tdiv_remainder(y: int, d: int) -> (r: int)
    requires
        d > 0,
    ensures
        y == d * tdiv(y, d) + r,
        -d < r < d,
        y >= 0 ==> r >= 0,
        y <= 0 ==> r <= 0,
{
    let m = magnitude(y);
    vstd::arithmetic::div_mod::lemma_fundamental_div_mod(m, d);
    vstd::arithmetic::div_mod::lemma_mod_pos_bound(m, d);
    let q = m / d;
    let rem = m % d;
    assert(m == d * q + rem);
    if y >= 0 {
        rem
    } else {
        assert(d * (-q) == -(d * q)) by (nonlinear_arith);
        -rem
    }
}

/// A product is no larger than the product of bounds on its factors.
proof fn lemma_product_bound(x: int, y: int, bx: int, by: int)
    requires
        -bx <= x <= bx,
        -by <= y <= by,
    ensures
        -(bx * by) <= x * y <= bx * by,
{
    assert(-(bx * by) <= x * y <= bx * by) by (nonlinear_arith)
        requires
            -bx <= x <= bx,
            -by <= y <= by,
    ;
}

/// The exact cross product of `a` and `b`.
pub open spec fn cross_exact(a: V3, b: V3) -> V3 {
    V3 {
        x: a.y * b.z - a.z * b.y,
        y: a.z * b.x - a.x * b.z,
        z: a.x * b.y - a.y * b.x,
    }
}

/// Lagrange's identity: the squares of the dot product and of the cross
/// product add up to the product of the squared lengths.
proof fn lemma_lagrange(a: V3, b: V3)
    ensures
        (a.x * b.x + a.y * b.y + a.z * b.z) * (a.x * b.x + a.y * b.y + a.z * b.z)
            + v_norm_squared(cross_exact(a, b)) == v_norm_squared(a) * v_norm_squared(b),
{
    let (ax, ay, az, bx, by, bz) = (a.x, a.y, a.z, b.x, b.y, b.z);
    let xx = ax * bx;
    let yy = ay * by;
    let zz = az * bz;
    let xy = ax * by;
    let yx = ay * bx;
    let xz = ax * bz;
    let zx = az * bx;
    let yz = ay * bz;
    let zy = az * by;
    // the dot product squared
    assert((xx + yy + zz) * (xx + yy + zz) == xx * xx + yy * yy + zz * zz + 2 * (xx * yy) + 2 * (
    xx * zz) + 2 * (yy * zz)) by (nonlinear_arith);
    // the cross product squared
    assert((yz - zy) * (yz - zy) == yz * yz - 2 * (yz * zy) + zy * zy) by (nonlinear_arith);
    assert((zx - xz) * (zx - xz) == zx * zx - 2 * (zx * xz) + xz * xz) by (nonlinear_arith);
    assert((xy - yx) * (xy - yx) == xy * xy - 2 * (xy * yx) + yx * yx) by (nonlinear_arith);
    // the mixed terms cancel
    assert(xx * yy == xy * yx) by (nonlinear_arith)
        requires
            xx == ax * bx,
            yy == ay * by,
            xy == ax * by,
            yx == ay * bx,
    ;
    assert(xx * zz == zx * xz) by (nonlinear_arith)
        requires
            xx == ax * bx,
            zz == az * bz,
            xz == ax * bz,
            zx == az * bx,
    ;
    assert(yy * zz == yz * zy) by (nonlinear_arith)
        requires
            yy == ay * by,
            zz == az * bz,
            yz == ay * bz,
            zy == az * by,
    ;
    // the product of the squared lengths
    let na = ax * ax + ay * ay + az * az;
    let nb = bx * bx + by * by + bz * bz;
    assert(na * nb == (ax * ax) * (bx * bx) + (ax * ax) * (by * by) + (ax * ax) * (bz * bz) + (ay
        * ay) * (bx * bx) + (ay * ay) * (by * by) + (ay * ay) * (bz * bz) + (az * az) * (bx * bx)
        + (az * az) * (by * by) + (az * az) * (bz * bz)) by (nonlinear_arith)
        requires
            na == ax * ax + ay * ay + az * az,
            nb == bx * bx + by * by + bz * bz,
    ;
    assert(xx * xx == (ax * ax) * (bx * bx)) by (nonlinear_arith)
        requires
            xx == ax * bx,
    ;
    assert(yy * yy == (ay * ay) * (by * by)) by (nonlinear_arith)
        requires
            yy == ay * by,
    ;
    assert(zz * zz == (az * az) * (bz * bz)) by (nonlinear_arith)
        requires
            zz == az * bz,
    ;
    assert(xy * xy == (ax * ax) * (by * by)) by (nonlinear_arith)
        requires
            xy == ax * by,
    ;
    assert(yx * yx == (ay * ay) * (bx * bx)) by (nonlinear_arith)
        requires
            yx == ay * bx,
    ;
    assert(xz * xz == (ax * ax) * (bz * bz)) by (nonlinear_arith)
        requires
            xz == ax * bz,
    ;
    assert(zx * zx == (az * az) * (bx * bx)) by (nonlinear_arith)
        requires
            zx == az * bx,
    ;
    assert(yz * yz == (ay * ay) * (bz * bz)) by (nonlinear_arith)
        requires
            yz == ay * bz,
    ;
    assert(zy * zy == (az * az) * (by * by)) by (nonlinear_arith)
        requires
            zy == az * by,
    ;
}

/// The bound on `a` times the miss of the exact point at the computed
/// distance: see `lemma_miss_of_distance`.
pub open spec fn miss_bound(radius: int, len: int, a: int, c: int, slip: int) -> int {
    let uu = ONE * ONE;
    2 * (uu * ((radius * radius) * len)) + 2 * (uu * (ONE * (radius * len))) + uu * uu + uu * slip
        + 2 * (uu * (uu * c)) + 2 * ((uu * c) * a) + a * a
}

/// The miss of the exact point at the computed distance.
///
/// With `len` the rounded length of the unit direction, `reach` the
/// rounded product of radius and `len`, `aside` the squared rounded cross
/// product, whose `ONE^2`-fold differs from the exact one `cross` by at
/// most `slip`, `c` the rounded square root of `reach^2 - aside`, and
/// `x = sigma ONE^2 c - rem` what `a` times the distance plus `ONE` times
/// the dot product comes to: `x^2 + ONE^2 cross - ONE^2 a radius^2`, which
/// is `a` times the miss, is at most `miss_bound` in magnitude.
proof fn lemma_miss_of_distance(
    radius: int,
    len: int,
    a: int,
    reach: int,
    aside: int,
    cross: int,
    slip: int,
    c: int,
    sigma: int,
    rem: int,
)
    requires
        radius > 0,
        len >= 0,
        0 <= a - len * len <= 2 * len,
        0 <= radius * len - ONE * reach < ONE,
        reach >= 0,
        c >= 0,
        0 <= (reach * reach - aside) - c * c <= 2 * c,
        -slip <= cross - (ONE * ONE) * aside <= slip,
        sigma == 1 || sigma == -1,
        -a < rem < a,
    ensures
        ({
            let uu = ONE * ONE;
            let x = sigma * (uu * c) - rem;
            magnitude(x * x + uu * cross - uu * (a * (radius * radius))) <= miss_bound(
                radius,
                len,
                a,
                c,
                slip,
            )
        }),
{
    let unit = ONE as int;
    let uu = unit * unit;
    let rr = radius * radius;
    let rl = radius * len;
    let sr = unit * reach;
    let lost = rl - sr;
    let e2 = a - len * len;
    let e1 = (reach * reach - aside) - c * c;
    let uc = uu * c;
    let x = sigma * uc - rem;
    // x^2
    assert(x * x == uc * uc - 2 * (sigma * (uc * rem)) + rem * rem) by (nonlinear_arith)
        requires
            x == sigma * uc - rem,
            sigma == 1 || sigma == -1,
    ;
    // (uu c)^2 == uu (uu c^2) == uu (sr^2 - uu aside - uu e1)
    assert(uc * uc == uu * (uu * (c * c))) by (nonlinear_arith)
        requires
            uc == uu * c,
    ;
    assert(sr * sr == uu * (reach * reach)) by (nonlinear_arith)
        requires
            sr == unit * reach,
            uu == unit * unit,
    ;
    assert(uu * (c * c) == sr * sr - uu * aside - uu * e1) by (nonlinear_arith)
        requires
            sr * sr == uu * (reach * reach),
            e1 == (reach * reach - aside) - c * c,
    ;
    // sr^2 == rl^2 - 2 rl lost + lost^2, and rl^2 == rr a - rr e2
    assert(sr * sr == rl * rl - 2 * (rl * lost) + lost * lost) by (nonlinear_arith)
        requires
            sr == rl - lost,
    ;
    assert(rl * rl == rr * (len * len)) by (nonlinear_arith)
        requires
            rl == radius * len,
            rr == radius * radius,
    ;
    assert(rr * (len * len) == rr * a - rr * e2) by (nonlinear_arith)
        requires
            e2 == a - len * len,
    ;
    let t1 = uu * (rr * e2);
    let t2 = uu * (2 * (rl * lost));
    let t3 = uu * (lost * lost);
    let t4 = uu * (cross - uu * aside);
    let t5 = uu * (uu * e1);
    let t6 = sigma * (uc * rem);
    let t7 = rem * rem;
    assert(uu * (uu * (c * c)) == uu * (rr * a) - t1 - t2 + t3 - uu * (uu * aside) - t5)
        by (nonlinear_arith)
        requires
            uu * (c * c) == rr * a - rr * e2 - 2 * (rl * lost) + lost * lost - uu * aside - uu
                * e1,
            t1 == uu * (rr * e2),
            t2 == uu * (2 * (rl * lost)),
            t3 == uu * (lost * lost),
            t5 == uu * (uu * e1),
    ;
    assert(t4 == uu * cross - uu * (uu * aside)) by (nonlinear_arith)
        requires
            t4 == uu * (cross - uu * aside),
    ;
    assert(uu * (a * rr) == uu * (rr * a)) by (nonlinear_arith);
    let total = x * x + uu * cross - uu * (a * rr);
    assert(total == t4 - t1 - t2 + t3 - t5 - 2 * t6 + t7);
    // the sizes of the terms
    assert(uu > 0 && rr > 0 && rl >= 0 && uc >= 0) by (nonlinear_arith)
        requires
            uu == unit * unit,
            unit > 0,
            rr == radius * radius,
            radius > 0,
            rl == radius * len,
            len >= 0,
            uc == uu * c,
            c >= 0,
    ;
    assert(0 <= t1 <= 2 * (uu * (rr * len))) by (nonlinear_arith)
        requires
            t1 == uu * (rr * e2),
            0 <= e2 <= 2 * len,
            uu > 0,
            rr > 0,
    ;
    assert(0 <= t2 <= 2 * (uu * (unit * rl))) by (nonlinear_arith)
        requires
            t2 == uu * (2 * (rl * lost)),
            0 <= lost < unit,
            rl >= 0,
            uu > 0,
    ;
    assert(0 <= t3 <= uu * uu) by (nonlinear_arith)
        requires
            t3 == uu * (lost * lost),
            0 <= lost < unit,
            uu == unit * unit,
    ;
    assert(-(uu * slip) <= t4 <= uu * slip) by (nonlinear_arith)
        requires
            t4 == uu * (cross - uu * aside),
            -slip <= cross - uu * aside <= slip,
            uu > 0,
    ;
    assert(0 <= t5 <= 2 * (uu * uc)) by (nonlinear_arith)
        requires
            t5 == uu * (uu * e1),
            0 <= e1 <= 2 * c,
            uc == uu * c,
            uu > 0,
    ;
    lemma_product_bound(uc, rem, uc, a);
    assert(-(uc * a) <= t6 <= uc * a);
    assert(0 <= t7 <= a * a) by (nonlinear_arith)
        requires
            t7 == rem * rem,
            -a < rem < a,
    ;
    assert((rr * len) == (radius * radius) * len && unit * rl == ONE * (radius * len));
}

/// From squares to lengths: if `m` times the difference between `n` and
/// the square of `len` is at most `slack + m * 2 h w`, where `w` is the
/// square root of `n` rounded down, then `w` differs from `len` by at most
/// `h + 1` and `(slack + m h^2) / (m len)`.
proof fn lemma_root_near(n: int, len: int, m: int, h: int, slack: int)
    requires
        n >= 0,
        len > 0,
        m > 0,
        h >= 0,
        slack >= 0,
        m * magnitude(n - len * len) <= slack + m * (2 * h * floor_sqrt(n)),
    ensures
        m * ((magnitude(floor_sqrt(n) - len) - (h + 1)) * len) <= slack + m * (h * h),
{
    lemma_floor_sqrt(n);
    let w = floor_sqrt(n);
    let gap = n - len * len;
    assert(m * (h * h) >= 0) by (nonlinear_arith)
        requires
            m > 0,
    ;
    let hw = 2 * h * w;
    assert(m * gap <= m * magnitude(gap) && m * (-gap) <= m * magnitude(gap)) by (nonlinear_arith)
        requires
            m > 0,
    ;
    if w - h > len {
        let excess = w - h - len;
        let grown = gap - hw + h * h;
        assert(excess * len <= grown) by (nonlinear_arith)
            requires
                grown == n - len * len - 2 * h * w + h * h,
                w * w <= n,
                excess == w - h - len,
                excess > 0,
                len > 0,
        ;
        assert(m * (excess * len) <= m * grown) by (nonlinear_arith)
            requires
                excess * len <= grown,
                m > 0,
        ;
        assert(m * grown == m * gap - m * hw + m * (h * h)) by (nonlinear_arith)
            requires
                grown == gap - hw + h * h,
        ;
        assert(magnitude(w - len) - (h + 1) == excess - 1);
        assert(m * ((excess - 1) * len) <= m * (excess * len)) by (nonlinear_arith)
            requires
                m > 0,
                len > 0,
        ;
    } else if len > w + 1 + h {
        let short = len - w - h - 1;
        let shrunk = -gap - hw;
        assert(short * len <= shrunk) by (nonlinear_arith)
            requires
                shrunk == len * len - n - 2 * h * w,
                n < (w + 1) * (w + 1),
                short == len - w - h - 1,
                short > 0,
                w >= 0,
                h >= 0,
        ;
        assert(m * (short * len) <= m * shrunk) by (nonlinear_arith)
            requires
                short * len <= shrunk,
                m > 0,
        ;
        assert(m * shrunk == m * (-gap) - m * hw) by (nonlinear_arith)
            requires
                shrunk == -gap - hw,
        ;
        assert(magnitude(w - len) - (h + 1) == short);
    } else {
        let d = magnitude(w - len) - (h + 1);
        assert(m * (d * len) <= 0) by (nonlinear_arith)
            requires
                d <= 0,
                len > 0,
                m > 0,
        ;
    }
}

/// What rounding one component does to its square: where `exact` is
/// `unit * kept + lost` with `lost` below `step`, and `kept` is at most
/// `w`, the squares of `exact` and of `unit * kept` differ by at most
/// `2 unit step w + step^2`.
proof fn lemma_rounded_square(exact: int, kept: int, lost: int, unit: int, step: int, w: int)
    requires
        exact == unit * kept + lost,
        -step < lost < step,
        -w <= kept <= w,
        unit > 0,
    ensures
        magnitude((unit * unit) * (kept * kept) - exact * exact) <= 2 * ((unit * step) * w) + step
            * step,
{
    let p = unit * kept;
    assert(exact * exact == p * p + 2 * (p * lost) + lost * lost) by (nonlinear_arith)
        requires
            exact == p + lost,
    ;
    assert(p * p == (unit * unit) * (kept * kept)) by (nonlinear_arith)
        requires
            p == unit * kept,
    ;
    assert(-(unit * w) <= p <= unit * w) by (nonlinear_arith)
        requires
            p == unit * kept,
            -w <= kept <= w,
            unit > 0,
    ;
    lemma_product_bound(p, lost, unit * w, step);
    lemma_product_bound(lost, lost, step, step);
    assert((unit * w) * step == (unit * step) * w) by (nonlinear_arith);
}

/// What rounding does to the squared length of a vector, component by
/// component as in `lemma_rounded_square`.
proof fn lemma_rounded_norm(exact: V3, kept: V3, unit: int, step: int)
    requires
        unit > 0,
        -step < exact.x - unit * kept.x < step,
        -step < exact.y - unit * kept.y < step,
        -step < exact.z - unit * kept.z < step,
    ensures
        magnitude((unit * unit) * v_norm_squared(kept) - v_norm_squared(exact)) <= 6 * ((unit
            * step) * floor_sqrt(v_norm_squared(kept))) + 3 * (step * step),
{
    let n = v_norm_squared(kept);
    assert(kept.x * kept.x >= 0 && kept.y * kept.y >= 0 && kept.z * kept.z >= 0)
        by (nonlinear_arith);
    lemma_floor_sqrt(n);
    let w = floor_sqrt(n);
    crate::vector::lemma_component_within_length(kept.x, kept.y * kept.y + kept.z * kept.z, w);
    crate::vector::lemma_component_within_length(kept.y, kept.x * kept.x + kept.z * kept.z, w);
    crate::vector::lemma_component_within_length(kept.z, kept.x * kept.x + kept.y * kept.y, w);
    lemma_rounded_square(exact.x, kept.x, exact.x - unit * kept.x, unit, step, w);
    lemma_rounded_square(exact.y, kept.y, exact.y - unit * kept.y, unit, step, w);
    lemma_rounded_square(exact.z, kept.z, exact.z - unit * kept.z, unit, step, w);
    let uu = unit * unit;
    assert(uu * n == uu * (kept.x * kept.x) + uu * (kept.y * kept.y) + uu * (kept.z * kept.z))
        by (nonlinear_arith)
        requires
            n == kept.x * kept.x + kept.y * kept.y + kept.z * kept.z,
    ;
}

/// From a product to a quotient: `m (x d) <= b` with positive `m` and `d`
/// puts `x` at or below `b / (m d)`.
proof fn lemma_bound_by_quotient(x: int, m: int, d: int, b: int)
    requires
        m > 0,
        d > 0,
        m * (x * d) <= b,
    ensures
        x <= b / (m * d),
{
    let md = m * d;
    assert(md > 0) by (nonlinear_arith)
        requires
            md == m * d,
            m > 0,
            d > 0,
    ;
    assert(m * (x * d) == md * x) by (nonlinear_arith)
        requires
            md == m * d,
    ;
    vstd::arithmetic::div_mod::lemma_div_is_ordered(md * x, b, md);
    vstd::arithmetic::div_mod::lemma_div_multiples_vanish(x, md);
}

/// `ONE` times the offset from `center` of the exact point at the distance
/// `s` along the unit direction `u` from `origin`: no rounding enters it.
pub open spec fn exact_offset(origin: V3, center: V3, u: V3, s: int) -> V3 {
    V3 {
        x: ONE * (origin.x - center.x) + s * u.x,
        y: ONE * (origin.y - center.y) + s * u.y,
        z: ONE * (origin.z - center.z) + s * u.z,
    }
}

/// The square of one component of the exact offset.
proof fn lemma_offset_square(x: int, y: int, s: int, unit: int)
    ensures
        (unit * x + s * y) * (unit * x + s * y) == (unit * unit) * (x * x) + 2 * ((unit * s) * (x
            * y)) + (s * s) * (y * y),
{
    let p = unit * x;
    let q = s * y;
    assert((p + q) * (p + q) == p * p + 2 * (p * q) + q * q) by (nonlinear_arith);
    assert(p * p == (unit * unit) * (x * x)) by (nonlinear_arith)
        requires
            p == unit * x,
    ;
    assert(p * q == (unit * s) * (x * y)) by (nonlinear_arith)
        requires
            p == unit * x,
            q == s * y,
    ;
    assert(q * q == (s * s) * (y * y)) by (nonlinear_arith)
        requires
            q == s * y,
    ;
}

/// `a` times the squared length of the exact offset: with `a` the squared
/// length of `u` and `b` the dot product of `oc` and `u`, it is
/// `(a s + ONE b)^2` plus `ONE^2` times the squared cross product.
proof fn lemma_offset_norm(oc: V3, u: V3, s: int)
    ensures
        ({
            let a = v_norm_squared(u);
            let b = oc.x * u.x + oc.y * u.y + oc.z * u.z;
            let w = V3 {
                x: ONE * oc.x + s * u.x,
                y: ONE * oc.y + s * u.y,
                z: ONE * oc.z + s * u.z,
            };
            a * v_norm_squared(w) == (a * s + ONE * b) * (a * s + ONE * b) + (ONE * ONE)
                * v_norm_squared(cross_exact(oc, u))
        }),
{
    let unit = ONE as int;
    let uu = unit * unit;
    let us = unit * s;
    let ss = s * s;
    let a = v_norm_squared(u);
    let b = oc.x * u.x + oc.y * u.y + oc.z * u.z;
    let n = v_norm_squared(oc);
    let w2 = v_norm_squared(cross_exact(oc, u));
    let w = V3 { x: unit * oc.x + s * u.x, y: unit * oc.y + s * u.y, z: unit * oc.z + s * u.z };
    lemma_offset_square(oc.x, u.x, s, unit);
    lemma_offset_square(oc.y, u.y, s, unit);
    lemma_offset_square(oc.z, u.z, s, unit);
    assert(uu * (oc.x * oc.x) + uu * (oc.y * oc.y) + uu * (oc.z * oc.z) == uu * n)
        by (nonlinear_arith)
        requires
            n == oc.x * oc.x + oc.y * oc.y + oc.z * oc.z,
    ;
    assert(us * (oc.x * u.x) + us * (oc.y * u.y) + us * (oc.z * u.z) == us * b)
        by (nonlinear_arith)
        requires
            b == oc.x * u.x + oc.y * u.y + oc.z * u.z,
    ;
    assert(ss * (u.x * u.x) + ss * (u.y * u.y) + ss * (u.z * u.z) == ss * a) by (nonlinear_arith)
        requires
            a == u.x * u.x + u.y * u.y + u.z * u.z,
    ;
    let norm = v_norm_squared(w);
    assert(norm == uu * n + 2 * (us * b) + ss * a);
    lemma_lagrange(oc, u);
    assert(b * b + w2 == n * a);
    // a norm == a uu n + 2 a us b + a ss a
    let p = a * s;
    let q = unit * b;
    assert((p + q) * (p + q) == p * p + 2 * (p * q) + q * q) by (nonlinear_arith);
    assert(p * p == a * (ss * a)) by (nonlinear_arith)
        requires
            p == a * s,
            ss == s * s,
    ;
    assert(p * q == a * (us * b)) by (nonlinear_arith)
        requires
            p == a * s,
            q == unit * b,
            us == unit * s,
    ;
    assert(q * q == uu * (b * b)) by (nonlinear_arith)
        requires
            q == unit * b,
            uu == unit * unit,
    ;
    assert(uu * (n * a) == a * (uu * n)) by (nonlinear_arith);
    assert(uu * (b * b) + uu * w2 == uu * (n * a)) by (nonlinear_arith)
        requires
            b * b + w2 == n * a,
    ;
    assert(a * norm == a * (uu * n) + 2 * (a * (us * b)) + a * (ss * a)) by (nonlinear_arith)
        requires
            norm == uu * n + 2 * (us * b) + ss * a,
    ;
}

/// The largest magnitude of a coordinate, of a component of a direction
/// and of a radius for which the bounds of this module are proved: a
/// hundred million.
pub const REACH: i64 = 100_000_000_000_000_000;

/// Whether every component of `a` lies within `REACH` of zero.
pub open spec fn within_reach(a: V3) -> bool {
    &&& -REACH <= a.x <= REACH
    &&& -REACH <= a.y <= REACH
    &&& -REACH <= a.z <= REACH
}

/// By how much `ONE^2` times the squared rounded cross product may differ
/// from the exact one.
pub open spec fn cross_slip(aside: int) -> int {
    6 * ((ONE * ONE) * floor_sqrt(aside)) + 3 * (ONE * ONE)
}

/// By how much the exact point at the distance `s` along the unit
/// direction misses the sphere: the square of `ONE` times its distance
/// from the centre less the square of `ONE` times the radius.
pub open spec fn miss(origin: V3, direction: V3, center: V3, radius: int, s: int) -> int {
    v_norm_squared(exact_offset(origin, center, v_unit(direction), s)) - (ONE * radius) * (ONE
        * radius)
}

/// The distance along the unit direction that belongs to the nearer root
/// (`sigma` is -1) or the farther one (`sigma` is 1).
pub open spec fn distance_for(q: Approach, sigma: int) -> int {
    if sigma == 1 {
        far_distance(q)
    } else {
        near_distance(q)
    }
}

/// The exact point at either computed distance lies on the sphere to
/// within rounding: the squared length of the unit direction times the
/// miss is at most `miss_bound`, and the distance itself stays below
/// `9 REACH`.
proof fn lemma_distance_meets_sphere(
    origin: V3,
    direction: V3,
    center: V3,
    radius: int,
    sigma: int,
)
    requires
        0 < radius <= REACH,
        within_reach(origin),
        within_reach(center),
        within_reach(direction),
        direction != v_zero(),
        half_chord_squared(approach(origin, direction, center, radius)) >= 0,
        sigma == 1 || sigma == -1,
    ensures
        ({
            let q = approach(origin, direction, center, radius);
            let s = distance_for(q, sigma);
            let len = floor_sqrt(q.unit_squared);
            let c = floor_sqrt(half_chord_squared(q));
            &&& (ONE - 4) * (ONE - 4) <= q.unit_squared <= 3 * (ONE * ONE)
            &&& ONE - 4 <= len <= 2 * ONE
            &&& 0 <= c <= q.reach <= 2 * radius
            &&& 0 <= floor_sqrt(q.aside) <= q.reach
            &&& -9 * REACH <= s <= 9 * REACH
            &&& q.unit_squared * magnitude(miss(origin, direction, center, radius, s))
                <= miss_bound(radius, len, q.unit_squared, c, cross_slip(q.aside))
        }),
{
    let unit = ONE as int;
    let uu = unit * unit;
    let q = approach(origin, direction, center, radius);
    let u = v_unit(direction);
    let oc = V3 { x: origin.x - center.x, y: origin.y - center.y, z: origin.z - center.z };
    assert(v_sub(origin, center) == oc);
    lemma_unit_vector_bounds(direction);
    assert(direction.x * direction.x >= 0 && direction.y * direction.y >= 0 && direction.z
        * direction.z >= 0) by (nonlinear_arith);
    lemma_product_bound(direction.x, direction.x, REACH as int, REACH as int);
    lemma_product_bound(direction.y, direction.y, REACH as int, REACH as int);
    lemma_product_bound(direction.z, direction.z, REACH as int, REACH as int);
    let nd = v_norm_squared(direction);
    lemma_floor_sqrt(nd);
    assert(floor_sqrt(nd) <= 2 * REACH) by (nonlinear_arith)
        requires
            floor_sqrt(nd) >= 0,
            floor_sqrt(nd) * floor_sqrt(nd) <= nd,
            nd <= 3 * (REACH * REACH),
    ;
    lemma_unit_vector_length(direction);
    // the unit direction
    let a = q.unit_squared;
    lemma_product_bound(u.x, u.x, unit, unit);
    lemma_product_bound(u.y, u.y, unit, unit);
    lemma_product_bound(u.z, u.z, unit, unit);
    assert(u.x * u.x >= 0 && u.y * u.y >= 0 && u.z * u.z >= 0) by (nonlinear_arith);
    lemma_floor_sqrt(a);
    let len = floor_sqrt(a);
    assert(len <= 2 * unit) by (nonlinear_arith)
        requires
            len >= 0,
            len * len <= a,
            a <= 3 * (unit * unit),
            unit > 0,
    ;
    assert(v_length(u) == len);
    assert((unit - 4) * (unit - 4) <= len * len) by (nonlinear_arith)
        requires
            unit - 4 <= len,
            unit - 4 >= 0,
    ;
    assert(a - len * len <= 2 * len) by (nonlinear_arith)
        requires
            a < (len + 1) * (len + 1),
    ;
    // the reach
    assert(0 <= radius * len <= REACH * (2 * unit)) by (nonlinear_arith)
        requires
            0 < radius <= REACH,
            0 <= len <= 2 * unit,
    ;
    let lost = lemma_tdiv_remainder(radius * len, unit);
    let reach = q.reach;
    assert(reach == tdiv(radius * len, unit));
    assert(reach <= 2 * radius) by (nonlinear_arith)
        requires
            radius * len == unit * reach + lost,
            lost >= 0,
            len <= 2 * unit,
            radius > 0,
            unit > 0,
    ;
    // the cross product
    let w = cross_exact(oc, u);
    let g = across(oc, u);
    lemma_product_bound(oc.y, u.z, 2 * REACH, unit);
    lemma_product_bound(oc.z, u.y, 2 * REACH, unit);
    lemma_product_bound(oc.z, u.x, 2 * REACH, unit);
    lemma_product_bound(oc.x, u.z, 2 * REACH, unit);
    lemma_product_bound(oc.x, u.y, 2 * REACH, unit);
    lemma_product_bound(oc.y, u.x, 2 * REACH, unit);
    let gx = lemma_tdiv_remainder(w.x, unit);
    let gy = lemma_tdiv_remainder(w.y, unit);
    let gz = lemma_tdiv_remainder(w.z, unit);
    assert(g.x == tdiv(w.x, unit) && g.y == tdiv(w.y, unit) && g.z == tdiv(w.z, unit));
    lemma_rounded_norm(w, g, unit, unit);
    let aside = q.aside;
    assert(aside == v_norm_squared(g));
    assert(g.x * g.x >= 0 && g.y * g.y >= 0 && g.z * g.z >= 0) by (nonlinear_arith);
    lemma_floor_sqrt(aside);
    let slip = cross_slip(aside);
    let cross = v_norm_squared(w);
    assert(-slip <= cross - uu * aside <= slip);
    // the half chord
    let h = half_chord_squared(q);
    lemma_floor_sqrt(h);
    let c = floor_sqrt(h);
    assert(h - c * c <= 2 * c) by (nonlinear_arith)
        requires
            h < (c + 1) * (c + 1),
    ;
    assert(c <= reach && floor_sqrt(aside) <= reach) by (nonlinear_arith)
        requires
            c >= 0,
            c * c <= reach * reach - aside,
            aside >= 0,
            reach >= 0,
            floor_sqrt(aside) >= 0,
            floor_sqrt(aside) * floor_sqrt(aside) <= aside,
            reach * reach - aside >= 0,
    ;
    // the dot product and the distance
    let b = q.along;
    lemma_product_bound(oc.x, u.x, 2 * REACH, unit);
    lemma_product_bound(oc.y, u.y, 2 * REACH, unit);
    lemma_product_bound(oc.z, u.z, 2 * REACH, unit);
    let num = -b + sigma * (unit * c);
    assert(-(unit * reach) <= sigma * (unit * c) <= unit * reach) by (nonlinear_arith)
        requires
            0 <= c <= reach,
            sigma == 1 || sigma == -1,
            unit > 0,
    ;
    assert(unit * reach <= radius * len);
    let bound: int = 8 * REACH * unit;
    assert(-bound <= num <= bound);
    let s = distance_for(q, sigma);
    let rem = lemma_tdiv_remainder(unit * num, a);
    let raw = tdiv(unit * num, a);
    assert(-9 * REACH <= raw <= 9 * REACH) by (nonlinear_arith)
        requires
            unit * num == a * raw + rem,
            -a < rem < a,
            (unit - 4) * (unit - 4) <= a,
            -(8 * REACH * unit) <= num <= 8 * REACH * unit,
            unit == 1_000_000_000,
            REACH == 100_000_000_000_000_000,
    ;
    assert(s == raw) by {
        if sigma == 1 {
            assert(unit * (-b + unit * c) == unit * num) by (nonlinear_arith)
                requires
                    num == -b + sigma * (unit * c),
                    sigma == 1,
            ;
        } else {
            assert(unit * (-b - unit * c) == unit * num) by (nonlinear_arith)
                requires
                    num == -b + sigma * (unit * c),
                    sigma == -1,
            ;
        }
    }
    // a s + ONE b == sigma ONE^2 c - rem
    let x = sigma * (uu * c) - rem;
    assert(a * s + unit * b == x) by (nonlinear_arith)
        requires
            unit * num == a * s + rem,
            num == -b + sigma * (unit * c),
            x == sigma * (uu * c) - rem,
            uu == unit * unit,
    ;
    lemma_offset_norm(oc, u, s);
    let offset = exact_offset(origin, center, u, s);
    assert(offset == V3 {
        x: unit * oc.x + s * u.x,
        y: unit * oc.y + s * u.y,
        z: unit * oc.z + s * u.z,
    });
    let norm = v_norm_squared(offset);
    assert(a * norm == x * x + uu * cross);
    let m = miss(origin, direction, center, radius, s);
    assert((unit * radius) * (unit * radius) == uu * (radius * radius)) by (nonlinear_arith)
        requires
            uu == unit * unit,
    ;
    assert(a * m == x * x + uu * cross - uu * (a * (radius * radius))) by (nonlinear_arith)
        requires
            m == norm - uu * (radius * radius),
            a * norm == x * x + uu * cross,
    ;
    lemma_miss_of_distance(radius, len, a, reach, aside, cross, slip, c, sigma, rem);
    assert(a * magnitude(m) == magnitude(a * m)) by (nonlinear_arith)
        requires
            a > 0,
    ;
}

/// Which root `hit` chooses: -1 for the nearer, 1 for the farther.
pub open spec fn chosen_sign(q: Approach, t_min: int, t_max: int) -> int {
    if t_min <= near_root(q) <= t_max {
        -1
    } else {
        1
    }
}

/// The lengths in play at a hit with parameter `t` along a direction of
/// length `scale`, in whole units: the distance travelled, the length of
/// the direction, and one, each rounded up.
pub open spec fn lengths_in_play(t: int, scale: int) -> int {
    ((scale * (magnitude(t) + 1)) / (ONE as int) + 1 + scale + ONE) / (ONE as int)
}

/// One component of the reported point against the exact point at the
/// computed distance `s`: where `t` is the quotient of `s ONE` by `scale`
/// and `u` the quotient of `d ONE` by `scale`, `t d` differs from `s u`
/// by less than `|s| + |d|`.
proof fn lemma_scaled_back(s: int, t: int, d: int, u: int, scale: int, rem_t: int, rem_u: int)
    requires
        scale > 0,
        s * ONE == scale * t + rem_t,
        -scale < rem_t < scale,
        d * ONE == scale * u + rem_u,
        -scale < rem_u < scale,
    ensures
        -(magnitude(s) + magnitude(d)) <= d * t - s * u <= magnitude(s) + magnitude(d),
{
    let delta = d * t - s * u;
    assert(scale * delta == s * rem_u - d * rem_t) by (nonlinear_arith)
        requires
            delta == d * t - s * u,
            s * ONE == scale * t + rem_t,
            d * ONE == scale * u + rem_u,
    ;
    lemma_product_bound(s, rem_u, magnitude(s), scale);
    lemma_product_bound(d, rem_t, magnitude(d), scale);
    let room = magnitude(s) + magnitude(d);
    assert(magnitude(s) * scale + magnitude(d) * scale == scale * room) by (nonlinear_arith)
        requires
            room == magnitude(s) + magnitude(d),
    ;
    assert(-room <= delta <= room) by (nonlinear_arith)
        requires
            -(scale * room) <= scale * delta <= scale * room,
            scale > 0,
    ;
}

/// The offset of the reported point from the centre against the exact
/// offset at the computed distance: each component of the exact one is
/// `ONE` times the reported one to within the lengths in play, and the
/// reported offset is short enough for its length to be represented.
proof fn lemma_point_offset(sphere: Sphere, ray: RayModel, t_min: int, t_max: int)
    requires
        0 < sphere.radius <= REACH,
        within_reach(sphere.center@),
        within_reach(ray.origin),
        within_reach(ray.direction),
        ray.direction != v_zero(),
        sphere_hit(sphere, ray, t_min, t_max).is_some(),
        -LIMIT < sphere_hit(sphere, ray, t_min, t_max).unwrap().t < LIMIT,
    ensures
        ({
            let h = sphere_hit(sphere, ray, t_min, t_max).unwrap();
            let q = approach(ray.origin, ray.direction, sphere.center@, sphere.radius as int);
            let s = distance_for(q, chosen_sign(q, t_min, t_max));
            let kept = v_sub(h.point, sphere.center@);
            let exact = exact_offset(ray.origin, sphere.center@, v_unit(ray.direction), s);
            let step = (q.scale * (magnitude(h.t) + 1)) / (ONE as int) + 1 + q.scale + ONE;
            &&& half_chord_squared(q) >= 0
            &&& -step < exact.x - ONE * kept.x < step
            &&& -step < exact.y - ONE * kept.y < step
            &&& -step < exact.z - ONE * kept.z < step
            &&& 0 <= floor_sqrt(v_norm_squared(kept)) <= LIMIT
            &&& v_length(kept) == floor_sqrt(v_norm_squared(kept))
        }),
{
    reveal(sphere_hit);
    let unit = ONE as int;
    let o = ray.origin;
    let d = ray.direction;
    let k = sphere.center@;
    let h = sphere_hit(sphere, ray, t_min, t_max).unwrap();
    let q = approach(o, d, k, sphere.radius as int);
    let sigma = chosen_sign(q, t_min, t_max);
    let s = distance_for(q, sigma);
    let t = h.t;
    let u = v_unit(d);
    let scale = q.scale;
    lemma_distance_meets_sphere(o, d, k, sphere.radius as int, sigma);
    lemma_unit_vector_bounds(d);
    // the length of the direction
    assert(d.x * d.x >= 0 && d.y * d.y >= 0 && d.z * d.z >= 0) by (nonlinear_arith);
    lemma_product_bound(d.x, d.x, REACH as int, REACH as int);
    lemma_product_bound(d.y, d.y, REACH as int, REACH as int);
    lemma_product_bound(d.z, d.z, REACH as int, REACH as int);
    let nd = v_norm_squared(d);
    lemma_floor_sqrt(nd);
    assert(floor_sqrt(nd) <= 2 * REACH) by (nonlinear_arith)
        requires
            floor_sqrt(nd) >= 0,
            floor_sqrt(nd) * floor_sqrt(nd) <= nd,
            nd <= 3 * (REACH * REACH),
    ;
    assert(scale == floor_sqrt(nd));
    lemma_component_within_length(d.x, d.y * d.y + d.z * d.z, scale);
    lemma_component_within_length(d.y, d.x * d.x + d.z * d.z, scale);
    lemma_component_within_length(d.z, d.x * d.x + d.y * d.y, scale);
    // the parameter
    let rem_t = lemma_tdiv_remainder(s * unit, scale);
    assert(t == tdiv(s * unit, scale));
    // the distance is no longer than the parameter says
    let far = scale * (magnitude(t) + 1);
    assert(magnitude(s) * unit <= far) by (nonlinear_arith)
        requires
            s * unit == scale * t + rem_t,
            -scale < rem_t < scale,
            far == scale * (magnitude(t) + 1),
            scale > 0,
            unit > 0,
    ;
    vstd::arithmetic::div_mod::lemma_div_is_ordered(magnitude(s) * unit, far, unit);
    vstd::arithmetic::div_mod::lemma_div_multiples_vanish(magnitude(s), unit);
    assert(magnitude(s) * unit == unit * magnitude(s)) by (nonlinear_arith);
    let travelled = far / unit;
    assert(magnitude(s) <= travelled);
    let step = travelled + 1 + scale + unit;
    // the unit direction
    let ux = lemma_tdiv_remainder(d.x * unit, scale);
    let uy = lemma_tdiv_remainder(d.y * unit, scale);
    let uz = lemma_tdiv_remainder(d.z * unit, scale);
    assert(u.x == tdiv(d.x * unit, scale) && u.y == tdiv(d.y * unit, scale) && u.z == tdiv(
        d.z * unit,
        scale,
    ));
    lemma_scaled_back(s, t, d.x, u.x, scale, rem_t, ux);
    lemma_scaled_back(s, t, d.y, u.y, scale, rem_t, uy);
    lemma_scaled_back(s, t, d.z, u.z, scale, rem_t, uz);
    // the point
    lemma_product_bound(s, u.x, 9 * REACH, unit);
    lemma_product_bound(s, u.y, 9 * REACH, unit);
    lemma_product_bound(s, u.z, 9 * REACH, unit);
    let px = lemma_tdiv_remainder(d.x * t, unit);
    let py = lemma_tdiv_remainder(d.y * t, unit);
    let pz = lemma_tdiv_remainder(d.z * t, unit);
    let tx = tdiv(d.x * t, unit);
    let ty = tdiv(d.y * t, unit);
    let tz = tdiv(d.z * t, unit);
    let kept = v_sub(h.point, k);
    assert(kept.x == o.x + tx - k.x && kept.y == o.y + ty - k.y && kept.z == o.z + tz - k.z);
    let b: int = 1_200_000_000_000_000_000;
    lemma_product_bound(kept.x, kept.x, b, b);
    lemma_product_bound(kept.y, kept.y, b, b);
    lemma_product_bound(kept.z, kept.z, b, b);
    assert(kept.x * kept.x >= 0 && kept.y * kept.y >= 0 && kept.z * kept.z >= 0)
        by (nonlinear_arith);
    let n = v_norm_squared(kept);
    lemma_floor_sqrt(n);
    assert(floor_sqrt(n) <= 2 * b) by (nonlinear_arith)
        requires
            floor_sqrt(n) >= 0,
            floor_sqrt(n) * floor_sqrt(n) <= n,
            n <= 3 * (b * b),
            b > 0,
    ;
    assert(unit * (o.x - k.x) + unit * tx == unit * kept.x && unit * (o.y - k.y) + unit * ty
        == unit * kept.y && unit * (o.z - k.z) + unit * tz == unit * kept.z) by (nonlinear_arith)
        requires
            kept.x == o.x + tx - k.x,
            kept.y == o.y + ty - k.y,
            kept.z == o.z + tz - k.z,
    ;
}

/// By how much the distance of a reported point from the centre may
/// differ from the radius, in billionths: 3 for each unit of the lengths
/// in play, 8 for each unit of the radius, 68, and the quotient of
/// `26 + 12 (k + 1)^2` by the raw radius, where `k` is the lengths in
/// play. For a sphere of radius one met two units away along a unit
/// direction that is under a ten-millionth.
pub open spec fn distance_slack(radius: int, t: int, scale: int) -> int {
    let k = lengths_in_play(t, scale);
    3 * k + 8 * (radius / (ONE as int) + 1) + 68 + (26 + 12 * ((k + 1) * (k + 1))) / radius
}

/// What `miss_bound` comes to: with the unit direction no longer than two
/// and the half chord and the cross product no longer than twice the
/// radius, it is at most `ONE^4 (4 radius r1 + 32 radius + 13)`, where
/// `r1` is the radius in whole units, rounded up.
proof fn lemma_miss_bound_plain(radius: int, len: int, a: int, c: int, wg: int, r1: int)
    requires
        radius > 0,
        0 <= len <= 2 * ONE,
        0 < a <= 3 * (ONE * ONE),
        0 <= c <= 2 * radius,
        0 <= wg <= 2 * radius,
        radius < ONE * r1,
    ensures
        miss_bound(radius, len, a, c, 6 * ((ONE * ONE) * wg) + 3 * (ONE * ONE)) <= ((ONE * ONE) * (
        ONE * ONE)) * (4 * (radius * r1) + 32 * radius + 13),
{
    let unit = ONE as int;
    let uu = unit * unit;
    let q = uu * uu;
    let rr = radius * radius;
    let slip = 6 * (uu * wg) + 3 * uu;
    assert(uu > 0 && q > 0) by (nonlinear_arith)
        requires
            uu == unit * unit,
            q == uu * uu,
            unit > 0,
    ;
    assert(uu * (rr * len) <= 2 * (q * (radius * r1))) by (nonlinear_arith)
        requires
            rr == radius * radius,
            0 <= len <= 2 * unit,
            0 < radius < unit * r1,
            uu == unit * unit,
            q == uu * uu,
            unit > 0,
    ;
    assert(uu * (unit * (radius * len)) <= 2 * (q * radius)) by (nonlinear_arith)
        requires
            0 <= len <= 2 * unit,
            radius > 0,
            uu == unit * unit,
            q == uu * uu,
            unit > 0,
    ;
    assert(uu * slip <= 12 * (q * radius) + 3 * q) by (nonlinear_arith)
        requires
            slip == 6 * (uu * wg) + 3 * uu,
            0 <= wg <= 2 * radius,
            q == uu * uu,
            uu > 0,
    ;
    assert(uu * (uu * c) <= 2 * (q * radius)) by (nonlinear_arith)
        requires
            0 <= c <= 2 * radius,
            q == uu * uu,
            uu > 0,
    ;
    assert((uu * c) * a <= 6 * (q * radius)) by (nonlinear_arith)
        requires
            0 <= c <= 2 * radius,
            0 < a <= 3 * uu,
            q == uu * uu,
            uu > 0,
    ;
    assert(a * a <= 9 * q) by (nonlinear_arith)
        requires
            0 < a <= 3 * uu,
            q == uu * uu,
    ;
    assert(q * (4 * (radius * r1) + 32 * radius + 13) == 4 * (q * (radius * r1)) + 32 * (q
        * radius) + 13 * q) by (nonlinear_arith);
}

/// The reported point lies at the distance of the radius from the centre,
/// to within rounding.
///
/// For a sphere, a ray origin and a direction within `REACH`, and a hit
/// whose parameter was not held at the limit: the distance of the
/// reported point from the centre differs from the radius by at most
/// `distance_slack`.
pub proof fn lemma_hit_point_distance(sphere: Sphere, ray: RayModel, t_min: int, t_max: int)
    requires
        0 < sphere.radius <= REACH,
        within_reach(sphere.center@),
        within_reach(ray.origin),
        within_reach(ray.direction),
        ray.direction != v_zero(),
        sphere_hit(sphere, ray, t_min, t_max).is_some(),
        -LIMIT < sphere_hit(sphere, ray, t_min, t_max).unwrap().t < LIMIT,
    ensures
        ({
            let h = sphere_hit(sphere, ray, t_min, t_max).unwrap();
            let dist = v_length(v_sub(h.point, sphere.center@));
            magnitude(dist - sphere.radius) <= distance_slack(
                sphere.radius as int,
                h.t,
                v_length(ray.direction),
            )
        }),
{
    let unit = ONE as int;
    let uu = unit * unit;
    let radius = sphere.radius as int;
    let rr = radius * radius;
    let h = sphere_hit(sphere, ray, t_min, t_max).unwrap();
    let q = approach(ray.origin, ray.direction, sphere.center@, radius);
    let sigma = chosen_sign(q, t_min, t_max);
    let s = distance_for(q, sigma);
    lemma_point_offset(sphere, ray, t_min, t_max);
    lemma_distance_meets_sphere(ray.origin, ray.direction, sphere.center@, radius, sigma);
    let a = q.unit_squared;
    let len = floor_sqrt(a);
    let c = floor_sqrt(half_chord_squared(q));
    let wg = floor_sqrt(q.aside);
    let bound = miss_bound(radius, len, a, c, cross_slip(q.aside));
    let kept = v_sub(h.point, sphere.center@);
    let exact = exact_offset(ray.origin, sphere.center@, v_unit(ray.direction), s);
    let step = (q.scale * (magnitude(h.t) + 1)) / unit + 1 + q.scale + unit;
    let k = step / unit;
    assert(k == lengths_in_play(h.t, v_length(ray.direction)));
    let n = v_norm_squared(kept);
    let w = floor_sqrt(n);
    let g = miss(ray.origin, ray.direction, sphere.center@, radius, s);
    lemma_rounded_norm(exact, kept, unit, step);
    // the lengths in play, in whole units
    lemma_unit_vector_bounds(ray.direction);
    assert(q.scale * (magnitude(h.t) + 1) >= 0) by (nonlinear_arith)
        requires
            q.scale > 0,
            magnitude(h.t) >= 0,
    ;
    vstd::arithmetic::div_mod::lemma_div_pos_is_pos(q.scale * (magnitude(h.t) + 1), unit);
    vstd::arithmetic::div_mod::lemma_fundamental_div_mod(step, unit);
    vstd::arithmetic::div_mod::lemma_mod_pos_bound(step, unit);
    vstd::arithmetic::div_mod::lemma_div_pos_is_pos(step, unit);
    let k1 = k + 1;
    assert(step <= unit * k1);
    // the squared distance against the squared radius
    assert((unit * radius) * (unit * radius) == uu * rr) by (nonlinear_arith)
        requires
            uu == unit * unit,
            rr == radius * radius,
    ;
    let gap = n - rr;
    assert(uu * gap == uu * n - uu * rr) by (nonlinear_arith)
        requires
            gap == n - rr,
    ;
    let m = a * uu;
    assert(uu > 0 && m > 0 && 2 * m >= uu * uu) by (nonlinear_arith)
        requires
            uu == unit * unit,
            m == a * uu,
            (unit - 4) * (unit - 4) <= a,
            unit == 1_000_000_000,
    ;
    assert(magnitude(uu * gap) == uu * magnitude(gap)) by (nonlinear_arith)
        requires
            uu > 0,
    ;
    let spread = 6 * ((unit * step) * w) + 3 * (step * step);
    assert(uu * magnitude(gap) <= spread + magnitude(g));
    assert(m * magnitude(gap) == a * (uu * magnitude(gap))) by (nonlinear_arith)
        requires
            m == a * uu,
    ;
    assert(a * (uu * magnitude(gap)) <= a * spread + a * magnitude(g)) by (nonlinear_arith)
        requires
            uu * magnitude(gap) <= spread + magnitude(g),
            a > 0,
    ;
    let hh = 3 * k1;
    assert((unit * step) * w <= (uu * k1) * w) by (nonlinear_arith)
        requires
            step <= unit * k1,
            uu == unit * unit,
            unit > 0,
            w >= 0,
    ;
    assert(step * step <= uu * (k1 * k1)) by (nonlinear_arith)
        requires
            0 <= step <= unit * k1,
            uu == unit * unit,
    ;
    let along = (unit * step) * w;
    let across = step * step;
    assert(a * spread == 6 * (a * along) + 3 * (a * across)) by (nonlinear_arith)
        requires
            spread == 6 * along + 3 * across,
    ;
    assert(a * along <= a * ((uu * k1) * w)) by (nonlinear_arith)
        requires
            along <= (uu * k1) * w,
            a > 0,
    ;
    assert(a * ((uu * k1) * w) == m * (k1 * w)) by (nonlinear_arith)
        requires
            m == a * uu,
    ;
    assert(m * (2 * hh * w) == 6 * (m * (k1 * w))) by (nonlinear_arith)
        requires
            hh == 3 * k1,
    ;
    assert(a * across <= a * (uu * (k1 * k1))) by (nonlinear_arith)
        requires
            across <= uu * (k1 * k1),
            a > 0,
    ;
    assert(a * (uu * (k1 * k1)) == m * (k1 * k1)) by (nonlinear_arith)
        requires
            m == a * uu,
    ;
    assert(a * spread <= m * (2 * hh * w) + 3 * (m * (k1 * k1)));
    assert(n >= 0) by (nonlinear_arith)
        requires
            n == kept.x * kept.x + kept.y * kept.y + kept.z * kept.z,
    ;
    assert(m * (k1 * k1) >= 0 && bound >= 0) by (nonlinear_arith)
        requires
            m > 0,
            bound >= a * magnitude(g),
            a > 0,
            magnitude(g) >= 0,
    ;
    lemma_root_near(n, radius, m, hh, bound + 3 * (m * (k1 * k1)));
    // the bound in plain terms
    let r1 = radius / unit + 1;
    vstd::arithmetic::div_mod::lemma_fundamental_div_mod(radius, unit);
    vstd::arithmetic::div_mod::lemma_mod_pos_bound(radius, unit);
    assert(radius < unit * r1) by (nonlinear_arith)
        requires
            radius == unit * (radius / unit) + radius % unit,
            radius % unit < unit,
            r1 == radius / unit + 1,
    ;
    lemma_miss_bound_plain(radius, len, a, c, wg, r1);
    let plain = 4 * (radius * r1) + 32 * radius + 13;
    assert(bound <= (uu * uu) * plain);
    assert(plain >= 0) by (nonlinear_arith)
        requires
            plain == 4 * (radius * r1) + 32 * radius + 13,
            radius > 0,
            r1 > 0,
    ;
    assert((uu * uu) * plain <= m * (2 * plain)) by (nonlinear_arith)
        requires
            2 * m >= uu * uu,
            plain >= 0,
    ;
    let x = magnitude(w - radius) - (hh + 1);
    let room = 2 * plain + 12 * (k1 * k1);
    assert(m * (hh * hh) == 9 * (m * (k1 * k1))) by (nonlinear_arith)
        requires
            hh == 3 * k1,
    ;
    assert(m * (x * radius) <= m * room) by (nonlinear_arith)
        requires
            m * (x * radius) <= bound + 3 * (m * (k1 * k1)) + m * (hh * hh),
            m * (hh * hh) == 9 * (m * (k1 * k1)),
            bound <= m * (2 * plain),
            room == 2 * plain + 12 * (k1 * k1),
    ;
    assert(x * radius <= room) by (nonlinear_arith)
        requires
            m * (x * radius) <= m * room,
            m > 0,
    ;
    // room == (8 r1 + 64) radius + 26 + 12 k1^2
    let y = x - (8 * r1 + 64);
    assert(y * radius <= 26 + 12 * (k1 * k1)) by (nonlinear_arith)
        requires
            x * radius <= room,
            room == 2 * plain + 12 * (k1 * k1),
            plain == 4 * (radius * r1) + 32 * radius + 13,
            y == x - (8 * r1 + 64),
    ;
    assert(1 * (y * radius) == y * radius) by (nonlinear_arith);
    lemma_bound_by_quotient(y, 1, radius, 26 + 12 * (k1 * k1));
    assert(1 * radius == radius);
}

/// By how much the length of a reported normal may differ from `ONE`, in
/// billionths, where the distance of the point from the centre differs
/// from the radius by at most `d`: 4 and the quotient of
/// `12 radius^2 + ONE^2 (2 radius (d + 1) + (d + 1)^2)` by
/// `radius^2 ONE`, which is about `2 (d + 1)` divided by the radius as a
/// number.
pub open spec fn normal_slack(radius: int, d: int) -> int {
    4 + (12 * (radius * radius) + (ONE * ONE) * (2 * (radius * (d + 1)) + (d + 1) * (d + 1))) / ((
    radius * radius) * ONE)
}

/// A squared length against a squared radius: where the length `w`
/// rounded down differs from `radius` by at most `d`, the squared length
/// `n` differs from the squared radius by at most
/// `2 radius (d + 1) + (d + 1)^2`.
proof fn lemma_square_near(n: int, radius: int, d: int)
    requires
        n >= 0,
        radius > 0,
        d >= 0,
        magnitude(floor_sqrt(n) - radius) <= d,
    ensures
        magnitude(n - radius * radius) <= 2 * (radius * (d + 1)) + (d + 1) * (d + 1),
{
    lemma_floor_sqrt(n);
    let w = floor_sqrt(n);
    assert(n - radius * radius <= 2 * (radius * (d + 1)) + (d + 1) * (d + 1)) by (nonlinear_arith)
        requires
            n < (w + 1) * (w + 1),
            0 <= w <= radius + d,
            radius > 0,
            d >= 0,
    ;
    assert(radius * radius - n <= 2 * (radius * (d + 1)) + (d + 1) * (d + 1)) by (nonlinear_arith)
        requires
            w * w <= n,
            w >= radius - d,
            w >= 0,
            radius > 0,
            d >= 0,
    ;
}

/// The reported normal has unit length, to within rounding.
///
/// For a sphere, a ray origin and a direction within `REACH`, a hit whose
/// parameter was not held at the limit and whose point does not fall on
/// the centre, and a normal that was not held at the limit: the length of
/// the normal differs from `ONE` by at most `normal_slack`.
pub proof fn lemma_hit_normal_length(sphere: Sphere, ray: RayModel, t_min: int, t_max: int)
    requires
        0 < sphere.radius <= REACH,
        within_reach(sphere.center@),
        within_reach(ray.origin),
        within_reach(ray.direction),
        ray.direction != v_zero(),
        sphere_hit(sphere, ray, t_min, t_max).is_some(),
        -LIMIT < sphere_hit(sphere, ray, t_min, t_max).unwrap().t < LIMIT,
        v_div(
            v_sub(sphere_hit(sphere, ray, t_min, t_max).unwrap().point, sphere.center@),
            sphere.radius as int,
        ) != v_zero(),
        -LIMIT < sphere_hit(sphere, ray, t_min, t_max).unwrap().normal.x < LIMIT,
        -LIMIT < sphere_hit(sphere, ray, t_min, t_max).unwrap().normal.y < LIMIT,
        -LIMIT < sphere_hit(sphere, ray, t_min, t_max).unwrap().normal.z < LIMIT,
    ensures
        ({
            let h = sphere_hit(sphere, ray, t_min, t_max).unwrap();
            magnitude(v_length(h.normal) - ONE) <= normal_slack(
                sphere.radius as int,
                distance_slack(sphere.radius as int, h.t, v_length(ray.direction)),
            )
        }),
{
    let unit = ONE as int;
    let uu = unit * unit;
    let radius = sphere.radius as int;
    let rr = radius * radius;
    let h = sphere_hit(sphere, ray, t_min, t_max).unwrap();
    lemma_point_offset(sphere, ray, t_min, t_max);
    lemma_hit_point_distance(sphere, ray, t_min, t_max);
    let d = distance_slack(radius, h.t, v_length(ray.direction));
    let kept = v_sub(h.point, sphere.center@);
    let n = v_norm_squared(kept);
    assert(kept.x * kept.x >= 0 && kept.y * kept.y >= 0 && kept.z * kept.z >= 0)
        by (nonlinear_arith);
    assert(d >= 0);
    lemma_square_near(n, radius, d);
    let near = 2 * (radius * (d + 1)) + (d + 1) * (d + 1);
    // the outward normal, before it is turned against the ray
    let out = v_div(kept, radius);
    let ox = lemma_tdiv_remainder(kept.x * unit, radius);
    let oy = lemma_tdiv_remainder(kept.y * unit, radius);
    let oz = lemma_tdiv_remainder(kept.z * unit, radius);
    assert(h.normal == out || h.normal == v_neg(out)) by {
        reveal(sphere_hit);
    }
    assert(out.x == tdiv(kept.x * unit, radius));
    assert(out.y == tdiv(kept.y * unit, radius));
    assert(out.z == tdiv(kept.z * unit, radius));
    let scaled = V3 { x: unit * kept.x, y: unit * kept.y, z: unit * kept.z };
    assert(kept.x * unit == unit * kept.x && kept.y * unit == unit * kept.y && kept.z * unit
        == unit * kept.z) by (nonlinear_arith);
    lemma_rounded_norm(scaled, out, radius, radius);
    let nn = v_norm_squared(out);
    let wn = floor_sqrt(nn);
    assert(v_norm_squared(h.normal) == nn) by {
        assert((-out.x) * (-out.x) == out.x * out.x && (-out.y) * (-out.y) == out.y * out.y && (
        -out.z) * (-out.z) == out.z * out.z) by (nonlinear_arith);
    }
    assert((unit * kept.x) * (unit * kept.x) == uu * (kept.x * kept.x)) by (nonlinear_arith)
        requires
            uu == unit * unit,
    ;
    assert((unit * kept.y) * (unit * kept.y) == uu * (kept.y * kept.y)) by (nonlinear_arith)
        requires
            uu == unit * unit,
    ;
    assert((unit * kept.z) * (unit * kept.z) == uu * (kept.z * kept.z)) by (nonlinear_arith)
        requires
            uu == unit * unit,
    ;
    assert(uu * n == uu * (kept.x * kept.x) + uu * (kept.y * kept.y) + uu * (kept.z * kept.z))
        by (nonlinear_arith)
        requires
            n == kept.x * kept.x + kept.y * kept.y + kept.z * kept.z,
    ;
    assert(v_norm_squared(scaled) == uu * n);
    // rr (nn - uu) == (rr nn - uu n) + uu (n - rr)
    let gap = nn - uu;
    assert(rr * gap == (rr * nn - uu * n) + uu * (n - rr)) by (nonlinear_arith)
        requires
            gap == nn - uu,
    ;
    assert(uu > 0 && rr > 0) by (nonlinear_arith)
        requires
            uu == unit * unit,
            rr == radius * radius,
            unit > 0,
            radius > 0,
    ;
    assert(magnitude(uu * (n - rr)) <= uu * near) by (nonlinear_arith)
        requires
            -near <= n - rr <= near,
            uu > 0,
    ;
    assert(magnitude(rr * gap) == rr * magnitude(gap)) by (nonlinear_arith)
        requires
            rr > 0,
    ;
    assert(6 * ((radius * radius) * wn) == rr * (2 * 3 * wn)) by (nonlinear_arith)
        requires
            rr == radius * radius,
    ;
    assert(nn >= 0) by (nonlinear_arith)
        requires
            nn == out.x * out.x + out.y * out.y + out.z * out.z,
    ;
    assert(near >= 0 && uu * near >= 0) by (nonlinear_arith)
        requires
            near == 2 * (radius * (d + 1)) + (d + 1) * (d + 1),
            radius > 0,
            d >= 0,
            uu > 0,
    ;
    lemma_root_near(nn, unit, rr, 3, 3 * rr + uu * near);
    lemma_floor_sqrt(nn);
    let len = v_length(h.normal);
    // the length is wn, or the limit where wn is beyond it
    assert(magnitude(len - unit) <= magnitude(wn - unit));
    assert(rr * ((magnitude(len - unit) - 4) * unit) <= rr * ((magnitude(wn - unit) - 4) * unit))
        by (nonlinear_arith)
        requires
            magnitude(len - unit) <= magnitude(wn - unit),
            rr > 0,
            unit > 0,
    ;
    assert(rr * (3 * 3) == 9 * rr) by (nonlinear_arith);
    lemma_bound_by_quotient(magnitude(len - unit) - 4, rr, unit, 12 * rr + uu * near);
}

} // verus!
