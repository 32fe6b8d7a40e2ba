//! Three-component vectors, points and colours over fixed-point scalars.

use crate::fixed::{
    floor_sqrt, isqrt, magnitude, magnitude_of, minus, negate, over, plus, sat, saturate,
    spec_minus, spec_negate, spec_over, spec_plus, spec_times, tdiv, times, Scalar, LIMIT, ONE,
};
use rand::rngs::StdRng;
use rand::Rng;
use vstd::prelude::*;

verus! {

/// The random source: `rand`'s standard generator, which can be seeded.
/// Nothing is known of its state; it is only handed on to `draw`.
#[verifier::external_type_specification]
#[verifier::external_body]
pub struct ExStdRng(rand::rngs::StdRng);

/// How many candidates `random_in_unit_sphere` draws before it gives up.
pub const SAMPLE_ATTEMPTS: u32 = 4_294_967_295;

/// Components closer to zero than this count as zero: ten billionths.
pub const NEAR_ZERO: i64 = 10;

/// The mathematical model of a vector: three raw component values.
pub struct V3 {
    pub x: int,
    pub y: int,
    pub z: int,
}

/// A vector of three fixed-point components.
#[derive(Clone, Copy, PartialEq, Eq, Debug, Structural)]
pub struct Vec3 {
    pub x: Scalar,
    pub y: Scalar,
    pub z: Scalar,
}

/// A position in space.
pub type Point3 = Vec3;

/// A radiance or an attenuation, one channel per component.
pub type Color = Vec3;

impl View for Vec3 {
    type V = V3;

    open spec fn view(&self) -> V3 {
        V3 { x: self.x as int, y: self.y as int, z: self.z as int }
    }
}

/// The vector whose components are all zero.
pub open spec fn v_zero() -> V3 {
    V3 { x: 0, y: 0, z: 0 }
}

/// Whether every component can be held by a scalar.
pub open spec fn v_fits(a: V3) -> bool {
    &&& i64::MIN <= a.x <= i64::MAX
    &&& i64::MIN <= a.y <= i64::MAX
    &&& i64::MIN <= a.z <= i64::MAX
}

/// Component-wise negation.
pub open spec fn v_neg(a: V3) -> V3 {
    V3 { x: spec_negate(a.x), y: spec_negate(a.y), z: spec_negate(a.z) }
}

/// Component-wise sum.
pub open spec fn v_add(a: V3, b: V3) -> V3 {
    V3 { x: spec_plus(a.x, b.x), y: spec_plus(a.y, b.y), z: spec_plus(a.z, b.z) }
}

/// Component-wise difference.
pub open spec fn v_sub(a: V3, b: V3) -> V3 {
    V3 { x: spec_minus(a.x, b.x), y: spec_minus(a.y, b.y), z: spec_minus(a.z, b.z) }
}

/// Component-wise product, which tints one colour by another.
pub open spec fn v_mul(a: V3, b: V3) -> V3 {
    V3 { x: spec_times(a.x, b.x), y: spec_times(a.y, b.y), z: spec_times(a.z, b.z) }
}

/// Every component multiplied by the scalar `k`.
pub open spec fn v_scale(a: V3, k: int) -> V3 {
    V3 { x: spec_times(a.x, k), y: spec_times(a.y, k), z: spec_times(a.z, k) }
}

/// Every component divided by the non-zero scalar `k`.
pub open spec fn v_div(a: V3, k: int) -> V3 {
    V3 { x: spec_over(a.x, k), y: spec_over(a.y, k), z: spec_over(a.z, k) }
}

/// The dot product: the three products are rounded toward zero one by one
/// and their sum is held within range.
pub open spec fn v_dot(a: V3, b: V3) -> int {
    sat(tdiv(a.x * b.x, ONE as int) + tdiv(a.y * b.y, ONE as int) + tdiv(a.z * b.z, ONE as int))
}

/// The squared length, which is the dot product of a vector with itself.
pub open spec fn v_length_squared(a: V3) -> int {
    v_dot(a, a)
}

/// The sum of the squared raw components, with no rounding.
pub open spec fn v_norm_squared(a: V3) -> int {
    a.x * a.x + a.y * a.y + a.z * a.z
}

/// The length: the square root of the exact sum of squares, rounded down
/// and held within range. It is zero only for the zero vector.
pub open spec fn v_length(a: V3) -> int {
    sat(floor_sqrt(v_norm_squared(a)))
}

/// The cross product, each component rounded as the dot product is.
pub open spec fn v_cross(a: V3, b: V3) -> V3 {
    V3 {
        x: sat(tdiv(a.y * b.z, ONE as int) - tdiv(a.z * b.y, ONE as int)),
        y: sat(tdiv(a.z * b.x, ONE as int) - tdiv(a.x * b.z, ONE as int)),
        z: sat(tdiv(a.x * b.y, ONE as int) - tdiv(a.y * b.x, ONE as int)),
    }
}

/// The vector scaled to unit length, for a vector that is not zero.
pub open spec fn v_unit(a: V3) -> V3 {
    v_div(a, v_length(a))
}

/// Whether every component is closer to zero than `NEAR_ZERO`.
pub open spec fn v_near_zero(a: V3) -> bool {
    &&& magnitude(a.x) < NEAR_ZERO
    &&& magnitude(a.y) < NEAR_ZERO
    &&& magnitude(a.z) < NEAR_ZERO
}

/// The mirror image of `v` about the plane whose normal is `n`:
/// `v - 2 (v . n) n`.
pub open spec fn v_reflect(v: V3, n: V3) -> V3 {
    v_sub(v, v_scale(n, spec_times(2 * ONE, v_dot(v, n))))
}

/// Whether `a` lies strictly inside the unit sphere, each component within
/// `[-ONE, ONE)`.
pub open spec fn v_in_unit_sphere(a: V3) -> bool {
    &&& -ONE <= a.x < ONE
    &&& -ONE <= a.y < ONE
    &&& -ONE <= a.z < ONE
    &&& v_length_squared(a) < ONE
}

/// Whether `u` is the unit vector of some point inside the unit sphere
/// other than its centre.
pub open spec fn v_is_direction(u: V3) -> bool {
    exists|p: V3| #[trigger] v_unit(p) == u && p != v_zero() && v_in_unit_sphere(p)
}

/// The point that stands for `p` when a direction is taken from it: `p`
/// itself, or, since the centre has no direction, the point one step from
/// the centre along the first axis.
pub open spec fn v_off_centre(p: V3) -> V3 {
    if p == v_zero() {
        V3 { x: 1, y: 0, z: 0 }
    } else {
        p
    }
}

/// The direction of a point drawn from inside the unit sphere.
pub open spec fn v_direction_of(p: V3) -> V3 {
    v_unit(v_off_centre(p))
}

/// `p` turned to the side of the surface that `normal` points to: kept
/// where its dot product with the normal is positive, negated otherwise.
pub open spec fn v_toward(p: V3, normal: V3) -> V3 {
    if v_dot(p, normal) > 0 {
        p
    } else {
        v_neg(p)
    }
}

/// `rand::Rng::gen_range` on the half-open range `min..max` of raw values:
/// the value drawn is at least `min` and less than `max`. The range must
/// not be empty, since the call panics on an empty one.
#[verifier::external_body]
fn draw(rng: &mut StdRng, min: Scalar, max: Scalar) -> (r: Scalar)
    requires
        min < max,
    ensures
        min <= r < max,
{
    rng.gen_range(min..max)
}

/// The product of two raw components as a fixed-point number, rounded
/// toward zero and not yet held within range.
fn wide_product(a: Scalar, b: Scalar) -> (r: i128)
    ensures
        r == tdiv(a as int * b as int, ONE as int),
        -9_223_372_036_854_775_808 * 9_223_372_037 <= r <= 9_223_372_036_854_775_808
            * 9_223_372_037,
{
    let wa: i128 = a as i128;
    let wb: i128 = b as i128;
    assert(-(9_223_372_036_854_775_808 * 9_223_372_036_854_775_808) <= wa * wb
        <= 9_223_372_036_854_775_808 * 9_223_372_036_854_775_808) by (nonlinear_arith)
        requires
            -9_223_372_036_854_775_808 <= wa <= 9_223_372_036_854_775_808,
            -9_223_372_036_854_775_808 <= wb <= 9_223_372_036_854_775_808,
    ;
    let p: i128 = wa * wb;
    p / 1_000_000_000
}

impl Vec3 {
    /// The vector with the given components.
    pub fn new(x: Scalar, y: Scalar, z: Scalar) -> (r: Self)
        ensures
            r@ == (V3 { x: x as int, y: y as int, z: z as int }),
    {
        Vec3 { x, y, z }
    }

    /// A vector whose components are drawn from `[0, ONE)`, the first
    /// component first. Which values come is the generator's doing: any
    /// value of the range may be drawn, zero included, so the range is all
    /// that holds of every result.
    pub fn rand(rng: &mut StdRng) -> (r: Self)
        ensures
            0 <= r@.x < ONE,
            0 <= r@.y < ONE,
            0 <= r@.z < ONE,
    {
        let x: Scalar = draw(rng, 0, ONE);
        let y: Scalar = draw(rng, 0, ONE);
        let z: Scalar = draw(rng, 0, ONE);
        Vec3 { x, y, z }
    }

    /// A vector whose components are drawn from `[min, max)`.
    pub fn rand_range(rng: &mut StdRng, min: Scalar, max: Scalar) -> (r: Self)
        requires
            min < max,
        ensures
            min <= r@.x < max,
            min <= r@.y < max,
            min <= r@.z < max,
    {
        let x: Scalar = draw(rng, min, max);
        let y: Scalar = draw(rng, min, max);
        let z: Scalar = draw(rng, min, max);
        Vec3 { x, y, z }
    }

    /// The first component.
    pub fn x(&self) -> (r: Scalar)
        ensures
            r == self@.x,
    {
        self.x
    }

    /// The second component.
    pub fn y(&self) -> (r: Scalar)
        ensures
            r == self@.y,
    {
        self.y
    }

    /// The third component.
    pub fn z(&self) -> (r: Scalar)
        ensures
            r == self@.z,
    {
        self.z
    }

    /// The component at `index`: 0, 1 or 2.
    pub fn get(&self, index: usize) -> (r: Scalar)
        requires
            index < 3,
        ensures
            r == (if index == 0 {
                self@.x
            } else if index == 1 {
                self@.y
            } else {
                self@.z
            }),
    {
        if index == 0 {
            self.x
        } else if index == 1 {
            self.y
        } else {
            self.z
        }
    }

    /// The dot product with `v`.
    pub fn dot(&self, v: Vec3) -> (r: Scalar)
        ensures
            r == v_dot(self@, v@),
    {
        let s: i128 = wide_product(self.x, v.x) + wide_product(self.y, v.y) + wide_product(
            self.z,
            v.z,
        );
        saturate(s)
    }

    /// The squared length.
    pub fn length_squared(&self) -> (r: Scalar)
        ensures
            r == v_length_squared(self@),
    {
        self.dot(*self)
    }

    /// The sum of the squared raw components, with no rounding.
    pub fn norm_squared(&self) -> (r: u128)
        ensures
            r == v_norm_squared(self@),
    {
        let mx: u128 = magnitude_of(self.x);
        let my: u128 = magnitude_of(self.y);
        let mz: u128 = magnitude_of(self.z);
        assert(mx * mx <= 9_223_372_036_854_775_808 * 9_223_372_036_854_775_808 && mx * mx
            == self.x * self.x) by (nonlinear_arith)
            requires
                0 <= mx <= 9_223_372_036_854_775_808,
                mx == magnitude(self.x as int),
        ;
        assert(my * my <= 9_223_372_036_854_775_808 * 9_223_372_036_854_775_808 && my * my
            == self.y * self.y) by (nonlinear_arith)
            requires
                0 <= my <= 9_223_372_036_854_775_808,
                my == magnitude(self.y as int),
        ;
        assert(mz * mz <= 9_223_372_036_854_775_808 * 9_223_372_036_854_775_808 && mz * mz
            == self.z * self.z) by (nonlinear_arith)
            requires
                0 <= mz <= 9_223_372_036_854_775_808,
                mz == magnitude(self.z as int),
        ;
        mx * mx + my * my + mz * mz
    }

    /// The length.
    pub fn length(&self) -> (r: Scalar)
        ensures
            r == v_length(self@),
    {
        let root: u64 = isqrt(self.norm_squared());
        if root > 9_223_372_036_854_775_807 {
            LIMIT
        } else {
            root as i64
        }
    }

    /// The cross product with `v`.
    pub fn cross(&self, v: Vec3) -> (r: Vec3)
        ensures
            r@ == v_cross(self@, v@),
    {
        Vec3 {
            x: saturate(wide_product(self.y, v.z) - wide_product(self.z, v.y)),
            y: saturate(wide_product(self.z, v.x) - wide_product(self.x, v.z)),
            z: saturate(wide_product(self.x, v.y) - wide_product(self.y, v.x)),
        }
    }

    /// Whether the vector is the zero vector.
    pub fn is_zero(&self) -> (r: bool)
        ensures
            r == (self@ == v_zero()),
    {
        self.x == 0 && self.y == 0 && self.z == 0
    }

    /// The vector scaled to unit length.
    pub fn unit_vector(&self) -> (r: Vec3)
        requires
            self@ != v_zero(),
        ensures
            r@ == v_unit(self@),
    {
        proof {
            lemma_length_positive(self@);
        }
        self.div(self.length())
    }

    /// Whether every component is within `NEAR_ZERO` of zero.
    pub fn near_zero(&self) -> (r: bool)
        ensures
            r == v_near_zero(self@),
    {
        magnitude_of(self.x) < NEAR_ZERO as u128 && magnitude_of(self.y) < NEAR_ZERO as u128
            && magnitude_of(self.z) < NEAR_ZERO as u128
    }

    /// The negated vector.
    pub fn neg(self) -> (r: Vec3)
        ensures
            r@ == v_neg(self@),
    {
        Vec3 { x: negate(self.x), y: negate(self.y), z: negate(self.z) }
    }

    /// The sum with `rhs`.
    pub fn add(self, rhs: Vec3) -> (r: Vec3)
        ensures
            r@ == v_add(self@, rhs@),
    {
        Vec3 { x: plus(self.x, rhs.x), y: plus(self.y, rhs.y), z: plus(self.z, rhs.z) }
    }

    /// The difference from `rhs`.
    pub fn sub(self, rhs: Vec3) -> (r: Vec3)
        ensures
            r@ == v_sub(self@, rhs@),
    {
        Vec3 { x: minus(self.x, rhs.x), y: minus(self.y, rhs.y), z: minus(self.z, rhs.z) }
    }

    /// The component-wise product with `rhs`.
    pub fn mul(self, rhs: Vec3) -> (r: Vec3)
        ensures
            r@ == v_mul(self@, rhs@),
    {
        Vec3 { x: times(self.x, rhs.x), y: times(self.y, rhs.y), z: times(self.z, rhs.z) }
    }

    /// The vector with every component multiplied by `k`.
    pub fn scale(self, k: Scalar) -> (r: Vec3)
        ensures
            r@ == v_scale(self@, k as int),
    {
        Vec3 { x: times(self.x, k), y: times(self.y, k), z: times(self.z, k) }
    }

    /// The vector with every component divided by `k`.
    pub fn div(self, k: Scalar) -> (r: Vec3)
        requires
            k != 0,
        ensures
            r@ == v_div(self@, k as int),
    {
        Vec3 { x: over(self.x, k), y: over(self.y, k), z: over(self.z, k) }
    }
}

impl Default for Vec3 {
    /// The zero vector, which is also the colour black.
    fn default() -> (r: Self)
        ensures
            r@ == v_zero(),
    {
        Vec3 { x: 0, y: 0, z: 0 }
    }
}

/// A vector that is not zero has a positive length.
pub proof fn lemma_length_positive(a: V3)
    requires
        a != v_zero(),
    ensures
        v_length(a) > 0,
{
    let n = v_norm_squared(a);
    assert(n >= 1) by (nonlinear_arith)
        requires
            n == a.x * a.x + a.y * a.y + a.z * a.z,
            a.x != 0 || a.y != 0 || a.z != 0,
    ;
    crate::fixed::lemma_floor_sqrt(n);
    let r = floor_sqrt(n);
    assert(r >= 1) by (nonlinear_arith)
        requires
            r >= 0,
            n >= 1,
            n < (r + 1) * (r + 1),
    ;
}

/// One component of the unit vector of a vector of length `len`: it has
/// the sign of `x` and is at most `ONE` in magnitude, and it is not zero
/// where `x` is at least half as long as the vector.
proof fn lemma_unit_component_bounds(x: int, len: int)
    requires
        0 < len <= LIMIT,
        magnitude(x) <= len || (len == LIMIT && magnitude(x) <= LIMIT + 1),
    ensures
        -ONE <= spec_over(x, len) <= ONE,
        x >= 0 ==> spec_over(x, len) >= 0,
        x <= 0 ==> spec_over(x, len) <= 0,
        len <= 2 * magnitude(x) ==> spec_over(x, len) != 0,
{
    let m = magnitude(x);
    let n = m * ONE;
    assert(magnitude(x * ONE) == n);
    vstd::arithmetic::div_mod::lemma_div_pos_is_pos(n, len);
    vstd::arithmetic::div_mod::lemma_fundamental_div_mod(n, len);
    vstd::arithmetic::div_mod::lemma_mod_pos_bound(n, len);
    let w = n / len;
    let rem = n % len;
    assert(len * w + rem == n);
    assert(w <= ONE) by (nonlinear_arith)
        requires
            len * w + rem == n,
            rem >= 0,
            n == m * ONE,
            m <= len || (len == LIMIT && m <= LIMIT + 1),
            0 < len <= LIMIT,
            w >= 0,
    ;
    if len <= 2 * m {
        assert(w >= 1) by (nonlinear_arith)
            requires
                len * w + rem == n,
                rem < len,
                n == m * ONE,
                len <= 2 * m,
                0 < len,
        ;
    }
}

/// The unit vector of a vector that is not zero: no component exceeds
/// `ONE` in magnitude, each has the sign of the component it comes from,
/// and the unit vector is not zero.
pub proof fn lemma_unit_vector_bounds(v: V3)
    requires
        v != v_zero(),
        v_fits(v),
    ensures
        -ONE <= v_unit(v).x <= ONE,
        -ONE <= v_unit(v).y <= ONE,
        -ONE <= v_unit(v).z <= ONE,
        v_unit(v).x * v.x >= 0,
        v_unit(v).y * v.y >= 0,
        v_unit(v).z * v.z >= 0,
        v_unit(v) != v_zero(),
        0 < v_length(v) <= LIMIT,
{
    let n = v_norm_squared(v);
    assert(v.x * v.x >= 0 && v.y * v.y >= 0 && v.z * v.z >= 0) by (nonlinear_arith);
    crate::fixed::lemma_floor_sqrt(n);
    lemma_length_positive(v);
    let root = floor_sqrt(n);
    let len = v_length(v);
    lemma_component_within_length(v.x, v.y * v.y + v.z * v.z, root);
    lemma_component_within_length(v.y, v.x * v.x + v.z * v.z, root);
    lemma_component_within_length(v.z, v.x * v.x + v.y * v.y, root);
    lemma_unit_component_bounds(v.x, len);
    lemma_unit_component_bounds(v.y, len);
    lemma_unit_component_bounds(v.z, len);
    let u = v_unit(v);
    assert(u.x * v.x >= 0) by (nonlinear_arith)
        requires
            (v.x >= 0 && u.x >= 0) || (v.x <= 0 && u.x <= 0),
    ;
    assert(u.y * v.y >= 0) by (nonlinear_arith)
        requires
            (v.y >= 0 && u.y >= 0) || (v.y <= 0 && u.y <= 0),
    ;
    assert(u.z * v.z >= 0) by (nonlinear_arith)
        requires
            (v.z >= 0 && u.z >= 0) || (v.z <= 0 && u.z <= 0),
    ;
    // the longest component is at least half as long as the vector
    let mx = magnitude(v.x);
    let my = magnitude(v.y);
    let mz = magnitude(v.z);
    let m = if mx >= my && mx >= mz {
        mx
    } else if my >= mz {
        my
    } else {
        mz
    };
    assert(root <= 2 * m) by (nonlinear_arith)
        requires
            root >= 0,
            root * root <= n,
            n == v.x * v.x + v.y * v.y + v.z * v.z,
            mx == v.x || mx == -v.x,
            my == v.y || my == -v.y,
            mz == v.z || mz == -v.z,
            0 <= mx <= m,
            0 <= my <= m,
            0 <= mz <= m,
    ;
}

/// One component of a unit vector: for a component `x` of a vector of
/// length `len`, the magnitude `w` of `x / len` is at most one, and
/// `len * w` falls short of `x * ONE` by less than `len`.
proof fn lemma_unit_component(x: int, len: int) -> (w: int)
    requires
        0 < len <= LIMIT,
        magnitude(x) <= len,
    ensures
        0 <= w <= ONE,
        spec_over(x, len) * spec_over(x, len) == w * w,
        (len * w) * (len * w) <= (x * x) * (ONE * ONE),
        (len * w) * (len * w) >= (x * x) * (ONE * ONE) - 2 * ONE * (len * len),
{
    let m = magnitude(x);
    let n = m * ONE;
    let w = n / len;
    assert(magnitude(x * ONE) == n);
    vstd::arithmetic::div_mod::lemma_div_pos_is_pos(n, len);
    vstd::arithmetic::div_mod::lemma_div_is_ordered(n, len * ONE, len);
    vstd::arithmetic::div_mod::lemma_div_multiples_vanish(ONE as int, len);
    assert(w <= ONE);
    let q = spec_over(x, len);
    assert(q == w || q == -w);
    assert(q * q == w * w) by (nonlinear_arith)
        requires
            q == w || q == -w,
    ;
    vstd::arithmetic::div_mod::lemma_fundamental_div_mod(n, len);
    vstd::arithmetic::div_mod::lemma_mod_pos_bound(n, len);
    let rem = n % len;
    assert(len * w + rem == n);
    assert((x * x) * (ONE * ONE) == n * n) by (nonlinear_arith)
        requires
            n == m * ONE,
            m == x || m == -x,
    ;
    assert((len * w) * (len * w) <= n * n) by (nonlinear_arith)
        requires
            len * w + rem == n,
            0 <= rem,
            0 <= len * w,
    ;
    assert(len * w >= 0) by (nonlinear_arith)
        requires
            len > 0,
            w >= 0,
    ;
    assert((len * w) * (len * w) >= n * n - 2 * ONE * (len * len)) by (nonlinear_arith)
        requires
            len * w + rem == n,
            0 <= rem < len,
            0 <= len * w,
            n == m * ONE,
            0 <= m <= len,
            len > 0,
    ;
    w
}

/// A component of a vector is no longer than the vector.
pub proof fn lemma_component_within_length(x: int, rest: int, len: int)
    requires
        rest >= 0,
        len >= 0,
        x * x + rest < (len + 1) * (len + 1),
    ensures
        magnitude(x) <= len,
{
    let m = magnitude(x);
    assert(m * m == x * x) by (nonlinear_arith)
        requires
            m == x || m == -x,
    ;
    assert(m <= len) by (nonlinear_arith)
        requires
            m * m + rest < (len + 1) * (len + 1),
            rest >= 0,
            len >= 0,
            m >= 0,
    ;
}

/// A unit vector has length one to within rounding: for a vector that is
/// not zero and whose length can be represented, the length of its unit
/// vector is at least `ONE - 4`, and exceeds `ONE` by less than `ONE`
/// divided by the vector's own length. So for a vector of length one or
/// more it lies in `[ONE - 4, ONE]`.
pub proof fn lemma_unit_vector_length(v: V3)
    requires
        v != v_zero(),
        floor_sqrt(v_norm_squared(v)) <= LIMIT,
    ensures
        ONE - 4 <= v_length(v_unit(v)),
        (v_length(v_unit(v)) - ONE) * v_length(v) < ONE,
{
    let n = v_norm_squared(v);
    let len = floor_sqrt(n);
    lemma_length_positive(v);
    assert(n >= 0) by (nonlinear_arith)
        requires
            n == v.x * v.x + v.y * v.y + v.z * v.z,
    ;
    crate::fixed::lemma_floor_sqrt(n);
    assert(v.x * v.x >= 0 && v.y * v.y >= 0 && v.z * v.z >= 0) by (nonlinear_arith);
    lemma_component_within_length(v.x, v.y * v.y + v.z * v.z, len);
    lemma_component_within_length(v.y, v.x * v.x + v.z * v.z, len);
    lemma_component_within_length(v.z, v.x * v.x + v.y * v.y, len);
    let wx = lemma_unit_component(v.x, len);
    let wy = lemma_unit_component(v.y, len);
    let wz = lemma_unit_component(v.z, len);
    let u = v_unit(v);
    let m = v_norm_squared(u);
    assert(m == wx * wx + wy * wy + wz * wz);
    let s = ONE as int;
    // len^2 m lies between s^2 n - 6 s len^2 and s^2 n
    let ll = len * len;
    let ss = s * s;
    assert((len * wx) * (len * wx) == ll * (wx * wx)) by (nonlinear_arith)
        requires
            ll == len * len,
    ;
    assert((len * wy) * (len * wy) == ll * (wy * wy)) by (nonlinear_arith)
        requires
            ll == len * len,
    ;
    assert((len * wz) * (len * wz) == ll * (wz * wz)) by (nonlinear_arith)
        requires
            ll == len * len,
    ;
    assert(ll * m == ll * (wx * wx) + ll * (wy * wy) + ll * (wz * wz)) by (nonlinear_arith)
        requires
            m == wx * wx + wy * wy + wz * wz,
    ;
    assert(ss * n == (v.x * v.x) * ss + (v.y * v.y) * ss + (v.z * v.z) * ss) by (nonlinear_arith)
        requires
            n == v.x * v.x + v.y * v.y + v.z * v.z,
    ;
    assert(2 * ONE * (len * len) == 2 * s * ll) by (nonlinear_arith)
        requires
            ll == len * len,
            s == ONE,
    ;
    assert(2 * s * ll == 2 * (s * ll) && 6 * s * ll == 6 * (s * ll)) by (nonlinear_arith);
    assert(ll * m <= ss * n);
    assert(ll * m >= ss * n - 6 * s * ll);
    assert(m >= 0 && m <= 3 * (s * s)) by (nonlinear_arith)
        requires
            m == wx * wx + wy * wy + wz * wz,
            0 <= wx <= s,
            0 <= wy <= s,
            0 <= wz <= s,
    ;
    crate::fixed::lemma_floor_sqrt(m);
    let r = floor_sqrt(m);
    assert(r <= 2 * s) by (nonlinear_arith)
        requires
            r >= 0,
            r * r <= m,
            m <= 3 * (s * s),
            s > 0,
    ;
    assert(v_length(u) == r);
    assert(v_length(v) == len);
    // the lower bound
    assert(ll >= 1) by (nonlinear_arith)
        requires
            ll == len * len,
            len >= 1,
    ;
    assert(m >= ss - 6 * s) by (nonlinear_arith)
        requires
            ll * m >= ss * n - 6 * s * ll,
            ll <= n,
            ll >= 1,
            ss >= 0,
    ;
    assert(r >= s - 4) by (nonlinear_arith)
        requires
            m >= s * s - 6 * s,
            m < (r + 1) * (r + 1),
            r >= 0,
            s == 1_000_000_000,
    ;
    // the upper bound
    assert((r * len) * (r * len) == ll * (r * r)) by (nonlinear_arith)
        requires
            ll == len * len,
    ;
    assert(ll * (r * r) <= ll * m) by (nonlinear_arith)
        requires
            r * r <= m,
            ll >= 0,
    ;
    assert(ss * n < ss * ((len + 1) * (len + 1))) by (nonlinear_arith)
        requires
            n < (len + 1) * (len + 1),
            ss > 0,
    ;
    assert((s * (len + 1)) * (s * (len + 1)) == ss * ((len + 1) * (len + 1)))
        by (nonlinear_arith)
        requires
            ss == s * s,
    ;
    assert((r * len) * (r * len) < (s * (len + 1)) * (s * (len + 1)));
    assert(r * len < s * (len + 1)) by (nonlinear_arith)
        requires
            (r * len) * (r * len) < (s * (len + 1)) * (s * (len + 1)),
            r >= 0,
            len >= 1,
            s > 0,
    ;
    assert((r - s) * len < s) by (nonlinear_arith)
        requires
            r * len < s * (len + 1),
    ;
}

/// Negating the dividend negates a quotient rounded toward zero.
pub proof fn lemma_tdiv_negated(n: int, d: int)
    requires
        d > 0,
    ensures
        tdiv(-n, d) == -tdiv(n, d),
{
    if n == 0 {
        assert(0int / d == 0) by (nonlinear_arith)
            requires
                d > 0,
        ;
    }
}

/// Negating a vector that holds no `i64::MIN` negates its dot products.
pub proof fn lemma_dot_negated(a: V3, b: V3)
    requires
        -LIMIT <= a.x <= LIMIT,
        -LIMIT <= a.y <= LIMIT,
        -LIMIT <= a.z <= LIMIT,
    ensures
        v_dot(v_neg(a), b) == -v_dot(a, b),
{
    assert((-a.x) * b.x == -(a.x * b.x)) by (nonlinear_arith);
    assert((-a.y) * b.y == -(a.y * b.y)) by (nonlinear_arith);
    assert((-a.z) * b.z == -(a.z * b.z)) by (nonlinear_arith);
    lemma_tdiv_negated(a.x * b.x, ONE as int);
    lemma_tdiv_negated(a.y * b.y, ONE as int);
    lemma_tdiv_negated(a.z * b.z, ONE as int);
}

/// The dot product does not depend on the order of its arguments.
pub proof fn lemma_dot_commutes(a: V3, b: V3)
    ensures
        v_dot(a, b) == v_dot(b, a),
{
    assert(a.x * b.x == b.x * a.x) by (nonlinear_arith);
    assert(a.y * b.y == b.y * a.y) by (nonlinear_arith);
    assert(a.z * b.z == b.z * a.z) by (nonlinear_arith);
}

/// A point drawn from inside the unit sphere by rejection: candidates come
/// from the cube `[-ONE, ONE)^3` and the first one whose squared length is
/// below one is returned. Should `SAMPLE_ATTEMPTS` candidates in a row all
/// be rejected, the centre of the sphere is returned. Every point inside
/// the sphere can be the first one accepted, the centre too, so that the
/// result lies inside is all that holds of every result.
pub fn random_in_unit_sphere(rng: &mut StdRng) -> (r: Vec3)
    ensures
        v_in_unit_sphere(r@),
{
    let mut tries: u32 = 0;
    while tries < SAMPLE_ATTEMPTS
        invariant
            tries <= SAMPLE_ATTEMPTS,
        decreases SAMPLE_ATTEMPTS - tries,
    {
        let p = Vec3::rand_range(rng, -ONE, ONE);
        if p.length_squared() < ONE {
            return p;
        }
        tries = tries + 1;
    }
    Vec3::default()
}

/// The direction of a point inside the unit sphere is a unit direction.
pub proof fn lemma_direction_of_is_direction(p: V3)
    requires
        v_in_unit_sphere(p),
    ensures
        v_is_direction(v_direction_of(p)),
{
    let q = v_off_centre(p);
    if p == v_zero() {
        assert(1int * 1int == 1 && 0int * 0int == 0);
        assert(1int / 1_000_000_000int == 0 && 0int / 1_000_000_000int == 0);
        assert(tdiv(1int, ONE as int) == 0 && tdiv(0int, ONE as int) == 0);
        assert(v_length_squared(q) == 0);
    }
    assert(v_unit(q) == v_direction_of(p) && q != v_zero() && v_in_unit_sphere(q));
}

/// The direction of the point `p`, drawn from inside the unit sphere: `p`
/// scaled to unit length. The centre of the sphere has no direction; the
/// point one step from it along the first axis takes its place.
pub fn direction_of(p: Vec3) -> (r: Vec3)
    ensures
        r@ == v_direction_of(p@),
        v_in_unit_sphere(p@) ==> v_is_direction(r@),
{
    let q = if p.is_zero() {
        Vec3 { x: 1, y: 0, z: 0 }
    } else {
        p
    };
    proof {
        if p@ == v_zero() {
            assert(1int * 1int == 1 && 0int * 0int == 0);
            assert(1int / 1_000_000_000int == 0 && 0int / 1_000_000_000int == 0);
            assert(tdiv(1int, ONE as int) == 0 && tdiv(0int, ONE as int) == 0);
            assert(v_length_squared(q@) == 0);
        }
        assert(q@ == v_off_centre(p@));
    }
    let u = q.unit_vector();
    assert(v_in_unit_sphere(p@) ==> v_unit(q@) == u@ && q@ != v_zero() && v_in_unit_sphere(q@));
    u
}

/// A random direction: the direction of a point drawn from inside the
/// unit sphere.
pub fn random_unit_vector(rng: &mut StdRng) -> (r: Vec3)
    ensures
        v_is_direction(r@),
{
    direction_of(random_in_unit_sphere(rng))
}

/// The point `p` turned to the side of the surface that `normal` points
/// to.
pub fn toward(p: Vec3, normal: Vec3) -> (r: Vec3)
    ensures
        r@ == v_toward(p@, normal@),
        -LIMIT <= p@.x && -LIMIT <= p@.y && -LIMIT <= p@.z ==> v_dot(r@, normal@) >= 0,
        -LIMIT <= p@.x && -LIMIT <= p@.y && -LIMIT <= p@.z ==> v_length_squared(r@)
            == v_length_squared(p@),
{
    if p.dot(normal) > 0 {
        p
    } else {
        proof {
            let m = p@;
            if -LIMIT <= m.x && -LIMIT <= m.y && -LIMIT <= m.z {
                lemma_dot_negated(m, normal@);
                assert((-m.x) * (-m.x) == m.x * m.x) by (nonlinear_arith);
                assert((-m.y) * (-m.y) == m.y * m.y) by (nonlinear_arith);
                assert((-m.z) * (-m.z) == m.z * m.z) by (nonlinear_arith);
            }
        }
        p.neg()
    }
}

/// A point drawn from inside the unit sphere, on the side of the surface
/// that `normal` points to.
pub fn random_in_hemisphere(rng: &mut StdRng, normal: Vec3) -> (r: Vec3)
    ensures
        -ONE <= r@.x <= ONE,
        -ONE <= r@.y <= ONE,
        -ONE <= r@.z <= ONE,
        v_length_squared(r@) < ONE,
        v_dot(r@, normal@) >= 0,
{
    toward(random_in_unit_sphere(rng), normal)
}

/// The vector `v` with every component multiplied by `k`, the scalar
/// written first.
pub fn scale_by(k: Scalar, v: Vec3) -> (r: Vec3)
    ensures
        r@ == v_scale(v@, k as int),
{
    v.scale(k)
}

/// The mirror image of `v` about the plane whose normal is `n`.
pub fn reflect(v: Vec3, n: Vec3) -> (r: Vec3)
    ensures
        r@ == v_reflect(v@, n@),
{
    v.sub(n.scale(times(2 * ONE, v.dot(n))))
}

} // verus!
