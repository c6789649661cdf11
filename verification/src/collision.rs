//! 2D geometry and the steering engine.
//!
//! `Point` doubles as a position and as a direction; its view `Vec2` is the
//! mathematical pair of integers the contracts speak about. Circles stand for
//! agents and obstacles; axis-aligned rectangles stand for map layers and
//! spawn regions. Comparisons between distances and radii are carried out
//! exactly, on squares, so no rounding enters a collision predicate.

use vstd::prelude::*;
use crate::fixed::{
    DOT_EPS, DOT_LIMIT, FALLBACK_EPS, MAX_OBS, NORM_EPS, PT_LIMIT, R_LIMIT, SCALE, SPEED_LIMIT,
    VEC_LIMIT,
};
use crate::fixed::{div_trunc, isqrt, sqrt_ceil, sqrt_floor, tdiv};
use crate::fixed::{
    lemma_sqrt_ceil_bounds, lemma_sqrt_floor_bounds, lemma_sqrt_floor_monotone,
};

verus! {

/// The mathematical value of a `Point`: a pair of unbounded integers.
#[verifier::ext_equal]
pub ghost struct Vec2 {
    pub x: int,
    pub y: int,
}

/// A position or direction in fixed-point world coordinates.
#[derive(Clone, Copy, Debug, PartialEq, Eq, Structural)]
pub struct Point {
    pub x: i64,
    pub y: i64,
}

impl View for Point {
    type V = Vec2;

    open spec fn view(&self) -> Vec2 {
        Vec2 { x: self.x as int, y: self.y as int }
    }
}

/// The occupied disk of an agent or obstacle.
#[derive(Clone, Copy, Debug, PartialEq, Eq, Structural)]
pub struct CircleBounds {
    pub coords: Point,
    pub r: i64,
}

/// An axis-aligned rectangular region.
#[derive(Clone, Copy, Debug, PartialEq, Eq, Structural)]
pub struct RectBounds {
    pub coords: Point,
    pub size: Point,
}

pub open spec fn vzero() -> Vec2 {
    Vec2 { x: 0, y: 0 }
}

pub open spec fn vadd(a: Vec2, b: Vec2) -> Vec2 {
    Vec2 { x: a.x + b.x, y: a.y + b.y }
}

pub open spec fn vsub(a: Vec2, b: Vec2) -> Vec2 {
    Vec2 { x: a.x - b.x, y: a.y - b.y }
}

/// Rotation by 90 degrees: `(x, y)` to `(y, -x)`.
pub open spec fn vort(a: Vec2) -> Vec2 {
    Vec2 { x: a.y, y: -a.x }
}

pub open spec fn vdot(a: Vec2, b: Vec2) -> int {
    a.x * b.x + a.y * b.y
}

pub open spec fn vlen_sq(a: Vec2) -> int {
    a.x * a.x + a.y * a.y
}

/// The length rounded down to a whole raw step.
pub open spec fn vlen(a: Vec2) -> int {
    sqrt_floor(vlen_sq(a) as nat) as int
}

/// Scaling by the fixed-point factor `n / SCALE`, truncating toward zero.
pub open spec fn vmultf(a: Vec2, n: int) -> Vec2 {
    Vec2 { x: tdiv(a.x * n, SCALE as int), y: tdiv(a.y * n, SCALE as int) }
}

/// Componentwise division by a positive count, truncating toward zero.
pub open spec fn vdivc(a: Vec2, c: int) -> Vec2 {
    Vec2 { x: tdiv(a.x, c), y: tdiv(a.y, c) }
}

/// Normalization to (almost) unit length, with the zero-length guard: a
/// vector shorter than `NORM_EPS` becomes the zero vector. The divisor is
/// the length rounded up, so the result never exceeds one world unit.
pub open spec fn vnorm(a: Vec2) -> Vec2 {
    if vlen(a) <= NORM_EPS as int {
        vzero()
    } else {
        let l = sqrt_ceil(vlen_sq(a) as nat) as int;
        Vec2 { x: tdiv(a.x * SCALE, l), y: tdiv(a.y * SCALE, l) }
    }
}

/// A component magnitude the length routines accept.
pub open spec fn vec_ok(a: Vec2) -> bool {
    &&& -VEC_LIMIT <= a.x <= VEC_LIMIT
    &&& -VEC_LIMIT <= a.y <= VEC_LIMIT
}

/// A component magnitude the dot product accepts.
pub open spec fn dot_ok(a: Vec2) -> bool {
    &&& -DOT_LIMIT <= a.x <= DOT_LIMIT
    &&& -DOT_LIMIT <= a.y <= DOT_LIMIT
}

/// A well-formed world position.
pub open spec fn pt_ok(a: Vec2) -> bool {
    &&& -PT_LIMIT <= a.x <= PT_LIMIT
    &&& -PT_LIMIT <= a.y <= PT_LIMIT
}

/// A well-formed circle: an in-range center and a modest radius.
pub open spec fn circle_ok(c: CircleBounds) -> bool {
    &&& pt_ok(c.coords@)
    &&& 0 <= c.r <= R_LIMIT
}

/// A well-formed rectangle: an in-range corner and a nonnegative extent.
pub open spec fn rect_ok(rc: RectBounds) -> bool {
    &&& pt_ok(rc.coords@)
    &&& pt_ok(rc.size@)
    &&& rc.size.x >= 0
    &&& rc.size.y >= 0
}

/// Two circles touch or overlap: the distance between the centers is at
/// most the sum of the radii (compared exactly, on squares).
pub open spec fn circles_collide(a: CircleBounds, b: CircleBounds) -> bool {
    vlen_sq(vsub(b.coords@, a.coords@)) <= (a.r + b.r) * (a.r + b.r)
}

/// The circle lies within `layer` inflated by `dist_from_edge` on each side.
pub open spec fn on_layer_spec(c: CircleBounds, layer: RectBounds, dist_from_edge: int) -> bool {
    !(c.coords.x + c.r + dist_from_edge < layer.coords.x
        || c.coords.x - c.r - dist_from_edge > layer.coords.x + layer.size.x
        || c.coords.y + c.r + dist_from_edge < layer.coords.y
        || c.coords.y - c.r - dist_from_edge > layer.coords.y + layer.size.y)
}

proof fn lemma_abs_sq(x: int)
    ensures
        (if x >= 0 {
            x
        } else {
            -x
        }) * (if x >= 0 {
            x
        } else {
            -x
        }) == x * x,
        x * x >= 0,
{
    assert((-x) * (-x) == x * x) by (nonlinear_arith);
    assert(x * x >= 0) by (nonlinear_arith);
}

proof fn lemma_sq_monotone(a: int, b: int)
    requires
        0 <= a,
        0 <= b,
        a * a <= b * b,
    ensures
        a <= b,
{
    if b < a {
        assert(b * b < a * a) by (nonlinear_arith)
            requires
                0 <= b < a,
        ;
    }
}

/// The magnitude of a scalar, as a machine word.
fn mag64(x: i64) -> (r: u64)
    requires
        x > i64::MIN,
    ensures
        r == (if x >= 0 {
            x as int
        } else {
            -(x as int)
        }),
{
    if x >= 0 {
        x as u64
    } else {
        (-x) as u64
    }
}

/// The square of a magnitude, widened so it cannot overflow.
fn sq128(a: u64) -> (r: u128)
    ensures
        r == (a as int) * (a as int),
{
    proof {
        assert((a as int) * (a as int) <= u128::MAX) by (nonlinear_arith)
            requires
                0 <= a <= u64::MAX,
        ;
    }
    (a as u128) * (a as u128)
}

/// The squared length of the vector, as exact integers.
fn len_sq_exec(p: &Point) -> (r: u128)
    requires
        vec_ok(p@),
    ensures
        r == vlen_sq(p@),
{
    let ax = mag64(p.x);
    let ay = mag64(p.y);
    proof {
        lemma_abs_sq(p.x as int);
        lemma_abs_sq(p.y as int);
        assert((ax as int) * (ax as int) + (ay as int) * (ay as int) <= 2 * VEC_LIMIT
            * VEC_LIMIT) by (nonlinear_arith)
            requires
                0 <= ax <= VEC_LIMIT,
                0 <= ay <= VEC_LIMIT,
        ;
    }
    sq128(ax) + sq128(ay)
}

/// The exact squared distance between two points.
pub fn dist_sq(a: &Point, b: &Point) -> (r: u128)
    requires
        vec_ok(vsub(a@, b@)),
    ensures
        r == vlen_sq(vsub(a@, b@)),
{
    let d = Point { x: a.x - b.x, y: a.y - b.y };
    len_sq_exec(&d)
}

impl Point {
    /// The zero vector.
    pub fn init() -> (r: Point)
        ensures
            r@ == vzero(),
    {
        Point { x: 0, y: 0 }
    }

    pub fn new(x: i64, y: i64) -> (r: Point)
        ensures
            r.x == x,
            r.y == y,
    {
        Point { x, y }
    }

    /// The length, rounded down to a whole raw step.
    pub fn len(&self) -> (r: i64)
        requires
            vec_ok(self@),
        ensures
            r == vlen(self@),
            0 <= r <= 6_000_000_000_000,
    {
        let sq = len_sq_exec(self);
        let r = isqrt(sq);
        proof {
            lemma_sqrt_floor_bounds(sq as nat);
            assert(self@.x * self@.x + self@.y * self@.y <= 2 * VEC_LIMIT
                * VEC_LIMIT) by (nonlinear_arith)
                requires
                    -VEC_LIMIT <= self@.x <= VEC_LIMIT,
                    -VEC_LIMIT <= self@.y <= VEC_LIMIT,
            ;
            assert((r as int) * (r as int) <= 2 * VEC_LIMIT * VEC_LIMIT);
            assert(2 * VEC_LIMIT * VEC_LIMIT <= 6_000_000_000_000int
                * 6_000_000_000_000int) by (nonlinear_arith);
            lemma_sq_monotone(r as int, 6_000_000_000_000);
        }
        r as i64
    }

    /// Scaling by the fixed-point factor `n / SCALE`.
    pub fn multf(&self, n: i64) -> (r: Point)
        requires
            -(i64::MAX as int) <= self.x * n <= i64::MAX as int,
            -(i64::MAX as int) <= self.y * n <= i64::MAX as int,
        ensures
            r@ == vmultf(self@, n as int),
    {
        let xs = self.x * n;
        let ys = self.y * n;
        let qx = div_trunc(xs, SCALE);
        let qy = div_trunc(ys, SCALE);
        Point { x: qx, y: qy }
    }

    /// The dot product.
    pub fn mults(&self, p: &Point) -> (r: i64)
        requires
            dot_ok(self@),
            dot_ok(p@),
        ensures
            r == vdot(self@, p@),
    {
        proof {
            lemma_dot_product_bounds(self@, p@);
        }
        self.x * p.x + self.y * p.y
    }

    /// Normalization with the zero-length guard: a vector shorter than
    /// `NORM_EPS` becomes zero instead of exploding.
    pub fn norm(&self) -> (r: Point)
        requires
            vec_ok(self@),
        ensures
            r@ == vnorm(self@),
            -SCALE <= r.x <= SCALE,
            -SCALE <= r.y <= SCALE,
    {
        let l = self.len();
        if l <= NORM_EPS {
            Point::init()
        } else {
            let sq = len_sq_exec(self);
            proof {
                assert((l as int) * (l as int) <= u128::MAX) by (nonlinear_arith)
                    requires
                        0 <= l <= 6_000_000_000_000int,
                ;
            }
            let lsqr = (l as u128) * (l as u128);
            let lc: i64 = if lsqr == sq {
                l
            } else {
                l + 1
            };
            proof {
                lemma_sqrt_ceil_bounds(vlen_sq(self@) as nat);
                assert(lc == sqrt_ceil(vlen_sq(self@) as nat) as int);
                lemma_norm_divisor_dominates(self@);
                assert(-(i64::MAX as int) <= self.x * SCALE <= i64::MAX as int)
                    by (nonlinear_arith)
                    requires
                        -VEC_LIMIT <= self.x <= VEC_LIMIT,
                ;
                assert(-(i64::MAX as int) <= self.y * SCALE <= i64::MAX as int)
                    by (nonlinear_arith)
                    requires
                        -VEC_LIMIT <= self.y <= VEC_LIMIT,
                ;
            }
            let xs = self.x * SCALE;
            let ys = self.y * SCALE;
            let qx = div_trunc(xs, lc);
            let qy = div_trunc(ys, lc);
            proof {
                crate::fixed::lemma_tdiv_scaled_bound(self.x as int, lc as int, SCALE as int);
                crate::fixed::lemma_tdiv_scaled_bound(self.y as int, lc as int, SCALE as int);
            }
            Point { x: qx, y: qy }
        }
    }

    /// The distance to `p`, rounded down to a whole raw step.
    pub fn dist(&self, p: &Point) -> (r: i64)
        requires
            vec_ok(vsub(self@, p@)),
        ensures
            r == vlen(vsub(self@, p@)),
            0 <= r <= 6_000_000_000_000,
    {
        let d = Point { x: self.x - p.x, y: self.y - p.y };
        d.len()
    }

    /// Rotation by 90 degrees.
    pub fn ort(&self) -> (r: Point)
        requires
            self.x > i64::MIN,
        ensures
            r@ == vort(self@),
    {
        Point { x: self.y, y: -self.x }
    }

    /// Vector sum.
    pub fn add(&self, p: &Point) -> (r: Point)
        requires
            i64::MIN <= self.x + p.x <= i64::MAX,
            i64::MIN <= self.y + p.y <= i64::MAX,
        ensures
            r@ == vadd(self@, p@),
    {
        Point { x: self.x + p.x, y: self.y + p.y }
    }

    /// Vector difference.
    pub fn sub(&self, p: &Point) -> (r: Point)
        requires
            i64::MIN <= self.x - p.x <= i64::MAX,
            i64::MIN <= self.y - p.y <= i64::MAX,
        ensures
            r@ == vsub(self@, p@),
    {
        Point { x: self.x - p.x, y: self.y - p.y }
    }
}

proof fn lemma_dot_product_bounds(a: Vec2, b: Vec2)
    requires
        dot_ok(a),
        dot_ok(b),
    ensures
        -(DOT_LIMIT * DOT_LIMIT) <= a.x * b.x <= DOT_LIMIT * DOT_LIMIT,
        -(DOT_LIMIT * DOT_LIMIT) <= a.y * b.y <= DOT_LIMIT * DOT_LIMIT,
{
    assert(-(DOT_LIMIT * DOT_LIMIT) <= a.x * b.x <= DOT_LIMIT * DOT_LIMIT) by (nonlinear_arith)
        requires
            -DOT_LIMIT <= a.x <= DOT_LIMIT,
            -DOT_LIMIT <= b.x <= DOT_LIMIT,
    ;
    assert(-(DOT_LIMIT * DOT_LIMIT) <= a.y * b.y <= DOT_LIMIT * DOT_LIMIT) by (nonlinear_arith)
        requires
            -DOT_LIMIT <= a.y <= DOT_LIMIT,
            -DOT_LIMIT <= b.y <= DOT_LIMIT,
    ;
}

/// Each component is dominated by the rounded-up length used by `vnorm`.
proof fn lemma_norm_divisor_dominates(a: Vec2)
    ensures
        (if a.x >= 0 {
            a.x
        } else {
            -a.x
        }) <= sqrt_ceil(vlen_sq(a) as nat) as int,
        (if a.y >= 0 {
            a.y
        } else {
            -a.y
        }) <= sqrt_ceil(vlen_sq(a) as nat) as int,
{
    let ax = if a.x >= 0 {
        a.x
    } else {
        -a.x
    };
    let ay = if a.y >= 0 {
        a.y
    } else {
        -a.y
    };
    lemma_abs_sq(a.x);
    lemma_abs_sq(a.y);
    let n = vlen_sq(a) as nat;
    lemma_sqrt_ceil_bounds(n);
    let c = sqrt_ceil(n) as int;
    assert(ax * ax <= n);
    assert(n <= c * c);
    lemma_sq_monotone(ax, c);
    lemma_sq_monotone(ay, c);
}

/// The squared length of a normalized vector, bounded on both sides. The
/// upper bound holds for every input; the lower bound holds as soon as the
/// input clears the zero-length guard.
proof fn lemma_norm_len_sq_bounds(a: Vec2)
    ensures
        vlen_sq(vnorm(a)) <= SCALE * SCALE,
        vlen(a) > NORM_EPS ==> vlen_sq(vnorm(a)) >= SCALE * SCALE - 2_002_000_000,
{
    let s = SCALE as int;
    if vlen(a) <= NORM_EPS as int {
        assert(vnorm(a) == vzero());
        assert(vlen_sq(vzero()) == 0);
        assert(0 <= s * s) by (nonlinear_arith);
    } else {
        let n = vlen_sq(a);
        lemma_abs_sq(a.x);
        lemma_abs_sq(a.y);
        let ax = if a.x >= 0 {
            a.x
        } else {
            -a.x
        };
        let ay = if a.y >= 0 {
            a.y
        } else {
            -a.y
        };
        assert(n == ax * ax + ay * ay);
        assert(n >= 0);
        let f = sqrt_floor(n as nat) as int;
        lemma_sqrt_floor_bounds(n as nat);
        lemma_sqrt_ceil_bounds(n as nat);
        let l = sqrt_ceil(n as nat) as int;
        assert(f > NORM_EPS);
        assert(l >= f >= 1001);
        assert(n <= l * l);
        assert(n > 0);
        assert((l - 1) * (l - 1) < n);
        lemma_sq_monotone(ax, l);
        lemma_sq_monotone(ay, l);
        let qqx = (ax * s) / l;
        let qqy = (ay * s) / l;
        let qx = tdiv(a.x * s, l);
        let qy = tdiv(a.y * s, l);
        assert(vnorm(a).x == qx && vnorm(a).y == qy);
        // The signed quotients square to the magnitude quotients squared.
        assert(ax * s >= 0 && ay * s >= 0) by (nonlinear_arith)
            requires
                ax >= 0,
                ay >= 0,
                s >= 0,
        ;
        if a.x >= 0 {
            assert(qx == qqx);
        } else {
            assert(a.x * s == -(ax * s)) by (nonlinear_arith)
                requires
                    ax == -a.x,
            ;
            if a.x * s == 0 {
                vstd::arithmetic::div_mod::lemma_div_of0(l);
                assert(qx == 0 && qqx == 0);
            } else {
                assert(qx == -qqx);
            }
        }
        if a.y >= 0 {
            assert(qy == qqy);
        } else {
            assert(a.y * s == -(ay * s)) by (nonlinear_arith)
                requires
                    ay == -a.y,
            ;
            if a.y * s == 0 {
                vstd::arithmetic::div_mod::lemma_div_of0(l);
                assert(qy == 0 && qqy == 0);
            } else {
                assert(qy == -qqy);
            }
        }
        assert(qx * qx == qqx * qqx) by (nonlinear_arith)
            requires
                qx == qqx || qx == -qqx,
        ;
        assert(qy * qy == qqy * qqy) by (nonlinear_arith)
            requires
                qy == qqy || qy == -qqy,
        ;
        let m = vlen_sq(vnorm(a));
        assert(m == qqx * qqx + qqy * qqy);
        // Upper bound: each quotient squares to at most its dividend squared.
        crate::fixed::lemma_div_sq_upper(ax * s, l);
        crate::fixed::lemma_div_sq_upper(ay * s, l);
        assert((ax * s) * (ax * s) == (ax * ax) * (s * s)) by (nonlinear_arith);
        assert((ay * s) * (ay * s) == (ay * ay) * (s * s)) by (nonlinear_arith);
        assert(m * (l * l) == qqx * qqx * l * l + qqy * qqy * l * l) by (nonlinear_arith)
            requires
                m == qqx * qqx + qqy * qqy,
        ;
        assert((ax * ax) * (s * s) + (ay * ay) * (s * s) == n * (s * s)) by (nonlinear_arith)
            requires
                n == ax * ax + ay * ay,
        ;
        assert(n * (s * s) <= (l * l) * (s * s)) by (nonlinear_arith)
            requires
                n <= l * l,
                s * s >= 0,
        ;
        assert(m * (l * l) <= (l * l) * (s * s));
        assert(m <= s * s) by (nonlinear_arith)
            requires
                m * (l * l) <= (l * l) * (s * s),
                l >= 1,
        ;
        // Lower bound: each quotient loses at most 2 * dividend * divisor.
        crate::fixed::lemma_div_sq_lower(ax * s, l);
        crate::fixed::lemma_div_sq_lower(ay * s, l);
        assert(2 * (ax * s) * l + 2 * (ay * s) * l <= 4 * s * (l * l)) by (nonlinear_arith)
            requires
                0 <= ax <= l,
                0 <= ay <= l,
                s >= 1,
                l >= 1,
        ;
        assert(m * (l * l) >= n * (s * s) - 4 * s * (l * l));
        assert(n * (s * s) >= ((l - 1) * (l - 1) + 1) * (s * s)) by (nonlinear_arith)
            requires
                n >= (l - 1) * (l - 1) + 1,
                s * s >= 0,
        ;
        assert(((l - 1) * (l - 1) + 1) * (s * s) - 4 * s * (l * l) >= (s * s - 2_002_000_000) * (l
            * l)) by (nonlinear_arith)
            requires
                l >= 1001,
                s == 1_000_000,
        ;
        assert(m * (l * l) >= (s * s - 2_002_000_000) * (l * l));
        assert(m >= s * s - 2_002_000_000) by (nonlinear_arith)
            requires
                m * (l * l) >= (s * s - 2_002_000_000) * (l * l),
                l >= 1,
        ;
    }
}

/// Scaling a vector of length at most one world unit by `k / SCALE`
/// yields a vector of length at most `k`.
proof fn lemma_vmultf_len_sq(v: Vec2, k: int)
    requires
        vlen_sq(v) <= SCALE * SCALE,
        k >= 0,
    ensures
        vlen_sq(vmultf(v, k)) <= k * k,
{
    let s = SCALE as int;
    lemma_abs_sq(v.x);
    lemma_abs_sq(v.y);
    let vx = if v.x >= 0 {
        v.x
    } else {
        -v.x
    };
    let vy = if v.y >= 0 {
        v.y
    } else {
        -v.y
    };
    let qqx = (vx * k) / s;
    let qqy = (vy * k) / s;
    let qx = tdiv(v.x * k, s);
    let qy = tdiv(v.y * k, s);
    assert(vx * k >= 0 && vy * k >= 0) by (nonlinear_arith)
        requires
            vx >= 0,
            vy >= 0,
            k >= 0,
    ;
    if v.x >= 0 {
        assert(qx == qqx);
    } else {
        assert(v.x * k == -(vx * k)) by (nonlinear_arith)
            requires
                vx == -v.x,
        ;
        if v.x * k == 0 {
            vstd::arithmetic::div_mod::lemma_div_of0(s);
            assert(qx == 0 && qqx == 0);
        } else {
            assert(qx == -qqx);
        }
    }
    if v.y >= 0 {
        assert(qy == qqy);
    } else {
        assert(v.y * k == -(vy * k)) by (nonlinear_arith)
            requires
                vy == -v.y,
        ;
        if v.y * k == 0 {
            vstd::arithmetic::div_mod::lemma_div_of0(s);
            assert(qy == 0 && qqy == 0);
        } else {
            assert(qy == -qqy);
        }
    }
    assert(qx * qx == qqx * qqx) by (nonlinear_arith)
        requires
            qx == qqx || qx == -qqx,
    ;
    assert(qy * qy == qqy * qqy) by (nonlinear_arith)
        requires
            qy == qqy || qy == -qqy,
    ;
    let m = vlen_sq(vmultf(v, k));
    assert(m == qqx * qqx + qqy * qqy);
    crate::fixed::lemma_div_sq_upper(vx * k, s);
    crate::fixed::lemma_div_sq_upper(vy * k, s);
    assert((vx * k) * (vx * k) == (vx * vx) * (k * k)) by (nonlinear_arith);
    assert((vy * k) * (vy * k) == (vy * vy) * (k * k)) by (nonlinear_arith);
    assert(m * (s * s) == qqx * qqx * s * s + qqy * qqy * s * s) by (nonlinear_arith)
        requires
            m == qqx * qqx + qqy * qqy,
    ;
    assert((vx * vx) * (k * k) + (vy * vy) * (k * k) == (vx * vx + vy * vy) * (k
        * k)) by (nonlinear_arith);
    assert((vx * vx + vy * vy) * (k * k) <= (s * s) * (k * k)) by (nonlinear_arith)
        requires
            vx * vx + vy * vy <= s * s,
            k * k >= 0,
    ;
    assert(m * (s * s) <= (s * s) * (k * k));
    assert(m <= k * k) by (nonlinear_arith)
        requires
            m * (s * s) <= (s * s) * (k * k),
            s >= 1,
    ;
}

/// Law: normalization is safe. A vector longer than the guard threshold
/// normalizes to a vector within 0.11% of one world unit; a shorter one
/// normalizes to the zero vector, so no degenerate direction ever escapes.
pub proof fn lemma_norm_unit_length(a: Vec2)
    ensures
        vlen(a) <= NORM_EPS ==> vnorm(a) == vzero(),
        vlen(a) > NORM_EPS ==> SCALE - 1002 <= vlen(vnorm(a)) <= SCALE as int,
{
    lemma_norm_len_sq_bounds(a);
    if vlen(a) > NORM_EPS as int {
        let s = SCALE as int;
        let m = vlen_sq(vnorm(a));
        assert(m >= 0) by {
            lemma_abs_sq(vnorm(a).x);
            lemma_abs_sq(vnorm(a).y);
        };
        crate::fixed::lemma_sqrt_floor_square((s - 1002) as nat);
        crate::fixed::lemma_sqrt_floor_square(s as nat);
        assert((s - 1002) * (s - 1002) <= s * s - 2_002_000_000) by (nonlinear_arith)
            requires
                s == 1_000_000,
        ;
        lemma_sqrt_floor_monotone(((s - 1002) * (s - 1002)) as nat, m as nat);
        lemma_sqrt_floor_monotone(m as nat, (s * s) as nat);
    }
}

/// Law: a steering step never exceeds the speed budget, measured exactly
/// on squared lengths and on the rounded-down length alike.
pub proof fn lemma_steer_bounded(
    b: CircleBounds,
    target: Point,
    obs: Seq<CircleBounds>,
    speed: int,
)
    requires
        speed >= 0,
    ensures
        vlen_sq(steer_spec(b, target, obs, speed)) <= speed * speed,
        vlen(steer_spec(b, target, obs, speed)) <= speed,
{
    let d = deflect_spec(b, target, obs);
    let dir = if vlen(d) < FALLBACK_EPS as int {
        vnorm(vsub(target@, b.coords@))
    } else {
        vnorm(d)
    };
    if vlen(d) < FALLBACK_EPS as int {
        lemma_norm_len_sq_bounds(vsub(target@, b.coords@));
    } else {
        lemma_norm_len_sq_bounds(d);
    }
    lemma_vmultf_len_sq(dir, speed);
    let m = vlen_sq(steer_spec(b, target, obs, speed));
    assert(m >= 0) by {
        lemma_abs_sq(steer_spec(b, target, obs, speed).x);
        lemma_abs_sq(steer_spec(b, target, obs, speed).y);
    };
    crate::fixed::lemma_sqrt_floor_square(speed as nat);
    lemma_sqrt_floor_monotone(m as nat, (speed * speed) as nat);
}

/// Law: with no obstacles at all, a steering step is exactly the
/// normalized straight line toward the target, scaled by the speed.
pub proof fn lemma_steer_no_obstacles(b: CircleBounds, target: Point, speed: int)
    ensures
        steer_spec(b, target, Seq::empty(), speed) == vmultf(
            vnorm(vsub(target@, b.coords@)),
            speed,
        ),
{
    let none = Seq::<CircleBounds>::empty();
    assert(avoid_sum(b, target, none) == vzero());
    assert(avoid_count(b, target, none) == 0);
    assert(vlen_sq(vzero()) == 0);
    crate::fixed::lemma_sqrt_floor_square(0);
    assert(vlen(vzero()) == 0);
    assert(vnorm(vzero()) == vzero());
    let d = deflect_spec(b, target, none);
    vstd::arithmetic::div_mod::lemma_div_of0(1);
    assert(d == vzero());
    assert(vlen(d) < FALLBACK_EPS as int);
}

impl CircleBounds {
    /// Whether this circle touches or overlaps `target`: distance between
    /// centers at most the sum of the radii, compared exactly on squares.
    pub fn collides_with(&self, target: &CircleBounds) -> (r: bool)
        requires
            circle_ok(*self),
            circle_ok(*target),
        ensures
            r == circles_collide(*self, *target),
    {
        let dx = target.coords.x - self.coords.x;
        let dy = target.coords.y - self.coords.y;
        let d = Point { x: dx, y: dy };
        let d2 = len_sq_exec(&d);
        let rs = self.r + target.r;
        proof {
            assert((rs as int) * (rs as int) <= u128::MAX) by (nonlinear_arith)
                requires
                    0 <= rs <= 2 * R_LIMIT,
            ;
        }
        let rs2 = (rs as u128) * (rs as u128);
        d2 <= rs2
    }

    /// Whether the circle lies on `layer`, allowing `dist_from_edge` of slack
    /// beyond each edge.
    pub fn on_layer(&self, layer: &RectBounds, dist_from_edge: i64) -> (r: bool)
        requires
            circle_ok(*self),
            rect_ok(*layer),
            -R_LIMIT <= dist_from_edge <= R_LIMIT,
        ensures
            r == on_layer_spec(*self, *layer, dist_from_edge as int),
    {
        !(self.coords.x + self.r + dist_from_edge < layer.coords.x
            || self.coords.x - self.r - dist_from_edge > layer.coords.x + layer.size.x
            || self.coords.y + self.r + dist_from_edge < layer.coords.y
            || self.coords.y - self.r - dist_from_edge > layer.coords.y + layer.size.y)
    }
}

/// Whether steering must deflect around `o`: the obstacle overlaps the
/// agent (or is about to), and lies roughly ahead of or beside the goal
/// direction rather than behind it.
pub open spec fn obstacle_active(b: CircleBounds, target: Point, o: CircleBounds) -> bool {
    let d2 = vlen_sq(vsub(o.coords@, b.coords@));
    let rs = o.r + b.r;
    &&& d2 < rs * rs
    &&& vdot(vsub(target@, b.coords@), vsub(o.coords@, b.coords@)) > DOT_EPS as int
}

/// What one active obstacle contributes to the avoidance sum: the unit
/// direction from the agent toward the obstacle, scaled by the
/// penetration depth, so deeper overlaps weigh harder. Subtracting the
/// aggregate in the deflection then pushes away from the cluster.
pub open spec fn push_vec(b: CircleBounds, o: CircleBounds) -> Vec2 {
    let diff = vsub(o.coords@, b.coords@);
    vmultf(vnorm(diff), b.r + o.r - vlen(diff))
}

/// The sum of the active obstacles' weighted directions among `obs`.
pub open spec fn avoid_sum(b: CircleBounds, target: Point, obs: Seq<CircleBounds>) -> Vec2
    decreases obs.len(),
{
    if obs.len() == 0 {
        vzero()
    } else {
        let prev = avoid_sum(b, target, obs.drop_last());
        if obstacle_active(b, target, obs.last()) {
            vadd(prev, push_vec(b, obs.last()))
        } else {
            prev
        }
    }
}

/// How many obstacles among `obs` are active.
pub open spec fn avoid_count(b: CircleBounds, target: Point, obs: Seq<CircleBounds>) -> int
    decreases obs.len(),
{
    if obs.len() == 0 {
        0
    } else {
        avoid_count(b, target, obs.drop_last()) + if obstacle_active(b, target, obs.last()) {
            1int
        } else {
            0int
        }
    }
}

/// The deflection that curves around the obstacle cluster: the obstacle
/// sum rotated a quarter turn, minus the sum itself — a tangential part
/// plus a push out of the cluster — divided by the number of active
/// obstacles (each obstacle gets partial voting weight).
pub open spec fn deflect_spec(b: CircleBounds, target: Point, obs: Seq<CircleBounds>) -> Vec2 {
    let a = avoid_sum(b, target, obs);
    let n = avoid_count(b, target, obs);
    let c = if n >= 1 {
        n
    } else {
        1
    };
    vdivc(vsub(vort(vnorm(a)), a), c)
}

/// One steering step: the deflection if it is long enough to matter, else
/// the straight line toward the target; normalized, then scaled by `speed`.
pub open spec fn steer_spec(b: CircleBounds, target: Point, obs: Seq<CircleBounds>, speed: int) -> Vec2 {
    let d = deflect_spec(b, target, obs);
    let dir = if vlen(d) < FALLBACK_EPS as int {
        vnorm(vsub(target@, b.coords@))
    } else {
        vnorm(d)
    };
    vmultf(dir, speed)
}

/// Every circle in the sequence is well formed.
pub open spec fn obstacles_ok(obs: Seq<CircleBounds>) -> bool {
    forall|j: int| 0 <= j < obs.len() ==> circle_ok(#[trigger] obs[j])
}

/// The aggregated repulsion of the active obstacles, with their count.
fn avoid_collision(bounds: &CircleBounds, target: &Point, obstacles: &Vec<CircleBounds>) -> (r:
    Point)
    requires
        circle_ok(*bounds),
        pt_ok(target@),
        obstacles_ok(obstacles@),
        obstacles.len() <= MAX_OBS,
    ensures
        r@ == deflect_spec(*bounds, *target, obstacles@),
        vec_ok(r@),
{
    let mut sum = Point::init();
    let mut count: usize = 0;
    let mut i: usize = 0;
    while i < obstacles.len()
        invariant
            i <= obstacles.len(),
            obstacles.len() <= MAX_OBS,
            circle_ok(*bounds),
            pt_ok(target@),
            obstacles_ok(obstacles@),
            sum@ == avoid_sum(*bounds, *target, obstacles@.take(i as int)),
            count as int == avoid_count(*bounds, *target, obstacles@.take(i as int)),
            count <= i,
            -(2 * R_LIMIT * (count as int)) <= sum.x <= 2 * R_LIMIT * (count as int),
            -(2 * R_LIMIT * (count as int)) <= sum.y <= 2 * R_LIMIT * (count as int),
        decreases obstacles.len() - i,
    {
        let o = obstacles[i];
        let d = Point { x: o.coords.x - bounds.coords.x, y: o.coords.y - bounds.coords.y };
        let d2 = len_sq_exec(&d);
        let rs = o.r + bounds.r;
        proof {
            assert((rs as int) * (rs as int) <= u128::MAX) by (nonlinear_arith)
                requires
                    0 <= rs <= 2 * R_LIMIT,
            ;
        }
        let rs2 = (rs as u128) * (rs as u128);
        let overlapping = d2 < rs2;
        let active = if overlapping {
            let to_target = target.sub(&bounds.coords);
            let dot = to_target.mults(&d);
            dot > DOT_EPS
        } else {
            false
        };
        proof {
            assert(active == obstacle_active(*bounds, *target, obstacles@[i as int]));
        }
        if active {
            let dlen = d.len();
            proof {
                lemma_sqrt_floor_bounds(vlen_sq(d@) as nat);
                if dlen >= rs {
                    assert((rs as int) * (rs as int) <= (dlen as int) * (dlen
                        as int)) by (nonlinear_arith)
                        requires
                            0 <= rs <= dlen,
                    ;
                }
            }
            let depth = rs - dlen;
            let unit = d.norm();
            proof {
                assert(-(i64::MAX as int) <= unit.x * depth <= i64::MAX as int)
                    by (nonlinear_arith)
                    requires
                        -SCALE <= unit.x <= SCALE,
                        0 <= depth <= 2 * R_LIMIT,
                ;
                assert(-(i64::MAX as int) <= unit.y * depth <= i64::MAX as int)
                    by (nonlinear_arith)
                    requires
                        -SCALE <= unit.y <= SCALE,
                        0 <= depth <= 2 * R_LIMIT,
                ;
            }
            let push = unit.multf(depth);
            proof {
                crate::fixed::lemma_tdiv_scaled_bound(unit.x as int, SCALE as int, depth as int);
                crate::fixed::lemma_tdiv_scaled_bound(unit.y as int, SCALE as int, depth as int);
                assert(push@ == push_vec(*bounds, obstacles@[i as int]));
                assert(2 * R_LIMIT * ((count + 1) as int) == 2 * R_LIMIT * (count as int) + 2
                    * R_LIMIT) by (nonlinear_arith);
                assert(2 * R_LIMIT * ((count + 1) as int) <= i64::MAX) by (nonlinear_arith)
                    requires
                        count < MAX_OBS,
                ;
            }
            sum = sum.add(&push);
            count = count + 1;
        }
        proof {
            assert(obstacles@.take(i as int + 1).drop_last() =~= obstacles@.take(i as int));
            assert(obstacles@.take(i as int + 1).last() == obstacles@[i as int]);
        }
        i = i + 1;
    }
    proof {
        assert(obstacles@.take(obstacles@.len() as int) =~= obstacles@);
        assert(2 * R_LIMIT * (count as int) <= VEC_LIMIT - SCALE) by (nonlinear_arith)
            requires
                count <= MAX_OBS,
        ;
    }
    let c: i64 = if count >= 1 {
        count as i64
    } else {
        1
    };
    let nrm = sum.norm();
    let rot = nrm.ort();
    let d = rot.sub(&sum);
    let qx = div_trunc(d.x, c);
    let qy = div_trunc(d.y, c);
    proof {
        crate::fixed::lemma_tdiv_bound_by(d.x as int, c as int, VEC_LIMIT as int);
        crate::fixed::lemma_tdiv_bound_by(d.y as int, c as int, VEC_LIMIT as int);
    }
    Point { x: qx, y: qy }
}

/// One steering step for a circular agent at `bounds` moving toward
/// `target` at most `speed` raw steps per tick, deflecting around the
/// given obstacles.
pub fn move_to_target(bounds: &CircleBounds, target: &Point, obstacles: &Vec<CircleBounds>, speed:
    i64) -> (r: Point)
    requires
        circle_ok(*bounds),
        pt_ok(target@),
        obstacles_ok(obstacles@),
        obstacles.len() <= MAX_OBS,
        0 <= speed <= SPEED_LIMIT,
    ensures
        r@ == steer_spec(*bounds, *target, obstacles@, speed as int),
        -speed <= r.x <= speed,
        -speed <= r.y <= speed,
{
    let avoid_direction = avoid_collision(bounds, target, obstacles);
    let al = avoid_direction.len();
    let direction = if al < FALLBACK_EPS {
        let to_target = target.sub(&bounds.coords);
        to_target.norm()
    } else {
        avoid_direction.norm()
    };
    proof {
        assert(-(i64::MAX as int) <= direction.x * speed <= i64::MAX as int) by (nonlinear_arith)
            requires
                -SCALE <= direction.x <= SCALE,
                0 <= speed <= SPEED_LIMIT,
        ;
        assert(-(i64::MAX as int) <= direction.y * speed <= i64::MAX as int) by (nonlinear_arith)
            requires
                -SCALE <= direction.y <= SCALE,
                0 <= speed <= SPEED_LIMIT,
        ;
    }
    let r = direction.multf(speed);
    proof {
        crate::fixed::lemma_tdiv_scaled_bound(direction.x as int, SCALE as int, speed as int);
        crate::fixed::lemma_tdiv_scaled_bound(direction.y as int, SCALE as int, speed as int);
    }
    r
}

impl RectBounds {
    /// The bounding square of a circle.
    pub fn from_circle(b: CircleBounds) -> (r: RectBounds)
        requires
            circle_ok(b),
        ensures
            r.coords@ == vsub(b.coords@, Vec2 { x: b.r as int, y: b.r as int }),
            r.size.x == 2 * b.r,
            r.size.y == 2 * b.r,
    {
        RectBounds {
            coords: Point { x: b.coords.x - b.r, y: b.coords.y - b.r },
            size: Point { x: 2 * b.r, y: 2 * b.r },
        }
    }
}

} // verus!
