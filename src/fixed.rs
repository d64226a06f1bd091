use vstd::prelude::*;

verus! {

/// One tile, in fixed-point units: a coordinate `v` stands for `v / UNIT` tiles.
pub const UNIT: i64 = 65536;

/// Longest direction or camera-plane vector, in fixed-point units (16 tiles).
pub const MAX_LEN: i64 = 1048576;

/// A 2D vector in fixed point.
#[derive(Clone, Copy, Debug, PartialEq, Eq, Structural)]
pub struct Vec2 {
    pub x: i64,
    pub y: i64,
}

/// A rotation by some angle, as its cosine and sine in fixed point.
#[derive(Clone, Copy, Debug, PartialEq, Eq, Structural)]
pub struct Turn {
    pub cos: i64,
    pub sin: i64,
}

/// `a / UNIT`, rounded toward zero.
pub open spec fn unscale(a: int) -> int {
    if a >= 0 {
        a / (UNIT as int)
    } else {
        -((-a) / (UNIT as int))
    }
}

pub open spec fn norm2(v: Vec2) -> int {
    v.x * v.x + v.y * v.y
}

/// A vector short enough to be rotated and scaled without overflow.
pub open spec fn short(v: Vec2) -> bool {
    norm2(v) <= MAX_LEN * MAX_LEN
}

/// A turn that does not lengthen vectors: `cos² + sin² <= UNIT²`.
pub open spec fn turn_ok(t: Turn) -> bool {
    t.cos * t.cos + t.sin * t.sin <= UNIT * UNIT
}

/// The turn by the opposite angle.
pub open spec fn inverse(t: Turn) -> Turn {
    Turn { cos: t.cos, sin: (-t.sin) as i64 }
}

/// The turn by angle zero.
pub open spec fn no_turn() -> Turn {
    Turn { cos: UNIT, sin: 0 }
}

/// `v` rotated by `t` before rounding, scaled by `UNIT`.
pub open spec fn rotated_exact(v: Vec2, t: Turn) -> (int, int) {
    (v.x * t.cos - v.y * t.sin, v.x * t.sin + v.y * t.cos)
}

/// `v` rotated counter-clockwise by `t`, each coordinate rounded toward zero.
pub open spec fn rotated(v: Vec2, t: Turn) -> Vec2 {
    let (x, y) = rotated_exact(v, t);
    Vec2 { x: unscale(x) as i64, y: unscale(y) as i64 }
}

pub proof fn lemma_unscale_bound(a: int)
    ensures
        a >= 0 ==> 0 <= unscale(a) && unscale(a) * UNIT <= a < unscale(a) * UNIT + UNIT,
        a < 0 ==> unscale(a) <= 0 && unscale(a) * UNIT - UNIT < a <= unscale(a) * UNIT,
        unscale(a) * unscale(a) * (UNIT * UNIT) <= a * a,
{
    let u = UNIT as int;
    if a >= 0 {
        let q = a / u;
        assert(q * u <= a && a < q * u + u) by (nonlinear_arith)
            requires q == a / u, u > 0, a >= 0;
        assert(0 <= q) by (nonlinear_arith) requires q == a / u, u > 0, a >= 0;
        assert(q * q * (u * u) <= a * a) by (nonlinear_arith)
            requires 0 <= q * u, q * u <= a;
    } else {
        let q = (-a) / u;
        assert(q * u <= -a && -a < q * u + u) by (nonlinear_arith)
            requires q == (-a) / u, u > 0, a < 0;
        assert(0 <= q) by (nonlinear_arith) requires q == (-a) / u, u > 0, a < 0;
        assert((-q) * (-q) * (u * u) <= a * a) by (nonlinear_arith)
            requires 0 <= q * u, q * u <= -a;
        assert((-q) * u == -(q * u)) by (nonlinear_arith);
    }
}

/// `unscale` undoes a multiplication by `UNIT`.
pub proof fn lemma_unscale_exact(x: int)
    ensures
        unscale(x * UNIT) == x,
{
    let u = UNIT as int;
    if x >= 0 {
        assert(x * u >= 0) by (nonlinear_arith) requires x >= 0, u > 0;
        vstd::arithmetic::div_mod::lemma_div_multiples_vanish(x, u);
        assert(x * u == u * x) by (nonlinear_arith);
    } else {
        assert(x * u < 0) by (nonlinear_arith) requires x < 0, u > 0;
        assert(-(x * u) == (-x) * u) by (nonlinear_arith);
        vstd::arithmetic::div_mod::lemma_div_multiples_vanish(-x, u);
        assert((-x) * u == u * (-x)) by (nonlinear_arith);
    }
}

/// A coordinate of a short vector is at most `MAX_LEN` in size.
pub proof fn lemma_short_coords(v: Vec2)
    requires
        short(v),
    ensures
        -MAX_LEN <= v.x <= MAX_LEN,
        -MAX_LEN <= v.y <= MAX_LEN,
{
    let l = MAX_LEN as int;
    let x = v.x as int;
    let y = v.y as int;
    assert(x * x <= l * l) by (nonlinear_arith) requires x * x + y * y <= l * l;
    assert(y * y <= l * l) by (nonlinear_arith) requires x * x + y * y <= l * l;
    assert(-l <= x <= l) by (nonlinear_arith) requires x * x <= l * l, l > 0;
    assert(-l <= y <= l) by (nonlinear_arith) requires y * y <= l * l, l > 0;
}

/// Rotation before rounding multiplies the squared length by
/// `cos² + sin²`: with `cos² + sin² == UNIT²` it keeps the length exactly.
pub proof fn lemma_rotation_keeps_length(v: Vec2, t: Turn)
    ensures
        ({
            let (x, y) = rotated_exact(v, t);
            x * x + y * y == norm2(v) * (t.cos * t.cos + t.sin * t.sin)
        }),
{
    let (x, y) = rotated_exact(v, t);
    let a = v.x as int;
    let b = v.y as int;
    let c = t.cos as int;
    let s = t.sin as int;
    let p = a * c;
    let q = b * s;
    let r = a * s;
    let w = b * c;
    assert(p * q == r * w) by (nonlinear_arith) requires p == a * c, q == b * s, r == a * s, w == b * c;
    assert(p * p == (a * a) * (c * c)) by (nonlinear_arith) requires p == a * c;
    assert(q * q == (b * b) * (s * s)) by (nonlinear_arith) requires q == b * s;
    assert(r * r == (a * a) * (s * s)) by (nonlinear_arith) requires r == a * s;
    assert(w * w == (b * b) * (c * c)) by (nonlinear_arith) requires w == b * c;
    assert((p - q) * (p - q) == p * p - 2 * (p * q) + q * q) by (nonlinear_arith);
    assert((r + w) * (r + w) == r * r + 2 * (r * w) + w * w) by (nonlinear_arith);
    assert((a * a + b * b) * (c * c + s * s)
        == (a * a) * (c * c) + (a * a) * (s * s) + (b * b) * (c * c) + (b * b) * (s * s)) by (nonlinear_arith);
}

/// Rounding after rotation moves each coordinate by less than one unit, and
/// a rotation by a turn with `cos² + sin² <= UNIT²` never lengthens a vector.
pub proof fn lemma_rotation_rounding(v: Vec2, t: Turn)
    requires
        turn_ok(t),
    ensures
        ({
            let (x, y) = rotated_exact(v, t);
            let r = rotated(v, t);
            &&& unscale(x) * UNIT - UNIT < x < unscale(x) * UNIT + UNIT
            &&& unscale(y) * UNIT - UNIT < y < unscale(y) * UNIT + UNIT
            &&& unscale(x) * unscale(x) + unscale(y) * unscale(y) <= norm2(v)
        }),
{
    let (x, y) = rotated_exact(v, t);
    lemma_unscale_bound(x);
    lemma_unscale_bound(y);
    lemma_rotation_keeps_length(v, t);
    let n = norm2(v);
    let k = t.cos * t.cos + t.sin * t.sin;
    let u2 = UNIT * UNIT;
    let qx = unscale(x);
    let qy = unscale(y);
    assert(n >= 0) by (nonlinear_arith) requires n == v.x * v.x + v.y * v.y;
    assert(n * k <= n * u2) by (nonlinear_arith) requires n >= 0, k <= u2;
    assert((qx * qx + qy * qy) * u2 <= n * u2) by (nonlinear_arith)
        requires qx * qx * u2 <= x * x, qy * qy * u2 <= y * y, x * x + y * y == n * k, n * k <= n * u2;
    assert(qx * qx + qy * qy <= n) by (nonlinear_arith)
        requires (qx * qx + qy * qy) * u2 <= n * u2, u2 > 0;
}

/// Rotates `v` counter-clockwise by `t`.
pub fn rotate(v: Vec2, t: Turn) -> (r: Vec2)
    requires
        short(v),
        turn_ok(t),
    ensures
        r == rotated(v, t),
        norm2(r) <= norm2(v),
        short(r),
{
    proof {
        lemma_short_coords(v);
        lemma_short_coords(Vec2 { x: t.cos, y: t.sin });
        lemma_rotation_rounding(v, t);
    }
    let x = v.x as i128;
    let y = v.y as i128;
    let c = t.cos as i128;
    let s = t.sin as i128;
    proof {
        let l = MAX_LEN as int;
        assert(-l * l <= x * c <= l * l) by (nonlinear_arith)
            requires -l <= x <= l, -l <= c <= l, l > 0;
        assert(-l * l <= y * s <= l * l) by (nonlinear_arith)
            requires -l <= y <= l, -l <= s <= l, l > 0;
        assert(-l * l <= x * s <= l * l) by (nonlinear_arith)
            requires -l <= x <= l, -l <= s <= l, l > 0;
        assert(-l * l <= y * c <= l * l) by (nonlinear_arith)
            requires -l <= y <= l, -l <= c <= l, l > 0;
    }
    let rx = unscale_exec(x * c - y * s);
    let ry = unscale_exec(x * s + y * c);
    let r = Vec2 { x: rx as i64, y: ry as i64 };
    proof {
        let l = MAX_LEN as int;
        let n = norm2(v);
        assert(rx * rx + ry * ry <= n);
        assert(n <= l * l);
        assert(-l <= rx <= l) by (nonlinear_arith)
            requires rx * rx + ry * ry <= l * l, l > 0;
        assert(-l <= ry <= l) by (nonlinear_arith)
            requires rx * rx + ry * ry <= l * l, l > 0;
    }
    r
}

/// `a / UNIT`, rounded toward zero.
pub fn unscale_exec(a: i128) -> (r: i128)
    requires
        a > i128::MIN,
    ensures
        r == unscale(a as int),
{
    if a >= 0 {
        a / (UNIT as i128)
    } else {
        -((-a) / (UNIT as i128))
    }
}

} // verus!
