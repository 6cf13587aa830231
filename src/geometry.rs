use vstd::prelude::*;

verus! {

/// Largest magnitude a coordinate may have anywhere in the pipeline. It keeps
/// every product of two coordinate differences inside `i64`.
pub const COORD_LIMIT: i64 = 0x4000_0000;

/// A point or a displacement on the integer pixel grid.
#[derive(Clone, Copy, Debug, PartialEq, Eq, Structural)]
pub struct Vector {
    pub x: i64,
    pub y: i64,
}

/// Points and displacements share one representation.
pub type Point = Vector;

/// A coordinate whose magnitude is at most `COORD_LIMIT`.
pub open spec fn coord_ok(c: int) -> bool {
    -COORD_LIMIT <= c <= COORD_LIMIT
}

/// Both coordinates lie within the coordinate range.
pub open spec fn vector_ok(v: Vector) -> bool {
    coord_ok(v.x as int) && coord_ok(v.y as int)
}

/// A value that fits in `i64`.
pub open spec fn fits(c: int) -> bool {
    i64::MIN <= c <= i64::MAX
}

/// `v` lies between `a` and `b`, whichever is larger.
pub open spec fn between(v: int, a: int, b: int) -> bool {
    (a <= v <= b) || (b <= v <= a)
}

/// Floor of `n / d` for a non-zero `d` of either sign.
pub open spec fn floor_div(n: int, d: int) -> int {
    if d > 0 {
        n / d
    } else {
        (-n) / (-d)
    }
}

/// Rounding `n / d` down never moves further from zero than `n`.
pub proof fn lemma_floor_div_bounded(n: int, d: int)
    requires
        d != 0,
    ensures
        n >= 0 ==> -n <= floor_div(n, d) <= n,
        n < 0 ==> n <= floor_div(n, d) <= -n,
{
    let (a, b) = if d > 0 {
        (n, d)
    } else {
        (-n, -d)
    };
    vstd::arithmetic::div_mod::lemma_fundamental_div_mod(a, b);
    assert(a >= 0 ==> 0 <= a / b <= a) by (nonlinear_arith)
        requires
            b >= 1,
            a == b * (a / b) + a % b,
            0 <= a % b < b,
    ;
    assert(a < 0 ==> a <= a / b < 0) by (nonlinear_arith)
        requires
            b >= 1,
            a == b * (a / b) + a % b,
            0 <= a % b < b,
    ;
}

/// For `d > 0` and `t` in `[0, d]`, `dx * t / d` rounded down lies between
/// zero and `dx`.
proof fn lemma_scaled_between(dx: int, t: int, d: int)
    requires
        d > 0,
        0 <= t <= d,
    ensures
        dx >= 0 ==> 0 <= (dx * t) / d <= dx,
        dx < 0 ==> dx <= (dx * t) / d <= 0,
{
    let a = dx * t;
    vstd::arithmetic::div_mod::lemma_fundamental_div_mod(a, d);
    let q = a / d;
    let m = a % d;
    if dx >= 0 {
        assert(0 <= a <= dx * d) by (nonlinear_arith)
            requires
                dx >= 0,
                0 <= t <= d,
                a == dx * t,
        ;
        assert(0 <= q <= dx) by (nonlinear_arith)
            requires
                d > 0,
                0 <= a <= dx * d,
                a == d * q + m,
                0 <= m < d,
        ;
    } else {
        assert(dx * d <= a <= 0) by (nonlinear_arith)
            requires
                dx < 0,
                0 <= t <= d,
                a == dx * t,
        ;
        assert(dx <= q <= 0) by (nonlinear_arith)
            requires
                d > 0,
                dx * d <= a <= 0,
                a == d * q + m,
                0 <= m < d,
        ;
    }
}

/// `floor_div(dx * t, d)` lies between zero and `dx` when `t / d` lies in
/// `[0, 1]`: the rounded point of a segment stays within its extent.
pub proof fn lemma_floor_between(dx: int, t: int, d: int)
    requires
        d > 0 ==> 0 <= t <= d,
        d < 0 ==> d <= t <= 0,
        d != 0,
    ensures
        dx >= 0 ==> 0 <= floor_div(dx * t, d) <= dx,
        dx < 0 ==> dx <= floor_div(dx * t, d) <= 0,
{
    if d > 0 {
        lemma_scaled_between(dx, t, d);
    } else {
        assert(-(dx * t) == dx * (-t)) by (nonlinear_arith);
        lemma_scaled_between(dx, -t, -d);
    }
}

/// Rounds `n / d` down, for any non-zero `d`.
pub fn div_floor(n: i64, d: i64) -> (r: i64)
    requires
        d != 0,
        n > i64::MIN,
        d > i64::MIN,
    ensures
        r == floor_div(n as int, d as int),
{
    let (num, den) = if d > 0 {
        (n, d)
    } else {
        (-n, -d)
    };
    proof {
        lemma_floor_div_bounded(n as int, d as int);
    }
    match num.checked_div_euclid(den) {
        Some(q) => q,
        None => 0,
    }
}

impl Vector {
    pub fn new(x: i64, y: i64) -> (r: Vector)
        ensures
            r.x == x,
            r.y == y,
    {
        Vector { x, y }
    }

    pub fn zero() -> (r: Vector)
        ensures
            r.x == 0,
            r.y == 0,
    {
        Vector { x: 0, y: 0 }
    }

    /// The world's "up" direction; screen rows grow downward.
    pub fn up() -> (r: Vector)
        ensures
            r.x == 0,
            r.y == -1,
    {
        Vector { x: 0, y: -1 }
    }

    pub fn with_x(self, x: i64) -> (r: Vector)
        ensures
            r.x == x,
            r.y == self.y,
    {
        Vector { x, y: self.y }
    }

    pub fn with_y(self, y: i64) -> (r: Vector)
        ensures
            r.x == self.x,
            r.y == y,
    {
        Vector { x: self.x, y }
    }

    pub fn add(self, rhs: Vector) -> (r: Vector)
        requires
            fits(self.x + rhs.x),
            fits(self.y + rhs.y),
        ensures
            r.x == self.x + rhs.x,
            r.y == self.y + rhs.y,
    {
        Vector { x: self.x + rhs.x, y: self.y + rhs.y }
    }

    pub fn add_assign(&mut self, other: Vector)
        requires
            fits(old(self).x + other.x),
            fits(old(self).y + other.y),
        ensures
            final(self).x == old(self).x + other.x,
            final(self).y == old(self).y + other.y,
    {
        *self = self.add(other);
    }

    pub fn sub(self, rhs: Vector) -> (r: Vector)
        requires
            fits(self.x - rhs.x),
            fits(self.y - rhs.y),
        ensures
            r.x == self.x - rhs.x,
            r.y == self.y - rhs.y,
    {
        Vector { x: self.x - rhs.x, y: self.y - rhs.y }
    }

    pub fn sub_assign(&mut self, other: Vector)
        requires
            fits(old(self).x - other.x),
            fits(old(self).y - other.y),
        ensures
            final(self).x == old(self).x - other.x,
            final(self).y == old(self).y - other.y,
    {
        *self = self.sub(other);
    }

    pub fn neg(self) -> (r: Vector)
        requires
            self.x > i64::MIN,
            self.y > i64::MIN,
        ensures
            r.x == -self.x,
            r.y == -self.y,
    {
        Vector { x: -self.x, y: -self.y }
    }

    /// Uniform scaling by an integer factor.
    pub fn mul(self, k: i64) -> (r: Vector)
        requires
            fits(self.x * k),
            fits(self.y * k),
        ensures
            r.x == self.x * k,
            r.y == self.y * k,
    {
        Vector { x: self.x * k, y: self.y * k }
    }
}

/// A wall, or an edge to rasterize.
#[derive(Clone, Copy, Debug, PartialEq, Eq, Structural)]
pub struct Line {
    pub start: Point,
    pub end: Point,
}

/// Both endpoints lie within the coordinate range.
pub open spec fn line_ok(l: Line) -> bool {
    vector_ok(l.start) && vector_ok(l.end)
}

/// A rational scale factor `num / den`, applied with rounding down.
pub open spec fn scale_coord(c: int, num: int, den: int) -> int {
    (c * num) / den
}

impl Line {
    pub fn new(start: Point, end: Point) -> (r: Line)
        ensures
            r.start == start,
            r.end == end,
    {
        Line { start, end }
    }

    pub fn translate(&self, offset: Vector) -> (r: Line)
        requires
            line_ok(*self),
            vector_ok(offset),
        ensures
            r.start.x == self.start.x + offset.x,
            r.start.y == self.start.y + offset.y,
            r.end.x == self.end.x + offset.x,
            r.end.y == self.end.y + offset.y,
    {
        Line { start: self.start.add(offset), end: self.end.add(offset) }
    }

    /// Scales both endpoints about the origin by `num / den`.
    pub fn scale(&self, num: i64, den: i64) -> (r: Line)
        requires
            line_ok(*self),
            -COORD_LIMIT <= num <= COORD_LIMIT,
            0 < den,
        ensures
            r.start.x == scale_coord(self.start.x as int, num as int, den as int),
            r.start.y == scale_coord(self.start.y as int, num as int, den as int),
            r.end.x == scale_coord(self.end.x as int, num as int, den as int),
            r.end.y == scale_coord(self.end.y as int, num as int, den as int),
    {
        Line {
            start: Vector { x: scale_one(self.start.x, num, den), y: scale_one(self.start.y, num, den) },
            end: Vector { x: scale_one(self.end.x, num, den), y: scale_one(self.end.y, num, den) },
        }
    }
}

fn scale_one(c: i64, num: i64, den: i64) -> (r: i64)
    requires
        coord_ok(c as int),
        -COORD_LIMIT <= num <= COORD_LIMIT,
        0 < den,
    ensures
        r == scale_coord(c as int, num as int, den as int),
{
    proof {
        assert(-0x1000_0000_0000_0000 <= c * num <= 0x1000_0000_0000_0000) by (nonlinear_arith)
            requires
                -0x4000_0000 <= c <= 0x4000_0000,
                -0x4000_0000 <= num <= 0x4000_0000,
        ;
    }
    div_floor(c * num, den)
}

} // verus!
