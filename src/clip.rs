use vstd::prelude::*;

use crate::geometry::{
    between, coord_ok, div_floor, floor_div, lemma_floor_between, lemma_floor_div_bounded,
    vector_ok, Point, Vector,
};

verus! {

/// Region code of a point relative to a rectangle. The side codes nest, each
/// holding the bits of the sides it takes precedence over: a point above the
/// rectangle is clipped against the top edge first, then bottom, right, left.
pub type OutCode = u8;

pub const INSIDE: OutCode = 0b0000;
pub const LEFT: OutCode = 0b0001;
pub const RIGHT: OutCode = 0b0011;
pub const BOTTOM: OutCode = 0b0111;
pub const TOP: OutCode = 0b1111;

/// An axis-aligned clip rectangle; `top` is the smaller row coordinate.
#[derive(Clone, Copy, Debug, PartialEq, Eq, Structural)]
pub struct Rect {
    pub left: i64,
    pub right: i64,
    pub top: i64,
    pub bottom: i64,
}

/// Every border coordinate lies within the coordinate range.
pub open spec fn rect_ok(r: Rect) -> bool {
    coord_ok(r.left as int) && coord_ok(r.right as int) && coord_ok(r.top as int) && coord_ok(
        r.bottom as int,
    )
}

/// The point lies within the rectangle or on its border.
pub open spec fn inside(p: Point, r: Rect) -> bool {
    r.left <= p.x <= r.right && r.top <= p.y <= r.bottom
}

/// The code of the most important side that `(x, y)` lies beyond.
pub open spec fn outcode(x: int, y: int, r: Rect) -> OutCode {
    if y < r.top {
        TOP
    } else if y > r.bottom {
        BOTTOM
    } else if x > r.right {
        RIGHT
    } else if x < r.left {
        LEFT
    } else {
        INSIDE
    }
}

/// The region code of a point.
pub open spec fn point_code(p: Point, r: Rect) -> OutCode {
    outcode(p.x as int, p.y as int, r)
}

/// Where the line through `p1` and `p2` meets the border line named by `code`.
/// The free coordinate is measured from `p1` and rounded down.
pub open spec fn intersection(p1: Point, p2: Point, r: Rect, code: OutCode) -> Point {
    let dx = p2.x - p1.x;
    let dy = p2.y - p1.y;
    if code == TOP {
        Vector { x: (p1.x + floor_div(dx * (r.top - p1.y), dy)) as i64, y: r.top }
    } else if code == BOTTOM {
        Vector { x: (p1.x + floor_div(dx * (r.bottom - p1.y), dy)) as i64, y: r.bottom }
    } else if code == RIGHT {
        Vector { x: r.right, y: (p1.y + floor_div(dy * (r.right - p1.x), dx)) as i64 }
    } else {
        Vector { x: r.left, y: (p1.y + floor_div(dy * (r.left - p1.x), dx)) as i64 }
    }
}

/// One clipping step: the endpoint that lies outside (the first one if both
/// do) moves onto the border line of its code.
pub open spec fn clip_step(p1: Point, p2: Point, r: Rect) -> (Point, Point) {
    if point_code(p1, r) != INSIDE {
        (intersection(p1, p2, r, point_code(p1, r)), p2)
    } else {
        (p1, intersection(p1, p2, r, point_code(p2, r)))
    }
}

/// The segment clipped to the rectangle. Both endpoints outside means
/// rejection, whatever sides they lie beyond. With one endpoint outside, that
/// endpoint is moved onto a border line, and once more when the first move
/// left it beyond a neighbouring side.
pub open spec fn clip_spec(p1: Point, p2: Point, r: Rect) -> Option<(Point, Point)> {
    if inside(p1, r) && inside(p2, r) {
        Some((p1, p2))
    } else if !inside(p1, r) && !inside(p2, r) {
        None
    } else {
        let (a, b) = clip_step(p1, p2, r);
        if inside(a, r) && inside(b, r) {
            Some((a, b))
        } else {
            Some(clip_step(a, b, r))
        }
    }
}

proof fn lemma_or_codes(c: u8)
    requires
        c == 0 || c == 1 || c == 3 || c == 7 || c == 15,
    ensures
        c | 1u8 == (if c == 0 { 1u8 } else { c }),
        c | 3u8 == (if c <= 3 { 3u8 } else { c }),
        c | 7u8 == (if c <= 7 { 7u8 } else { c }),
        c | 15u8 == 15u8,
{
    assert(c == 0 || c == 1 || c == 3 || c == 7 || c == 15 ==> c | 1u8 == (if c == 0 {
        1u8
    } else {
        c
    }) && c | 3u8 == (if c <= 3 { 3u8 } else { c }) && c | 7u8 == (if c <= 7 {
        7u8
    } else {
        c
    }) && c | 15u8 == 15u8) by (bit_vector);
}

proof fn lemma_and_codes(a: u8, b: u8)
    requires
        a == 0 || a == 1 || a == 3 || a == 7 || a == 15,
        b == 0 || b == 1 || b == 3 || b == 7 || b == 15,
    ensures
        (a | b == 0) == (a == 0 && b == 0),
        (a & b != 0) == (a != 0 && b != 0),
        (a & 15u8 == 15u8) == (a == 15),
        (a & 7u8 == 7u8) == (a == 7 || a == 15),
        (a & 3u8 == 3u8) == (a == 3 || a == 7 || a == 15),
        (a & 1u8 == 1u8) == (a != 0),
{
    assert((a == 0 || a == 1 || a == 3 || a == 7 || a == 15) && (b == 0 || b == 1 || b == 3 || b
        == 7 || b == 15) ==> ((a | b == 0) == (a == 0 && b == 0) && (a & b != 0) == (a != 0 && b
        != 0) && (a & 15u8 == 15u8) == (a == 15) && (a & 7u8 == 7u8) == (a == 7 || a == 15) && (a
        & 3u8 == 3u8) == (a == 3 || a == 7 || a == 15) && (a & 1u8 == 1u8) == (a != 0)))
        by (bit_vector);
}

/// The region code of `(x, y)`: the bits of every side it lies beyond.
pub fn compute_outcode(x: i64, y: i64, rect: &Rect) -> (r: OutCode)
    ensures
        r == outcode(x as int, y as int, *rect),
{
    let mut code = INSIDE;
    proof {
        lemma_or_codes(code);
    }
    if x < rect.left {
        code = code | LEFT;
    }
    proof {
        lemma_or_codes(code);
    }
    if x > rect.right {
        code = code | RIGHT;
    }
    proof {
        lemma_or_codes(code);
    }
    if y < rect.top {
        code = code | TOP;
    }
    proof {
        lemma_or_codes(code);
    }
    if y > rect.bottom {
        code = code | BOTTOM;
    }
    code
}

/// The region code of `point`.
pub fn compute_outcode_point(point: Point, rect: &Rect) -> (r: OutCode)
    ensures
        r == point_code(point, *rect),
{
    compute_outcode(point.x, point.y, rect)
}

/// The border point that the step computes lies on the segment's bounding
/// box, on the border line that `code` names.
proof fn lemma_intersection(p1: Point, p2: Point, r: Rect, code: OutCode)
    requires
        vector_ok(p1),
        vector_ok(p2),
        rect_ok(r),
        (code == point_code(p1, r) && inside(p2, r)) || (code == point_code(p2, r) && inside(
            p1,
            r,
        )),
        code != INSIDE,
    ensures
        ({
            let p = intersection(p1, p2, r, code);
            &&& code == TOP ==> p.y == r.top && between(p.x as int, p1.x as int, p2.x as int)
            &&& code == BOTTOM ==> p.y == r.bottom && between(p.x as int, p1.x as int, p2.x as int)
            &&& code == RIGHT ==> p.x == r.right && between(p.y as int, p1.y as int, p2.y as int)
            &&& code == LEFT ==> p.x == r.left && between(p.y as int, p1.y as int, p2.y as int)
            &&& vector_ok(p)
        }),
        code == TOP ==> between(
            p1.x + floor_div((p2.x - p1.x) * (r.top - p1.y), p2.y - p1.y),
            p1.x as int,
            p2.x as int,
        ),
        code == BOTTOM ==> between(
            p1.x + floor_div((p2.x - p1.x) * (r.bottom - p1.y), p2.y - p1.y),
            p1.x as int,
            p2.x as int,
        ),
        code == RIGHT ==> between(
            p1.y + floor_div((p2.y - p1.y) * (r.right - p1.x), p2.x - p1.x),
            p1.y as int,
            p2.y as int,
        ),
        code == LEFT ==> between(
            p1.y + floor_div((p2.y - p1.y) * (r.left - p1.x), p2.x - p1.x),
            p1.y as int,
            p2.y as int,
        ),
{
    let dx = p2.x - p1.x;
    let dy = p2.y - p1.y;
    if code == TOP {
        lemma_floor_between(dx, r.top - p1.y, dy);
    } else if code == BOTTOM {
        lemma_floor_between(dx, r.bottom - p1.y, dy);
    } else if code == RIGHT {
        lemma_floor_between(dy, r.right - p1.x, dx);
    } else {
        lemma_floor_between(dy, r.left - p1.x, dx);
    }
}

/// With one endpoint inside, one step either finishes the clip or leaves the
/// moved endpoint beyond a side edge only, and a second step finishes it.
proof fn lemma_clip_steps(p1: Point, p2: Point, r: Rect)
    requires
        vector_ok(p1),
        vector_ok(p2),
        rect_ok(r),
        inside(p1, r) != inside(p2, r),
    ensures
        ({
            let (a, b) = clip_step(p1, p2, r);
            &&& vector_ok(a) && vector_ok(b)
            &&& inside(p1, r) ==> a == p1
            &&& inside(p2, r) ==> b == p2
            &&& inside(a, r) != inside(b, r) ==> {
                let (c, d) = clip_step(a, b, r);
                &&& inside(c, r) && inside(d, r)
                &&& inside(p1, r) ==> c == p1
                &&& inside(p2, r) ==> d == p2
            }
        }),
{
    let (a, b) = clip_step(p1, p2, r);
    if !inside(p1, r) {
        lemma_intersection(p1, p2, r, point_code(p1, r));
        if !inside(a, r) {
            lemma_intersection(a, b, r, point_code(a, r));
        }
    } else {
        lemma_intersection(p1, p2, r, point_code(p2, r));
        if !inside(b, r) {
            lemma_intersection(a, b, r, point_code(b, r));
        }
    }
}

proof fn lemma_products_fit(dx: int, dy: int, p1: Point, r: Rect)
    requires
        -0x8000_0000 <= dx <= 0x8000_0000,
        -0x8000_0000 <= dy <= 0x8000_0000,
        vector_ok(p1),
        rect_ok(r),
    ensures
        -0x4000_0000_0000_0000 <= dx * (r.top - p1.y) <= 0x4000_0000_0000_0000,
        -0x4000_0000_0000_0000 <= dx * (r.bottom - p1.y) <= 0x4000_0000_0000_0000,
        -0x4000_0000_0000_0000 <= dy * (r.right - p1.x) <= 0x4000_0000_0000_0000,
        -0x4000_0000_0000_0000 <= dy * (r.left - p1.x) <= 0x4000_0000_0000_0000,
{
    lemma_mul_bound(dx, r.top - p1.y);
    lemma_mul_bound(dx, r.bottom - p1.y);
    lemma_mul_bound(dy, r.right - p1.x);
    lemma_mul_bound(dy, r.left - p1.x);
}

proof fn lemma_mul_bound(a: int, b: int)
    requires
        -0x8000_0000 <= a <= 0x8000_0000,
        -0x8000_0000 <= b <= 0x8000_0000,
    ensures
        -0x4000_0000_0000_0000 <= a * b <= 0x4000_0000_0000_0000,
{
    assert(-0x4000_0000_0000_0000 <= a * b <= 0x4000_0000_0000_0000) by (nonlinear_arith)
        requires
            -0x8000_0000 <= a <= 0x8000_0000,
            -0x8000_0000 <= b <= 0x8000_0000,
    ;
}

/// The point where the line through `p1` and `p2` meets the border line
/// that `clip_to` names: the top or bottom edge for the codes that hold
/// their bits (top first), else the right or left edge. The divisor is the
/// segment's extent across that edge, which must not be zero. When one
/// endpoint lies inside and `clip_to` is the other's code, the point lies on
/// the segment's extent and within the coordinate range.
pub fn calculate_intersection(p1: Point, p2: Point, rect: &Rect, clip_to: OutCode) -> (r: Point)
    requires
        vector_ok(p1),
        vector_ok(p2),
        rect_ok(*rect),
        clip_to == LEFT || clip_to == RIGHT || clip_to == BOTTOM || clip_to == TOP,
        clip_to == TOP || clip_to == BOTTOM ==> p1.y != p2.y,
        clip_to == RIGHT || clip_to == LEFT ==> p1.x != p2.x,
    ensures
        r == intersection(p1, p2, *rect, clip_to),
        (clip_to == point_code(p1, *rect) && inside(p2, *rect)) || (clip_to == point_code(
            p2,
            *rect,
        ) && inside(p1, *rect)) ==> vector_ok(r),
{
    proof {
        if (clip_to == point_code(p1, *rect) && inside(p2, *rect)) || (clip_to == point_code(
            p2,
            *rect,
        ) && inside(p1, *rect)) {
            lemma_intersection(p1, p2, *rect, clip_to);
        }
        lemma_and_codes(clip_to, 0);
    }
    let dx = p2.x - p1.x;
    let dy = p2.y - p1.y;
    proof {
        lemma_products_fit(dx as int, dy as int, p1, *rect);
    }
    proof {
        if dy != 0 {
            lemma_floor_div_bounded(dx * (rect.top - p1.y), dy as int);
            lemma_floor_div_bounded(dx * (rect.bottom - p1.y), dy as int);
        }
        if dx != 0 {
            lemma_floor_div_bounded(dy * (rect.right - p1.x), dx as int);
            lemma_floor_div_bounded(dy * (rect.left - p1.x), dx as int);
        }
    }
    if clip_to & TOP == TOP {
        let x = p1.x + div_floor(dx * (rect.top - p1.y), dy);
        return Point { x, y: rect.top };
    }
    if clip_to & BOTTOM == BOTTOM {
        let x = p1.x + div_floor(dx * (rect.bottom - p1.y), dy);
        return Point { x, y: rect.bottom };
    }
    if clip_to & RIGHT == RIGHT {
        let y = p1.y + div_floor(dy * (rect.right - p1.x), dx);
        return Point { x: rect.right, y };
    }
    let y = p1.y + div_floor(dy * (rect.left - p1.x), dx);
    Point { x: rect.left, y }
}

/// Clips the segment from `p1` to `p2` to `rect`. `None` means that no part of
/// it is to be drawn.
pub fn clip_line(p1: Point, p2: Point, rect: &Rect) -> (r: Option<(Point, Point)>)
    requires
        vector_ok(p1),
        vector_ok(p2),
        rect_ok(*rect),
    ensures
        r == clip_spec(p1, p2, *rect),
        r matches Some((a, b)) ==> inside(a, *rect) && inside(b, *rect),
{
    let ghost (q1, q2) = (p1, p2);
    let mut outcode_p1 = compute_outcode_point(p1, rect);
    let mut outcode_p2 = compute_outcode_point(p2, rect);
    let mut p1 = p1;
    let mut p2 = p2;
    let mut accept = false;
    let ghost mut steps: int = 0;
    proof {
        if inside(q1, *rect) != inside(q2, *rect) {
            lemma_clip_steps(q1, q2, *rect);
        }
    }
    loop
        invariant_except_break
            !accept,
            0 <= steps <= 2,
            steps == 0 ==> p1 == q1 && p2 == q2,
            steps >= 1 ==> inside(q1, *rect) != inside(q2, *rect),
            steps >= 1 ==> inside(p1, *rect) || inside(p2, *rect),
            steps == 1 ==> (p1, p2) == clip_step(q1, q2, *rect),
            steps == 2 ==> !(inside(clip_step(q1, q2, *rect).0, *rect) && inside(
                clip_step(q1, q2, *rect).1,
                *rect,
            )),
            steps == 2 ==> (p1, p2) == clip_step(
                clip_step(q1, q2, *rect).0,
                clip_step(q1, q2, *rect).1,
                *rect,
            ),
            steps == 2 ==> inside(p1, *rect) && inside(p2, *rect),
        invariant
            vector_ok(p1),
            vector_ok(p2),
            rect_ok(*rect),
            outcode_p1 == point_code(p1, *rect),
            outcode_p2 == point_code(p2, *rect),
            inside(q1, *rect) != inside(q2, *rect) ==> {
                let (a, b) = clip_step(q1, q2, *rect);
                &&& vector_ok(a) && vector_ok(b)
                &&& inside(q1, *rect) ==> a == q1
                &&& inside(q2, *rect) ==> b == q2
                &&& inside(a, *rect) != inside(b, *rect) ==> {
                    let (c, d) = clip_step(a, b, *rect);
                    &&& inside(c, *rect) && inside(d, *rect)
                }
            },
        ensures
            accept ==> Some((p1, p2)) == clip_spec(q1, q2, *rect),
            !accept ==> clip_spec(q1, q2, *rect) is None,
        decreases 2 - steps,
    {
        proof {
            lemma_and_codes(outcode_p1, outcode_p2);
        }
        if (outcode_p1 | outcode_p2) == INSIDE {
            accept = true;
            break;
        }
        if (outcode_p1 & outcode_p2) != 0 {
            break;
        }
        let outcode = if outcode_p1 != INSIDE {
            outcode_p1
        } else {
            outcode_p2
        };
        let p = calculate_intersection(p1, p2, rect, outcode);
        if outcode == outcode_p1 {
            p1 = p;
            outcode_p1 = compute_outcode_point(p1, rect);
        } else {
            p2 = p;
            outcode_p2 = compute_outcode_point(p2, rect);
        }
        proof {
            steps = steps + 1;
        }
    }
    if accept {
        Some((p1, p2))
    } else {
        None
    }
}

/// Both points lie strictly beyond one and the same side of the rectangle.
pub open spec fn beyond_same_side(p1: Point, p2: Point, r: Rect) -> bool {
    ||| p1.x < r.left && p2.x < r.left
    ||| p1.x > r.right && p2.x > r.right
    ||| p1.y < r.top && p2.y < r.top
    ||| p1.y > r.bottom && p2.y > r.bottom
}

/// The point lies beyond exactly one side of the rectangle (not a corner region).
pub open spec fn beyond_one_side(p: Point, r: Rect) -> bool {
    let beyond_x = p.x < r.left || p.x > r.right;
    let beyond_y = p.y < r.top || p.y > r.bottom;
    r.left <= r.right && r.top <= r.bottom && (beyond_x != beyond_y)
}

/// `moved` lies on the border line of the side that `orig` lay beyond.
pub open spec fn on_crossed_border(orig: Point, moved: Point, r: Rect) -> bool {
    &&& orig.x < r.left ==> moved.x == r.left
    &&& orig.x > r.right ==> moved.x == r.right
    &&& orig.y < r.top ==> moved.y == r.top
    &&& orig.y > r.bottom ==> moved.y == r.bottom
}

/// A segment that lies within the rectangle comes back unchanged.
pub proof fn lemma_clip_keeps_inner_segment(p1: Point, p2: Point, r: Rect)
    requires
        inside(p1, r),
        inside(p2, r),
    ensures
        clip_spec(p1, p2, r) == Some((p1, p2)),
{
}

/// A segment whose endpoints both lie beyond the same side is rejected.
pub proof fn lemma_clip_rejects_same_side(p1: Point, p2: Point, r: Rect)
    requires
        beyond_same_side(p1, p2, r),
    ensures
        clip_spec(p1, p2, r) is None,
{
}

/// A segment that crosses exactly one border line keeps its inner endpoint,
/// and its outer endpoint lands exactly on that border line, within the
/// rectangle.
pub proof fn lemma_clip_snaps_to_crossed_border(p1: Point, p2: Point, r: Rect)
    requires
        vector_ok(p1),
        vector_ok(p2),
        rect_ok(r),
        (inside(p1, r) && beyond_one_side(p2, r)) || (inside(p2, r) && beyond_one_side(p1, r)),
    ensures
        clip_spec(p1, p2, r) matches Some((a, b)) && {
            &&& inside(a, r) && inside(b, r)
            &&& inside(p1, r) ==> a == p1 && on_crossed_border(p2, b, r)
            &&& inside(p2, r) ==> b == p2 && on_crossed_border(p1, a, r)
        },
{
    lemma_clip_steps(p1, p2, r);
    if inside(p1, r) {
        lemma_intersection(p1, p2, r, point_code(p2, r));
    } else {
        lemma_intersection(p1, p2, r, point_code(p1, r));
    }
}

} // verus!
