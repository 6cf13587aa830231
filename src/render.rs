use vstd::prelude::*;

use crate::clip::{clip_line, clip_spec, Rect};
use crate::geometry::{div_floor, floor_div, lemma_floor_between, vector_ok, Line, Point, Vector};
use crate::raster::{
    buffer_ok, draw_strip, pixel_at, raster_ok, strip_covers, HEIGHT, WALL_COLOR, WIDTH,
};

verus! {

/// Screen column of the viewer.
pub const CENTER_X: i64 = 120;

/// Screen row of the viewer; in camera space, points with a larger row lie
/// behind it.
pub const CENTER_Y: i64 = 80;

/// Focal length: how many pixels one unit of lateral offset per unit of
/// depth spans on screen.
pub const FOCAL: i64 = 70;

/// Apparent wall height: a wall at depth `d` rises `WALL_HEIGHT / d` pixels
/// above the horizon.
pub const WALL_HEIGHT: i64 = 400;

/// Depths are measured in thousandths of a pixel and offset by one
/// thousandth, so that a point on the near plane divides by a small positive
/// depth instead of zero.
pub const DEPTH_SCALE: i64 = 1000;

/// Largest coordinate magnitude of a camera-space wall.
pub const CAMERA_LIMIT: i64 = 8192;

/// Both coordinates lie within the camera range.
pub open spec fn camera_ok(p: Point) -> bool {
    -CAMERA_LIMIT <= p.x <= CAMERA_LIMIT && -CAMERA_LIMIT <= p.y <= CAMERA_LIMIT
}

/// Both endpoints lie within the camera range.
pub open spec fn camera_line_ok(l: Line) -> bool {
    camera_ok(l.start) && camera_ok(l.end)
}

/// Every wall lies within the camera range.
pub open spec fn camera_walls_ok(walls: Seq<Line>) -> bool {
    forall|w: int| 0 <= w < walls.len() ==> camera_line_ok(#[trigger] walls[w])
}

/// Largest coordinate magnitude of a wall or of the viewer in world space.
/// Shifted into camera space, such coordinates stay within `CAMERA_LIMIT`,
/// and their projections within the range where the clipper's products fit
/// in `i64`.
pub const WORLD_LIMIT: i64 = 4000;

/// Both coordinates lie within the world range.
pub open spec fn world_ok(p: Point) -> bool {
    -WORLD_LIMIT <= p.x <= WORLD_LIMIT && -WORLD_LIMIT <= p.y <= WORLD_LIMIT
}

/// Every wall lies within the world range.
pub open spec fn world_walls_ok(walls: Seq<Line>) -> bool {
    forall|w: int| 0 <= w < walls.len() ==> world_ok(#[trigger] walls[w].start) && world_ok(walls[w].end)
}

/// A wall already turned into the viewer's heading, shifted so that the
/// viewer stands at the screen centre.
pub open spec fn camera_line(l: Line, position: Point) -> Line {
    Line {
        start: Vector {
            x: (l.start.x + CENTER_X - position.x) as i64,
            y: (l.start.y + CENTER_Y - position.y) as i64,
        },
        end: Vector {
            x: (l.end.x + CENTER_X - position.x) as i64,
            y: (l.end.y + CENTER_Y - position.y) as i64,
        },
    }
}

/// Moves walls that are already turned into the viewer's heading (about the
/// viewer's position) into camera space, where the viewer stands at the
/// screen centre.
pub fn to_camera(walls: &Vec<Line>, position: Point) -> (r: Vec<Line>)
    requires
        world_walls_ok(walls@),
        world_ok(position),
    ensures
        r@.len() == walls@.len(),
        forall|k: int| 0 <= k < r@.len() ==> #[trigger] r@[k] == camera_line(walls@[k], position),
        camera_walls_ok(r@),
{
    let offset = Vector { x: CENTER_X - position.x, y: CENTER_Y - position.y };
    let mut out: Vec<Line> = Vec::new();
    let mut i: usize = 0;
    while i < walls.len()
        invariant
            i <= walls@.len(),
            world_walls_ok(walls@),
            world_ok(position),
            offset.x == CENTER_X - position.x,
            offset.y == CENTER_Y - position.y,
            out@.len() == i,
            forall|k: int| 0 <= k < i ==> #[trigger] out@[k] == camera_line(walls@[k], position),
            camera_walls_ok(out@),
        decreases walls@.len() - i,
    {
        let wall = walls[i];
        assert(world_ok(walls@[i as int].start) && world_ok(walls@[i as int].end));
        out.push(wall.translate(offset));
        i = i + 1;
    }
    out
}

/// A point is in front of the viewer, or on its near plane.
pub open spec fn in_front(p: Point) -> bool {
    p.y <= CENTER_Y
}

/// A wall survives the cull when one of its endpoints is in front.
pub open spec fn keeps_line(l: Line) -> bool {
    in_front(l.start) || in_front(l.end)
}

/// The point of segment `p`–`q` on the near plane, its column rounded down.
pub open spec fn near_cut(p: Point, q: Point) -> Point {
    Vector {
        x: (p.x + floor_div((q.x - p.x) * (CENTER_Y - p.y), q.y - p.y)) as i64,
        y: CENTER_Y,
    }
}

/// A surviving wall with its endpoint behind the viewer moved onto the near
/// plane.
pub open spec fn cull_line(l: Line) -> Line {
    if !in_front(l.start) {
        Line { start: near_cut(l.start, l.end), end: l.end }
    } else if !in_front(l.end) {
        Line { start: l.start, end: near_cut(l.start, l.end) }
    } else {
        l
    }
}

/// The walls that survive the cull, each cut at the near plane, in order.
pub open spec fn cull_spec(lines: Seq<Line>) -> Seq<Line> {
    lines.filter(|l: Line| keeps_line(l)).map_values(|l: Line| cull_line(l))
}

proof fn lemma_near_cut(p: Point, q: Point)
    requires
        camera_ok(p),
        camera_ok(q),
        in_front(p) != in_front(q),
    ensures
        camera_ok(near_cut(p, q)),
        near_cut(p, q).y == CENTER_Y,
        (p.x <= near_cut(p, q).x <= q.x) || (q.x <= near_cut(p, q).x <= p.x),
        (p.x + floor_div((q.x - p.x) * (CENTER_Y - p.y), q.y - p.y)) == near_cut(p, q).x,
{
    lemma_floor_between(q.x - p.x, CENTER_Y - p.y, q.y - p.y);
}

fn cut_near(p: Point, q: Point) -> (r: Point)
    requires
        camera_ok(p),
        camera_ok(q),
        in_front(p) != in_front(q),
    ensures
        r == near_cut(p, q),
{
    proof {
        lemma_near_cut(p, q);
        assert(-0x1000_0000 <= (q.x - p.x) * (CENTER_Y - p.y) <= 0x1000_0000) by (nonlinear_arith)
            requires
                -0x4000 <= q.x - p.x <= 0x4000,
                -0x4000 <= CENTER_Y - p.y <= 0x4000,
        ;
    }
    let x = p.x + div_floor((q.x - p.x) * (CENTER_Y - p.y), q.y - p.y);
    Vector { x, y: CENTER_Y }
}

/// Drops the walls that lie wholly behind the viewer and cuts the others at
/// the near plane, keeping their order.
pub fn cull(lines: &Vec<Line>) -> (r: Vec<Line>)
    requires
        camera_walls_ok(lines@),
    ensures
        r@ == cull_spec(lines@),
        camera_walls_ok(r@),
        forall|k: int| 0 <= k < r@.len() ==> in_front(#[trigger] r@[k].start) && in_front(r@[k].end),
{
    let ghost keep = |l: Line| keeps_line(l);
    let ghost cut = |l: Line| cull_line(l);
    let mut out: Vec<Line> = Vec::new();
    let mut i: usize = 0;
    while i < lines.len()
        invariant
            i <= lines@.len(),
            camera_walls_ok(lines@),
            keep == (|l: Line| keeps_line(l)),
            cut == (|l: Line| cull_line(l)),
            out@ == lines@.subrange(0, i as int).filter(keep).map_values(cut),
            camera_walls_ok(out@),
            forall|k: int| 0 <= k < out@.len() ==> in_front(#[trigger] out@[k].start) && in_front(out@[k].end),
        decreases lines@.len() - i,
    {
        let line = lines[i];
        assert(camera_line_ok(lines@[i as int]));
        let ghost prefix = lines@.subrange(0, i as int).filter(keep);
        proof {
            reveal(Seq::filter);
            assert(lines@.subrange(0, i + 1).drop_last() =~= lines@.subrange(0, i as int));
            assert(lines@.subrange(0, i + 1).last() == line);
        }
        if line.start.y <= CENTER_Y || line.end.y <= CENTER_Y {
            let culled = if line.start.y > CENTER_Y {
                proof {
                    lemma_near_cut(line.start, line.end);
                }
                Line { start: cut_near(line.start, line.end), end: line.end }
            } else if line.end.y > CENTER_Y {
                proof {
                    lemma_near_cut(line.start, line.end);
                }
                Line { start: line.start, end: cut_near(line.start, line.end) }
            } else {
                line
            };
            out.push(culled);
            assert(keep(line));
            assert(prefix.push(line).map_values(cut) =~= prefix.map_values(cut).push(cut(line)));
        } else {
            assert(!keep(line));
        }
        i = i + 1;
    }
    assert(lines@.subrange(0, lines@.len() as int) =~= lines@);
    out
}

/// Depth of an in-front point in thousandths, offset by one thousandth.
pub open spec fn scaled_depth(p: Point) -> int {
    (CENTER_Y - p.y) * DEPTH_SCALE + 1
}

/// The perspective divide of one camera-space point: its lateral offset
/// from the viewer times the focal length over its depth, and the apparent
/// wall height at that depth.
pub open spec fn perspective_point(p: Point) -> Point {
    Vector {
        x: floor_div((p.x - CENTER_X) * FOCAL * DEPTH_SCALE, scaled_depth(p)) as i64,
        y: ((WALL_HEIGHT * DEPTH_SCALE) / scaled_depth(p)) as i64,
    }
}

/// The bound on projected coordinates; it keeps them within the clipper's
/// range.
pub open spec fn projected_ok(p: Point) -> bool {
    -600_000_000 <= p.x <= 600_000_000 && 0 <= p.y <= WALL_HEIGHT * DEPTH_SCALE
}

proof fn lemma_perspective_bounds(p: Point)
    requires
        camera_ok(p),
        in_front(p),
    ensures
        projected_ok(perspective_point(p)),
        -600_000_000 <= floor_div((p.x - CENTER_X) * FOCAL * DEPTH_SCALE, scaled_depth(p))
            <= 600_000_000,
        0 <= (WALL_HEIGHT * DEPTH_SCALE) / scaled_depth(p) <= WALL_HEIGHT * DEPTH_SCALE,
{
    let n = (p.x - CENTER_X) * FOCAL * DEPTH_SCALE;
    let d = scaled_depth(p);
    let h = WALL_HEIGHT * DEPTH_SCALE;
    assert(d >= 1);
    vstd::arithmetic::div_mod::lemma_fundamental_div_mod(n, d);
    vstd::arithmetic::div_mod::lemma_fundamental_div_mod(h, d);
    assert(-600_000_000 <= n <= 600_000_000);
    assert(-600_000_000 <= n / d <= 600_000_000) by (nonlinear_arith)
        requires
            d >= 1,
            -600_000_000 <= n <= 600_000_000,
            n == d * (n / d) + n % d,
            0 <= n % d < d,
    ;
    assert(0 <= h / d <= h) by (nonlinear_arith)
        requires
            d >= 1,
            h == 400_000,
            h == d * (h / d) + h % d,
            0 <= h % d < d,
    ;
}

fn perspective_one(p: Point) -> (r: Point)
    requires
        camera_ok(p),
        in_front(p),
    ensures
        r == perspective_point(p),
        projected_ok(r),
{
    proof {
        lemma_perspective_bounds(p);
    }
    let depth = (CENTER_Y - p.y) * DEPTH_SCALE + 1;
    let x = div_floor((p.x - CENTER_X) * FOCAL * DEPTH_SCALE, depth);
    let y = div_floor(WALL_HEIGHT * DEPTH_SCALE, depth);
    Vector { x, y }
}

/// Perspective divide of a culled wall: each endpoint becomes its projected
/// column offset and its apparent wall height.
pub fn perspective(line: Line) -> (r: Line)
    requires
        camera_line_ok(line),
        in_front(line.start),
        in_front(line.end),
    ensures
        r.start == perspective_point(line.start),
        r.end == perspective_point(line.end),
        projected_ok(r.start),
        projected_ok(r.end),
{
    Line { start: perspective_one(line.start), end: perspective_one(line.end) }
}

/// From viewer-relative coordinates with rows growing upward to screen
/// coordinates: the row is flipped and both are shifted by the screen centre.
pub open spec fn screen_point(p: Point) -> Point {
    Vector { x: (p.x + CENTER_X) as i64, y: (CENTER_Y - p.y) as i64 }
}

/// Maps a projected wall from viewer-relative coordinates to the screen.
pub fn project_screen(line: Line) -> (r: Line)
    requires
        projected_ok(line.start),
        projected_ok(line.end),
    ensures
        r.start == screen_point(line.start),
        r.end == screen_point(line.end),
        vector_ok(r.start),
        vector_ok(r.end),
{
    let flipped = Line { start: line.start.with_y(-line.start.y), end: line.end.with_y(-line.end.y) };
    flipped.translate(Vector { x: CENTER_X, y: CENTER_Y })
}

/// The rectangle of the screen, its far edges included.
pub open spec fn screen_rect_spec() -> Rect {
    Rect { left: 0, right: WIDTH as i64, top: 0, bottom: HEIGHT as i64 }
}

/// The screen rectangle, the clip boundary of the main view.
pub fn screen_rect() -> (r: Rect)
    ensures
        r == screen_rect_spec(),
{
    Rect { left: 0, right: WIDTH as i64, top: 0, bottom: HEIGHT as i64 }
}

/// A screen point reflected across the horizontal midline.
pub open spec fn mirror_point(p: Point) -> Point {
    Vector { x: p.x, y: (HEIGHT - p.y) as i64 }
}

/// The top and bottom edges of a culled wall on screen, or `None` when its
/// top edge misses the screen.
pub open spec fn wall_edges_spec(line: Line) -> Option<(Line, Line)> {
    let top = Line {
        start: screen_point(perspective_point(line.start)),
        end: screen_point(perspective_point(line.end)),
    };
    match clip_spec(top.start, top.end, screen_rect_spec()) {
        None => None,
        Some((a, b)) => Some(
            (
                Line { start: a, end: b },
                Line { start: mirror_point(a), end: mirror_point(b) },
            ),
        ),
    }
}

/// The point lies within the screen rectangle or on its border.
pub open spec fn on_screen_point(p: Point) -> bool {
    0 <= p.x <= WIDTH && 0 <= p.y <= HEIGHT
}

/// Projects a culled camera-space wall and clips its top edge to the screen;
/// the bottom edge is the clipped top edge mirrored across the midline.
pub fn wall_edges(line: Line) -> (r: Option<(Line, Line)>)
    requires
        camera_line_ok(line),
        in_front(line.start),
        in_front(line.end),
    ensures
        r == wall_edges_spec(line),
        r matches Some((t, b)) ==> on_screen_point(t.start) && on_screen_point(t.end)
            && on_screen_point(b.start) && on_screen_point(b.end),
{
    let top = project_screen(perspective(line));
    let rect = screen_rect();
    match clip_line(top.start, top.end, &rect) {
        None => None,
        Some((a, b)) => {
            let bottom = Line {
                start: a.with_y(HEIGHT as i64 - a.y),
                end: b.with_y(HEIGHT as i64 - b.y),
            };
            Some((Line { start: a, end: b }, bottom))
        },
    }
}

/// Pixel `(x, y)` lies in the strip of one of the first `n` culled walls.
pub open spec fn view_covers(culled: Seq<Line>, n: int, x: int, y: int) -> bool {
    exists|w: int|
        0 <= w < n && (wall_edges_spec(#[trigger] culled[w]) matches Some((t, b)) && strip_covers(
            t,
            b,
            x,
            y,
        ))
}

/// Draws the first-person view of camera-space walls: culls them, projects
/// each survivor and fills the strip between its top and bottom edges. A wall
/// whose top edge misses the screen draws nothing.
pub fn draw_walls(buffer: &mut Vec<u32>, walls: &Vec<Line>)
    requires
        buffer_ok(old(buffer)@),
        camera_walls_ok(walls@),
    ensures
        buffer_ok(final(buffer)@),
        forall|px: int, py: int|
            0 <= px < WIDTH && 0 <= py < HEIGHT ==> #[trigger] pixel_at(final(buffer)@, px, py) == if view_covers(
                cull_spec(walls@),
                cull_spec(walls@).len() as int,
                px,
                py,
            ) {
                WALL_COLOR
            } else {
                pixel_at(old(buffer)@, px, py)
            },
{
    let culled = cull(walls);
    let ghost first = buffer@;
    let mut i: usize = 0;
    while i < culled.len()
        invariant
            buffer_ok(first),
            buffer_ok(buffer@),
            i <= culled@.len(),
            camera_walls_ok(culled@),
            forall|k: int| 0 <= k < culled@.len() ==> in_front(#[trigger] culled@[k].start) && in_front(culled@[k].end),
            forall|px: int, py: int|
                0 <= px < WIDTH && 0 <= py < HEIGHT ==> #[trigger] pixel_at(buffer@, px, py) == if view_covers(
                    culled@,
                    i as int,
                    px,
                    py,
                ) {
                    WALL_COLOR
                } else {
                    pixel_at(first, px, py)
                },
        decreases culled@.len() - i,
    {
        let line = culled[i];
        assert(camera_line_ok(culled@[i as int]));
        assert(in_front(culled@[i as int].start));
        let edges = wall_edges(line);
        let ghost before = buffer@;
        match edges {
            None => {},
            Some((top, bottom)) => {
                draw_strip(buffer, top, bottom);
            },
        }
        assert forall|px: int, py: int|
            0 <= px < WIDTH && 0 <= py < HEIGHT implies #[trigger] pixel_at(buffer@, px, py) == if view_covers(
                culled@,
                i + 1,
                px,
                py,
            ) {
                WALL_COLOR
            } else {
                pixel_at(first, px, py)
            } by {
            assert(pixel_at(before, px, py) == (if view_covers(culled@, i as int, px, py) {
                WALL_COLOR
            } else {
                pixel_at(first, px, py)
            }));
            let here = wall_edges_spec(culled@[i as int]) matches Some((t, b)) && strip_covers(
                t,
                b,
                px,
                py,
            );
            if here {
                assert(view_covers(culled@, i + 1, px, py));
            } else {
                if view_covers(culled@, i + 1, px, py) {
                    let w = choose|w: int|
                        0 <= w < i + 1 && (wall_edges_spec(#[trigger] culled@[w]) matches Some(
                            (t, b),
                        ) && strip_covers(t, b, px, py));
                    assert(w != i);
                    assert(view_covers(culled@, i as int, px, py));
                }
            }
        }
        i = i + 1;
    }
}

} // verus!
