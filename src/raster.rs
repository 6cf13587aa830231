use vstd::prelude::*;

use bresenham::Bresenham;

use crate::geometry::{between, Line, Point};

verus! {

/// Width of the pixel buffer, in pixels.
pub const WIDTH: usize = 240;

/// Height of the pixel buffer, in pixels.
pub const HEIGHT: usize = 160;

/// Colour that `clear` fills the buffer with.
pub const BACKGROUND: u32 = 0xFF0000FF;

/// Colour of walls and of minimap lines.
pub const WALL_COLOR: u32 = 0x00FF00;

/// Largest coordinate magnitude that the line walker accepts.
pub const RASTER_LIMIT: i64 = 0x1000_0000;

/// A buffer that holds one packed colour for each pixel, row after row.
pub open spec fn buffer_ok(b: Seq<u32>) -> bool {
    b.len() == WIDTH * HEIGHT
}

/// The colour of pixel `(x, y)`.
pub open spec fn pixel_at(b: Seq<u32>, x: int, y: int) -> u32 {
    b[y * WIDTH + x]
}

/// The grid point names a pixel of the buffer.
pub open spec fn on_screen(p: (isize, isize)) -> bool {
    0 <= p.0 < WIDTH && 0 <= p.1 < HEIGHT
}

/// Both coordinates lie within the line walker's range.
pub open spec fn raster_ok(p: Point) -> bool {
    -RASTER_LIMIT <= p.x <= RASTER_LIMIT && -RASTER_LIMIT <= p.y <= RASTER_LIMIT
}

/// The grid points that Bresenham's walk visits from `(sx, sy)` towards
/// `(ex, ey)`, the start included and the end left out.
pub uninterp spec fn bresenham_points(sx: isize, sy: isize, ex: isize, ey: isize) -> Seq<
    (isize, isize),
>;

/// Absolute value.
pub open spec fn abs(v: int) -> int {
    if v < 0 {
        -v
    } else {
        v
    }
}

/// Relies on `bresenham::Bresenham::new` and its iterator: one point per step
/// along the major axis, starting at `start` and stopping before `end`; each
/// step moves by at most one in either coordinate, and every point lies in
/// the box that the two endpoints span.
#[verifier::external_body]
fn bresenham_walk(start: (isize, isize), end: (isize, isize)) -> (r: Vec<(isize, isize)>)
    requires
        -RASTER_LIMIT <= start.0 <= RASTER_LIMIT,
        -RASTER_LIMIT <= start.1 <= RASTER_LIMIT,
        -RASTER_LIMIT <= end.0 <= RASTER_LIMIT,
        -RASTER_LIMIT <= end.1 <= RASTER_LIMIT,
    ensures
        r@ == bresenham_points(start.0, start.1, end.0, end.1),
        r@.len() == if abs(end.0 - start.0) >= abs(end.1 - start.1) {
            abs(end.0 - start.0)
        } else {
            abs(end.1 - start.1)
        },
        r@.len() > 0 ==> r@[0] == start,
        forall|k: int|
            0 <= k < r@.len() ==> between(#[trigger] r@[k].0 as int, start.0 as int, end.0 as int)
                && between(r@[k].1 as int, start.1 as int, end.1 as int),
        forall|k: int|
            0 <= k < r@.len() - 1 ==> abs(#[trigger] r@[k + 1].0 - r@[k].0) <= 1 && abs(
                r@[k + 1].1 - r@[k].1,
            ) <= 1,
{
    Bresenham::new(start, end).collect()
}

/// Every grid point of the walk from `start` to `end`, on screen or not.
pub open spec fn line_walk(start: Point, end: Point) -> Seq<(isize, isize)> {
    bresenham_points(start.x as isize, start.y as isize, end.x as isize, end.y as isize)
}

/// The on-screen points of the segment from `start` to `end`, in walk order.
pub open spec fn line_points(start: Point, end: Point) -> Seq<(isize, isize)> {
    line_walk(start, end).filter(|p: (isize, isize)| on_screen(p))
}

/// The segment is not a single point and starts on screen.
pub open spec fn starts_on_screen(start: Point, end: Point) -> bool {
    start != end && 0 <= start.x < WIDTH && 0 <= start.y < HEIGHT
}

/// Some point of `pts` is `(x, y)`.
pub open spec fn covers(pts: Seq<(isize, isize)>, x: int, y: int) -> bool {
    exists|k: int| 0 <= k < pts.len() && pts[k].0 == x && pts[k].1 == y
}

/// Sets pixel `(x, y)` to `color`.
pub fn pixel(buffer: &mut Vec<u32>, x: usize, y: usize, color: u32)
    requires
        buffer_ok(old(buffer)@),
        x < WIDTH,
        y < HEIGHT,
    ensures
        final(buffer)@ == old(buffer)@.update(y * WIDTH + x, color),
{
    buffer.set(y * WIDTH + x, color);
}

/// Fills the whole buffer with the background colour.
pub fn clear(buffer: &mut Vec<u32>)
    ensures
        final(buffer)@.len() == old(buffer)@.len(),
        forall|i: int| 0 <= i < final(buffer)@.len() ==> final(buffer)@[i] == BACKGROUND,
{
    let n = buffer.len();
    let mut i: usize = 0;
    while i < n
        invariant
            n == buffer@.len(),
            n == old(buffer)@.len(),
            i <= n,
            forall|k: int| 0 <= k < i ==> buffer@[k] == BACKGROUND,
        decreases n - i,
    {
        buffer.set(i, BACKGROUND);
        i = i + 1;
    }
}

/// Fills the `width` by `height` rectangle whose top left pixel is `(x, y)`.
/// An empty rectangle touches nothing, wherever it stands.
pub fn draw_rect(buffer: &mut Vec<u32>, x: usize, y: usize, width: usize, height: usize, color: u32)
    requires
        width == 0 || height == 0 || (buffer_ok(old(buffer)@) && x + width <= WIDTH && y + height
            <= HEIGHT),
    ensures
        width == 0 || height == 0 ==> final(buffer)@ == old(buffer)@,
        buffer_ok(old(buffer)@) ==> buffer_ok(final(buffer)@),
        buffer_ok(old(buffer)@) ==> forall|px: int, py: int|
            0 <= px < WIDTH && 0 <= py < HEIGHT ==> #[trigger] pixel_at(final(buffer)@, px, py) == if x
                <= px < x + width && y <= py < y + height {
                color
            } else {
                pixel_at(old(buffer)@, px, py)
            },
{
    if width == 0 || height == 0 {
        return;
    }
    let ghost start = buffer@;
    let mut j: usize = 0;
    while j < height
        invariant
            buffer_ok(start),
            buffer_ok(buffer@),
            x + width <= WIDTH,
            y + height <= HEIGHT,
            j <= height,
            forall|px: int, py: int|
                0 <= px < WIDTH && 0 <= py < HEIGHT ==> #[trigger] pixel_at(buffer@, px, py) == if x
                    <= px < x + width && y <= py < y + j {
                    color
                } else {
                    pixel_at(start, px, py)
                },
        decreases height - j,
    {
        let mut i: usize = 0;
        while i < width
            invariant
                buffer_ok(start),
                buffer_ok(buffer@),
                x + width <= WIDTH,
                y + height <= HEIGHT,
                j < height,
                i <= width,
                forall|px: int, py: int|
                    0 <= px < WIDTH && 0 <= py < HEIGHT ==> #[trigger] pixel_at(buffer@, px, py)
                        == if (x <= px < x + width && y <= py < y + j) || (x <= px < x + i && py
                        == y + j) {
                        color
                    } else {
                        pixel_at(start, px, py)
                    },
            decreases width - i,
        {
            let ghost before = buffer@;
            pixel(buffer, x + i, y + j, color);
            assert forall|px: int, py: int|
                0 <= px < WIDTH && 0 <= py < HEIGHT implies #[trigger] pixel_at(buffer@, px, py)
                    == if (x <= px < x + width && y <= py < y + j) || (x <= px < x + i + 1 && py
                    == y + j) {
                    color
                } else {
                    pixel_at(start, px, py)
                } by {
                if px != x + i || py != y + j {
                    assert(py * WIDTH + px != (y + j) * WIDTH + (x + i));
                    assert(pixel_at(buffer@, px, py) == pixel_at(before, px, py));
                }
            }
            i = i + 1;
        }
        j = j + 1;
    }
}

/// The points of `walk` that lie on screen, in their order.
pub fn keep_on_screen(walk: &Vec<(isize, isize)>) -> (r: Vec<(isize, isize)>)
    ensures
        r@ == walk@.filter(|p: (isize, isize)| on_screen(p)),
        forall|k: int| 0 <= k < r@.len() ==> on_screen(#[trigger] r@[k]),
        forall|k: int| 0 <= k < r@.len() ==> walk@.contains(#[trigger] r@[k]),
{
    let ghost pred = |p: (isize, isize)| on_screen(p);
    let mut out: Vec<(isize, isize)> = Vec::new();
    let mut i: usize = 0;
    while i < walk.len()
        invariant
            i <= walk@.len(),
            pred == (|p: (isize, isize)| on_screen(p)),
            out@ == walk@.subrange(0, i as int).filter(pred),
            forall|k: int| 0 <= k < out@.len() ==> on_screen(#[trigger] out@[k]),
            forall|k: int| 0 <= k < out@.len() ==> walk@.contains(#[trigger] out@[k]),
        decreases walk@.len() - i,
    {
        let p = walk[i];
        proof {
            reveal(Seq::filter);
            assert(walk@.subrange(0, i + 1).drop_last() =~= walk@.subrange(0, i as int));
            assert(walk@.subrange(0, i + 1).last() == p);
        }
        if 0 <= p.0 && p.0 < WIDTH as isize && 0 <= p.1 && p.1 < HEIGHT as isize {
            out.push(p);
            assert(walk@[i as int] == p);
            assert(pred(p));
        } else {
            assert(!pred(p));
        }
        i = i + 1;
    }
    assert(walk@.subrange(0, walk@.len() as int) =~= walk@);
    out
}

/// The on-screen points of the segment from `start` to `end`, in walk order.
pub fn line_between(start: Point, end: Point) -> (r: Vec<(isize, isize)>)
    requires
        raster_ok(start),
        raster_ok(end),
    ensures
        r@ == line_points(start, end),
        forall|k: int| 0 <= k < r@.len() ==> on_screen(#[trigger] r@[k]),
        forall|k: int|
            0 <= k < r@.len() ==> between(#[trigger] r@[k].0 as int, start.x as int, end.x as int)
                && between(r@[k].1 as int, start.y as int, end.y as int),
        line_walk(start, end).len() == if abs(end.x - start.x) >= abs(end.y - start.y) {
            abs(end.x - start.x)
        } else {
            abs(end.y - start.y)
        },
        start != end ==> line_walk(start, end)[0] == (start.x as isize, start.y as isize),
        forall|k: int|
            0 <= k < line_walk(start, end).len() - 1 ==> abs(
                #[trigger] line_walk(start, end)[k + 1].0 - line_walk(start, end)[k].0,
            ) <= 1 && abs(line_walk(start, end)[k + 1].1 - line_walk(start, end)[k].1) <= 1,
        starts_on_screen(start, end) ==> covers(r@, start.x as int, start.y as int),
{
    let walk = bresenham_walk((start.x as isize, start.y as isize), (end.x as isize, end.y as isize));
    let r = keep_on_screen(&walk);
    proof {
        assert forall|k: int| 0 <= k < r@.len() implies between(
            #[trigger] r@[k].0 as int,
            start.x as int,
            end.x as int,
        ) && between(r@[k].1 as int, start.y as int, end.y as int) by {
            assert(walk@.contains(r@[k]));
            let j = choose|j: int| 0 <= j < walk@.len() && walk@[j] == r@[k];
            assert(between(walk@[j].0 as int, start.x as int, end.x as int));
        }
        if starts_on_screen(start, end) {
            assert(walk@.len() > 0);
            let pred = |p: (isize, isize)| on_screen(p);
            assert(pred(walk@[0]));
            walk@.lemma_filter_contains(pred, 0);
            assert(r@.contains(walk@[0]));
            let k = choose|k: int| 0 <= k < r@.len() && r@[k] == walk@[0];
            assert(r@[k].0 == start.x && r@[k].1 == start.y);
        }
    }
    r
}

/// Sets every pixel that `pts` names to `color`; no other pixel changes.
pub fn plot_points(buffer: &mut Vec<u32>, pts: &Vec<(isize, isize)>, color: u32)
    requires
        buffer_ok(old(buffer)@),
        forall|j: int| 0 <= j < pts@.len() ==> on_screen(#[trigger] pts@[j]),
    ensures
        buffer_ok(final(buffer)@),
        forall|px: int, py: int|
            0 <= px < WIDTH && 0 <= py < HEIGHT ==> #[trigger] pixel_at(final(buffer)@, px, py) == if covers(
                pts@,
                px,
                py,
            ) {
                color
            } else {
                pixel_at(old(buffer)@, px, py)
            },
{
    let ghost first = buffer@;
    let mut k: usize = 0;
    while k < pts.len()
        invariant
            buffer_ok(first),
            buffer_ok(buffer@),
            k <= pts@.len(),
            forall|j: int| 0 <= j < pts@.len() ==> on_screen(#[trigger] pts@[j]),
            forall|px: int, py: int|
                0 <= px < WIDTH && 0 <= py < HEIGHT ==> #[trigger] pixel_at(buffer@, px, py) == if covers(
                    pts@.subrange(0, k as int),
                    px,
                    py,
                ) {
                    color
                } else {
                    pixel_at(first, px, py)
                },
        decreases pts@.len() - k,
    {
        let (x, y) = pts[k];
        assert(on_screen(pts@[k as int]));
        let ghost before = buffer@;
        pixel(buffer, x as usize, y as usize, color);
        assert forall|px: int, py: int|
            0 <= px < WIDTH && 0 <= py < HEIGHT implies #[trigger] pixel_at(buffer@, px, py) == if covers(
                pts@.subrange(0, k + 1),
                px,
                py,
            ) {
                color
            } else {
                pixel_at(first, px, py)
            } by {
            let s = pts@.subrange(0, k as int);
            let t = pts@.subrange(0, k + 1);
            if px == x && py == y {
                assert(t[k as int] == pts@[k as int]);
            } else {
                assert(py * WIDTH + px != y * WIDTH + x);
                assert(pixel_at(buffer@, px, py) == pixel_at(before, px, py));
                if covers(s, px, py) {
                    let j = choose|j: int| 0 <= j < s.len() && s[j].0 == px && s[j].1 == py;
                    assert(t[j] == s[j]);
                }
                if covers(t, px, py) {
                    let j = choose|j: int| 0 <= j < t.len() && t[j].0 == px && t[j].1 == py;
                    assert(s[j] == t[j]);
                }
            }
        }
        k = k + 1;
    }
    assert(pts@.subrange(0, pts@.len() as int) =~= pts@);
}

/// Sets every on-screen point of the segment from `start` to `end` to the wall
/// colour; no other pixel changes.
pub fn draw_line(buffer: &mut Vec<u32>, start: Point, end: Point)
    requires
        buffer_ok(old(buffer)@),
        raster_ok(start),
        raster_ok(end),
    ensures
        buffer_ok(final(buffer)@),
        forall|px: int, py: int|
            0 <= px < WIDTH && 0 <= py < HEIGHT ==> #[trigger] pixel_at(final(buffer)@, px, py) == if covers(
                line_points(start, end),
                px,
                py,
            ) {
                WALL_COLOR
            } else {
                pixel_at(old(buffer)@, px, py)
            },
        starts_on_screen(start, end) ==> covers(line_points(start, end), start.x as int, start.y as int),
        starts_on_screen(start, end) ==> pixel_at(final(buffer)@, start.x as int, start.y as int)
            == WALL_COLOR,
{
    let pts = line_between(start, end);
    plot_points(buffer, &pts, WALL_COLOR);
}

/// Sets pixels `(x, y1)` to `(x, y2)` of one column, both ends included, in
/// either order.
pub fn fill_span(buffer: &mut Vec<u32>, x: usize, y1: usize, y2: usize, color: u32)
    requires
        buffer_ok(old(buffer)@),
        x < WIDTH,
        y1 < HEIGHT,
        y2 < HEIGHT,
    ensures
        buffer_ok(final(buffer)@),
        forall|px: int, py: int|
            0 <= px < WIDTH && 0 <= py < HEIGHT ==> #[trigger] pixel_at(final(buffer)@, px, py) == if px
                == x && between(py, y1 as int, y2 as int) {
                color
            } else {
                pixel_at(old(buffer)@, px, py)
            },
{
    let (lo, hi) = if y1 <= y2 {
        (y1, y2)
    } else {
        (y2, y1)
    };
    let ghost first = buffer@;
    let mut y: usize = lo;
    while y <= hi
        invariant
            buffer_ok(first),
            buffer_ok(buffer@),
            x < WIDTH,
            lo <= y <= hi + 1,
            hi < HEIGHT,
            lo == (if y1 <= y2 { y1 } else { y2 }),
            hi == (if y1 <= y2 { y2 } else { y1 }),
            forall|px: int, py: int|
                0 <= px < WIDTH && 0 <= py < HEIGHT ==> #[trigger] pixel_at(buffer@, px, py) == if px
                    == x && lo <= py < y {
                    color
                } else {
                    pixel_at(first, px, py)
                },
        decreases hi + 1 - y,
    {
        let ghost before = buffer@;
        pixel(buffer, x, y, color);
        assert forall|px: int, py: int|
            0 <= px < WIDTH && 0 <= py < HEIGHT implies #[trigger] pixel_at(buffer@, px, py) == if px
                == x && lo <= py < y + 1 {
                color
            } else {
                pixel_at(first, px, py)
            } by {
            if px != x || py != y {
                assert(py * WIDTH + px != y * WIDTH + x);
                assert(pixel_at(buffer@, px, py) == pixel_at(before, px, py));
            }
        }
        y = y + 1;
    }
}

/// Pixel `(x, y)` lies in the column span of some pair among the first `n`
/// pairs of `top` and `bottom` points.
pub open spec fn span_covers(
    top: Seq<(isize, isize)>,
    bottom: Seq<(isize, isize)>,
    n: int,
    x: int,
    y: int,
) -> bool {
    exists|k: int|
        0 <= k < n && k < top.len() && k < bottom.len() && top[k].0 == x && between(
            y,
            top[k].1 as int,
            bottom[k].1 as int,
        )
}

/// Pixel `(x, y)` lies in the strip between the on-screen points of the two
/// edges, paired by their position along each edge.
pub open spec fn strip_covers(top: Line, bottom: Line, x: int, y: int) -> bool {
    let t = line_points(top.start, top.end);
    let b = line_points(bottom.start, bottom.end);
    span_covers(t, b, if t.len() <= b.len() { t.len() as int } else { b.len() as int }, x, y)
}

/// Pairs the points of `top` and `bottom` by position, as far as the shorter
/// one reaches, and fills each pair's column span at the column of the `top`
/// point.
pub fn fill_strip(buffer: &mut Vec<u32>, top: &Vec<(isize, isize)>, bottom: &Vec<(isize, isize)>)
    requires
        buffer_ok(old(buffer)@),
        forall|j: int| 0 <= j < top@.len() ==> on_screen(#[trigger] top@[j]),
        forall|j: int| 0 <= j < bottom@.len() ==> on_screen(#[trigger] bottom@[j]),
    ensures
        buffer_ok(final(buffer)@),
        forall|px: int, py: int|
            0 <= px < WIDTH && 0 <= py < HEIGHT ==> #[trigger] pixel_at(final(buffer)@, px, py) == if span_covers(
                top@,
                bottom@,
                if top@.len() <= bottom@.len() { top@.len() as int } else { bottom@.len() as int },
                px,
                py,
            ) {
                WALL_COLOR
            } else {
                pixel_at(old(buffer)@, px, py)
            },
{
    let n = if top.len() <= bottom.len() {
        top.len()
    } else {
        bottom.len()
    };
    let ghost first = buffer@;
    let mut k: usize = 0;
    while k < n
        invariant
            buffer_ok(first),
            buffer_ok(buffer@),
            k <= n,
            n <= top@.len(),
            n <= bottom@.len(),
            forall|j: int| 0 <= j < top@.len() ==> on_screen(#[trigger] top@[j]),
            forall|j: int| 0 <= j < bottom@.len() ==> on_screen(#[trigger] bottom@[j]),
            forall|px: int, py: int|
                0 <= px < WIDTH && 0 <= py < HEIGHT ==> #[trigger] pixel_at(buffer@, px, py) == if span_covers(
                    top@,
                    bottom@,
                    k as int,
                    px,
                    py,
                ) {
                    WALL_COLOR
                } else {
                    pixel_at(first, px, py)
                },
        decreases n - k,
    {
        let (x1, y1) = top[k];
        let (_x2, y2) = bottom[k];
        assert(on_screen(top@[k as int]) && on_screen(bottom@[k as int]));
        let ghost before = buffer@;
        fill_span(buffer, x1 as usize, y1 as usize, y2 as usize, WALL_COLOR);
        assert forall|px: int, py: int|
            0 <= px < WIDTH && 0 <= py < HEIGHT implies #[trigger] pixel_at(buffer@, px, py) == if span_covers(
                top@,
                bottom@,
                k + 1,
                px,
                py,
            ) {
                WALL_COLOR
            } else {
                pixel_at(first, px, py)
            } by {
            if px == x1 && between(py, y1 as int, y2 as int) {
                assert(span_covers(top@, bottom@, k + 1, px, py));
            } else {
                assert(pixel_at(buffer@, px, py) == pixel_at(before, px, py));
                if span_covers(top@, bottom@, k + 1, px, py) {
                    let j = choose|j: int|
                        0 <= j < k + 1 && j < top@.len() && j < bottom@.len() && top@[j].0 == px && between(
                            py,
                            top@[j].1 as int,
                            bottom@[j].1 as int,
                        );
                    assert(j != k);
                    assert(span_covers(top@, bottom@, k as int, px, py));
                }
            }
        }
        k = k + 1;
    }
}

/// Walks the two edges in step and fills, at each on-screen point of the top
/// edge, the column span to the paired point of the bottom edge.
pub fn draw_strip(buffer: &mut Vec<u32>, top: Line, bottom: Line)
    requires
        buffer_ok(old(buffer)@),
        raster_ok(top.start),
        raster_ok(top.end),
        raster_ok(bottom.start),
        raster_ok(bottom.end),
    ensures
        buffer_ok(final(buffer)@),
        forall|px: int, py: int|
            0 <= px < WIDTH && 0 <= py < HEIGHT ==> #[trigger] pixel_at(final(buffer)@, px, py) == if strip_covers(
                top,
                bottom,
                px,
                py,
            ) {
                WALL_COLOR
            } else {
                pixel_at(old(buffer)@, px, py)
            },
{
    let t = line_between(top.start, top.end);
    let b = line_between(bottom.start, bottom.end);
    fill_strip(buffer, &t, &b);
}

/// Some wall among the first `n` covers pixel `(x, y)` when drawn as a line.
pub open spec fn walls_cover(walls: Seq<Line>, n: int, x: int, y: int) -> bool {
    exists|w: int| 0 <= w < n && covers(line_points(walls[w].start, walls[w].end), x, y)
}

/// Every endpoint of every wall lies within the line walker's range.
pub open spec fn walls_raster_ok(walls: Seq<Line>) -> bool {
    forall|w: int| 0 <= w < walls.len() ==> raster_ok(#[trigger] walls[w].start) && raster_ok(walls[w].end)
}

/// Draws every wall of `walls` as a line.
pub fn draw_map(buffer: &mut Vec<u32>, walls: &Vec<Line>)
    requires
        buffer_ok(old(buffer)@),
        walls_raster_ok(walls@),
    ensures
        buffer_ok(final(buffer)@),
        forall|px: int, py: int|
            0 <= px < WIDTH && 0 <= py < HEIGHT ==> #[trigger] pixel_at(final(buffer)@, px, py) == if walls_cover(
                walls@,
                walls@.len() as int,
                px,
                py,
            ) {
                WALL_COLOR
            } else {
                pixel_at(old(buffer)@, px, py)
            },
        forall|w: int|
            0 <= w < walls@.len() && starts_on_screen(walls@[w].start, walls@[w].end) ==> pixel_at(
                final(buffer)@,
                #[trigger] walls@[w].start.x as int,
                walls@[w].start.y as int,
            ) == WALL_COLOR,
{
    let ghost first = buffer@;
    let mut i: usize = 0;
    while i < walls.len()
        invariant
            buffer_ok(first),
            buffer_ok(buffer@),
            i <= walls@.len(),
            walls_raster_ok(walls@),
            forall|w: int|
                0 <= w < i && starts_on_screen(walls@[w].start, walls@[w].end) ==> covers(
                    line_points(#[trigger] walls@[w].start, walls@[w].end),
                    walls@[w].start.x as int,
                    walls@[w].start.y as int,
                ),
            forall|px: int, py: int|
                0 <= px < WIDTH && 0 <= py < HEIGHT ==> #[trigger] pixel_at(buffer@, px, py) == if walls_cover(
                    walls@,
                    i as int,
                    px,
                    py,
                ) {
                    WALL_COLOR
                } else {
                    pixel_at(first, px, py)
                },
        decreases walls@.len() - i,
    {
        let line = walls[i];
        assert(raster_ok(walls@[i as int].start));
        let ghost before = buffer@;
        draw_line(buffer, line.start, line.end);
        assert forall|px: int, py: int|
            0 <= px < WIDTH && 0 <= py < HEIGHT implies #[trigger] pixel_at(buffer@, px, py) == if walls_cover(
                walls@,
                i + 1,
                px,
                py,
            ) {
                WALL_COLOR
            } else {
                pixel_at(first, px, py)
            } by {
            assert(pixel_at(before, px, py) == (if walls_cover(walls@, i as int, px, py) {
                WALL_COLOR
            } else {
                pixel_at(first, px, py)
            }));
            if covers(line_points(line.start, line.end), px, py) {
                assert(walls_cover(walls@, i + 1, px, py));
            } else if walls_cover(walls@, i + 1, px, py) {
                let w = choose|w: int|
                    0 <= w < i + 1 && covers(line_points(walls@[w].start, walls@[w].end), px, py);
                assert(w != i);
                assert(walls_cover(walls@, i as int, px, py));
            }
        }
        i = i + 1;
    }
    assert forall|w: int|
        0 <= w < walls@.len() && starts_on_screen(walls@[w].start, walls@[w].end) implies pixel_at(
        buffer@,
        #[trigger] walls@[w].start.x as int,
        walls@[w].start.y as int,
    ) == WALL_COLOR by {
        assert(walls_cover(walls@, walls@.len() as int, walls@[w].start.x as int, walls@[w].start.y as int));
    }
}

} // verus!
