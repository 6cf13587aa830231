use vstd::prelude::*;

use crate::geometry::{scale_coord, Line, Point, Vector};
use crate::raster::{
    buffer_ok, clear, covers, draw_line, draw_map, draw_rect, line_points, pixel, pixel_at,
    walls_cover, BACKGROUND, HEIGHT, WALL_COLOR, WIDTH,
};
use crate::render::{
    camera_line, camera_ok, camera_walls_ok, cull_spec, draw_walls, to_camera, view_covers,
    world_ok, world_walls_ok, CENTER_X, CENTER_Y,
};

verus! {

/// Colour of the floor, the lower half of the main view.
pub const FLOOR_COLOR: u32 = 0xFF0000;

/// Colour of the minimap's background.
pub const MINIMAP_COLOR: u32 = 0x000000;

/// Colour of the markers for the viewer's own position.
pub const MARKER_COLOR: u32 = 0xFFFFFF;

/// The level: its walls, and the nominal size that the minimap's background
/// covers.
pub struct Level {
    pub walls: Vec<Line>,
    pub width: usize,
    pub height: usize,
}

/// The map fits the minimap: its walls lie within the camera range and its
/// halved size fits on screen.
pub open spec fn level_ok(map: &Level) -> bool {
    &&& camera_walls_ok(map.walls@)
    &&& map.width / 2 <= WIDTH
    &&& map.height / 2 <= HEIGHT
}

/// The built-in level: two walls meeting at a corner.
pub fn build_map() -> (r: Level)
    ensures
        r.width == 100,
        r.height == 100,
        r.walls@ == seq![
            Line { start: Vector { x: 40, y: 20 }, end: Vector { x: 80, y: 20 } },
            Line { start: Vector { x: 80, y: 20 }, end: Vector { x: 100, y: 40 } },
        ],
        level_ok(&r),
{
    let r = Level {
        width: 100,
        height: 100,
        walls: vec![
            Line { start: Vector { x: 40, y: 20 }, end: Vector { x: 80, y: 20 } },
            Line { start: Vector { x: 80, y: 20 }, end: Vector { x: 100, y: 40 } },
        ],
    };
    assert(r.walls@ =~= seq![
        Line { start: Vector { x: 40, y: 20 }, end: Vector { x: 80, y: 20 } },
        Line { start: Vector { x: 80, y: 20 }, end: Vector { x: 100, y: 40 } },
    ]);
    r
}

/// A point at the minimap's scale of one half.
pub open spec fn half_point(p: Point) -> Point {
    Vector { x: scale_coord(p.x as int, 1, 2) as i64, y: scale_coord(p.y as int, 1, 2) as i64 }
}

pub open spec fn half_line(l: Line) -> Line {
    Line { start: half_point(l.start), end: half_point(l.end) }
}

pub open spec fn half_walls(walls: Seq<Line>) -> Seq<Line> {
    walls.map_values(|l: Line| half_line(l))
}

/// The tip of the heading marker on the minimap.
pub open spec fn tip_point(position: Point, look: Vector) -> Point {
    Vector {
        x: (half_point(position).x + look.x) as i64,
        y: (half_point(position).y + look.y) as i64,
    }
}

/// The colour of pixel `(x, y)` after the minimap is drawn over a pixel of
/// colour `below`.
pub open spec fn minimap_color(
    map_walls: Seq<Line>,
    width: int,
    height: int,
    position: Point,
    look: Vector,
    x: int,
    y: int,
    below: u32,
) -> u32 {
    let p = half_point(position);
    if x == p.x && y == p.y {
        MARKER_COLOR
    } else if covers(line_points(p, tip_point(position, look)), x, y) {
        WALL_COLOR
    } else if walls_cover(half_walls(map_walls), map_walls.len() as int, x, y) {
        WALL_COLOR
    } else if x < width / 2 && y < height / 2 {
        MINIMAP_COLOR
    } else {
        below
    }
}

/// Draws the top-down minimap in the screen's top left corner at half scale:
/// its background, every wall, the heading marker from the viewer's position
/// along `look`, and the viewer's position itself when it is on screen.
pub fn draw_minimap(buffer: &mut Vec<u32>, map: &Level, position: Point, look: Vector)
    requires
        buffer_ok(old(buffer)@),
        level_ok(map),
        camera_ok(position),
        camera_ok(look),
    ensures
        buffer_ok(final(buffer)@),
        forall|px: int, py: int|
            0 <= px < WIDTH && 0 <= py < HEIGHT ==> #[trigger] pixel_at(final(buffer)@, px, py)
                == minimap_color(
                map.walls@,
                map.width as int,
                map.height as int,
                position,
                look,
                px,
                py,
                pixel_at(old(buffer)@, px, py),
            ),
{
    let ghost first = buffer@;
    draw_rect(buffer, 0, 0, map.width / 2, map.height / 2, MINIMAP_COLOR);
    let ghost after_rect = buffer@;
    let mut scaled: Vec<Line> = Vec::new();
    let mut i: usize = 0;
    while i < map.walls.len()
        invariant
            i <= map.walls@.len(),
            level_ok(map),
            scaled@ == map.walls@.subrange(0, i as int).map_values(|l: Line| half_line(l)),
        decreases map.walls@.len() - i,
    {
        let wall = map.walls[i];
        assert(camera_ok(map.walls@[i as int].start) && camera_ok(map.walls@[i as int].end));
        scaled.push(wall.scale(1, 2));
        assert(scaled@ =~= map.walls@.subrange(0, i + 1).map_values(|l: Line| half_line(l)));
        i = i + 1;
    }
    assert(map.walls@.subrange(0, map.walls@.len() as int) =~= map.walls@);
    assert(scaled@.len() == map.walls@.len());
    assert forall|w: int| 0 <= w < scaled@.len() implies crate::raster::raster_ok(
        #[trigger] scaled@[w].start,
    ) && crate::raster::raster_ok(scaled@[w].end) by {
        assert(camera_ok(map.walls@[w].start) && camera_ok(map.walls@[w].end));
    }
    draw_map(buffer, &scaled);
    let ghost after_map = buffer@;
    let origin = Line { start: position, end: position }.scale(1, 2).start;
    let tip = Vector { x: origin.x + look.x, y: origin.y + look.y };
    draw_line(buffer, origin, tip);
    if 0 <= origin.x && origin.x < WIDTH as i64 && 0 <= origin.y && origin.y < HEIGHT as i64 {
        let ghost before = buffer@;
        pixel(buffer, origin.x as usize, origin.y as usize, MARKER_COLOR);
        assert forall|px: int, py: int|
            0 <= px < WIDTH && 0 <= py < HEIGHT && (px != origin.x || py != origin.y) implies #[trigger] pixel_at(
                buffer@,
                px,
                py,
            ) == pixel_at(before, px, py) by {
            assert(py * WIDTH + px != origin.y * WIDTH + origin.x);
        }
    }
}

/// The colour of pixel `(x, y)` in the main view: the viewer's marker at the
/// screen centre, walls, then floor below the horizon and background above.
pub open spec fn view_color(camera_walls: Seq<Line>, x: int, y: int) -> u32 {
    if x == CENTER_X && y == CENTER_Y {
        MARKER_COLOR
    } else if view_covers(cull_spec(camera_walls), cull_spec(camera_walls).len() as int, x, y) {
        WALL_COLOR
    } else if y >= HEIGHT / 2 {
        FLOOR_COLOR
    } else {
        BACKGROUND
    }
}

/// The walls of `turned` in camera space, seen from `position`.
pub open spec fn camera_walls_of(turned: Seq<Line>, position: Point) -> Seq<Line> {
    turned.map_values(|l: Line| camera_line(l, position))
}

/// Renders one frame: clears the buffer, draws the floor, the first-person
/// view and the viewer's marker, then the minimap over it. `turned` holds the
/// map's walls already turned into the viewer's heading about `position`;
/// `look` is the heading marker's offset on the minimap.
pub fn render_frame(buffer: &mut Vec<u32>, map: &Level, turned: &Vec<Line>, position: Point, look: Vector)
    requires
        buffer_ok(old(buffer)@),
        level_ok(map),
        world_walls_ok(turned@),
        world_ok(position),
        camera_ok(look),
    ensures
        buffer_ok(final(buffer)@),
        forall|px: int, py: int|
            0 <= px < WIDTH && 0 <= py < HEIGHT ==> #[trigger] pixel_at(final(buffer)@, px, py)
                == minimap_color(
                map.walls@,
                map.width as int,
                map.height as int,
                position,
                look,
                px,
                py,
                view_color(camera_walls_of(turned@, position), px, py),
            ),
{
    let camera_walls = to_camera(turned, position);
    assert(camera_walls@ =~= camera_walls_of(turned@, position));
    let camera_walls = &camera_walls;
    clear(buffer);
    draw_rect(buffer, 0, HEIGHT / 2, WIDTH, HEIGHT / 2, FLOOR_COLOR);
    draw_walls(buffer, camera_walls);
    let ghost before = buffer@;
    pixel(buffer, CENTER_X as usize, CENTER_Y as usize, MARKER_COLOR);
    assert forall|px: int, py: int|
        0 <= px < WIDTH && 0 <= py < HEIGHT implies #[trigger] pixel_at(buffer@, px, py)
            == view_color(camera_walls@, px, py) by {
        if px != CENTER_X || py != CENTER_Y {
            assert(py * WIDTH + px != CENTER_Y * WIDTH + CENTER_X);
            assert(pixel_at(buffer@, px, py) == pixel_at(before, px, py));
        }
    }
    draw_minimap(buffer, map, position, look);
}

} // verus!
