use wallcaster::geometry::{Line, Point, Vector};
use wallcaster::raster::{draw_map, BACKGROUND, HEIGHT, WALL_COLOR, WIDTH};
use wallcaster::render::{
    cull, draw_walls, perspective, project_screen, screen_rect, to_camera, wall_edges, CENTER_Y,
};
use wallcaster::clip::clip_line;
use wallcaster::world::{
    build_map, draw_minimap, render_frame, FLOOR_COLOR, MARKER_COLOR, MINIMAP_COLOR,
};

fn line(x1: i64, y1: i64, x2: i64, y2: i64) -> Line {
    Line { start: Point { x: x1, y: y1 }, end: Point { x: x2, y: y2 } }
}

fn blank() -> Vec<u32> {
    vec![BACKGROUND; WIDTH * HEIGHT]
}

fn at(b: &[u32], x: usize, y: usize) -> u32 {
    b[y * WIDTH + x]
}

fn count_changed(before: &[u32], after: &[u32]) -> usize {
    before.iter().zip(after.iter()).filter(|(a, b)| a != b).count()
}

/// The walls as seen by a viewer at `position` facing up.
fn facing_up(walls: &[Line], position: Point) -> Vec<Line> {
    to_camera(&walls.to_vec(), position)
}

/// The walls turned half a circle about `position`.
fn turned_around(walls: &[Line], position: Point) -> Vec<Line> {
    let flip = |p: Point| Point { x: 2 * position.x - p.x, y: 2 * position.y - p.y };
    walls.iter().map(|l| Line { start: flip(l.start), end: flip(l.end) }).collect()
}

#[test]
fn to_camera_puts_viewer_at_screen_centre() {
    let cam = to_camera(&vec![line(40, 20, 80, 20)], Point { x: 50, y: 50 });
    assert_eq!(cam, vec![line(110, 50, 150, 50)]);
}

#[test]
fn cull_keeps_front_walls_and_drops_back_walls() {
    let walls = vec![line(0, 10, 5, 20), line(0, 90, 5, 100), line(7, 80, 9, 81)];
    let out = cull(&walls);
    assert_eq!(out.len(), 2);
    assert_eq!(out[0], walls[0]);
    assert_eq!(out[1], line(7, 80, 7, 80));
}

#[test]
fn cull_cuts_straddling_walls_at_the_near_plane() {
    let out = cull(&vec![line(0, 60, 40, 100), line(40, 100, 0, 60)]);
    assert_eq!(out, vec![line(0, 60, 20, 80), line(20, 80, 0, 60)]);
}

#[test]
fn cull_handles_vertical_walls() {
    let out = cull(&vec![line(30, 10, 30, 200)]);
    assert_eq!(out, vec![line(30, 10, 30, 80)]);
}

#[test]
fn cull_never_leaves_an_endpoint_behind() {
    let walls = vec![
        line(-50, -50, 300, 300),
        line(300, 300, -50, -50),
        line(1, 81, 2, 79),
        line(5, 200, 6, 201),
    ];
    for l in cull(&walls) {
        assert!(l.start.y <= CENTER_Y && l.end.y <= CENTER_Y);
    }
}

#[test]
fn perspective_divides_by_depth() {
    let r = perspective(line(110, 50, 150, 50));
    // depth 30 plus one thousandth
    assert_eq!(r, line(-24, 13, 69, 13));
    let near = perspective(line(121, 80, 119, 80));
    assert_eq!(near, line(70_000, 400_000, -70_000, 400_000));
}

#[test]
fn project_screen_flips_and_centres() {
    assert_eq!(project_screen(line(-24, 13, 69, 13)), line(96, 67, 189, 67));
}

#[test]
fn wall_edges_mirror_the_top_edge() {
    let (top, bottom) = wall_edges(line(110, 50, 150, 50)).unwrap();
    assert_eq!(top, line(96, 67, 189, 67));
    assert_eq!(bottom, line(96, 93, 189, 93));
}

#[test]
fn single_wall_projects_to_symmetric_strip() {
    let walls = [line(40, 20, 80, 20)];
    let cam = facing_up(&walls, Point { x: 50, y: 50 });
    let mut b = blank();
    draw_walls(&mut b, &cam);
    // filled from row 67 to row 93 over columns 96 to 188
    assert_eq!(at(&b, 100, 67), WALL_COLOR);
    assert_eq!(at(&b, 100, 93), WALL_COLOR);
    assert_eq!(at(&b, 100, 66), BACKGROUND);
    assert_eq!(at(&b, 100, 94), BACKGROUND);
    assert_eq!(at(&b, 96, 80), WALL_COLOR);
    assert_eq!(at(&b, 95, 80), BACKGROUND);
    assert_eq!(at(&b, 188, 80), WALL_COLOR);
    assert_eq!(at(&b, 189, 80), BACKGROUND);
    assert_eq!(count_changed(&blank(), &b), 93 * 27);
    // the top edge lies above the midline and the strip mirrors about it
    for x in 0..WIDTH {
        for d in 0..80 {
            assert_eq!(at(&b, x, 80 - d), at(&b, x, 80 + d));
        }
    }
}

#[test]
fn turning_around_culls_the_wall() {
    let position = Point { x: 50, y: 50 };
    let walls = [line(40, 20, 80, 20)];
    let cam = facing_up(&turned_around(&walls, position), position);
    assert_eq!(cam, vec![line(130, 110, 90, 110)]);
    assert!(cull(&cam).is_empty());
    let mut b = blank();
    draw_walls(&mut b, &cam);
    assert_eq!(count_changed(&blank(), &b), 0);
}

#[test]
fn offscreen_wall_is_clipped_away_but_stays_on_minimap() {
    let position = Point { x: 50, y: 50 };
    let walls = [line(330, 40, 430, 40)];
    let cam = facing_up(&walls, position);
    assert_eq!(cam, vec![line(400, 70, 500, 70)]);
    let top = project_screen(perspective(cam[0]));
    assert!(top.start.x > WIDTH as i64 && top.end.x > WIDTH as i64);
    assert_eq!(clip_line(top.start, top.end, &screen_rect()), None);
    assert_eq!(wall_edges(cam[0]), None);
    let mut b = blank();
    draw_walls(&mut b, &cam);
    assert_eq!(count_changed(&blank(), &b), 0);
    let mut m = blank();
    draw_map(&mut m, &vec![walls[0].scale(1, 2)]);
    assert_eq!(count_changed(&blank(), &m), 50);
    assert_eq!(at(&m, 165, 20), WALL_COLOR);
}

#[test]
fn minimap_draws_background_walls_heading_and_marker() {
    let map = build_map();
    let mut b = blank();
    draw_minimap(&mut b, &map, Point { x: 50, y: 50 }, Vector { x: 0, y: -5 });
    assert_eq!(at(&b, 25, 25), MARKER_COLOR);
    assert_eq!(at(&b, 25, 22), WALL_COLOR);
    assert_eq!(at(&b, 20, 10), WALL_COLOR);
    assert_eq!(at(&b, 45, 15), WALL_COLOR);
    assert_eq!(at(&b, 5, 40), MINIMAP_COLOR);
    assert_eq!(at(&b, 50, 50), BACKGROUND);
}

#[test]
fn frame_composes_view_and_minimap() {
    let map = build_map();
    let position = Point { x: 50, y: 50 };
    let mut b = vec![0; WIDTH * HEIGHT];
    render_frame(&mut b, &map, &map.walls, position, Vector { x: 0, y: -5 });
    assert_eq!(at(&b, 120, 80), MARKER_COLOR);
    assert_eq!(at(&b, 150, 70), WALL_COLOR);
    assert_eq!(at(&b, 230, 150), FLOOR_COLOR);
    assert_eq!(at(&b, 230, 10), BACKGROUND);
    assert_eq!(at(&b, 25, 25), MARKER_COLOR);
    assert_eq!(at(&b, 5, 40), MINIMAP_COLOR);
    assert_eq!(b.len(), WIDTH * HEIGHT);
}
