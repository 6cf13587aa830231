use wallcaster::geometry::{Line, Point};
use wallcaster::raster::{
    clear, draw_line, draw_map, draw_rect, draw_strip, fill_span, fill_strip, keep_on_screen,
    line_between, pixel, plot_points, BACKGROUND, HEIGHT, WALL_COLOR, WIDTH,
};

fn blank() -> Vec<u32> {
    vec![7; WIDTH * HEIGHT]
}

fn at(b: &[u32], x: usize, y: usize) -> u32 {
    b[y * WIDTH + x]
}

fn changed(before: &[u32], after: &[u32]) -> Vec<(usize, usize)> {
    let mut out = Vec::new();
    for i in 0..before.len() {
        if before[i] != after[i] {
            out.push((i % WIDTH, i / WIDTH));
        }
    }
    out
}

#[test]
fn clear_fills_background() {
    let mut b = blank();
    clear(&mut b);
    assert_eq!(b.len(), WIDTH * HEIGHT);
    assert!(b.iter().all(|&c| c == BACKGROUND));
}

#[test]
fn pixel_sets_row_major_cell() {
    let mut b = blank();
    pixel(&mut b, 3, 2, 9);
    assert_eq!(b[2 * WIDTH + 3], 9);
    assert_eq!(changed(&blank(), &b), vec![(3, 2)]);
}

#[test]
fn draw_rect_fills_exactly_the_rectangle() {
    let mut b = blank();
    draw_rect(&mut b, 10, 5, 3, 2, 1);
    let mut want = Vec::new();
    for y in 5..7 {
        for x in 10..13 {
            want.push((x, y));
        }
    }
    assert_eq!(changed(&blank(), &b), want);
    assert_eq!(at(&b, 12, 6), 1);
}

#[test]
fn draw_rect_reaches_the_far_corner() {
    let mut b = blank();
    draw_rect(&mut b, 0, 0, WIDTH, HEIGHT, 2);
    assert!(b.iter().all(|&c| c == 2));
}

#[test]
fn line_between_walks_bresenham_points() {
    let pts = line_between(Point { x: 0, y: 1 }, Point { x: 6, y: 4 });
    assert_eq!(pts, vec![(0, 1), (1, 1), (2, 2), (3, 2), (4, 3), (5, 3)]);
    let back = line_between(Point { x: 6, y: 4 }, Point { x: 0, y: 1 });
    assert_eq!(back, vec![(6, 4), (5, 4), (4, 3), (3, 3), (2, 2), (1, 2)]);
}

#[test]
fn line_between_drops_off_screen_points() {
    let pts = line_between(Point { x: -3, y: 0 }, Point { x: 3, y: 0 });
    assert_eq!(pts, vec![(0, 0), (1, 0), (2, 0)]);
    let pts = line_between(Point { x: 238, y: 159 }, Point { x: 242, y: 161 });
    assert_eq!(pts, vec![(238, 159), (239, 159)]);
    assert!(line_between(Point { x: -10, y: -10 }, Point { x: -2, y: -3 }).is_empty());
}

#[test]
fn line_between_same_point_is_empty() {
    assert!(line_between(Point { x: 4, y: 4 }, Point { x: 4, y: 4 }).is_empty());
}

#[test]
fn draw_line_never_writes_off_screen() {
    // a row walked past the right edge must not wrap into the next row
    let mut b = blank();
    draw_line(&mut b, Point { x: 235, y: 0 }, Point { x: 250, y: 0 });
    let got = changed(&blank(), &b);
    assert_eq!(got, vec![(235, 0), (236, 0), (237, 0), (238, 0), (239, 0)]);
    let mut b = blank();
    draw_line(&mut b, Point { x: -20, y: -20 }, Point { x: 260, y: 180 });
    for (x, y) in changed(&blank(), &b) {
        assert!(x < WIDTH && y < HEIGHT);
        assert_eq!(at(&b, x, y), WALL_COLOR);
    }
}

#[test]
fn fill_span_includes_both_ends_in_either_order() {
    let mut b = blank();
    fill_span(&mut b, 4, 9, 6, 3);
    assert_eq!(changed(&blank(), &b), vec![(4, 6), (4, 7), (4, 8), (4, 9)]);
}

#[test]
fn draw_strip_fills_columns_between_edges() {
    let mut b = blank();
    let top = Line { start: Point { x: 10, y: 20 }, end: Point { x: 13, y: 20 } };
    let bottom = Line { start: Point { x: 10, y: 22 }, end: Point { x: 13, y: 22 } };
    draw_strip(&mut b, top, bottom);
    let mut want = Vec::new();
    for y in 20..23 {
        for x in 10..13 {
            want.push((x, y));
        }
    }
    assert_eq!(changed(&blank(), &b), want);
}

#[test]
fn draw_map_draws_every_wall() {
    let mut b = blank();
    let walls = vec![
        Line { start: Point { x: 0, y: 0 }, end: Point { x: 3, y: 0 } },
        Line { start: Point { x: 5, y: 5 }, end: Point { x: 5, y: 7 } },
    ];
    draw_map(&mut b, &walls);
    assert_eq!(changed(&blank(), &b), vec![(0, 0), (1, 0), (2, 0), (5, 5), (5, 6)]);
}

#[test]
fn keep_on_screen_filters_in_order() {
    let walk = vec![(-1, 0), (0, 0), (239, 159), (240, 10), (5, 160), (7, -2), (3, 4)];
    assert_eq!(keep_on_screen(&walk), vec![(0, 0), (239, 159), (3, 4)]);
    assert!(keep_on_screen(&Vec::new()).is_empty());
}

#[test]
fn plot_points_sets_only_named_pixels() {
    let mut b = blank();
    plot_points(&mut b, &vec![(1, 2), (239, 159), (1, 2)], 5);
    assert_eq!(changed(&blank(), &b), vec![(1, 2), (239, 159)]);
    assert_eq!(at(&b, 239, 159), 5);
}

#[test]
fn fill_strip_pairs_points_up_to_the_shorter_edge() {
    let mut b = blank();
    let top = vec![(3, 10), (4, 12), (5, 9)];
    let bottom = vec![(3, 11), (4, 10)];
    fill_strip(&mut b, &top, &bottom);
    assert_eq!(changed(&blank(), &b), vec![(3, 10), (4, 10), (3, 11), (4, 11), (4, 12)]);
}

#[test]
fn draw_rect_empty_touches_nothing_anywhere() {
    let mut b = blank();
    draw_rect(&mut b, 1000, 5, 0, 3, 1);
    draw_rect(&mut b, 5, 1000, 3, 0, 1);
    assert_eq!(b, blank());
    let mut short = vec![4u32; 3];
    draw_rect(&mut short, 0, 0, 0, 0, 1);
    assert_eq!(short, vec![4, 4, 4]);
}

#[test]
fn line_between_steps_are_adjacent_and_boxed() {
    let pts = line_between(Point { x: 200, y: 3 }, Point { x: 7, y: 150 });
    assert_eq!(pts.len(), 193);
    assert_eq!(pts[0], (200, 3));
    for w in pts.windows(2) {
        assert!((w[1].0 - w[0].0).abs() <= 1 && (w[1].1 - w[0].1).abs() <= 1);
    }
    for &(x, y) in &pts {
        assert!((7..=200).contains(&x) && (3..=150).contains(&y));
    }
}

#[test]
fn draw_map_marks_each_wall_start() {
    let mut b = blank();
    let walls = vec![
        Line { start: Point { x: 82, y: 10 }, end: Point { x: 107, y: 10 } },
        Line { start: Point { x: 40, y: 20 }, end: Point { x: 50, y: 30 } },
    ];
    draw_map(&mut b, &walls);
    assert_eq!(at(&b, 82, 10), WALL_COLOR);
    assert_eq!(at(&b, 40, 20), WALL_COLOR);
    assert_eq!(at(&b, 107, 10), 7);
}
