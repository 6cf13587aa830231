use wallcaster::clip::{
    calculate_intersection, clip_line, compute_outcode, compute_outcode_point, Rect, BOTTOM,
    INSIDE, LEFT, RIGHT, TOP,
};
use wallcaster::geometry::Point;

fn square(left: i64, right: i64, top: i64, bottom: i64) -> Rect {
    Rect { left, right, top, bottom }
}

#[test]
fn clip_line_inside() {
    let p1 = Point { x: 10, y: 10 };
    let p2 = Point { x: 20, y: 20 };
    let rect = Rect { left: 0, right: 30, top: 0, bottom: 30 };

    let (new_p1, new_p2) = clip_line(p1, p2, &rect).unwrap();
    assert_eq!(p1, new_p1);
    assert_eq!(p2, new_p2);
}

#[test]
fn clip_line_outside() {
    let p1 = Point { x: 10, y: 10 };
    let p2 = Point { x: 20, y: 20 };
    let rect = Rect { left: 30, right: 50, top: 0, bottom: 30 };

    let result = clip_line(p1, p2, &rect);
    assert_eq!(None, result);
}

#[test]
fn clip_line_intersected() {
    let p1 = Point { x: 10, y: 10 };
    let p2 = Point { x: 30, y: 30 };
    let rect = Rect { left: 0, right: 20, top: 0, bottom: 20 };

    let (new_p1, new_p2) = clip_line(p1, p2, &rect).unwrap();
    assert_eq!(p1, new_p1);
    assert_eq!(Point { x: 20, y: 20 }, new_p2);
}

#[test]
fn outcodes_follow_side_precedence() {
    let r = square(0, 10, 0, 10);
    assert_eq!(compute_outcode(5, 5, &r), INSIDE);
    assert_eq!(compute_outcode(0, 10, &r), INSIDE);
    assert_eq!(compute_outcode(-1, 5, &r), LEFT);
    assert_eq!(compute_outcode(11, 5, &r), RIGHT);
    assert_eq!(compute_outcode(5, 11, &r), BOTTOM);
    assert_eq!(compute_outcode(5, -1, &r), TOP);
    assert_eq!(compute_outcode(-1, -1, &r), TOP);
    assert_eq!(compute_outcode(11, 11, &r), BOTTOM);
    assert_eq!(compute_outcode_point(Point { x: 11, y: 11 }, &r), BOTTOM);
}

#[test]
fn intersection_with_each_border() {
    let r = square(0, 20, 0, 20);
    let inner = Point { x: 10, y: 10 };
    assert_eq!(
        calculate_intersection(inner, Point { x: 14, y: -10 }, &r, TOP),
        Point { x: 12, y: 0 }
    );
    assert_eq!(
        calculate_intersection(inner, Point { x: 6, y: 30 }, &r, BOTTOM),
        Point { x: 8, y: 20 }
    );
    assert_eq!(
        calculate_intersection(inner, Point { x: 30, y: 20 }, &r, RIGHT),
        Point { x: 20, y: 15 }
    );
    assert_eq!(
        calculate_intersection(Point { x: -10, y: 0 }, inner, &r, LEFT),
        Point { x: 0, y: 5 }
    );
}

#[test]
fn intersection_rounds_down() {
    let r = square(0, 20, 0, 20);
    // exact crossing at x = 10 + 10/3
    assert_eq!(
        calculate_intersection(Point { x: 10, y: 10 }, Point { x: 20, y: -20 }, &r, TOP),
        Point { x: 13, y: 0 }
    );
    // exact crossing at x = 10 - 10/3
    assert_eq!(
        calculate_intersection(Point { x: 10, y: 10 }, Point { x: 0, y: -20 }, &r, TOP),
        Point { x: 6, y: 0 }
    );
}

#[test]
fn clip_rejects_both_beyond_same_side() {
    let r = square(0, 20, 0, 20);
    assert_eq!(clip_line(Point { x: -5, y: 1 }, Point { x: -1, y: 19 }, &r), None);
    assert_eq!(clip_line(Point { x: 25, y: 1 }, Point { x: 21, y: 19 }, &r), None);
    assert_eq!(clip_line(Point { x: 1, y: -3 }, Point { x: 19, y: -9 }, &r), None);
    assert_eq!(clip_line(Point { x: 1, y: 30 }, Point { x: 19, y: 21 }, &r), None);
}

#[test]
fn clip_rejects_any_two_outer_endpoints() {
    // the nested side codes reject a segment whose endpoints lie beyond
    // opposite sides, even though it crosses the rectangle
    let r = square(0, 20, 0, 20);
    assert_eq!(clip_line(Point { x: -5, y: 10 }, Point { x: 25, y: 10 }, &r), None);
    assert_eq!(clip_line(Point { x: 10, y: -5 }, Point { x: 10, y: 25 }, &r), None);
}

#[test]
fn clip_snaps_to_each_crossed_border() {
    let r = square(0, 20, 0, 20);
    let c = Point { x: 10, y: 10 };
    assert_eq!(clip_line(c, Point { x: 10, y: -10 }, &r), Some((c, Point { x: 10, y: 0 })));
    assert_eq!(clip_line(c, Point { x: 10, y: 40 }, &r), Some((c, Point { x: 10, y: 20 })));
    assert_eq!(clip_line(Point { x: 40, y: 10 }, c, &r), Some((Point { x: 20, y: 10 }, c)));
    assert_eq!(clip_line(Point { x: -30, y: 14 }, c, &r), Some((Point { x: 0, y: 11 }, c)));
}

#[test]
fn clip_corner_region_takes_two_steps() {
    let r = square(0, 20, 0, 20);
    let c = Point { x: 2, y: 18 };
    // first onto the top border at x = -6, then onto the left border
    let (a, b) = clip_line(Point { x: -10, y: -10 }, c, &r).unwrap();
    assert_eq!(b, c);
    assert_eq!(a.x, 0);
    assert!(a.y >= 0 && a.y <= 20);
}

#[test]
fn intersection_of_two_outer_points() {
    let r = square(0, 20, 0, 20);
    let (p1, p2) = (Point { x: -10, y: 5 }, Point { x: 30, y: 15 });
    assert_eq!(calculate_intersection(p1, p2, &r, TOP), Point { x: -30, y: 0 });
    // 5 + 300 / 40 rounded down
    assert_eq!(calculate_intersection(p1, p2, &r, RIGHT), Point { x: 20, y: 12 });
}

#[test]
fn intersection_of_axis_aligned_segments_is_exact() {
    let r = square(0, 20, 0, 20);
    let vertical = calculate_intersection(Point { x: 7, y: 30 }, Point { x: 7, y: -30 }, &r, BOTTOM);
    assert_eq!(vertical, Point { x: 7, y: 20 });
    let horizontal = calculate_intersection(Point { x: -5, y: 9 }, Point { x: 40, y: 9 }, &r, LEFT);
    assert_eq!(horizontal, Point { x: 0, y: 9 });
}
