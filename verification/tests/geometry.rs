use glyph_mesh::geometry::{
    is_cw, line_intersects_polygon, lines_intersect, point_in_polygon, point_in_triangle,
    polygon_inside, Point,
};

fn p(x: i32, y: i32) -> Point {
    Point { x, y }
}

#[test]
fn is_cw_clockwise_triple() {
    // Cross product of (b - a) and (c - a) is negative: clockwise.
    assert!(is_cw(p(0, 0), p(0, 10), p(10, 10)));
}

#[test]
fn is_cw_counter_clockwise_triple() {
    assert!(!is_cw(p(0, 0), p(10, 0), p(10, 10)));
}

#[test]
fn is_cw_collinear_counts_as_clockwise() {
    assert!(is_cw(p(0, 0), p(5, 5), p(10, 10)));
}

#[test]
fn lines_intersect_proper_crossing() {
    assert!(lines_intersect(p(0, 0), p(10, 10), p(0, 10), p(10, 0)));
}

#[test]
fn lines_intersect_parallel() {
    assert!(!lines_intersect(p(0, 0), p(10, 0), p(0, 5), p(10, 5)));
}

#[test]
fn lines_intersect_shared_endpoint_is_not_proper() {
    assert!(!lines_intersect(p(0, 0), p(10, 0), p(0, 0), p(0, 10)));
}

#[test]
fn point_in_polygon_square() {
    let square = vec![p(0, 0), p(10, 0), p(10, 10), p(0, 10)];
    assert!(point_in_polygon(p(5, 5), &square));
    assert!(!point_in_polygon(p(15, 5), &square));
    assert!(!point_in_polygon(p(-1, 5), &square));
}

#[test]
fn polygon_inside_nested_squares() {
    let outer = vec![p(0, 0), p(10, 0), p(10, 10), p(0, 10)];
    let inner = vec![p(3, 3), p(7, 3), p(7, 7), p(3, 7)];
    assert!(polygon_inside(&inner, &outer));
    assert!(!polygon_inside(&outer, &inner));
}

#[test]
fn line_intersects_polygon_crossing_edge() {
    let square = vec![p(0, 0), p(10, 0), p(10, 10), p(0, 10)];
    assert!(line_intersects_polygon(p(5, -5), p(5, 5), &square));
    assert!(!line_intersects_polygon(p(2, 2), p(8, 8), &square));
}

#[test]
fn point_in_triangle_interior_and_exterior() {
    let (a, b, c) = (p(0, 0), p(0, 10), p(10, 10));
    assert!(point_in_triangle(p(2, 5), a, b, c));
    assert!(!point_in_triangle(p(8, 2), a, b, c));
}

#[test]
fn point_in_triangle_vertex_coincident_excluded() {
    let (a, b, c) = (p(0, 0), p(0, 10), p(10, 10));
    assert!(!point_in_triangle(p(0, 0), a, b, c));
    assert!(!point_in_triangle(p(0, 10), a, b, c));
    assert!(!point_in_triangle(p(10, 10), a, b, c));
}

#[test]
fn point_in_triangle_degenerate_triangle_holds_nothing() {
    assert!(!point_in_triangle(p(1, 1), p(0, 0), p(5, 5), p(10, 10)));
}
