use glyph_mesh::geometry::Point;
use glyph_mesh::interner::Interner;
use glyph_mesh::outliner::quad;
use glyph_mesh::triangulate::{glyph, Triangulator};
use glyph_mesh::{Rect, TriangulateError};

fn p(x: i32, y: i32) -> Point {
    Point { x, y }
}

/// A short quadratic whose control point is collinear with its endpoints
/// collapses to a straight line well inside both spacing thresholds: nothing
/// is emitted.
#[test]
fn flattening_collinear_short_curve_emits_nothing() {
    let mut it = quad(p(0, 0), p(5, 5), p(10, 10));
    assert!(it.next().is_none());
}

/// A long collinear quadratic emits exactly the evenly spaced on-line
/// samples that clear both thresholds: the parameter advances in hundredths,
/// so the sample at step `k` is `(6k, 6k)`, a point is emitted each time it
/// is at least 64 units from the last one, and emission stops 32 units short
/// of the endpoint.
#[test]
fn flattening_collinear_long_curve_exact_samples() {
    let mut it = quad(p(0, 0), p(300, 300), p(600, 600));
    let mut points = Vec::new();
    while let Some(q) = it.next() {
        points.push(q);
    }
    let expected: Vec<Point> = (1..=12).map(|i| p(48 * i, 48 * i)).collect();
    assert_eq!(points, expected);
}

/// A quadratic with a real bend emits intermediate points between the start
/// and the explicitly appended endpoint.
#[test]
fn quad_to_appends_flattened_points_and_endpoint() {
    let mut t = Triangulator::new();
    t.move_to(0, 0);
    t.line_to(1000, 0);
    t.quad_to(1000, 1000, 0, 1000);
    t.close();
    let (vertices, indices) = t.triangulate().unwrap();
    assert!(vertices.len() > 4);
    assert_eq!(indices.len() % 3, 0);
}

/// A single counter-clockwise square path becomes a mesh of its four
/// corners and exactly two triangles.
#[test]
fn single_square_yields_four_vertices_two_triangles() {
    let mut t = Triangulator::new();
    t.move_to(0, 0);
    t.line_to(10, 0);
    t.line_to(10, 10);
    t.line_to(0, 10);
    t.close();
    let (vertices, indices) = t.triangulate().unwrap();
    assert_eq!(vertices.len(), 4);
    assert_eq!(indices.len(), 6);
    for &i in &indices {
        assert!(i < vertices.len());
    }
    // First-seen interning order: the first clipped ear is the triple ending
    // at index 0, so its corners come first.
    assert_eq!(vertices, vec![p(10, 10), p(0, 10), p(0, 0), p(10, 0)]);
    assert_eq!(indices, vec![0, 1, 2, 3, 0, 2]);
}

/// An outer counter-clockwise square with an inner clockwise square hole
/// merges into one ten-vertex polygon (two bridge duplicates included) and
/// triangulates to completion.
#[test]
fn square_with_hole_merges_and_triangulates() {
    let mut t = Triangulator::new();
    // Outer contour: strictly positive signed area.
    t.move_to(0, 0);
    t.line_to(10, 0);
    t.line_to(10, 10);
    t.line_to(0, 10);
    t.close();
    // Inner hole: non-positive signed area.
    t.move_to(3, 3);
    t.line_to(3, 7);
    t.line_to(7, 7);
    t.line_to(7, 3);
    t.close();
    let (vertices, indices) = t.triangulate().unwrap();
    // Ten pre-dedup corners, of which the two bridge duplicates collapse.
    assert_eq!(vertices.len(), 8);
    // Ear clipping a ten-vertex simple polygon yields eight triangles.
    assert_eq!(indices.len(), 24);
    for &i in &indices {
        assert!(i < vertices.len());
    }
    // Dedup invariant: no two vertices share coordinates.
    for i in 0..vertices.len() {
        for j in 0..vertices.len() {
            if i != j {
                assert!(vertices[i] != vertices[j]);
            }
        }
    }
}

/// A hole that no fill contour contains is dropped silently.
#[test]
fn orphan_hole_is_dropped() {
    let mut t = Triangulator::new();
    t.move_to(3, 3);
    t.line_to(3, 7);
    t.line_to(7, 7);
    t.line_to(7, 3);
    t.close();
    let (vertices, indices) = t.triangulate().unwrap();
    assert!(vertices.is_empty());
    assert!(indices.is_empty());
}

/// Reversing the vertex order of the square flips its classification from
/// outer contour to hole, so the mesh comes out empty.
#[test]
fn reversed_square_is_a_hole() {
    let mut t = Triangulator::new();
    t.move_to(0, 0);
    t.line_to(0, 10);
    t.line_to(10, 10);
    t.line_to(10, 0);
    t.close();
    let (vertices, indices) = t.triangulate().unwrap();
    assert!(vertices.is_empty());
    assert!(indices.is_empty());
}

/// Closing without any accumulated path contributes nothing.
#[test]
fn close_with_empty_path_is_harmless() {
    let mut t = Triangulator::new();
    t.move_to(5, 5);
    t.close();
    t.close();
    let (vertices, indices) = t.triangulate().unwrap();
    assert!(vertices.is_empty());
    assert!(indices.is_empty());
}

/// A glyph with no outline keeps its advance and has no mesh.
#[test]
fn glyph_without_outline_has_no_mesh() {
    let g = glyph(None, 640).unwrap();
    assert_eq!(g.hor_advance, 640);
    assert!(g.mesh.is_none());
}

/// A glyph with an outline carries the outline's bounding rectangle through
/// to the mesh.
#[test]
fn glyph_with_outline_carries_rect() {
    let mut t = Triangulator::new();
    t.move_to(0, 0);
    t.line_to(10, 0);
    t.line_to(10, 10);
    t.line_to(0, 10);
    t.close();
    let rect = Rect { min: p(0, 0), max: p(10, 10) };
    let g = glyph(Some((rect, t)), 12).unwrap();
    assert_eq!(g.hor_advance, 12);
    let mesh = g.mesh.unwrap();
    assert_eq!(mesh.rect, rect);
    assert_eq!(mesh.vertices.len(), 4);
    assert_eq!(mesh.indices.len(), 6);
}

/// An outline with a cubic curve is refused loudly.
#[test]
fn cubic_curve_is_refused() {
    let mut t = Triangulator::new();
    t.move_to(0, 0);
    t.line_to(0, 10);
    t.curve_to();
    t.line_to(10, 0);
    t.close();
    assert_eq!(t.triangulate().unwrap_err(), TriangulateError::UnsupportedCurve);
}

/// The interner assigns dense first-seen indices and collapses duplicates to
/// one shared index.
#[test]
fn interner_deduplicates_points() {
    let mut interner = Interner::new();
    assert_eq!(interner.intern(p(1, 2)), 0);
    assert_eq!(interner.intern(p(3, 4)), 1);
    assert_eq!(interner.intern(p(1, 2)), 0);
    assert_eq!(interner.intern(p(-1, -2)), 2);
    assert_eq!(interner.intern(p(3, 4)), 1);
    let vertices = interner.into_vertices();
    assert_eq!(vertices, vec![p(1, 2), p(3, 4), p(-1, -2)]);
}

/// Negated coordinates pack to different keys: sign matters to identity.
#[test]
fn interner_distinguishes_signs() {
    let mut interner = Interner::new();
    let a = interner.intern(p(5, -5));
    let b = interner.intern(p(-5, 5));
    assert!(a != b);
}
