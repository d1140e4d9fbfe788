use glyph_mesh::geometry::Point;
use glyph_mesh::interner::Interner;
use glyph_mesh::polygon::triangulate;
use glyph_mesh::TriangulateError;

fn p(x: i32, y: i32) -> Point {
    Point { x, y }
}

/// A simple counter-clockwise square clips into exactly two triangles.
#[test]
fn square_clips_to_two_triangles() {
    let square = vec![p(0, 0), p(10, 0), p(10, 10), p(0, 10)];
    let mut points = Interner::new();
    let mut triangles = Vec::new();
    triangulate(square, &mut points, &mut triangles).unwrap();
    assert_eq!(triangles.len(), 6);
    let vertices = points.into_vertices();
    assert_eq!(vertices.len(), 4);
    for &i in &triangles {
        assert!(i < vertices.len());
    }
}

/// A polygon wound entirely the wrong way has no correctly oriented ear
/// anywhere: the scan fails fast, reporting the remaining vertex count.
#[test]
fn wrong_winding_reports_failure() {
    let reversed = vec![p(0, 0), p(0, 10), p(10, 10), p(10, 0)];
    let mut points = Interner::new();
    let mut triangles = Vec::new();
    let err = triangulate(reversed, &mut points, &mut triangles).unwrap_err();
    assert_eq!(err, TriangulateError::Triangulation { remaining: 4 });
    assert!(triangles.is_empty());
}

/// A self-intersecting figure-eight gets stuck after one ear and reports a
/// failure instead of looping or emitting invalid indices.
#[test]
fn figure_eight_reports_failure() {
    let bowtie = vec![p(10, 0), p(0, 10), p(10, 10), p(0, 0)];
    let mut points = Interner::new();
    let mut triangles = Vec::new();
    let err = triangulate(bowtie, &mut points, &mut triangles).unwrap_err();
    assert!(matches!(err, TriangulateError::Triangulation { remaining } if remaining >= 3));
    let vertices = points.into_vertices();
    assert_eq!(triangles.len() % 3, 0);
    for &i in &triangles {
        assert!(i < vertices.len());
    }
}

/// Fewer than three vertices clip to nothing, successfully.
#[test]
fn degenerate_inputs_clip_to_nothing() {
    for poly in [vec![], vec![p(1, 1)], vec![p(1, 1), p(2, 2)]] {
        let mut points = Interner::new();
        let mut triangles = Vec::new();
        triangulate(poly, &mut points, &mut triangles).unwrap();
        assert!(triangles.is_empty());
        assert!(points.into_vertices().is_empty());
    }
}
