//! Converts a vector glyph outline (move/line/quadratic-curve/close drawing
//! commands) into a renderable triangle mesh: a deduplicated vertex buffer and
//! a flat triangle index list.
//!
//! The pipeline runs strictly downstream: the curve flattener turns quadratic
//! segments into line-approximation points, the outline collector assembles
//! closed polygons, the winding classifier labels each polygon as an outer
//! contour or a hole, the hole merger bridges holes into their containing
//! contours, and the ear-clipping triangulator reduces each simple polygon to
//! triangles whose vertices are interned into stable, deduplicated indices.
//!
//! All coordinates are integers on the font's design-unit grid, bounded by
//! [`geometry::MAX_COORD`] so that every geometric predicate is computed with
//! exact (overflow-free) integer arithmetic.

use vstd::prelude::*;

pub mod geometry;
pub mod interner;
pub mod outliner;
pub mod polygon;
pub mod triangulate;

verus! {

use crate::geometry::Point;

/// An axis-aligned bounding rectangle in font design units.
#[derive(Clone, Copy, Debug, PartialEq, Eq, Structural)]
pub struct Rect {
    pub min: Point,
    pub max: Point,
}

/// A renderable triangle mesh for one glyph: the outline's bounding
/// rectangle, the deduplicated vertices in first-seen order, and a flat index
/// list naming one triangle per consecutive triple.
#[derive(Clone, Debug)]
pub struct GlyphMesh {
    pub rect: Rect,
    pub vertices: Vec<Point>,
    pub indices: Vec<usize>,
}

/// A glyph: its horizontal advance in font design units, and its mesh, absent
/// when the glyph has no visible outline.
#[derive(Clone, Debug)]
pub struct Glyph {
    pub hor_advance: u16,
    pub mesh: Option<GlyphMesh>,
}

/// Why a glyph could not be turned into a mesh.
#[derive(Clone, Copy, Debug, PartialEq, Eq, Structural)]
pub enum TriangulateError {
    /// Ear clipping got stuck on a degenerate, self-intersecting or
    /// zero-area polygon with this many vertices left.
    Triangulation { remaining: usize },
    /// The outline contains a cubic curve, which this pipeline does not
    /// flatten.
    UnsupportedCurve,
}

} // verus!
