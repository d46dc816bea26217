//! Geometry primitives: positions, shapes, rectangles and free spots on the
//! 32x32 board, together with the well-formedness predicates and the
//! containment and overlap relations the rest of the solver reasons about.
use vstd::prelude::*;

verus! {

/// Top-left corner of a region, with both coordinates in `[0, 32]`.
#[derive(Clone, Copy, Debug, PartialEq, Eq, Structural)]
pub struct Pos {
    pub x: u16,
    pub y: u16,
}

/// Dimensions of a region, each in `[1, 32]` when well formed.
#[derive(Clone, Copy, Debug, PartialEq, Eq, Structural)]
pub struct Shape {
    pub w: u16,
    pub h: u16,
}

/// A piece already committed to the grid.
#[derive(Clone, Copy, Debug, PartialEq, Eq, Structural)]
pub struct Rect {
    pub pos: Pos,
    pub shape: Shape,
}

/// A maximal candidate free rectangular region of the board.
#[derive(Clone, Copy, Debug, PartialEq, Eq, Structural)]
pub struct Spot {
    pub pos: Pos,
    pub shape: Shape,
}

/// A shape is well formed when both dimensions are positive and fit the board.
pub open spec fn shape_wf(s: Shape) -> bool {
    1 <= s.w <= 32 && 1 <= s.h <= 32
}

/// A spot is well formed when its shape is and it lies entirely on the board.
pub open spec fn spot_wf(s: Spot) -> bool {
    shape_wf(s.shape) && s.pos.x + s.shape.w <= 32 && s.pos.y + s.shape.h <= 32
}

/// A placed rectangle is well formed when its shape is and it lies entirely
/// on the board.
pub open spec fn rect_wf(r: Rect) -> bool {
    shape_wf(r.shape) && r.pos.x + r.shape.w <= 32 && r.pos.y + r.shape.h <= 32
}

/// `l` fits in `r` when both of its dimensions do simultaneously; no rotation
/// is implied, since both orientations appear in shape enumeration.
pub open spec fn spec_fits_in(l: Shape, r: Shape) -> bool {
    l.w <= r.w && l.h <= r.h
}

pub fn fits_in(l: Shape, r: Shape) -> (res: bool)
    ensures
        res == spec_fits_in(l, r),
{
    l.w <= r.w && l.h <= r.h
}

/// A coordinate or dimension sits on the board boundary.
pub open spec fn spec_is_edge(v: int) -> bool {
    v == 0 || v == 32
}

#[allow(non_snake_case)]
pub fn isEdge(c: u16) -> (res: bool)
    ensures
        res == spec_is_edge(c as int),
{
    c == 0 || c == 32
}

/// A candidate placement is corner-touching when one of its dimensions or one
/// of its far-edge coordinates sits on the board boundary.  The search uses
/// this as a pruning filter: such placements are skipped outright.
pub open spec fn spec_is_corner(s: Spot) -> bool {
    spec_is_edge(s.shape.w as int) || spec_is_edge(s.shape.h as int) || spec_is_edge(
        s.pos.x + s.shape.w,
    ) || spec_is_edge(s.pos.y + s.shape.h)
}

#[allow(non_snake_case)]
pub fn isCorner(s: Spot) -> (res: bool)
    requires
        s.pos.x + s.shape.w <= u16::MAX,
        s.pos.y + s.shape.h <= u16::MAX,
    ensures
        res == spec_is_corner(s),
{
    isEdge(s.shape.w) || isEdge(s.shape.h) || isEdge(s.pos.x + s.shape.w) || isEdge(
        s.pos.y + s.shape.h,
    )
}

/// The open interiors of a spot and a rectangle intersect.
pub open spec fn region_overlaps(s: Spot, r: Rect) -> bool {
    r.pos.x < s.pos.x + s.shape.w && r.pos.x + r.shape.w > s.pos.x && r.pos.y < s.pos.y
        + s.shape.h && r.pos.y + r.shape.h > s.pos.y
}

/// A position lies inside the region covered by a spot.
pub open spec fn spot_contains_pos(s: Spot, p: Pos) -> bool {
    s.pos.x <= p.x < s.pos.x + s.shape.w && s.pos.y <= p.y < s.pos.y + s.shape.h
}

} // verus!
