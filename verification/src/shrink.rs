//! The spot-shrinking engine: how an existing free spot is reduced, kept or
//! invalidated when a rectangle is placed.  The rule follows a guillotine-cut
//! discipline and handles only the two leading-edge overlap configurations;
//! every other placement leaves the spot unchanged.  This approximation of
//! full rectangle subtraction is deliberate and part of the design.
use vstd::prelude::*;
use crate::geom::Rect;
use crate::geom::Shape;
use crate::geom::Spot;
use crate::geom::rect_wf;
use crate::geom::region_overlaps;
use crate::geom::spot_contains_pos;
use crate::geom::spot_wf;

verus! {

/// The effect of placing `r` on the candidate spot `s`:
/// - if `r` crosses the spot's left edge vertically, the spot is clipped
///   above `r`, or invalidated when `r` does not start below the spot's top;
/// - else, if `r` crosses the spot's top edge horizontally, the spot is
///   clipped left of `r`, or invalidated when `r` does not start right of the
///   spot's left edge;
/// - otherwise the spot is returned unchanged.
/// The vertical-edge check deliberately wins when both could apply.
pub open spec fn spec_shrink(r: Rect, s: Spot) -> Option<Spot> {
    let rx = r.pos.x as int;
    let ry = r.pos.y as int;
    let rw = r.shape.w as int;
    let rh = r.shape.h as int;
    let sx = s.pos.x as int;
    let sy = s.pos.y as int;
    let sw = s.shape.w as int;
    let sh = s.shape.h as int;
    if rx < sx && rx + rw > sx && ry < sy + sh {
        if ry > sy {
            Option::Some(Spot { pos: s.pos, shape: Shape { w: s.shape.w, h: (ry - sy) as u16 } })
        } else {
            Option::None
        }
    } else if ry < sy && ry + rh > sy && rx < sx + sw {
        if rx > sx {
            Option::Some(Spot { pos: s.pos, shape: Shape { w: (rx - sx) as u16, h: s.shape.h } })
        } else {
            Option::None
        }
    } else {
        Option::Some(s)
    }
}

pub fn shrink(r: &Rect, s: Spot) -> (res: Option<Spot>)
    requires
        rect_wf(*r),
        spot_wf(s),
    ensures
        res == spec_shrink(*r, s),
        res matches Some(s2) ==> spot_wf(s2),
{
    let rx = r.pos.x;
    let ry = r.pos.y;
    let rw = r.shape.w;
    let rh = r.shape.h;
    let sx = s.pos.x;
    let sy = s.pos.y;
    let sw = s.shape.w;
    let sh = s.shape.h;
    if rx < sx && rx + rw > sx && ry < sy + sh {
        if ry > sy {
            Some(Spot { pos: s.pos, shape: Shape { w: sw, h: ry - sy } })
        } else {
            None
        }
    } else if ry < sy && ry + rh > sy && rx < sx + sw {
        if rx > sx {
            Some(Spot { pos: s.pos, shape: Shape { w: rx - sx, h: sh } })
        } else {
            None
        }
    } else {
        Some(s)
    }
}

/// Shrinking never yields a degenerate spot: whenever a spot survives, both
/// of its dimensions stay positive (and it stays on the board).  A zero-area
/// result is always represented as absence.
pub proof fn lemma_shrink_positive(r: Rect, s: Spot)
    requires
        rect_wf(r),
        spot_wf(s),
    ensures
        spec_shrink(r, s) matches Some(s2) ==> 1 <= s2.shape.w && 1 <= s2.shape.h && spot_wf(s2),
{
}

/// How a surviving spot relates to the rectangle just placed: it overlaps the
/// rectangle exactly when the rectangle's origin lies inside the surviving
/// spot.  In particular, a spot that was actually clipped, or whose region
/// does not contain the placement origin, is interior-disjoint from the
/// placed rectangle; the remaining case is the accepted limitation of the
/// guillotine approximation.
pub proof fn lemma_shrink_overlap(r: Rect, s: Spot)
    requires
        rect_wf(r),
    ensures
        spec_shrink(r, s) matches Some(s2) ==> (region_overlaps(s2, r) <==> spot_contains_pos(
            s2,
            r.pos,
        )),
{
}

/// Folds `spec_shrink` over every placed rectangle in placement order,
/// short-circuiting to absence the moment any step invalidates the spot.
pub open spec fn spec_shrink_all(rs: Seq<Rect>, s: Spot) -> Option<Spot>
    decreases rs.len(),
{
    if rs.len() == 0 {
        Option::Some(s)
    } else {
        match spec_shrink(rs[0], s) {
            Option::Some(s2) => spec_shrink_all(rs.drop_first(), s2),
            Option::None => Option::None,
        }
    }
}

pub fn shrink_all(rs: &Vec<Rect>, s: Spot) -> (res: Option<Spot>)
    requires
        forall|k: int| 0 <= k < rs@.len() ==> rect_wf(#[trigger] rs@[k]),
        spot_wf(s),
    ensures
        res == spec_shrink_all(rs@, s),
        res matches Some(s2) ==> spot_wf(s2),
{
    let mut cur = s;
    let mut k: usize = 0;
    assert(rs@.skip(0) =~= rs@);
    while k < rs.len()
        invariant
            0 <= k <= rs@.len(),
            spot_wf(cur),
            spec_shrink_all(rs@, s) == spec_shrink_all(rs@.skip(k as int), cur),
            forall|t: int| 0 <= t < rs@.len() ==> rect_wf(#[trigger] rs@[t]),
        decreases rs@.len() - k,
    {
        assert(rs@.skip(k as int)[0] == rs@[k as int]);
        assert(rs@.skip(k as int).drop_first() =~= rs@.skip(k as int + 1));
        match shrink(&rs[k], cur) {
            Some(s2) => {
                cur = s2;
            },
            None => {
                return None;
            },
        }
        k = k + 1;
    }
    assert(rs@.skip(k as int) =~= Seq::<Rect>::empty());
    Some(cur)
}

/// When a spot survives shrinking against a whole placement list, its
/// relation to the last rectangle of that list is exactly the one
/// `lemma_shrink_overlap` gives: overlap holds precisely when the surviving
/// spot contains that rectangle's origin.
pub proof fn lemma_shrink_all_overlap(rs: Seq<Rect>, s: Spot)
    requires
        rs.len() > 0,
        rect_wf(rs.last()),
    ensures
        spec_shrink_all(rs, s) matches Some(f) ==> (region_overlaps(f, rs.last())
            <==> spot_contains_pos(f, rs.last().pos)),
    decreases rs.len(),
{
    match spec_shrink(rs[0], s) {
        Option::Some(s2) => {
            if rs.len() == 1 {
                assert(rs.drop_first().len() == 0);
                assert(spec_shrink_all(rs.drop_first(), s2) == Option::Some(s2));
                assert(spec_shrink_all(rs, s) == Option::Some(s2));
                lemma_shrink_overlap(rs[0], s);
                assert(rs[0] == rs.last());
            } else {
                assert(rs.drop_first().last() == rs.last());
                lemma_shrink_all_overlap(rs.drop_first(), s2);
            }
        },
        Option::None => {
        },
    }
}

} // verus!
