//! Grid state: the accumulated list of placed rectangles (in placement
//! order) and the ordered list of free spots.  Insertion applies a placement,
//! re-shrinks every remaining spot, and opens the two candidate spots at the
//! exposed corners of the new rectangle.
use vstd::prelude::*;
use crate::geom::Pos;
use crate::geom::Rect;
use crate::geom::Shape;
use crate::geom::Spot;
use crate::geom::rect_wf;
use crate::geom::region_overlaps;
use crate::geom::spot_contains_pos;
use crate::geom::spot_wf;
use crate::shrink::lemma_shrink_all_overlap;
use crate::shrink::lemma_shrink_overlap;
use crate::shrink::shrink;
use crate::shrink::shrink_all;
use crate::shrink::spec_shrink;
use crate::shrink::spec_shrink_all;

verus! {

/// The placed rectangles and the current free spots.  Branches of the search
/// never share a grid value: producing a new state from an old one plus a
/// placement yields a distinct value.
#[derive(Debug, PartialEq, Eq)]
pub struct Grid {
    pub rects: Vec<Rect>,
    pub spots: Vec<Spot>,
}

/// The mathematical model of a `Grid`.
#[verifier::ext_equal]
pub struct GridModel {
    pub rects: Seq<Rect>,
    pub spots: Seq<Spot>,
}

impl View for Grid {
    type V = GridModel;

    open spec fn view(&self) -> GridModel {
        GridModel { rects: self.rects@, spots: self.spots@ }
    }
}

/// Every rectangle and every spot of the grid lies on the board with
/// positive dimensions.
pub open spec fn grid_wf(g: GridModel) -> bool {
    &&& forall|k: int| 0 <= k < g.rects.len() ==> rect_wf(#[trigger] g.rects[k])
    &&& forall|k: int| 0 <= k < g.spots.len() ==> spot_wf(#[trigger] g.spots[k])
}

/// The spot list after placing `r`: spots whose origin `r` consumes are
/// dropped, every other spot is re-shrunk against `r`, and those the shrink
/// invalidates are discarded.  Order is preserved.
pub open spec fn spec_shrink_spots(r: Rect, spots: Seq<Spot>) -> Seq<Spot>
    decreases spots.len(),
{
    if spots.len() == 0 {
        Seq::empty()
    } else {
        let prev = spec_shrink_spots(r, spots.drop_last());
        let s = spots.last();
        if s.pos == r.pos {
            prev
        } else {
            match spec_shrink(r, s) {
                Option::Some(s2) => prev.push(s2),
                Option::None => prev,
            }
        }
    }
}

/// The grid after offering the candidate spot that reaches from `p` to the
/// board's far corner: if `p` lies strictly inside the board and the
/// candidate survives shrinking against every placed rectangle, it is
/// appended to the spot list; otherwise the grid is unchanged.
pub open spec fn spec_add_spot(g: GridModel, p: Pos) -> GridModel {
    if p.x < 32 && p.y < 32 {
        let cand = Spot { pos: p, shape: Shape { w: (32 - p.x) as u16, h: (32 - p.y) as u16 } };
        match spec_shrink_all(g.rects, cand) {
            Option::Some(s2) => GridModel { rects: g.rects, spots: g.spots.push(s2) },
            Option::None => g,
        }
    } else {
        g
    }
}

/// The grid after committing `r`: the spot list is rebuilt by
/// `spec_shrink_spots`, `r` is appended to the placement list, and the two
/// exposed corners of `r` are offered as new candidate spots.
pub open spec fn spec_insert(r: Rect, g: GridModel) -> GridModel {
    let g1 = GridModel { rects: g.rects.push(r), spots: spec_shrink_spots(r, g.spots) };
    let g2 = spec_add_spot(g1, Pos { x: (r.pos.x + r.shape.w) as u16, y: r.pos.y });
    spec_add_spot(g2, Pos { x: r.pos.x, y: (r.pos.y + r.shape.h) as u16 })
}

pub fn add_spot(g: Grid, p: Pos) -> (res: Grid)
    requires
        grid_wf(g@),
    ensures
        res@ == spec_add_spot(g@, p),
        grid_wf(res@),
{
    if p.x < 32 && p.y < 32 {
        let cand = Spot { pos: p, shape: Shape { w: 32 - p.x, h: 32 - p.y } };
        match shrink_all(&g.rects, cand) {
            Some(s2) => {
                let mut g2 = g;
                g2.spots.push(s2);
                g2
            },
            None => g,
        }
    } else {
        g
    }
}

fn copy_rects(v: &Vec<Rect>) -> (res: Vec<Rect>)
    ensures
        res@ == v@,
{
    let mut res: Vec<Rect> = Vec::new();
    let mut k: usize = 0;
    while k < v.len()
        invariant
            0 <= k <= v@.len(),
            res@ == v@.take(k as int),
        decreases v@.len() - k,
    {
        res.push(v[k]);
        assert(v@.take(k as int).push(v@[k as int]) =~= v@.take(k as int + 1));
        k = k + 1;
    }
    assert(v@.take(k as int) =~= v@);
    res
}

pub fn insert(r: &Rect, g: &Grid) -> (res: Grid)
    requires
        rect_wf(*r),
        grid_wf(g@),
    ensures
        res@ == spec_insert(*r, g@),
        grid_wf(res@),
{
    let mut spots2: Vec<Spot> = Vec::new();
    let mut k: usize = 0;
    while k < g.spots.len()
        invariant
            0 <= k <= g.spots@.len(),
            spots2@ == spec_shrink_spots(*r, g.spots@.take(k as int)),
            forall|t: int| 0 <= t < spots2@.len() ==> spot_wf(#[trigger] spots2@[t]),
            rect_wf(*r),
            grid_wf(g@),
        decreases g.spots@.len() - k,
    {
        let s = g.spots[k];
        assert(spot_wf(g@.spots[k as int]));
        assert(g.spots@.take(k as int + 1).drop_last() =~= g.spots@.take(k as int));
        assert(g.spots@.take(k as int + 1).last() == s);
        if !(s.pos == r.pos) {
            match shrink(r, s) {
                Some(s2) => {
                    spots2.push(s2);
                },
                None => {},
            }
        }
        k = k + 1;
    }
    assert(g.spots@.take(k as int) =~= g.spots@);
    let mut rects2 = copy_rects(&g.rects);
    rects2.push(*r);
    let g2 = Grid { rects: rects2, spots: spots2 };
    proof {
        assert forall|t: int| 0 <= t < g2@.rects.len() implies rect_wf(#[trigger] g2@.rects[t]) by {
            if t < g@.rects.len() {
                assert(g2@.rects[t] == g@.rects[t]);
            }
        }
    }
    let g3 = add_spot(g2, Pos { x: r.pos.x + r.shape.w, y: r.pos.y });
    let g4 = add_spot(g3, Pos { x: r.pos.x, y: r.pos.y + r.shape.h });
    g4
}

proof fn lemma_shrink_spots_clear(r: Rect, spots: Seq<Spot>)
    requires
        rect_wf(r),
    ensures
        forall|k: int|
            0 <= k < spec_shrink_spots(r, spots).len() ==> (region_overlaps(
                #[trigger] spec_shrink_spots(r, spots)[k],
                r,
            ) <==> spot_contains_pos(spec_shrink_spots(r, spots)[k], r.pos)),
    decreases spots.len(),
{
    if spots.len() > 0 {
        lemma_shrink_spots_clear(r, spots.drop_last());
        lemma_shrink_overlap(r, spots.last());
        let prev = spec_shrink_spots(r, spots.drop_last());
        let cur = spec_shrink_spots(r, spots);
        assert forall|k: int| 0 <= k < cur.len() implies (region_overlaps(#[trigger] cur[k], r)
            <==> spot_contains_pos(cur[k], r.pos)) by {
            if k < prev.len() {
                assert(cur[k] == prev[k]);
            }
        }
    }
}

/// The accepted form of the non-overlap property at each insertion: every
/// spot of the new grid overlaps the rectangle just placed exactly when it
/// contains that rectangle's origin.  So every spot that does not reach back
/// over the placement origin — in particular every spot the shrink rule
/// actually clipped — is interior-disjoint from the newly placed rectangle.
pub proof fn lemma_insert_spots_clear(r: Rect, g: GridModel)
    requires
        rect_wf(r),
    ensures
        forall|k: int|
            0 <= k < spec_insert(r, g).spots.len() ==> (region_overlaps(
                #[trigger] spec_insert(r, g).spots[k],
                r,
            ) <==> spot_contains_pos(spec_insert(r, g).spots[k], r.pos)),
{
    lemma_shrink_spots_clear(r, g.spots);
    let g1 = GridModel { rects: g.rects.push(r), spots: spec_shrink_spots(r, g.spots) };
    let p1 = Pos { x: (r.pos.x + r.shape.w) as u16, y: r.pos.y };
    let g2 = spec_add_spot(g1, p1);
    let p2 = Pos { x: r.pos.x, y: (r.pos.y + r.shape.h) as u16 };
    let g3 = spec_add_spot(g2, p2);
    assert(g1.rects.last() == r);
    lemma_add_spot_clear(g1, p1, r);
    assert(g2.rects == g1.rects);
    lemma_add_spot_clear(g2, p2, r);
    assert(g3 == spec_insert(r, g));
}

proof fn lemma_add_spot_clear(g: GridModel, p: Pos, r: Rect)
    requires
        rect_wf(r),
        g.rects.len() > 0,
        g.rects.last() == r,
        forall|k: int|
            0 <= k < g.spots.len() ==> (region_overlaps(#[trigger] g.spots[k], r)
                <==> spot_contains_pos(g.spots[k], r.pos)),
    ensures
        spec_add_spot(g, p).rects == g.rects,
        forall|k: int|
            0 <= k < spec_add_spot(g, p).spots.len() ==> (region_overlaps(
                #[trigger] spec_add_spot(g, p).spots[k],
                r,
            ) <==> spot_contains_pos(spec_add_spot(g, p).spots[k], r.pos)),
{
    if p.x < 32 && p.y < 32 {
        let cand = Spot { pos: p, shape: Shape { w: (32 - p.x) as u16, h: (32 - p.y) as u16 } };
        lemma_shrink_all_overlap(g.rects, cand);
        match spec_shrink_all(g.rects, cand) {
            Option::Some(s2) => {
                let cur = spec_add_spot(g, p).spots;
                assert forall|k: int| 0 <= k < cur.len() implies (region_overlaps(
                    #[trigger] cur[k],
                    r,
                ) <==> spot_contains_pos(cur[k], r.pos)) by {
                    if k < g.spots.len() {
                        assert(cur[k] == g.spots[k]);
                    } else {
                        assert(cur[k] == s2);
                    }
                }
            },
            Option::None => {
            },
        }
    }
}

} // verus!
