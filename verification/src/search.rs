//! The backtracking search.  It always fills the earliest outstanding free
//! spot, trying every remaining size's every shape in enumeration order,
//! skipping shapes that do not fit, corner-touching placements, and — at the
//! root level only — shapes that are taller than wide (diagonal-reflection
//! symmetry breaking).  The first solution found wins; failed branches
//! backtrack with no memoization.  The functions below are specified against
//! an exact recursive model of this traversal, so the grid returned (or the
//! absence of one) is pinned completely by the input sizes.
use vstd::prelude::*;
use vstd::multiset::Multiset;
use crate::geom::Pos;
use crate::geom::Rect;
use crate::geom::Shape;
use crate::geom::Spot;
use crate::geom::fits_in;
use crate::geom::isCorner;
use crate::geom::rect_wf;
use crate::geom::spec_fits_in;
use crate::geom::spec_is_corner;
use crate::geom::spot_wf;
use crate::grid::Grid;
use crate::grid::GridModel;
use crate::grid::grid_wf;
use crate::grid::insert;
use crate::grid::spec_insert;
use crate::shapes::ShapedSize;
use crate::shapes::ShapedSizeModel;
use crate::shapes::lemma_gen_shapes_valid;
use crate::shapes::shape_size;
use crate::shapes::spec_gen_shapes;

verus! {

/// The model of an optional grid result.
pub open spec fn opt_grid_model(o: Option<Grid>) -> Option<GridModel> {
    match o {
        Option::Some(g) => Option::Some(g@),
        Option::None => Option::None,
    }
}

/// The remaining sizes in order, each with its precomputed shape list:
/// entry `t` of the model is the cache entry that `remaining[t]` picks.
pub open spec fn sizes_model(shaped: Seq<ShapedSize>, remaining: Seq<usize>) -> Seq<
    ShapedSizeModel,
> {
    Seq::new(remaining.len(), |t: int| shaped[remaining[t] as int]@)
}

/// Every cached shape has a width in `[1, 32]` and a height at most 32.
pub open spec fn shapes_wf(shaped: Seq<ShapedSize>) -> bool {
    forall|k: int, t: int|
        0 <= k < shaped.len() && 0 <= t < shaped[k]@.shapes.len() ==> 1 <= (
        #[trigger] shaped[k]@.shapes[t]).w <= 32 && shaped[k]@.shapes[t].h <= 32
}

/// The result of the whole search from grid `g` with the given remaining
/// sizes: absence when no free spot is left, else the first success among
/// the candidate placements at the first free spot.
pub open spec fn spec_solve_rec(sizes: Seq<ShapedSizeModel>, g: GridModel, root: bool) -> Option<
    GridModel,
>
    decreases sizes.len(), sizes.len() + 2, 0int,
{
    if g.spots.len() == 0 {
        Option::None
    } else {
        spec_try_sizes(sizes, 0, g, root)
    }
}

/// The first success among remaining sizes `i..`, each tried with its whole
/// shape list at the first free spot of `g`.
pub open spec fn spec_try_sizes(sizes: Seq<ShapedSizeModel>, i: int, g: GridModel, root: bool) -> Option<
    GridModel,
>
    decreases sizes.len(), sizes.len() - i, sizes[i].shapes.len() + 1,
{
    if !(0 <= i < sizes.len()) || g.spots.len() == 0 {
        Option::None
    } else {
        match spec_try_shapes(sizes, i, 0, g, root) {
            Option::Some(sol) => Option::Some(sol),
            Option::None => spec_try_sizes(sizes, i + 1, g, root),
        }
    }
}

/// The first success among the shapes `j..` of remaining size `i`, placed at
/// the first free spot of `g`.  A shape is tried only when it passes the
/// root-level symmetry break, fits the spot, and is not corner-touching;
/// trying it commits the rectangle, removes the size (swap-remove order),
/// and either succeeds at once when no size is left or recurses.
pub open spec fn spec_try_shapes(
    sizes: Seq<ShapedSizeModel>,
    i: int,
    j: int,
    g: GridModel,
    root: bool,
) -> Option<GridModel>
    decreases sizes.len(), sizes.len() - i, sizes[i].shapes.len() - j,
{
    if !(0 <= i < sizes.len()) || j < 0 || g.spots.len() == 0 {
        Option::None
    } else if j >= sizes[i].shapes.len() {
        Option::None
    } else {
        let spot = g.spots[0];
        let sh = sizes[i].shapes[j];
        let allowed = (!root || sh.w >= sh.h) && spec_fits_in(sh, spot.shape) && !spec_is_corner(
            Spot { pos: spot.pos, shape: sh },
        );
        if allowed {
            let g3 = spec_insert(Rect { pos: spot.pos, shape: sh }, g);
            let sizes2 = sizes.update(i, sizes.last()).drop_last();
            if sizes2.len() == 0 {
                Option::Some(g3)
            } else {
                match spec_solve_rec(sizes2, g3, false) {
                    Option::Some(sol) => Option::Some(sol),
                    Option::None => spec_try_shapes(sizes, i, j + 1, g, root),
                }
            }
        } else {
            spec_try_shapes(sizes, i, j + 1, g, root)
        }
    }
}

proof fn lemma_model_swap_remove(shaped: Seq<ShapedSize>, remaining: Seq<usize>, i: int)
    requires
        0 <= i < remaining.len(),
    ensures
        sizes_model(shaped, remaining.update(i, remaining.last()).drop_last()) == sizes_model(
            shaped,
            remaining,
        ).update(i, sizes_model(shaped, remaining).last()).drop_last(),
{
    let a = sizes_model(shaped, remaining.update(i, remaining.last()).drop_last());
    let m = sizes_model(shaped, remaining);
    let b = m.update(i, m.last()).drop_last();
    assert forall|t: int| 0 <= t < a.len() implies a[t] == b[t] by {
        if t == i {
            assert(remaining.update(i, remaining.last()).drop_last()[t] == remaining.last());
        } else {
            assert(remaining.update(i, remaining.last()).drop_last()[t] == remaining[t]);
        }
    }
    assert(a =~= b);
}

fn copy_indices(v: &Vec<usize>) -> (res: Vec<usize>)
    ensures
        res@ == v@,
{
    let mut res: Vec<usize> = Vec::new();
    let mut k: usize = 0;
    while k < v.len()
        invariant
            0 <= k <= v@.len(),
            res@ == v@.take(k as int),
        decreases v@.len() - k,
    {
        res.push(v[k]);
        assert(v@.take(k as int).push(v@[k as int]) =~= v@.take(k as int + 1));
        k = k + 1;
    }
    assert(v@.take(k as int) =~= v@);
    res
}

/// One level of the search: `shaped` is the read-only shape cache, and
/// `remaining` picks the cache entries of the sizes still to be placed.
/// `depth` starts at 1; only whether the level is the root one influences
/// the traversal, through the symmetry break.
#[verifier::loop_isolation(false)]
pub fn solve_rec(shaped: &Vec<ShapedSize>, remaining: &Vec<usize>, g: &Grid, depth: u16) -> (res:
    Option<Grid>)
    requires
        depth >= 1,
        shapes_wf(shaped@),
        forall|t: int| 0 <= t < remaining@.len() ==> #[trigger] remaining@[t] < shaped@.len(),
        grid_wf(g@),
    ensures
        opt_grid_model(res) == spec_solve_rec(sizes_model(shaped@, remaining@), g@, depth == 1),
        res matches Some(gs) ==> grid_wf(gs@),
    decreases remaining@.len(),
{
    let ghost m = sizes_model(shaped@, remaining@);
    let ghost root = depth == 1;
    if g.spots.len() == 0 {
        return None;
    }
    let spot = g.spots[0];
    assert(spot == g@.spots[0] && spot_wf(g@.spots[0]));
    let mut i: usize = 0;
    while i < remaining.len()
        invariant
            0 <= i <= remaining@.len(),
            spec_try_sizes(m, 0, g@, root) == spec_try_sizes(m, i as int, g@, root),
        decreases remaining@.len() - i,
    {
        let idx = remaining[i];
        let shapes: &Vec<Shape> = &shaped[idx].shapes;
        assert(m[i as int] == shaped@[idx as int]@);
        let mut j: usize = 0;
        while j < shapes.len()
            invariant
                0 <= j <= shapes@.len(),
                i < remaining@.len(),
                idx == remaining@[i as int],
                shapes@ == m[i as int].shapes,
                spec_try_shapes(m, i as int, 0, g@, root) == spec_try_shapes(
                    m,
                    i as int,
                    j as int,
                    g@,
                    root,
                ),
            decreases shapes@.len() - j,
        {
            let sh = shapes[j];
            assert(1 <= sh.w <= 32 && sh.h <= 32);
            if (depth > 1 || sh.w >= sh.h) && fits_in(sh, spot.shape) && !isCorner(
                Spot { pos: spot.pos, shape: sh },
            ) {
                let rect = Rect { pos: spot.pos, shape: sh };
                assert(rect_wf(rect));
                let g3 = insert(&rect, g);
                let mut remaining2 = copy_indices(remaining);
                remaining2.swap_remove(i);
                proof {
                    lemma_model_swap_remove(shaped@, remaining@, i as int);
                }
                let ghost m2 = sizes_model(shaped@, remaining2@);
                assert(m2 == m.update(i as int, m.last()).drop_last());
                if remaining2.len() == 0 {
                    assert(spec_try_shapes(m, i as int, j as int, g@, root) == Option::Some(g3@));
                    assert(spec_try_sizes(m, i as int, g@, root) == Option::Some(g3@));
                    assert(spec_solve_rec(m, g@, root) == Option::Some(g3@));
                    return Some(g3);
                } else {
                    assert forall|t: int|
                        0 <= t < remaining2@.len() implies #[trigger] remaining2@[t]
                        < shaped@.len() by {
                        assert(remaining2@[t] == remaining@.update(
                            i as int,
                            remaining@.last(),
                        ).drop_last()[t]);
                    }
                    // only whether the level is past the root matters below;
                    // the counter is held below its ceiling to keep that fact
                    let next_depth: u16 = if depth < u16::MAX {
                        depth + 1
                    } else {
                        depth
                    };
                    let res2 = solve_rec(shaped, &remaining2, &g3, next_depth);
                    match res2 {
                        Some(sol) => {
                            assert(spec_try_shapes(m, i as int, j as int, g@, root)
                                == Option::Some(sol@));
                            assert(spec_try_sizes(m, i as int, g@, root) == Option::Some(sol@));
                            assert(spec_solve_rec(m, g@, root) == Option::Some(sol@));
                            return Some(sol);
                        },
                        None => {
                            assert(spec_try_shapes(m, i as int, j as int, g@, root)
                                == spec_try_shapes(m, i as int, j as int + 1, g@, root));
                        },
                    }
                }
            } else {
                assert(spec_try_shapes(m, i as int, j as int, g@, root) == spec_try_shapes(
                    m,
                    i as int,
                    j as int + 1,
                    g@,
                    root,
                ));
            }
            j = j + 1;
        }
        assert(spec_try_shapes(m, i as int, j as int, g@, root) is None);
        assert(spec_try_sizes(m, i as int, g@, root) == spec_try_sizes(m, i as int + 1, g@, root));
        i = i + 1;
    }
    assert(spec_try_sizes(m, i as int, g@, root) is None);
    assert(spec_solve_rec(m, g@, root) is None);
    None
}

/// The grid `sol` extends the grid `g` by exactly `n` placed rectangles,
/// none of them corner-touching.
pub open spec fn solution_extends(g: GridModel, sol: GridModel, n: int) -> bool {
    &&& sol.rects.len() == g.rects.len() + n
    &&& forall|k: int| 0 <= k < g.rects.len() ==> sol.rects[k] == g.rects[k]
    &&& forall|k: int|
        g.rects.len() <= k < sol.rects.len() ==> !spec_is_corner(
            Spot { pos: (#[trigger] sol.rects[k]).pos, shape: sol.rects[k].shape },
        )
}

proof fn lemma_insert_rects(r: Rect, g: GridModel)
    ensures
        spec_insert(r, g).rects == g.rects.push(r),
{
}

/// Any grid the search returns extends the starting grid by exactly one
/// rectangle per remaining size, and every added rectangle passes the
/// corner filter: both its dimensions and both its far-edge coordinates
/// stay off the board boundary.
pub proof fn lemma_solve_rec_places_all(sizes: Seq<ShapedSizeModel>, g: GridModel, root: bool)
    ensures
        spec_solve_rec(sizes, g, root) matches Some(sol) ==> solution_extends(
            g,
            sol,
            sizes.len() as int,
        ),
    decreases sizes.len(), sizes.len() + 2, 0int,
{
    if g.spots.len() != 0 {
        lemma_try_sizes_places_all(sizes, 0, g, root);
    }
}

proof fn lemma_try_sizes_places_all(sizes: Seq<ShapedSizeModel>, i: int, g: GridModel, root: bool)
    ensures
        spec_try_sizes(sizes, i, g, root) matches Some(sol) ==> solution_extends(
            g,
            sol,
            sizes.len() as int,
        ),
    decreases sizes.len(), sizes.len() - i, sizes[i].shapes.len() + 1,
{
    if 0 <= i < sizes.len() && g.spots.len() != 0 {
        lemma_try_shapes_places_all(sizes, i, 0, g, root);
        if spec_try_shapes(sizes, i, 0, g, root) is None {
            lemma_try_sizes_places_all(sizes, i + 1, g, root);
        }
    }
}

proof fn lemma_try_shapes_places_all(
    sizes: Seq<ShapedSizeModel>,
    i: int,
    j: int,
    g: GridModel,
    root: bool,
)
    ensures
        spec_try_shapes(sizes, i, j, g, root) matches Some(sol) ==> solution_extends(
            g,
            sol,
            sizes.len() as int,
        ),
    decreases sizes.len(), sizes.len() - i, sizes[i].shapes.len() - j,
{
    if 0 <= i < sizes.len() && j >= 0 && g.spots.len() != 0 && j < sizes[i].shapes.len() {
        let spot = g.spots[0];
        let sh = sizes[i].shapes[j];
        let allowed = (!root || sh.w >= sh.h) && spec_fits_in(sh, spot.shape) && !spec_is_corner(
            Spot { pos: spot.pos, shape: sh },
        );
        if allowed {
            let rect = Rect { pos: spot.pos, shape: sh };
            let g3 = spec_insert(rect, g);
            lemma_insert_rects(rect, g);
            let sizes2 = sizes.update(i, sizes.last()).drop_last();
            if sizes2.len() == 0 {
            } else {
                lemma_solve_rec_places_all(sizes2, g3, false);
                match spec_solve_rec(sizes2, g3, false) {
                    Option::Some(sol) => {
                        assert(solution_extends(g3, sol, sizes2.len() as int));
                        assert forall|k: int|
                            g.rects.len() <= k < sol.rects.len() implies !spec_is_corner(
                            Spot { pos: (#[trigger] sol.rects[k]).pos, shape: sol.rects[k].shape },
                        ) by {
                            if k < g3.rects.len() {
                                assert(sol.rects[k] == g3.rects[k]);
                                assert(g3.rects[k] == rect);
                            }
                        }
                    },
                    Option::None => {
                        lemma_try_shapes_places_all(sizes, i, j + 1, g, root);
                    },
                }
            }
        } else {
            lemma_try_shapes_places_all(sizes, i, j + 1, g, root);
        }
    }
}

/// Any grid `solve` returns places exactly one rectangle per input size,
/// and every placed rectangle keeps its dimensions and far edges strictly
/// between the board boundaries; so a returned arrangement covers at most a
/// 31x31 area and never tiles the full board.
pub proof fn lemma_solve_places_all(sizes: Seq<u16>)
    ensures
        spec_solve(sizes) matches Some(sol) ==> sol.rects.len() == sizes.len()
            && forall|k: int|
            0 <= k < sol.rects.len() ==> !spec_is_corner(
                Spot { pos: (#[trigger] sol.rects[k]).pos, shape: sol.rects[k].shape },
            ),
{
    let shaped = Seq::new(
        sizes.len(),
        |k: int| ShapedSizeModel { size: sizes[k], shapes: spec_gen_shapes(sizes[k]) },
    );
    lemma_solve_rec_places_all(shaped, initial_grid(), true);
}

/// The area a shape covers.
pub open spec fn shape_area(s: Shape) -> int {
    s.w * s.h
}

/// The areas of a list of placed rectangles, in placement order.
pub open spec fn placed_areas(rects: Seq<Rect>) -> Seq<int> {
    rects.map_values(|r: Rect| shape_area(r.shape))
}

/// The sizes of the remaining entries, as a list of integers.
pub open spec fn size_values(sizes: Seq<ShapedSizeModel>) -> Seq<int> {
    sizes.map_values(|e: ShapedSizeModel| e.size as int)
}

/// Every cached shape of every entry has exactly its entry's area.
pub open spec fn sizes_areas_wf(sizes: Seq<ShapedSizeModel>) -> bool {
    forall|k: int, t: int|
        0 <= k < sizes.len() && 0 <= t < sizes[k].shapes.len() ==> shape_area(
            #[trigger] sizes[k].shapes[t],
        ) == sizes[k].size
}

proof fn lemma_singleton_multiset(x: int)
    ensures
        seq![x].to_multiset() == Multiset::<int>::empty().insert(x),
{
    broadcast use vstd::seq_lib::group_to_multiset_ensures;
    broadcast use vstd::multiset::group_multiset_axioms;

    assert(Seq::<int>::empty().to_multiset() =~= Multiset::<int>::empty());
    assert(seq![x] =~= Seq::<int>::empty().push(x));
}

proof fn lemma_swap_remove_multiset(s: Seq<int>, i: int)
    requires
        0 <= i < s.len(),
    ensures
        s.to_multiset() == s.update(i, s.last()).drop_last().to_multiset().insert(s[i]),
{
    broadcast use vstd::seq_lib::group_to_multiset_ensures;
    broadcast use vstd::multiset::group_multiset_axioms;

    let u = s.update(i, s.last());
    let sr = u.drop_last();
    assert(sr =~= u.remove(u.len() - 1));
    assert(u.remove(u.len() - 1).to_multiset() == u.to_multiset().remove(u[u.len() - 1]));
    assert(u[u.len() - 1] == s.last());
    assert(u.to_multiset() == s.to_multiset().insert(s.last()).remove(s[i]));
    assert(s.contains(s[i]));
    assert(s.to_multiset().count(s[i]) > 0);
    assert(sr.to_multiset() =~= s.to_multiset().remove(s[i]));
    assert(sr.to_multiset().insert(s[i]) =~= s.to_multiset());
}

/// The rectangles `sol` adds beyond `g` account for the remaining sizes
/// exactly: the multiset of their areas is the multiset of the sizes.
pub open spec fn uses_sizes(g: GridModel, sol: GridModel, sizes: Seq<ShapedSizeModel>) -> bool {
    placed_areas(sol.rects.skip(g.rects.len() as int)).to_multiset() == size_values(
        sizes,
    ).to_multiset()
}

/// Any grid the search returns uses each remaining size exactly once: the
/// areas of the rectangles it adds form precisely the multiset of the
/// remaining sizes.
pub proof fn lemma_solve_rec_areas(sizes: Seq<ShapedSizeModel>, g: GridModel, root: bool)
    requires
        sizes_areas_wf(sizes),
    ensures
        spec_solve_rec(sizes, g, root) matches Some(sol) ==> uses_sizes(g, sol, sizes),
    decreases sizes.len(), sizes.len() + 2, 0int,
{
    if g.spots.len() != 0 {
        lemma_try_sizes_areas(sizes, 0, g, root);
    }
}

proof fn lemma_try_sizes_areas(sizes: Seq<ShapedSizeModel>, i: int, g: GridModel, root: bool)
    requires
        sizes_areas_wf(sizes),
    ensures
        spec_try_sizes(sizes, i, g, root) matches Some(sol) ==> uses_sizes(g, sol, sizes),
    decreases sizes.len(), sizes.len() - i, sizes[i].shapes.len() + 1,
{
    if 0 <= i < sizes.len() && g.spots.len() != 0 {
        lemma_try_shapes_areas(sizes, i, 0, g, root);
        if spec_try_shapes(sizes, i, 0, g, root) is None {
            lemma_try_sizes_areas(sizes, i + 1, g, root);
        }
    }
}

proof fn lemma_try_shapes_areas(
    sizes: Seq<ShapedSizeModel>,
    i: int,
    j: int,
    g: GridModel,
    root: bool,
)
    requires
        sizes_areas_wf(sizes),
    ensures
        spec_try_shapes(sizes, i, j, g, root) matches Some(sol) ==> uses_sizes(g, sol, sizes),
    decreases sizes.len(), sizes.len() - i, sizes[i].shapes.len() - j,
{
    broadcast use vstd::multiset::group_multiset_axioms;

    if 0 <= i < sizes.len() && j >= 0 && g.spots.len() != 0 && j < sizes[i].shapes.len() {
        let spot = g.spots[0];
        let sh = sizes[i].shapes[j];
        let allowed = (!root || sh.w >= sh.h) && spec_fits_in(sh, spot.shape) && !spec_is_corner(
            Spot { pos: spot.pos, shape: sh },
        );
        if allowed {
            let rect = Rect { pos: spot.pos, shape: sh };
            let g3 = spec_insert(rect, g);
            lemma_insert_rects(rect, g);
            let sizes2 = sizes.update(i, sizes.last()).drop_last();
            assert(shape_area(sh) == sizes[i].size);
            let vals = size_values(sizes);
            let vals2 = size_values(sizes2);
            assert forall|t: int| 0 <= t < vals2.len() implies vals2[t] == vals.update(
                i,
                vals.last(),
            ).drop_last()[t] by {
                if t == i {
                    assert(sizes2[t] == sizes.last());
                } else {
                    assert(sizes2[t] == sizes[t]);
                }
            }
            assert(vals2 =~= vals.update(i, vals.last()).drop_last());
            lemma_swap_remove_multiset(vals, i);
            if sizes2.len() == 0 {
                let sol = g3;
                let app = sol.rects.skip(g.rects.len() as int);
                assert(app =~= seq![rect]);
                assert(placed_areas(app) =~= seq![shape_area(sh)]);
                lemma_singleton_multiset(shape_area(sh));
                assert(vals2.to_multiset() =~= Multiset::<int>::empty()) by {
                    broadcast use vstd::seq_lib::group_to_multiset_ensures;

                    assert(vals2.len() == 0);
                }
                assert(placed_areas(app).to_multiset() == vals.to_multiset());
            } else {
                match spec_solve_rec(sizes2, g3, false) {
                    Option::Some(sol) => {
                        assert forall|a: int, b: int|
                            0 <= a < sizes2.len() && 0 <= b
                                < sizes2[a].shapes.len() implies shape_area(
                            #[trigger] sizes2[a].shapes[b],
                        ) == sizes2[a].size by {
                            if a == i {
                                assert(sizes2[a] == sizes.last());
                            } else {
                                assert(sizes2[a] == sizes[a]);
                            }
                        }
                        lemma_solve_rec_areas(sizes2, g3, false);
                        lemma_solve_rec_places_all(sizes2, g3, false);
                        let app_g = sol.rects.skip(g.rects.len() as int);
                        let app_g3 = sol.rects.skip(g3.rects.len() as int);
                        assert(sol.rects[g.rects.len() as int] == rect);
                        assert(app_g =~= seq![rect] + app_g3);
                        assert(placed_areas(app_g) =~= seq![shape_area(sh)] + placed_areas(
                            app_g3,
                        ));
                        vstd::seq_lib::lemma_multiset_commutative(
                            seq![shape_area(sh)],
                            placed_areas(app_g3),
                        );
                        lemma_singleton_multiset(shape_area(sh));
                        assert(placed_areas(app_g).to_multiset() =~= placed_areas(
                            app_g3,
                        ).to_multiset().insert(shape_area(sh)));
                        assert(placed_areas(app_g).to_multiset() == vals.to_multiset());
                    },
                    Option::None => {
                        lemma_try_shapes_areas(sizes, i, j + 1, g, root);
                    },
                }
            }
        } else {
            lemma_try_shapes_areas(sizes, i, j + 1, g, root);
        }
    }
}

/// Any grid `solve` returns uses each input size exactly once: the areas of
/// its placed rectangles form precisely the multiset of the input sizes.
pub proof fn lemma_solve_uses_each_size_once(sizes: Seq<u16>)
    ensures
        spec_solve(sizes) matches Some(sol) ==> placed_areas(sol.rects).to_multiset()
            == sizes.map_values(|v: u16| v as int).to_multiset(),
{
    let shaped = Seq::new(
        sizes.len(),
        |k: int| ShapedSizeModel { size: sizes[k], shapes: spec_gen_shapes(sizes[k]) },
    );
    assert forall|k: int, t: int|
        0 <= k < shaped.len() && 0 <= t < shaped[k].shapes.len() implies shape_area(
        #[trigger] shaped[k].shapes[t],
    ) == shaped[k].size by {
        lemma_gen_shapes_valid(sizes[k]);
        assert(shaped[k].shapes == spec_gen_shapes(sizes[k]));
    }
    lemma_solve_rec_areas(shaped, initial_grid(), true);
    match spec_solve(sizes) {
        Option::Some(sol) => {
            assert(sol.rects.skip(0) =~= sol.rects);
            assert(size_values(shaped) =~= sizes.map_values(|v: u16| v as int));
        },
        Option::None => {
        },
    }
}

/// The grid before any placement: no rectangle, and the whole board as the
/// single free spot.
pub open spec fn initial_grid() -> GridModel {
    GridModel {
        rects: Seq::empty(),
        spots: seq![Spot { pos: Pos { x: 0, y: 0 }, shape: Shape { w: 32, h: 32 } }],
    }
}

/// The result the search owes for a list of sizes: the traversal of
/// `spec_solve_rec` from the empty board, with every size annotated by its
/// shape enumeration.  Note that with no size at all the search fails at the
/// root — reporting no solution for an empty input is a defined edge case of
/// this solver, which requires at least one size.
pub open spec fn spec_solve(sizes: Seq<u16>) -> Option<GridModel> {
    spec_solve_rec(
        Seq::new(
            sizes.len(),
            |k: int| ShapedSizeModel { size: sizes[k], shapes: spec_gen_shapes(sizes[k]) },
        ),
        initial_grid(),
        true,
    )
}

/// Searches for an arrangement of one rectangle per size that the 32x32
/// board admits, and returns the first grid the deterministic traversal
/// finds, or nothing when the search space is exhausted.
pub fn solve(sizes: Vec<u16>) -> (res: Option<Grid>)
    ensures
        opt_grid_model(res) == spec_solve(sizes@),
        res matches Some(gs) ==> grid_wf(gs@),
{
    let mut shaped: Vec<ShapedSize> = Vec::new();
    let mut remaining: Vec<usize> = Vec::new();
    let mut k: usize = 0;
    while k < sizes.len()
        invariant
            0 <= k <= sizes@.len(),
            shaped@.len() == k,
            remaining@.len() == k,
            forall|t: int| 0 <= t < k ==> #[trigger] remaining@[t] == t,
            forall|t: int|
                0 <= t < k ==> #[trigger] shaped@[t]@ == (ShapedSizeModel {
                    size: sizes@[t],
                    shapes: spec_gen_shapes(sizes@[t]),
                }),
        decreases sizes@.len() - k,
    {
        shaped.push(shape_size(sizes[k]));
        remaining.push(k);
        k = k + 1;
    }
    let mut first_spots: Vec<Spot> = Vec::new();
    first_spots.push(Spot { pos: Pos { x: 0, y: 0 }, shape: Shape { w: 32, h: 32 } });
    let grid = Grid { rects: Vec::new(), spots: first_spots };
    proof {
        assert(grid@.spots =~= initial_grid().spots);
        assert(grid@ =~= initial_grid());
        assert forall|a: int, t: int|
            0 <= a < shaped@.len() && 0 <= t < shaped@[a]@.shapes.len() implies 1 <= (
        #[trigger] shaped@[a]@.shapes[t]).w <= 32 && shaped@[a]@.shapes[t].h <= 32 by {
            lemma_gen_shapes_valid(sizes@[a]);
        }
        assert(sizes_model(shaped@, remaining@) =~= Seq::new(
            sizes@.len(),
            |t: int| ShapedSizeModel { size: sizes@[t], shapes: spec_gen_shapes(sizes@[t]) },
        ));
    }
    solve_rec(&shaped, &remaining, &grid, 1)
}

} // verus!
