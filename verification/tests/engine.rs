use packing::Grid;
use packing::Pos;
use packing::Rect;
use packing::Shape;
use packing::Spot;
use packing::geom::fits_in;
use packing::geom::isCorner;
use packing::geom::isEdge;
use packing::grid::add_spot;
use packing::grid::insert;
use packing::shrink::shrink;
use packing::shrink::shrink_all;

fn rect(x: u16, y: u16, w: u16, h: u16) -> Rect {
    Rect { pos: Pos { x, y }, shape: Shape { w, h } }
}

fn spot(x: u16, y: u16, w: u16, h: u16) -> Spot {
    Spot { pos: Pos { x, y }, shape: Shape { w, h } }
}

fn overlaps(s: &Spot, r: &Rect) -> bool {
    r.pos.x < s.pos.x + s.shape.w
        && r.pos.x + r.shape.w > s.pos.x
        && r.pos.y < s.pos.y + s.shape.h
        && r.pos.y + r.shape.h > s.pos.y
}

#[test]
fn fits_in_requires_both_dimensions() {
    assert!(fits_in(Shape { w: 3, h: 5 }, Shape { w: 3, h: 5 }));
    assert!(fits_in(Shape { w: 2, h: 5 }, Shape { w: 3, h: 6 }));
    assert!(!fits_in(Shape { w: 4, h: 5 }, Shape { w: 3, h: 6 }));
    assert!(!fits_in(Shape { w: 2, h: 7 }, Shape { w: 3, h: 6 }));
}

#[test]
fn edges_are_zero_and_board_side() {
    assert!(isEdge(0));
    assert!(isEdge(32));
    assert!(!isEdge(1));
    assert!(!isEdge(31));
}

#[test]
fn corner_classification() {
    assert!(!isCorner(spot(0, 0, 4, 4)));
    assert!(isCorner(spot(0, 0, 32, 1)));
    assert!(isCorner(spot(0, 0, 1, 32)));
    assert!(isCorner(spot(28, 0, 4, 4)));
    assert!(isCorner(spot(0, 28, 4, 4)));
    assert!(isCorner(spot(3, 3, 4, 0)));
}

#[test]
fn shrink_clips_above_a_left_edge_crossing() {
    // the rectangle crosses the spot's left edge vertically and starts
    // below the spot's top, so the spot keeps only the rows above it
    let r = rect(0, 5, 10, 3);
    let s = spot(2, 0, 5, 32);
    assert_eq!(shrink(&r, s), Some(spot(2, 0, 5, 5)));
}

#[test]
fn shrink_invalidates_when_rectangle_covers_spot_top() {
    let r = rect(0, 0, 10, 3);
    let s = spot(2, 0, 5, 32);
    assert_eq!(shrink(&r, s), None);
}

#[test]
fn shrink_clips_left_of_a_top_edge_crossing() {
    let r = rect(5, 0, 3, 10);
    let s = spot(0, 2, 32, 5);
    assert_eq!(shrink(&r, s), Some(spot(0, 2, 5, 5)));
}

#[test]
fn shrink_invalidates_when_rectangle_covers_spot_left() {
    let r = rect(0, 0, 3, 10);
    let s = spot(0, 2, 32, 5);
    assert_eq!(shrink(&r, s), None);
}

#[test]
fn shrink_leaves_nontouching_spot_unchanged() {
    let r = rect(0, 0, 4, 4);
    let s = spot(4, 0, 28, 32);
    assert_eq!(shrink(&r, s), Some(s));
}

#[test]
fn shrink_never_returns_degenerate_spot() {
    let rects = [
        rect(0, 0, 4, 4),
        rect(0, 5, 10, 3),
        rect(5, 0, 3, 10),
        rect(3, 3, 2, 2),
        rect(31, 31, 1, 1),
    ];
    let spots = [
        spot(0, 0, 32, 32),
        spot(2, 0, 5, 32),
        spot(0, 2, 32, 5),
        spot(4, 4, 10, 10),
        spot(31, 0, 1, 32),
    ];
    for r in &rects {
        for s in &spots {
            if let Some(s2) = shrink(r, *s) {
                assert!(s2.shape.w >= 1);
                assert!(s2.shape.h >= 1);
            }
        }
    }
}

#[test]
fn shrink_all_folds_in_placement_order() {
    let rects = vec![rect(0, 0, 4, 4), rect(4, 0, 1, 9)];
    assert_eq!(shrink_all(&rects, spot(0, 4, 32, 28)), Some(spot(0, 4, 4, 28)));
}

#[test]
fn shrink_all_short_circuits_on_invalidation() {
    let rects = vec![rect(0, 0, 10, 3), rect(20, 20, 2, 2)];
    assert_eq!(shrink_all(&rects, spot(2, 0, 5, 32)), None);
}

#[test]
fn insert_consumes_spot_and_opens_two_corners() {
    let g = Grid { rects: vec![], spots: vec![spot(0, 0, 32, 32)] };
    let g2 = insert(&rect(0, 0, 4, 4), &g);
    assert_eq!(g2.rects, vec![rect(0, 0, 4, 4)]);
    assert_eq!(g2.spots, vec![spot(4, 0, 28, 32), spot(0, 4, 32, 28)]);
}

#[test]
fn insert_spots_avoid_the_new_rectangle() {
    let g = Grid { rects: vec![], spots: vec![spot(0, 0, 32, 32)] };
    let r1 = rect(0, 0, 4, 4);
    let g2 = insert(&r1, &g);
    for s in &g2.spots {
        assert!(!overlaps(s, &r1));
    }
    let r2 = rect(4, 0, 1, 9);
    let g3 = insert(&r2, &g2);
    for s in &g3.spots {
        assert!(!overlaps(s, &r2));
    }
}

#[test]
fn add_spot_outside_board_is_dropped() {
    let g = Grid { rects: vec![], spots: vec![] };
    let g2 = add_spot(g, Pos { x: 32, y: 0 });
    assert_eq!(g2.spots, Vec::<Spot>::new());
}

#[test]
fn add_spot_builds_maximal_candidate() {
    let g = Grid { rects: vec![], spots: vec![] };
    let g2 = add_spot(g, Pos { x: 5, y: 7 });
    assert_eq!(g2.spots, vec![spot(5, 7, 27, 25)]);
}

#[test]
fn add_spot_shrinks_against_placed_rectangles() {
    let g = Grid { rects: vec![rect(0, 0, 4, 4), rect(4, 0, 1, 9)], spots: vec![] };
    let g2 = add_spot(g, Pos { x: 0, y: 4 });
    assert_eq!(g2.spots, vec![spot(0, 4, 4, 28)]);
}
