use packing::Grid;
use packing::Pos;
use packing::Rect;
use packing::Shape;
use packing::SolveError;
use packing::Spot;
use packing::parse::parse_sizes;
use packing::parse::parse_u16;
use packing::run;
use packing::search::solve;

fn rect(x: u16, y: u16, w: u16, h: u16) -> Rect {
    Rect { pos: Pos { x, y }, shape: Shape { w, h } }
}

fn spot(x: u16, y: u16, w: u16, h: u16) -> Spot {
    Spot { pos: Pos { x, y }, shape: Shape { w, h } }
}

#[test]
fn parse_u16_grammar() {
    assert_eq!(parse_u16(b"0"), Some(0));
    assert_eq!(parse_u16(b"007"), Some(7));
    assert_eq!(parse_u16(b"+16"), Some(16));
    assert_eq!(parse_u16(b"65535"), Some(65535));
    assert_eq!(parse_u16(b"65536"), None);
    assert_eq!(parse_u16(b""), None);
    assert_eq!(parse_u16(b"+"), None);
    assert_eq!(parse_u16(b"-1"), None);
    assert_eq!(parse_u16(b"1 6"), None);
    assert_eq!(parse_u16(b"abc"), None);
    assert_eq!(parse_u16(b"99999999999999999999"), None);
}

#[test]
fn parse_sizes_splits_lines() {
    assert_eq!(parse_sizes(b"16\n9\n4"), Ok(vec![16, 9, 4]));
    assert_eq!(parse_sizes(b"16\n9\n4\n"), Ok(vec![16, 9, 4]));
    assert_eq!(parse_sizes(b""), Ok(vec![]));
    assert_eq!(parse_sizes(b"\n"), Err(SolveError::InputParseError));
    assert_eq!(parse_sizes(b"12\r\n34"), Ok(vec![12, 34]));
    assert_eq!(parse_sizes(b"1\n\n2"), Err(SolveError::InputParseError));
    assert_eq!(parse_sizes(b"abc"), Err(SolveError::InputParseError));
}

#[test]
fn parse_keeps_carriage_return_on_final_line() {
    // a carriage return is shed only when a newline follows it
    assert_eq!(parse_sizes(b"12\r\n"), Ok(vec![12]));
    assert_eq!(parse_sizes(b"12\r"), Err(SolveError::InputParseError));
}

#[test]
fn single_size_picks_first_wide_shape() {
    // of the shapes of 16 the symmetry rule admits (4,4), (8,2) and (16,1)
    // at the root; (4,4) comes first in enumeration order and is not
    // corner-touching, so it is placed at the origin of the whole board
    let g = solve(vec![16]);
    let expected = Grid {
        rects: vec![rect(0, 0, 4, 4)],
        spots: vec![spot(4, 0, 28, 32), spot(0, 4, 32, 28)],
    };
    assert_eq!(g, Some(expected));
}

#[test]
fn two_sizes_fill_in_order() {
    let g = solve(vec![16, 9]);
    let expected = Grid {
        rects: vec![rect(0, 0, 4, 4), rect(4, 0, 1, 9)],
        spots: vec![spot(0, 4, 4, 28), spot(5, 0, 27, 32), spot(4, 9, 28, 23)],
    };
    assert_eq!(g, Some(expected));
}

#[test]
fn backtracking_recovers_at_root() {
    // placing 31 first as (31,1) leaves the unit square only spots where it
    // would touch the boundary, so that branch fails; the search backtracks,
    // places the unit square first and then fits (1,31) beside it
    let g = solve(vec![31, 1]);
    let expected = Grid {
        rects: vec![rect(0, 0, 1, 1), rect(1, 0, 1, 31)],
        spots: vec![spot(0, 1, 1, 31), spot(2, 0, 30, 32), spot(1, 31, 31, 1)],
    };
    assert_eq!(g, Some(expected));
}

#[test]
fn empty_input_reports_no_solution() {
    // the solver requires at least one size: with none, the search fails
    // at the root, a defined edge case of this implementation
    assert_eq!(solve(vec![]), None);
}

#[test]
fn full_board_piece_is_corner_pruned() {
    // the only shape of 1024 is the whole board, which touches the boundary
    assert_eq!(solve(vec![1024]), None);
}

#[test]
fn power_of_two_sum_to_board_area_finds_no_tiling() {
    // 256 * 4 == 1024 == 32 * 32, every size a power of two; corner pruning
    // rejects every boundary-touching placement, so no perfect tiling can
    // complete and the exhaustive search reports failure
    assert_eq!(solve(vec![256, 256, 256, 256]), None);
    assert_eq!(solve(vec![512, 512]), None);
}

#[test]
fn zero_size_is_unplaceable() {
    // every shape of 0 has a zero dimension and is corner-pruned
    assert_eq!(solve(vec![0]), None);
}

#[test]
fn solved_pieces_use_each_size_once() {
    let sizes: Vec<u16> = vec![16, 9, 25, 6];
    let g = solve(sizes.clone()).expect("these four sizes admit placements");
    assert_eq!(g.rects.len(), sizes.len());
    let mut areas: Vec<u16> =
        g.rects.iter().map(|r| r.shape.w * r.shape.h).collect();
    let mut want = sizes.clone();
    areas.sort();
    want.sort();
    assert_eq!(areas, want);
    for (i, a) in g.rects.iter().enumerate() {
        for b in g.rects.iter().skip(i + 1) {
            let disjoint = a.pos.x + a.shape.w <= b.pos.x
                || b.pos.x + b.shape.w <= a.pos.x
                || a.pos.y + a.shape.h <= b.pos.y
                || b.pos.y + b.shape.h <= a.pos.y;
            assert!(disjoint, "placed rectangles overlap");
        }
    }
}

#[test]
fn run_reports_parse_error_before_searching() {
    assert_eq!(run(b"abc"), Err(SolveError::InputParseError));
    assert_eq!(run(b"16\nxyz"), Err(SolveError::InputParseError));
    assert_eq!(run(b"65536"), Err(SolveError::InputParseError));
}

#[test]
fn run_solves_parsed_sizes() {
    let expected = Grid {
        rects: vec![rect(0, 0, 4, 4)],
        spots: vec![spot(4, 0, 28, 32), spot(0, 4, 32, 28)],
    };
    assert_eq!(run(b"16\n"), Ok(expected));
}

#[test]
fn run_reports_no_solution() {
    assert_eq!(run(b""), Err(SolveError::NoSolutionFound));
    assert_eq!(run(b"1024\n"), Err(SolveError::NoSolutionFound));
}
