//! An exact rectangle-packing solver: given a list of integer sizes, it
//! searches for an arrangement of one rectangle per size, each rectangle's
//! width and height a factor pair of its size, placed on a fixed 32x32 board,
//! and reports the first arrangement its deterministic traversal finds or
//! that none exists.
use vstd::prelude::*;

pub mod geom;
pub mod shapes;
pub mod shrink;
pub mod grid;
pub mod search;
pub mod parse;

pub use geom::Pos;
pub use geom::Shape;
pub use geom::Rect;
pub use geom::Spot;
pub use grid::Grid;
pub use shapes::ShapedSize;

verus! {

/// The two failure kinds of the solver: a line of the input is not a valid
/// size, or the exhaustive search found no arrangement.  The second is a
/// normal outcome, not conflated with the first.
#[derive(Clone, Copy, Debug, PartialEq, Eq, Structural)]
pub enum SolveError {
    InputParseError,
    NoSolutionFound,
}

/// Reads newline-separated sizes from `input` and searches for an
/// arrangement.  A malformed line aborts before any search is attempted;
/// an exhausted search reports that no solution was found.
pub fn run(input: &[u8]) -> (res: Result<Grid, SolveError>)
    ensures
        parse::spec_parse_sizes(input@) is None ==> (res matches Err(e) && e
            == SolveError::InputParseError),
        parse::spec_parse_sizes(input@) matches Some(sz) ==> match search::spec_solve(sz) {
            Some(m) => (res matches Ok(g) && g@ == m),
            None => (res matches Err(e) && e == SolveError::NoSolutionFound),
        },
        res matches Ok(g) ==> grid::grid_wf(g@),
{
    match parse::parse_sizes(input) {
        Ok(sizes) => match search::solve(sizes) {
            Some(g) => Ok(g),
            None => Err(SolveError::NoSolutionFound),
        },
        Err(e) => Err(e),
    }
}

} // verus!
