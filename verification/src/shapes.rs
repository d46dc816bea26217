//! Shape enumeration: for a given size, the list of (width, height) factor
//! pairs whose both dimensions fit within the 32-unit board, in increasing
//! order of width.  Both orientations of a pair appear; the search's symmetry
//! pruning, not this step, controls redundant orientation exploration.
use vstd::prelude::*;
use vstd::arithmetic::div_mod::lemma_fundamental_div_mod;
use crate::geom::Shape;

verus! {

/// The shapes of area `size` whose width lies in `[1, n]` and whose height
/// fits the board, in increasing order of width.
pub open spec fn spec_gen_shapes_up_to(size: u16, n: int) -> Seq<Shape>
    decreases n,
{
    if n <= 0 {
        Seq::empty()
    } else {
        let prev = spec_gen_shapes_up_to(size, n - 1);
        if size as int % n == 0 && size as int / n <= 32 {
            prev.push(Shape { w: n as u16, h: (size as int / n) as u16 })
        } else {
            prev
        }
    }
}

/// Every factor pair of `size` with both dimensions at most 32, in increasing
/// order of width.  The result is a function of `size` alone, so enumerating
/// the shapes of one size twice always yields the same list.
pub open spec fn spec_gen_shapes(size: u16) -> Seq<Shape> {
    spec_gen_shapes_up_to(size, 32)
}

pub fn gen_shapes(size: u16) -> (v: Vec<Shape>)
    ensures
        v@ == spec_gen_shapes(size),
{
    let mut v: Vec<Shape> = Vec::new();
    let mut i: u16 = 1;
    while i <= 32
        invariant
            1 <= i <= 33,
            v@ == spec_gen_shapes_up_to(size, i - 1),
        decreases 33 - i,
    {
        if size % i == 0 && size / i <= 32 {
            v.push(Shape { w: i, h: size / i });
        }
        i = i + 1;
    }
    v
}

/// A size annotated with its precomputed shape list, computed once before the
/// search begins and shared read-only across the whole search tree.
pub struct ShapedSize {
    pub size: u16,
    pub shapes: Vec<Shape>,
}

/// The mathematical model of a `ShapedSize`.
#[verifier::ext_equal]
pub struct ShapedSizeModel {
    pub size: u16,
    pub shapes: Seq<Shape>,
}

impl View for ShapedSize {
    type V = ShapedSizeModel;

    open spec fn view(&self) -> ShapedSizeModel {
        ShapedSizeModel { size: self.size, shapes: self.shapes@ }
    }
}

pub fn shape_size(s: u16) -> (r: ShapedSize)
    ensures
        r@ == (ShapedSizeModel { size: s, shapes: spec_gen_shapes(s) }),
{
    ShapedSize { size: s, shapes: gen_shapes(s) }
}

proof fn lemma_gen_shapes_up_to_props(size: u16, n: int)
    requires
        0 <= n <= 32,
    ensures
        forall|k: int|
            0 <= k < spec_gen_shapes_up_to(size, n).len() ==> {
                let sh = #[trigger] spec_gen_shapes_up_to(size, n)[k];
                &&& 1 <= sh.w <= n
                &&& sh.h <= 32
                &&& size as int % sh.w as int == 0
                &&& sh.h == size as int / sh.w as int
                &&& sh.w * sh.h == size
            },
    decreases n,
{
    if n > 0 {
        lemma_gen_shapes_up_to_props(size, n - 1);
        let prev = spec_gen_shapes_up_to(size, n - 1);
        if size as int % n == 0 && size as int / n <= 32 {
            lemma_fundamental_div_mod(size as int, n);
            let cur = spec_gen_shapes_up_to(size, n);
            assert forall|k: int| 0 <= k < cur.len() implies {
                let sh = #[trigger] cur[k];
                &&& 1 <= sh.w <= n
                &&& sh.h <= 32
                &&& size as int % sh.w as int == 0
                &&& sh.h == size as int / sh.w as int
                &&& sh.w * sh.h == size
            } by {
                if k < prev.len() {
                    assert(cur[k] == prev[k]);
                } else {
                    assert(cur[k] == (Shape { w: n as u16, h: (size as int / n) as u16 }));
                }
            }
        }
    }
}

/// Every generated shape of `size` is a factor pair of `size`: its area is
/// exactly `size`, its width lies in `[1, 32]`, and so does its height
/// whenever `size` is positive.
pub proof fn lemma_gen_shapes_valid(size: u16)
    ensures
        forall|k: int|
            0 <= k < spec_gen_shapes(size).len() ==> {
                let sh = #[trigger] spec_gen_shapes(size)[k];
                &&& 1 <= sh.w <= 32
                &&& sh.h <= 32
                &&& sh.w * sh.h == size
                &&& size >= 1 ==> 1 <= sh.h
            },
{
    lemma_gen_shapes_up_to_props(size, 32);
    assert forall|k: int| 0 <= k < spec_gen_shapes(size).len() implies {
        let sh = #[trigger] spec_gen_shapes(size)[k];
        size >= 1 ==> 1 <= sh.h
    } by {
        assert(spec_gen_shapes(size) == spec_gen_shapes_up_to(size, 32));
        let sh = spec_gen_shapes_up_to(size, 32)[k];
        assert(spec_gen_shapes(size)[k] == sh);
        assert(size as int % sh.w as int == 0 && sh.h == size as int / sh.w as int);
        if size >= 1 && sh.h == 0 {
            lemma_fundamental_div_mod(size as int, sh.w as int);
            assert(size as int == sh.w as int * (size as int / sh.w as int) + size as int
                % sh.w as int);
            assert(size as int == sh.w as int * 0);
            assert(size as int == 0) by (nonlinear_arith)
                requires
                    size as int == sh.w as int * 0,
            ;
        }
    }
}

proof fn lemma_gen_shapes_up_to_complete(size: u16, n: int, w: u16)
    requires
        1 <= w <= n <= 32,
        size as int % w as int == 0,
        size as int / w as int <= 32,
    ensures
        spec_gen_shapes_up_to(size, n).contains(
            Shape { w, h: (size as int / w as int) as u16 },
        ),
    decreases n,
{
    if n == w {
        let prev = spec_gen_shapes_up_to(size, n - 1);
        assert(spec_gen_shapes_up_to(size, n)[prev.len() as int] == (Shape {
            w,
            h: (size as int / w as int) as u16,
        }));
    } else {
        lemma_gen_shapes_up_to_complete(size, n - 1, w);
        let prev = spec_gen_shapes_up_to(size, n - 1);
        let j = choose|j: int| 0 <= j < prev.len() && prev[j] == (Shape {
            w,
            h: (size as int / w as int) as u16,
        });
        assert(spec_gen_shapes_up_to(size, n)[j] == (Shape {
            w,
            h: (size as int / w as int) as u16,
        }));
    }
}

/// No factor pair is missed: every width in `[1, 32]` that divides `size`
/// with a quotient at most 32 contributes its shape to the enumeration.
pub proof fn lemma_gen_shapes_complete(size: u16, w: u16)
    requires
        1 <= w <= 32,
        size as int % w as int == 0,
        size as int / w as int <= 32,
    ensures
        spec_gen_shapes(size).contains(Shape { w, h: (size as int / w as int) as u16 }),
{
    lemma_gen_shapes_up_to_complete(size, 32, w);
}

} // verus!
