use packing::Shape;
use packing::shapes::gen_shapes;
use packing::shapes::shape_size;

fn sh(w: u16, h: u16) -> Shape {
    Shape { w, h }
}

#[test]
fn shapes_of_eight() {
    let v = gen_shapes(8);
    assert_eq!(v, vec![sh(1, 8), sh(2, 4), sh(4, 2), sh(8, 1)]);
}

#[test]
fn shapes_of_sixteen() {
    let v = gen_shapes(16);
    assert_eq!(v, vec![sh(1, 16), sh(2, 8), sh(4, 4), sh(8, 2), sh(16, 1)]);
}

#[test]
fn shapes_of_full_board() {
    assert_eq!(gen_shapes(1024), vec![sh(32, 32)]);
}

#[test]
fn shapes_skip_oversized_factors() {
    // 33 = 3 * 11; the factor pairs (1, 33) and (33, 1) exceed the board
    assert_eq!(gen_shapes(33), vec![sh(3, 11), sh(11, 3)]);
}

#[test]
fn shapes_of_prime_too_long() {
    // 37 is prime and longer than the board in either orientation
    assert_eq!(gen_shapes(37), Vec::<Shape>::new());
}

#[test]
fn shapes_area_and_bounds() {
    for size in [1u16, 2, 6, 12, 30, 31, 32, 100, 960, 1024] {
        for s in gen_shapes(size) {
            assert_eq!(s.w as u32 * s.h as u32, size as u32);
            assert!(1 <= s.w && s.w <= 32);
            assert!(1 <= s.h && s.h <= 32);
        }
    }
}

#[test]
fn shapes_of_zero_are_degenerate() {
    // every width divides 0, so size 0 enumerates one zero-height shape per
    // width; the search can never place one, since a zero dimension is
    // corner-pruned
    let v = gen_shapes(0);
    assert_eq!(v.len(), 32);
    for (i, s) in v.iter().enumerate() {
        assert_eq!(s.w as usize, i + 1);
        assert_eq!(s.h, 0);
    }
}

#[test]
fn shapes_generation_is_repeatable() {
    for size in [0u16, 1, 8, 16, 360, 1024, 65535] {
        assert_eq!(gen_shapes(size), gen_shapes(size));
    }
}

#[test]
fn shape_size_pairs_size_with_shapes() {
    let ss = shape_size(16);
    assert_eq!(ss.size, 16);
    assert_eq!(ss.shapes, gen_shapes(16));
}
