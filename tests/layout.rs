use jxl_transform::grid::SimpleGrid;
use jxl_transform::layout::{
    fold_even_odd, gather_stride2, interleave_quadrants, place_afv_samples, put_block, reorder,
    reverse_bits, scatter_stride2, transpose, unfold_inverse_output,
};

#[test]
fn reverse_bits_examples() {
    assert_eq!(reverse_bits(0b001, 3), 0b100);
    assert_eq!(reverse_bits(0b110, 3), 0b011);
    assert_eq!(reverse_bits(5, 4), 10);
    assert_eq!(reverse_bits(1, 0), 0);
}

#[test]
fn reorder_splits_and_bit_reverses() {
    // four complex numbers (r0,i0),(r1,i1),(r2,i2),(r3,i3)
    let input = [10, 11, 20, 21, 30, 31, 40, 41];
    let mut output = [0; 8];
    reorder(&input, &mut output, 2);
    assert_eq!(output, [10, 30, 20, 40, 11, 31, 21, 41]);
}

#[test]
fn fold_even_odd_example() {
    let input = [0, 1, 2, 3, 4, 5, 6, 7];
    let mut output = [0; 8];
    fold_even_odd(&input, &mut output);
    assert_eq!(output, [0, 2, 4, 6, 7, 5, 3, 1]);
}

#[test]
fn unfold_inverse_output_example() {
    let re = [1, 2, 3, 4];
    let im = [5, 6, 7, 8];
    let mut output = [0; 8];
    unfold_inverse_output(&re, &im, &mut output);
    assert_eq!(output, [1, 8, 5, 4, 2, 7, 6, 3]);
}

#[test]
fn transpose_example() {
    // 3 wide, 2 high
    let src = [1, 2, 3, 4, 5, 6];
    let mut dst = [0; 6];
    transpose(&src, &mut dst, 3, 2);
    assert_eq!(dst, [1, 4, 2, 5, 3, 6]);
}

#[test]
fn transpose_twice_is_identity() {
    let src: Vec<f32> = (0..32).map(|v| v as f32 * 0.5).collect();
    let mut once = vec![0.0f32; 32];
    let mut twice = vec![0.0f32; 32];
    transpose(&src, &mut once, 8, 4);
    transpose(&once, &mut twice, 4, 8);
    assert_eq!(src, twice);
}

fn numbered(width: usize, height: usize) -> SimpleGrid<i32> {
    let mut g = SimpleGrid::<i32>::new(width, height);
    for (i, v) in g.buf_mut().iter_mut().enumerate() {
        *v = i as i32;
    }
    g
}

#[test]
fn gather_stride2_quadrant() {
    let g = numbered(8, 8);
    let q = gather_stride2(&g, 1, 0, 4, 4);
    assert_eq!(q.len(), 16);
    assert_eq!(&q[..4], &[1, 3, 5, 7]);
    assert_eq!(&q[4..8], &[17, 19, 21, 23]);
    assert_eq!(q[15], 55);
}

#[test]
fn scatter_undoes_gather() {
    let g = numbered(8, 8);
    let mut blank = SimpleGrid::<i32>::new(8, 8);
    for (x, y) in [(0, 0), (1, 0), (0, 1), (1, 1)] {
        let q = gather_stride2(&g, x, y, 4, 4);
        scatter_stride2(&mut blank, &q, x, y, 4, 4);
    }
    assert_eq!(blank.buf(), g.buf());
}

#[test]
fn scatter_leaves_other_samples() {
    let mut g = numbered(8, 8);
    let src: Vec<i32> = (100..104).collect();
    scatter_stride2(&mut g, &src, 0, 1, 2, 2);
    assert_eq!(g.get(0, 1), Some(&100));
    assert_eq!(g.get(2, 1), Some(&101));
    assert_eq!(g.get(0, 3), Some(&102));
    assert_eq!(g.get(2, 3), Some(&103));
    assert_eq!(g.get(1, 1), Some(&9));
    assert_eq!(g.get(0, 0), Some(&0));
}

#[test]
fn afv_samples_land_in_flipped_quadrant() {
    let samples: Vec<i32> = (0..16).collect();
    let mut plain = SimpleGrid::<i32>::new(8, 8);
    place_afv_samples(&mut plain, &samples, false, false);
    assert_eq!(plain.get(1, 0), Some(&1));
    assert_eq!(plain.get(0, 1), Some(&4));
    assert_eq!(plain.get(4, 0), Some(&0));

    let mut flipped = SimpleGrid::<i32>::new(8, 8);
    place_afv_samples(&mut flipped, &samples, true, true);
    assert_eq!(flipped.get(7, 7), Some(&0));
    assert_eq!(flipped.get(4, 4), Some(&15));
    assert_eq!(flipped.get(0, 0), Some(&0));
}

#[test]
fn afv_flips_mirror_the_quadrant() {
    let samples: Vec<i32> = (1..17).collect();
    let mut grids = Vec::new();
    for (fx, fy) in [(false, false), (true, false), (false, true), (true, true)] {
        let mut g = SimpleGrid::<i32>::new(8, 8);
        place_afv_samples(&mut g, &samples, fx, fy);
        grids.push(g);
    }
    for iy in 0..4 {
        for ix in 0..4 {
            let v = grids[0].get(ix, iy).copied();
            assert_eq!(v, grids[1].get(4 + 3 - ix, iy).copied());
            assert_eq!(v, grids[2].get(ix, 4 + 3 - iy).copied());
            assert_eq!(v, grids[3].get(4 + 3 - ix, 4 + 3 - iy).copied());
        }
    }
}

#[test]
fn interleave_quadrants_forms_cells() {
    let mut g = numbered(8, 8);
    interleave_quadrants(&mut g, 4);
    // row 0 of the corner: (0,0) (2,0) (1,0) (3,0) from the top quadrants
    assert_eq!(&g.buf()[..8], &[0, 2, 1, 3, 4, 5, 6, 7]);
    // row 1 of the corner comes from row 2, the bottom quadrants
    assert_eq!(&g.buf()[8..12], &[16, 18, 17, 19]);
    assert_eq!(&g.buf()[16..20], &[8, 10, 9, 11]);
    // outside the corner nothing moves
    assert_eq!(g.get(5, 5), Some(&45));
}

#[test]
fn interleave_quadrants_of_two_keeps_order() {
    let mut g = numbered(2, 2);
    interleave_quadrants(&mut g, 2);
    assert_eq!(g.buf(), &[0, 1, 2, 3]);
}

#[test]
fn put_block_writes_rectangle_only() {
    let mut g = numbered(8, 8);
    let src: Vec<i32> = (100..108).collect();
    put_block(&mut g, &src, 4, 6, 4, 2);
    assert_eq!(g.get(4, 6), Some(&100));
    assert_eq!(g.get(7, 6), Some(&103));
    assert_eq!(g.get(4, 7), Some(&104));
    assert_eq!(g.get(7, 7), Some(&107));
    assert_eq!(g.get(3, 6), Some(&51));
    assert_eq!(g.get(4, 5), Some(&44));
}
