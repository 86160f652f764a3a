use jxl_transform::cut_grid::{lane_dims, CutGrid, GridError};
use jxl_transform::grid::{aligning_offset, compute_align, SimpleGrid, MIN_ALIGN};

#[test]
fn new_grid_is_zeroed_and_sized() {
    let g = SimpleGrid::<f32>::new(5, 3);
    assert_eq!(g.width(), 5);
    assert_eq!(g.height(), 3);
    assert_eq!(g.buf().len(), 15);
    assert!(g.buf().iter().all(|&v| v == 0.0));
}

#[test]
fn new_grid_first_sample_is_aligned() {
    let g = SimpleGrid::<f32>::new(7, 7);
    let addr = g.buf().as_ptr() as usize;
    assert_eq!(addr % compute_align::<f32>(), 0);
}

#[test]
fn compute_align_takes_the_larger() {
    assert_eq!(compute_align::<u8>(), MIN_ALIGN);
    assert_eq!(compute_align::<f32>(), 32);
}

#[test]
fn grid_get_out_of_bounds_is_none() {
    let g = SimpleGrid::<i32>::new(4, 2);
    assert!(g.get(4, 0).is_none());
    assert!(g.get(0, 2).is_none());
    assert_eq!(g.get(3, 1), Some(&0));
}

#[test]
fn grid_get_mut_writes_raster_position() {
    let mut g = SimpleGrid::<i32>::new(3, 2);
    *g.get_mut(2, 1).unwrap() = 7;
    *g.get_mut(0, 1).unwrap() = 5;
    assert!(g.get_mut(3, 1).is_none());
    assert_eq!(g.buf(), &[0, 0, 0, 5, 0, 7]);
    assert_eq!(g.get(2, 1), Some(&7));
}

#[test]
fn grid_buf_mut_writes_through() {
    let mut g = SimpleGrid::<u8>::new(2, 2);
    g.buf_mut()[3] = 9;
    assert_eq!(g.get(1, 1), Some(&9));
}

#[test]
fn grid_into_buf_iter_yields_samples() {
    let mut g = SimpleGrid::<u16>::new(2, 2);
    for (i, v) in g.buf_mut().iter_mut().enumerate() {
        *v = i as u16 + 1;
    }
    let all: Vec<u16> = g.into_buf_iter().collect();
    assert_eq!(all, vec![1, 2, 3, 4]);
}

#[test]
fn cut_grid_zero_width_is_invalid() {
    let mut buf = vec![0.0f32; 16];
    let r = CutGrid::from_buf(&mut buf, 0, 4, 4);
    assert!(matches!(r, Err(GridError::InvalidDimensions)));
}

#[test]
fn cut_grid_zero_height_is_invalid() {
    let mut buf = vec![0.0f32; 16];
    let r = CutGrid::from_buf(&mut buf, 4, 0, 4);
    assert!(matches!(r, Err(GridError::InvalidDimensions)));
}

#[test]
fn cut_grid_width_over_stride_is_invalid() {
    let mut buf = vec![0.0f32; 16];
    let r = CutGrid::from_buf(&mut buf, 5, 2, 4);
    assert!(matches!(r, Err(GridError::InvalidDimensions)));
}

#[test]
fn cut_grid_short_buffer_is_invalid() {
    let mut buf = vec![0u8; 10];
    // needs 4 * (3 - 1) + 3 = 11 elements
    assert!(CutGrid::from_buf(&mut buf, 3, 3, 4).is_err());
    let mut buf = vec![0u8; 11];
    assert!(CutGrid::from_buf(&mut buf, 3, 3, 4).is_ok());
}

#[test]
fn cut_grid_reads_with_stride() {
    let mut buf: Vec<i32> = (0..12).collect();
    let g = CutGrid::from_buf(&mut buf, 2, 3, 4).unwrap();
    assert_eq!(g.width(), 2);
    assert_eq!(g.height(), 3);
    assert_eq!(g.get(1, 2), 9);
    assert_eq!(g.get_row(1), &[4, 5]);
}

#[test]
fn cut_grid_writes_and_swaps() {
    let mut buf: Vec<i32> = (0..8).collect();
    {
        let mut g = CutGrid::from_buf(&mut buf, 2, 2, 4).unwrap();
        *g.get_mut(0, 1) = 40;
        g.swap((0, 0), (1, 1));
        g.swap((1, 0), (1, 0));
        g.get_row_mut(1)[0] += 1;
    }
    assert_eq!(buf, vec![5, 1, 2, 3, 41, 0, 6, 7]);
}

#[test]
fn cut_grid_new_matches_from_buf() {
    let mut buf = vec![3u8; 6];
    let g = CutGrid::new(&mut buf, 3, 2, 3);
    assert_eq!(g.get(2, 1), 3);
}

#[test]
fn aligning_offset_counts_elements() {
    // f32 samples at address 16 reach a 32-byte boundary after 4 of them
    assert_eq!(aligning_offset(16, 4, 32), 4);
    assert_eq!(aligning_offset(64, 4, 32), 0);
    assert_eq!(aligning_offset(36, 4, 32), 7);
    // 12-byte samples from address 8: 8 + 2 * 12 = 32
    assert_eq!(aligning_offset(8, 12, 32), 2);
    // no multiple of 32 is ever reached
    assert_eq!(aligning_offset(1, 2, 32), 0);
}

#[test]
fn empty_grid_has_empty_buf() {
    let mut g = SimpleGrid::<f32>::new(0, 5);
    assert_eq!(g.buf().len(), 0);
    assert_eq!(g.buf_mut().len(), 0);
    assert!(g.get(0, 0).is_none());
}

#[test]
fn aligning_offset_zero_when_already_aligned() {
    assert_eq!(aligning_offset(96, 4, 32), 0);
    assert_eq!(aligning_offset(100, 4, 32), 7);
}

#[test]
fn lane_dims_needs_all_three_multiples() {
    assert_eq!(lane_dims(64, 8, 16, 4, 16), Some((2, 4)));
    assert_eq!(lane_dims(68, 8, 16, 4, 16), None);
    assert_eq!(lane_dims(64, 6, 16, 4, 16), None);
    assert_eq!(lane_dims(64, 8, 18, 4, 16), None);
}

#[test]
fn lane_layout_refuses_odd_width() {
    let mut buf = vec![0.0f32; 64];
    let g = CutGrid::from_buf(&mut buf, 6, 4, 8).unwrap();
    assert_eq!(g.lane_layout(4, 16), None);
    let g = CutGrid::from_buf(&mut buf, 8, 4, 16).unwrap();
    match g.lane_layout(4, 4) {
        Some(dims) => assert_eq!(dims, (2, 4)),
        None => panic!("an f32 buffer is aligned to four bytes"),
    }
}
