//! Index layouts that the fast transforms move samples through. They are
//! generic over the sample type, so the same code serves every caller.
use vstd::prelude::*;

use crate::grid::SimpleGrid;

verus! {

/// `2^e`.
pub open spec fn two_pow(e: nat) -> nat
    decreases e,
{
    if e == 0 {
        1
    } else {
        2 * two_pow((e - 1) as nat)
    }
}

/// Reverses the low `bits` bits of `v` onto the end of `acc`.
pub open spec fn reverse_onto(v: nat, bits: nat, acc: nat) -> nat
    decreases bits,
{
    if bits == 0 {
        acc
    } else {
        reverse_onto(v / 2, (bits - 1) as nat, acc * 2 + v % 2)
    }
}

/// The number whose low `bits` bits are those of `i` in reverse order.
pub open spec fn bit_reverse(i: int, bits: nat) -> int {
    reverse_onto(i as nat, bits, 0) as int
}

/// Computes [`bit_reverse`].
pub fn reverse_bits(i: usize, bits: u32) -> (r: usize)
    requires
        two_pow(bits as nat) <= usize::MAX,
    ensures
        r == bit_reverse(i as int, bits as nat),
        r < two_pow(bits as nat),
{
    let mut r: usize = 0;
    let mut v: usize = i;
    let mut k: u32 = 0;
    while k < bits
        invariant
            k <= bits,
            two_pow(bits as nat) <= usize::MAX,
            r < two_pow(k as nat),
            reverse_onto(v as nat, (bits - k) as nat, r as nat) == bit_reverse(i as int, bits as nat),
        decreases bits - k,
    {
        proof {
            lemma_two_pow_monotone((k + 1) as nat, bits as nat);
        }
        r = r * 2 + v % 2;
        v = v / 2;
        k = k + 1;
    }
    r
}

pub proof fn lemma_two_pow_monotone(a: nat, b: nat)
    requires
        a <= b,
    ensures
        two_pow(a) <= two_pow(b),
        two_pow(a) >= 1,
    decreases b,
{
    if a < b {
        lemma_two_pow_monotone(a, (b - 1) as nat);
    } else if a > 0 {
        lemma_two_pow_monotone((a - 1) as nat, (a - 1) as nat);
    }
}

/// Splits `input`, read as `n / 2` complex numbers stored as (real, imaginary)
/// pairs, into the real parts followed by the imaginary parts, each half in
/// bit-reversed order: the order an in-place iterative FFT takes its input in.
pub fn reorder<T: Copy>(input: &[T], output: &mut [T], bits: u32)
    requires
        input@.len() == 2 * two_pow(bits as nat),
        old(output)@.len() == input@.len(),
    ensures
        final(output)@.len() == input@.len(),
        forall|j: int|
            0 <= j < two_pow(bits as nat) ==> {
                &&& #[trigger] final(output)@[j] == input@[2 * bit_reverse(j, bits as nat)]
                &&& final(output)@[two_pow(bits as nat) + j] == input@[2 * bit_reverse(j, bits as nat) + 1]
            },
{
    let n = input.len();
    let half = n / 2;
    let mut j: usize = 0;
    while j < half
        invariant
            n == input@.len(),
            half == two_pow(bits as nat),
            n == 2 * half,
            output@.len() == n,
            j <= half,
            forall|t: int|
                0 <= t < j ==> {
                    &&& #[trigger] output@[t] == input@[2 * bit_reverse(t, bits as nat)]
                    &&& output@[half + t] == input@[2 * bit_reverse(t, bits as nat) + 1]
                },
        decreases half - j,
    {
        let src = reverse_bits(j, bits);
        output[j] = input[2 * src];
        output[half + j] = input[2 * src + 1];
        j = j + 1;
    }
}

/// Puts the even-indexed samples of `input` in front, in order, followed by
/// the odd-indexed ones from last to first: `output[k] == input[2k]` and
/// `output[n/2 + k] == input[n - 1 - 2k]`.
pub fn fold_even_odd<T: Copy>(input: &[T], output: &mut [T])
    requires
        input@.len() % 2 == 0,
        old(output)@.len() == input@.len(),
    ensures
        final(output)@.len() == input@.len(),
        forall|k: int| 0 <= k < input@.len() / 2 ==> #[trigger] final(output)@[k] == input@[2 * k],
        forall|k: int|
            0 <= k < input@.len() / 2 ==> #[trigger] final(output)@[input@.len() / 2 + k]
                == input@[input@.len() - 1 - 2 * k],
{
    let n = input.len();
    let half = n / 2;
    let mut k: usize = 0;
    while k < half
        invariant
            n == input@.len(),
            n == 2 * half,
            output@.len() == n,
            k <= half,
            forall|t: int| 0 <= t < k ==> #[trigger] output@[t] == input@[2 * t],
            forall|t: int| 0 <= t < k ==> #[trigger] output@[half + t] == input@[n - 1 - 2 * t],
        decreases half - k,
    {
        output[k] = input[2 * k];
        output[half + k] = input[n - 1 - 2 * k];
        k = k + 1;
    }
}

/// Spreads the two halves that an inverse FFT leaves over the `n` outputs of
/// the inverse transform: `re` goes to positions `0, 4, 8, ...` and then
/// `n - 1, n - 5, ...`; `im` to positions `2, 6, 10, ...` and then
/// `n - 3, n - 7, ...`.
pub fn unfold_inverse_output<T: Copy>(re: &[T], im: &[T], output: &mut [T])
    requires
        old(output)@.len() % 4 == 0,
        re@.len() == old(output)@.len() / 2,
        im@.len() == old(output)@.len() / 2,
    ensures
        final(output)@.len() == old(output)@.len(),
        forall|k: int| 0 <= k < old(output)@.len() / 4 ==> #[trigger] final(output)@[4 * k] == re@[k],
        forall|k: int|
            0 <= k < old(output)@.len() / 4 ==> #[trigger] final(output)@[old(output)@.len() - 1 - 4
                * k] == re@[old(output)@.len() / 4 + k],
        forall|k: int|
            0 <= k < old(output)@.len() / 4 ==> #[trigger] final(output)@[4 * k + 2] == im@[k],
        forall|k: int|
            0 <= k < old(output)@.len() / 4 ==> #[trigger] final(output)@[old(output)@.len() - 3 - 4
                * k] == im@[old(output)@.len() / 4 + k],
{
    let n = output.len();
    let quarter = n / 4;
    let mut k: usize = 0;
    while k < quarter
        invariant
            n == output@.len(),
            n == 4 * quarter,
            re@.len() == 2 * quarter,
            im@.len() == 2 * quarter,
            k <= quarter,
            forall|t: int| 0 <= t < k ==> #[trigger] output@[4 * t] == re@[t],
            forall|t: int| 0 <= t < k ==> #[trigger] output@[n - 1 - 4 * t] == re@[quarter + t],
            forall|t: int| 0 <= t < k ==> #[trigger] output@[4 * t + 2] == im@[t],
            forall|t: int| 0 <= t < k ==> #[trigger] output@[n - 3 - 4 * t] == im@[quarter + t],
        decreases quarter - k,
    {
        output[4 * k] = re[k];
        output[n - 1 - 4 * k] = re[quarter + k];
        output[4 * k + 2] = im[k];
        output[n - 3 - 4 * k] = im[quarter + k];
        k = k + 1;
    }
}

proof fn lemma_cell_bound(x: int, y: int, w: int, h: int)
    requires
        0 <= x < w,
        0 <= y < h,
    ensures
        0 <= y * w + x < w * h,
        0 <= y * w,
        y * w + w <= w * h,
{
    assert(y * w + w <= w * h) by (nonlinear_arith)
        requires
            0 <= y < h,
            0 <= w,
    ;
    assert(0 <= y * w) by (nonlinear_arith)
        requires
            0 <= y,
            0 <= w,
    ;
}

/// Writes the transpose of the `width × height` raster `src` into `dst`, a
/// `height × width` raster: sample `(x, y)` of `src` lands at `(y, x)`.
pub fn transpose<T: Copy>(src: &[T], dst: &mut [T], width: usize, height: usize)
    requires
        src@.len() == width * height,
        old(dst)@.len() == width * height,
    ensures
        final(dst)@.len() == width * height,
        forall|x: int, y: int|
            0 <= x < width && 0 <= y < height ==> #[trigger] final(dst)@[x * height + y]
                == src@[y * width + x],
{
    let total = src.len();
    if height == 0 {
        return;
    }
    let mut x: usize = 0;
    while x < width
        invariant
            total == width * height,
            height > 0,
            src@.len() == width * height,
            dst@.len() == width * height,
            x <= width,
            forall|a: int, b: int|
                0 <= a < x && 0 <= b < height ==> #[trigger] dst@[a * height + b] == src@[b * width
                    + a],
        decreases width - x,
    {
        let mut y: usize = 0;
        proof {
            lemma_cell_bound(0, x as int, height as int, width as int);
        }
        let base = x * height;
        while y < height
            invariant
                total == width * height,
                src@.len() == width * height,
                dst@.len() == width * height,
                x < width,
                y <= height,
                base == x * height,
                base + height <= width * height,
                forall|a: int, b: int|
                    0 <= a < x && 0 <= b < height ==> #[trigger] dst@[a * height + b] == src@[b
                        * width + a],
                forall|b: int| 0 <= b < y ==> #[trigger] dst@[base + b] == src@[b * width + x],
            decreases height - y,
        {
            proof {
                lemma_cell_bound(x as int, y as int, width as int, height as int);
            }
            let ghost before = dst@;
            dst[base + y] = src[y * width + x];
            proof {
                assert forall|a: int, b: int|
                    0 <= a < x && 0 <= b < height implies #[trigger] dst@[a * height + b]
                    == src@[b * width + a] by {
                    assert(a * height + b < x * height) by (nonlinear_arith)
                        requires
                            0 <= a < x,
                            0 <= b < height,
                    ;
                    assert(dst@[a * height + b] == before[a * height + b]);
                }
            }
            y = y + 1;
        }
        proof {
            assert forall|a: int, b: int|
                0 <= a < x + 1 && 0 <= b < height implies #[trigger] dst@[a * height + b] == src@[b
                * width + a] by {
                if a == x {
                    assert(dst@[base + b] == src@[b * width + x]);
                }
            }
        }
        x = x + 1;
    }
}

/// Offset of the quadrant that the asymmetric basis fills along one axis of
/// an 8×8 block.
pub open spec fn afv_origin(flip: bool) -> int {
    if flip {
        4
    } else {
        0
    }
}

/// Index into the 16 synthesised AFV samples of the one shown at
/// `(ix, iy)` of the quadrant, once the flips are applied.
pub open spec fn afv_source(ix: int, iy: int, flip_x: bool, flip_y: bool) -> int {
    let sx = if flip_x {
        3 - ix
    } else {
        ix
    };
    let sy = if flip_y {
        3 - iy
    } else {
        iy
    };
    sy * 4 + sx
}

/// Holds when `after` is `before` with the 4×4 AFV quadrant, chosen by the
/// flips, filled from `samples` and every other sample kept.
pub open spec fn afv_placed<T>(
    before: SimpleGrid<T>,
    samples: Seq<T>,
    flip_x: bool,
    flip_y: bool,
    after: SimpleGrid<T>,
) -> bool {
    &&& after.wf()
    &&& after.spec_width() == before.spec_width()
    &&& after.spec_height() == before.spec_height()
    &&& forall|x: int, y: int|
        #![trigger after.at(x, y)]
        before.in_bounds(x, y) ==> after.at(x, y) == if afv_origin(flip_x) <= x < afv_origin(flip_x)
            + 4 && afv_origin(flip_y) <= y < afv_origin(flip_y) + 4 {
            samples[afv_source(x - afv_origin(flip_x), y - afv_origin(flip_y), flip_x, flip_y)]
        } else {
            before.at(x, y)
        }
}

/// Two distinct cells of a raster `w` samples wide have distinct positions.
pub proof fn lemma_cell_injective(x1: int, y1: int, x2: int, y2: int, w: int)
    requires
        0 <= x1 < w,
        0 <= x2 < w,
        0 <= y1,
        0 <= y2,
        y1 * w + x1 == y2 * w + x2,
    ensures
        x1 == x2,
        y1 == y2,
{
    if y1 < y2 {
        assert(y1 * w + w <= y2 * w) by (nonlinear_arith)
            requires
                y1 < y2,
                0 <= w,
        ;
    } else if y2 < y1 {
        assert(y2 * w + w <= y1 * w) by (nonlinear_arith)
            requires
                y2 < y1,
                0 <= w,
        ;
    }
}

/// Writes the 16 samples synthesised from the AFV basis into their quadrant
/// of an 8×8 block: the top-left one, moved right by `flip_x` and down by
/// `flip_y`, and mirrored along each axis that is flipped.
pub fn place_afv_samples<T: Copy>(
    grid: &mut SimpleGrid<T>,
    samples: &[T],
    flip_x: bool,
    flip_y: bool,
)
    requires
        old(grid).wf(),
        old(grid).spec_width() >= 8,
        old(grid).spec_height() >= 8,
        samples@.len() == 16,
    ensures
        afv_placed(*old(grid), samples@, flip_x, flip_y, *final(grid)),
{
    let qx: usize = if flip_x {
        4
    } else {
        0
    };
    let qy: usize = if flip_y {
        4
    } else {
        0
    };
    let mut k: usize = 0;
    while k < 16
        invariant
            0 <= k <= 16,
            samples@.len() == 16,
            qx == afv_origin(flip_x),
            qy == afv_origin(flip_y),
            grid.wf(),
            old(grid).spec_width() >= 8,
            old(grid).spec_height() >= 8,
            grid.spec_width() == old(grid).spec_width(),
            grid.spec_height() == old(grid).spec_height(),
            forall|x: int, y: int|
                #![trigger grid.at(x, y)]
                old(grid).in_bounds(x, y) ==> grid.at(x, y) == if qx <= x < qx + 4 && qy <= y < qy
                    + 4 && (y - qy) * 4 + (x - qx) < k {
                    samples@[afv_source(x - qx, y - qy, flip_x, flip_y)]
                } else {
                    old(grid).at(x, y)
                },
        decreases 16 - k,
    {
        let ix = k % 4;
        let iy = k / 4;
        let sx = if flip_x {
            3 - ix
        } else {
            ix
        };
        let sy = if flip_y {
            3 - iy
        } else {
            iy
        };
        let v = samples[sy * 4 + sx];
        let ghost before = *grid;
        let ghost tx = (qx + ix) as int;
        let ghost ty = (qy + iy) as int;
        proof {
            vstd::arithmetic::div_mod::lemma_fundamental_div_mod(k as int, 4);
            assert(ix < 4 && iy < 4);
            assert(k == iy * 4 + ix);
            assert(grid.in_bounds(tx, ty));
        }
        match grid.get_mut(qx + ix, qy + iy) {
            Some(e) => {
                *e = v;
            },
            None => {},
        }
        proof {
            assert forall|x: int, y: int| old(grid).in_bounds(x, y) implies #[trigger] grid.at(x, y)
                == if qx <= x < qx + 4 && qy <= y < qy + 4 && (y - qy) * 4 + (x - qx) < k + 1 {
                samples@[afv_source(x - qx, y - qy, flip_x, flip_y)]
            } else {
                old(grid).at(x, y)
            } by {
                before.lemma_at_in_range(x, y);
                before.lemma_at_in_range(tx, ty);
                if x == tx && y == ty {
                } else {
                    if y * grid.spec_width() + x == ty * grid.spec_width() + tx {
                        lemma_cell_injective(x, y, tx, ty, grid.spec_width() as int);
                    }
                    assert(grid.at(x, y) == before.at(x, y));
                }
            }
        }
        k = k + 1;
    }
}

/// The AFV quadrant is a mirror image of itself under each flip: placing the
/// same samples with the horizontal flip toggled mirrors the quadrant left
/// to right, with the vertical flip toggled top to bottom, and with both
/// toggled along both axes.
pub proof fn lemma_afv_flips_mirror<T>(
    before: SimpleGrid<T>,
    samples: Seq<T>,
    flip_x: bool,
    flip_y: bool,
    same: SimpleGrid<T>,
    across_x: SimpleGrid<T>,
    across_y: SimpleGrid<T>,
    across_both: SimpleGrid<T>,
)
    requires
        before.spec_width() >= 8,
        before.spec_height() >= 8,
        afv_placed(before, samples, flip_x, flip_y, same),
        afv_placed(before, samples, !flip_x, flip_y, across_x),
        afv_placed(before, samples, flip_x, !flip_y, across_y),
        afv_placed(before, samples, !flip_x, !flip_y, across_both),
    ensures
        forall|ix: int, iy: int|
            0 <= ix < 4 && 0 <= iy < 4 ==> {
                let v = #[trigger] same.at(afv_origin(flip_x) + ix, afv_origin(flip_y) + iy);
                &&& v == across_x.at(afv_origin(!flip_x) + 3 - ix, afv_origin(flip_y) + iy)
                &&& v == across_y.at(afv_origin(flip_x) + ix, afv_origin(!flip_y) + 3 - iy)
                &&& v == across_both.at(afv_origin(!flip_x) + 3 - ix, afv_origin(!flip_y) + 3 - iy)
            },
{
    assert forall|ix: int, iy: int| 0 <= ix < 4 && 0 <= iy < 4 implies {
        let v = #[trigger] same.at(afv_origin(flip_x) + ix, afv_origin(flip_y) + iy);
        &&& v == across_x.at(afv_origin(!flip_x) + 3 - ix, afv_origin(flip_y) + iy)
        &&& v == across_y.at(afv_origin(flip_x) + ix, afv_origin(!flip_y) + 3 - iy)
        &&& v == across_both.at(afv_origin(!flip_x) + 3 - ix, afv_origin(!flip_y) + 3 - iy)
    } by {
        let _ = same.at(afv_origin(flip_x) + ix, afv_origin(flip_y) + iy);
        let _ = across_x.at(afv_origin(!flip_x) + 3 - ix, afv_origin(flip_y) + iy);
        let _ = across_y.at(afv_origin(flip_x) + ix, afv_origin(!flip_y) + 3 - iy);
        let _ = across_both.at(afv_origin(!flip_x) + 3 - ix, afv_origin(!flip_y) + 3 - iy);
    }
}

/// Holds when the `w × h` lattice that starts at `(x0, y0)` and steps by two
/// samples along each axis reaches no further than a `width × height` grid.
pub open spec fn stride2_fits(x0: int, y0: int, w: int, h: int, width: int, height: int) -> bool {
    &&& 0 <= x0
    &&& 0 <= y0
    &&& 0 < w
    &&& 0 < h
    &&& x0 + 2 * (w - 1) < width
    &&& y0 + 2 * (h - 1) < height
}

/// Reads the `w × h` lattice that starts at `(x0, y0)` and steps by two
/// samples along each axis, as a raster `w` samples wide.
pub fn gather_stride2<T: Copy>(grid: &SimpleGrid<T>, x0: usize, y0: usize, w: usize, h: usize) -> (r:
    Vec<T>)
    requires
        grid.wf(),
        stride2_fits(
            x0 as int,
            y0 as int,
            w as int,
            h as int,
            grid.spec_width() as int,
            grid.spec_height() as int,
        ),
    ensures
        r@.len() == w * h,
        forall|ix: int, iy: int|
            0 <= ix < w && 0 <= iy < h ==> #[trigger] r@[iy * w + ix] == grid.at(
                x0 + 2 * ix,
                y0 + 2 * iy,
            ),
{
    let gw = grid.width();
    let gh = grid.height();
    let mut r: Vec<T> = Vec::new();
    let mut iy: usize = 0;
    while iy < h
        invariant
            grid.wf(),
            stride2_fits(
                x0 as int,
                y0 as int,
                w as int,
                h as int,
                grid.spec_width() as int,
                grid.spec_height() as int,
            ),
            gw == grid.spec_width(),
            gh == grid.spec_height(),
            iy <= h,
            r@.len() == iy * w,
            forall|a: int, b: int|
                0 <= a < w && 0 <= b < iy ==> #[trigger] r@[b * w + a] == grid.at(
                    x0 + 2 * a,
                    y0 + 2 * b,
                ),
        decreases h - iy,
    {
        let mut ix: usize = 0;
        while ix < w
            invariant
                grid.wf(),
                stride2_fits(
                    x0 as int,
                    y0 as int,
                    w as int,
                    h as int,
                    grid.spec_width() as int,
                    grid.spec_height() as int,
                ),
                gw == grid.spec_width(),
                gh == grid.spec_height(),
                iy < h,
                ix <= w,
                r@.len() == iy * w + ix,
                forall|a: int, b: int|
                    0 <= a < w && 0 <= b < iy ==> #[trigger] r@[b * w + a] == grid.at(
                        x0 + 2 * a,
                        y0 + 2 * b,
                    ),
                forall|a: int| 0 <= a < ix ==> #[trigger] r@[iy * w + a] == grid.at(
                    x0 + 2 * a,
                    y0 + 2 * iy,
                ),
            decreases w - ix,
        {
            let ghost before = r@;
            let v = *grid.get(x0 + 2 * ix, y0 + 2 * iy).unwrap();
            r.push(v);
            proof {
                assert forall|a: int, b: int|
                    0 <= a < w && 0 <= b < iy implies #[trigger] r@[b * w + a] == grid.at(
                    x0 + 2 * a,
                    y0 + 2 * b,
                ) by {
                    assert(b * w + a < iy * w) by (nonlinear_arith)
                        requires
                            0 <= a < w,
                            0 <= b < iy,
                    ;
                    assert(r@[b * w + a] == before[b * w + a]);
                }
            }
            ix = ix + 1;
        }
        proof {
            assert((iy + 1) * w == iy * w + w) by (nonlinear_arith);
            assert forall|a: int, b: int|
                0 <= a < w && 0 <= b < iy + 1 implies #[trigger] r@[b * w + a] == grid.at(
                x0 + 2 * a,
                y0 + 2 * b,
            ) by {
                if b == iy {
                    assert(r@[iy * w + a] == grid.at(x0 + 2 * a, y0 + 2 * iy));
                }
            }
        }
        iy = iy + 1;
    }
    assert(r@.len() == w * h) by (nonlinear_arith)
        requires
            r@.len() == iy * w,
            iy == h,
    ;
    r
}

/// Holds when `(x, y)` lies on the `w × h` lattice that starts at `(x0, y0)`
/// and steps by two samples along each axis.
pub open spec fn on_stride2(x0: int, y0: int, w: int, h: int, x: int, y: int) -> bool {
    &&& x0 <= x
    &&& y0 <= y
    &&& (x - x0) % 2 == 0
    &&& (y - y0) % 2 == 0
    &&& (x - x0) / 2 < w
    &&& (y - y0) / 2 < h
}

/// Holds when `after` is `before` with the lattice of [`on_stride2`] filled
/// from the raster `src`, `w` samples wide, and every other sample kept.
pub open spec fn stride2_scattered<T>(
    before: SimpleGrid<T>,
    src: Seq<T>,
    x0: int,
    y0: int,
    w: int,
    h: int,
    after: SimpleGrid<T>,
) -> bool {
    &&& after.wf()
    &&& after.spec_width() == before.spec_width()
    &&& after.spec_height() == before.spec_height()
    &&& forall|x: int, y: int|
        #![trigger after.at(x, y)]
        before.in_bounds(x, y) ==> after.at(x, y) == if on_stride2(x0, y0, w, h, x, y) {
            src[((y - y0) / 2) * w + (x - x0) / 2]
        } else {
            before.at(x, y)
        }
}

/// Writes the raster `src`, `w` samples wide, onto the `w × h` lattice that
/// starts at `(x0, y0)` and steps by two samples along each axis.
pub fn scatter_stride2<T: Copy>(
    grid: &mut SimpleGrid<T>,
    src: &[T],
    x0: usize,
    y0: usize,
    w: usize,
    h: usize,
)
    requires
        old(grid).wf(),
        stride2_fits(
            x0 as int,
            y0 as int,
            w as int,
            h as int,
            old(grid).spec_width() as int,
            old(grid).spec_height() as int,
        ),
        src@.len() == w * h,
    ensures
        stride2_scattered(*old(grid), src@, x0 as int, y0 as int, w as int, h as int, *final(grid)),
{
    let gw = grid.width();
    let gh = grid.height();
    let n = src.len();
    let mut iy: usize = 0;
    while iy < h
        invariant
            grid.wf(),
            stride2_fits(x0 as int, y0 as int, w as int, h as int, gw as int, gh as int),
            gw == old(grid).spec_width(),
            gh == old(grid).spec_height(),
            grid.spec_width() == gw,
            grid.spec_height() == gh,
            src@.len() == w * h,
            n == w * h,
            iy <= h,
            forall|x: int, y: int|
                #![trigger grid.at(x, y)]
                old(grid).in_bounds(x, y) ==> grid.at(x, y) == if on_stride2(
                    x0 as int,
                    y0 as int,
                    w as int,
                    iy as int,
                    x,
                    y,
                ) {
                    src@[((y - y0) / 2) * w + (x - x0) / 2]
                } else {
                    old(grid).at(x, y)
                },
        decreases h - iy,
    {
        let mut ix: usize = 0;
        while ix < w
            invariant
                grid.wf(),
                stride2_fits(x0 as int, y0 as int, w as int, h as int, gw as int, gh as int),
                gw == old(grid).spec_width(),
                gh == old(grid).spec_height(),
                grid.spec_width() == gw,
                grid.spec_height() == gh,
                src@.len() == w * h,
                n == w * h,
                iy < h,
                ix <= w,
                forall|x: int, y: int|
                    #![trigger grid.at(x, y)]
                    old(grid).in_bounds(x, y) ==> grid.at(x, y) == if on_stride2(
                        x0 as int,
                        y0 as int,
                        w as int,
                        iy as int,
                        x,
                        y,
                    ) || (on_stride2(x0 as int, y0 as int, ix as int, iy + 1, x, y) && (y - y0) / 2
                        == iy) {
                        src@[((y - y0) / 2) * w + (x - x0) / 2]
                    } else {
                        old(grid).at(x, y)
                    },
            decreases w - ix,
        {
            proof {
                lemma_cell_bound(ix as int, iy as int, w as int, h as int);
            }
            let v = src[iy * w + ix];
            let ghost before = *grid;
            let ghost tx = x0 + 2 * ix;
            let ghost ty = y0 + 2 * iy;
            match grid.get_mut(x0 + 2 * ix, y0 + 2 * iy) {
                Some(e) => {
                    *e = v;
                },
                None => {},
            }
            proof {
                assert forall|x: int, y: int| old(grid).in_bounds(x, y) implies #[trigger] grid.at(
                    x,
                    y,
                ) == if on_stride2(x0 as int, y0 as int, w as int, iy as int, x, y) || (on_stride2(
                    x0 as int,
                    y0 as int,
                    ix + 1,
                    iy + 1,
                    x,
                    y,
                ) && (y - y0) / 2 == iy) {
                    src@[((y - y0) / 2) * w + (x - x0) / 2]
                } else {
                    old(grid).at(x, y)
                } by {
                    before.lemma_at_in_range(x, y);
                    before.lemma_at_in_range(tx, ty);
                    if x == tx && y == ty {
                    } else {
                        if y * gw + x == ty * gw + tx {
                            lemma_cell_injective(x, y, tx, ty, gw as int);
                        }
                        assert(grid.at(x, y) == before.at(x, y));
                    }
                }
            }
            ix = ix + 1;
        }
        iy = iy + 1;
    }
}

/// Where sample `(x, y)` of the interleaved `size × size` corner comes from:
/// the same offset `(x / 2, y / 2)` inside the quadrant that the parities
/// of `x` and `y` pick.
pub open spec fn quadrant_source(coord: int, size: int) -> int {
    coord / 2 + if coord % 2 == 1 {
        size / 2
    } else {
        0
    }
}

/// Holds when `after` is `before` with its `size × size` corner rearranged
/// from four quadrants into interleaved 2×2 cells, every other sample kept.
pub open spec fn quadrants_interleaved<T>(before: SimpleGrid<T>, size: int, after: SimpleGrid<T>) -> bool {
    &&& after.wf()
    &&& after.spec_width() == before.spec_width()
    &&& after.spec_height() == before.spec_height()
    &&& forall|x: int, y: int|
        #![trigger after.at(x, y)]
        before.in_bounds(x, y) ==> after.at(x, y) == if x < size && y < size {
            before.at(quadrant_source(x, size), quadrant_source(y, size))
        } else {
            before.at(x, y)
        }
}

/// Rearranges the `size × size` corner of `grid`, read as four quadrants of
/// `size / 2 × size / 2`, so that the samples at one offset in the four
/// quadrants form one 2×2 cell: the top-left quadrant gives the cell's
/// top-left sample, the top-right its top-right one, and so on.
pub fn interleave_quadrants<T: Copy>(grid: &mut SimpleGrid<T>, size: usize)
    requires
        old(grid).wf(),
        size % 2 == 0,
        size <= old(grid).spec_width(),
        size <= old(grid).spec_height(),
    ensures
        quadrants_interleaved(*old(grid), size as int, *final(grid)),
{
    let gw = grid.width();
    let gh = grid.height();
    let half = size / 2;
    let mut scratch: Vec<T> = Vec::new();
    let mut y: usize = 0;
    while y < size
        invariant
            grid.wf(),
            *grid == *old(grid),
            gw == grid.spec_width(),
            gh == grid.spec_height(),
            size <= gw,
            size <= gh,
            half == size / 2,
            size % 2 == 0,
            y <= size,
            scratch@.len() == y * size,
            forall|a: int, b: int|
                0 <= a < size && 0 <= b < y ==> #[trigger] scratch@[b * size + a] == grid.at(
                    quadrant_source(a, size as int),
                    quadrant_source(b, size as int),
                ),
        decreases size - y,
    {
        let mut x: usize = 0;
        while x < size
            invariant
                grid.wf(),
                *grid == *old(grid),
                gw == grid.spec_width(),
                gh == grid.spec_height(),
                size <= gw,
                size <= gh,
                half == size / 2,
                size % 2 == 0,
                y < size,
                x <= size,
                scratch@.len() == y * size + x,
                forall|a: int, b: int|
                    0 <= a < size && 0 <= b < y ==> #[trigger] scratch@[b * size + a] == grid.at(
                        quadrant_source(a, size as int),
                        quadrant_source(b, size as int),
                    ),
                forall|a: int| 0 <= a < x ==> #[trigger] scratch@[y * size + a] == grid.at(
                    quadrant_source(a, size as int),
                    quadrant_source(y as int, size as int),
                ),
            decreases size - x,
        {
            let ghost before = scratch@;
            let sx = x / 2 + if x % 2 == 1 {
                half
            } else {
                0
            };
            let sy = y / 2 + if y % 2 == 1 {
                half
            } else {
                0
            };
            let v = *grid.get(sx, sy).unwrap();
            scratch.push(v);
            proof {
                assert forall|a: int, b: int|
                    0 <= a < size && 0 <= b < y implies #[trigger] scratch@[b * size + a] == grid.at(
                    quadrant_source(a, size as int),
                    quadrant_source(b, size as int),
                ) by {
                    assert(b * size + a < y * size) by (nonlinear_arith)
                        requires
                            0 <= a < size,
                            0 <= b < y,
                    ;
                    assert(scratch@[b * size + a] == before[b * size + a]);
                }
            }
            x = x + 1;
        }
        proof {
            assert((y + 1) * size == y * size + size) by (nonlinear_arith);
            assert forall|a: int, b: int|
                0 <= a < size && 0 <= b < y + 1 implies #[trigger] scratch@[b * size + a] == grid.at(
                quadrant_source(a, size as int),
                quadrant_source(b, size as int),
            ) by {
                if b == y {
                    assert(scratch@[y * size + a] == grid.at(
                        quadrant_source(a, size as int),
                        quadrant_source(y as int, size as int),
                    ));
                }
            }
        }
        y = y + 1;
    }
    let n = scratch.len();
    let mut y: usize = 0;
    while y < size
        invariant
            grid.wf(),
            gw == grid.spec_width(),
            gh == grid.spec_height(),
            gw == old(grid).spec_width(),
            gh == old(grid).spec_height(),
            size <= gw,
            size <= gh,
            y <= size,
            n == scratch@.len(),
            scratch@.len() == size * size,
            forall|a: int, b: int|
                0 <= a < size && 0 <= b < size ==> #[trigger] scratch@[b * size + a] == old(
                    grid,
                ).at(quadrant_source(a, size as int), quadrant_source(b, size as int)),
            forall|a: int, b: int|
                #![trigger grid.at(a, b)]
                old(grid).in_bounds(a, b) ==> grid.at(a, b) == if a < size && b < y {
                    scratch@[b * size + a]
                } else {
                    old(grid).at(a, b)
                },
        decreases size - y,
    {
        let mut x: usize = 0;
        while x < size
            invariant
                grid.wf(),
                gw == grid.spec_width(),
                gh == grid.spec_height(),
                gw == old(grid).spec_width(),
                gh == old(grid).spec_height(),
                size <= gw,
                size <= gh,
                y < size,
                x <= size,
                n == scratch@.len(),
                scratch@.len() == size * size,
                forall|a: int, b: int|
                    #![trigger grid.at(a, b)]
                    old(grid).in_bounds(a, b) ==> grid.at(a, b) == if a < size && (b < y || (b
                        == y && a < x)) {
                        scratch@[b * size + a]
                    } else {
                        old(grid).at(a, b)
                    },
            decreases size - x,
        {
            proof {
                lemma_cell_bound(x as int, y as int, size as int, size as int);
            }
            let v = scratch[y * size + x];
            let ghost before = *grid;
            match grid.get_mut(x, y) {
                Some(e) => {
                    *e = v;
                },
                None => {},
            }
            proof {
                assert forall|a: int, b: int| old(grid).in_bounds(a, b) implies #[trigger] grid.at(
                    a,
                    b,
                ) == if a < size && (b < y || (b == y && a < x + 1)) {
                    scratch@[b * size + a]
                } else {
                    old(grid).at(a, b)
                } by {
                    before.lemma_at_in_range(a, b);
                    before.lemma_at_in_range(x as int, y as int);
                    if a == x && b == y {
                    } else {
                        if b * gw + a == y * gw + x {
                            lemma_cell_injective(a, b, x as int, y as int, gw as int);
                        }
                        assert(grid.at(a, b) == before.at(a, b));
                    }
                }
            }
            x = x + 1;
        }
        y = y + 1;
    }
}

/// Holds when `after` is `before` with the `w × h` rectangle at `(x0, y0)`
/// filled from the raster `src`, `w` samples wide, and every other sample
/// kept.
pub open spec fn block_put<T>(
    before: SimpleGrid<T>,
    src: Seq<T>,
    x0: int,
    y0: int,
    w: int,
    h: int,
    after: SimpleGrid<T>,
) -> bool {
    &&& after.wf()
    &&& after.spec_width() == before.spec_width()
    &&& after.spec_height() == before.spec_height()
    &&& forall|x: int, y: int|
        #![trigger after.at(x, y)]
        before.in_bounds(x, y) ==> after.at(x, y) == if x0 <= x < x0 + w && y0 <= y < y0 + h {
            src[(y - y0) * w + (x - x0)]
        } else {
            before.at(x, y)
        }
}

/// Writes the raster `src`, `w` samples wide, into the `w × h` rectangle of
/// `grid` whose top-left sample is `(x0, y0)`.
pub fn put_block<T: Copy>(
    grid: &mut SimpleGrid<T>,
    src: &[T],
    x0: usize,
    y0: usize,
    w: usize,
    h: usize,
)
    requires
        old(grid).wf(),
        x0 + w <= old(grid).spec_width(),
        y0 + h <= old(grid).spec_height(),
        src@.len() == w * h,
    ensures
        block_put(*old(grid), src@, x0 as int, y0 as int, w as int, h as int, *final(grid)),
{
    let gw = grid.width();
    let gh = grid.height();
    let n = src.len();
    let mut iy: usize = 0;
    while iy < h
        invariant
            grid.wf(),
            gw == old(grid).spec_width(),
            gh == old(grid).spec_height(),
            grid.spec_width() == gw,
            grid.spec_height() == gh,
            x0 + w <= gw,
            y0 + h <= gh,
            src@.len() == w * h,
            n == w * h,
            iy <= h,
            forall|x: int, y: int|
                #![trigger grid.at(x, y)]
                old(grid).in_bounds(x, y) ==> grid.at(x, y) == if x0 <= x < x0 + w && y0 <= y < y0
                    + iy {
                    src@[(y - y0) * w + (x - x0)]
                } else {
                    old(grid).at(x, y)
                },
        decreases h - iy,
    {
        let mut ix: usize = 0;
        while ix < w
            invariant
                grid.wf(),
                gw == old(grid).spec_width(),
                gh == old(grid).spec_height(),
                grid.spec_width() == gw,
                grid.spec_height() == gh,
                x0 + w <= gw,
                y0 + h <= gh,
                src@.len() == w * h,
                n == w * h,
                iy < h,
                ix <= w,
                forall|x: int, y: int|
                    #![trigger grid.at(x, y)]
                    old(grid).in_bounds(x, y) ==> grid.at(x, y) == if (x0 <= x < x0 + w && y0 <= y
                        < y0 + iy) || (x0 <= x < x0 + ix && y == y0 + iy) {
                        src@[(y - y0) * w + (x - x0)]
                    } else {
                        old(grid).at(x, y)
                    },
            decreases w - ix,
        {
            proof {
                lemma_cell_bound(ix as int, iy as int, w as int, h as int);
            }
            let v = src[iy * w + ix];
            let ghost before = *grid;
            let ghost tx = x0 + ix;
            let ghost ty = y0 + iy;
            match grid.get_mut(x0 + ix, y0 + iy) {
                Some(e) => {
                    *e = v;
                },
                None => {},
            }
            proof {
                assert forall|x: int, y: int| old(grid).in_bounds(x, y) implies #[trigger] grid.at(
                    x,
                    y,
                ) == if (x0 <= x < x0 + w && y0 <= y < y0 + iy) || (x0 <= x < x0 + ix + 1 && y
                    == y0 + iy) {
                    src@[(y - y0) * w + (x - x0)]
                } else {
                    old(grid).at(x, y)
                } by {
                    before.lemma_at_in_range(x, y);
                    before.lemma_at_in_range(tx, ty);
                    if x == tx && y == ty {
                    } else {
                        if y * gw + x == ty * gw + tx {
                            lemma_cell_injective(x, y, tx, ty, gw as int);
                        }
                        assert(grid.at(x, y) == before.at(x, y));
                    }
                }
            }
            ix = ix + 1;
        }
        iy = iy + 1;
    }
}

} // verus!
