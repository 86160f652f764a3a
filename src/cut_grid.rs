//! A mutable rectangular window into a borrowed sample buffer.
use vstd::prelude::*;

verus! {

/// Why a window could not be made.
#[derive(Debug, Clone, Copy, PartialEq, Eq, Structural)]
pub enum GridError {
    /// The width or height is zero, the width exceeds the stride, or the
    /// buffer is too short for the area.
    InvalidDimensions,
}

/// Holds when a `width × height` area whose rows start `stride` apart fits in
/// `len` elements.
pub open spec fn area_fits(len: int, width: int, height: int, stride: int) -> bool {
    &&& width <= stride
    &&& height > 0 ==> stride * (height - 1) + width <= len
}

/// Relies on `<[T]>::as_ptr`: the address of the slice's first element, as
/// an integer. Nothing is known of its value.
#[verifier::external_body]
fn slice_address<T>(buf: &[T]) -> (r: usize) {
    buf.as_ptr() as usize
}

/// Shape, in lanes of `lane_size` samples, of a window whose first sample is
/// at `addr`, as `(width, stride)`: available only when `addr` is a multiple
/// of `lane_align` and the width and the stride are multiples of
/// `lane_size`; otherwise `None`, and the window is to be read sample by
/// sample.
pub fn lane_dims(addr: usize, width: usize, stride: usize, lane_size: usize, lane_align: usize) -> (r:
    Option<(usize, usize)>)
    requires
        lane_size > 0,
        lane_align > 0,
    ensures
        r is Some <==> (addr % lane_align == 0 && width % lane_size == 0 && stride % lane_size
            == 0),
        r is Some ==> r == Some((width / lane_size, stride / lane_size)),
{
    if addr % lane_align == 0 && width % lane_size == 0 && stride % lane_size == 0 {
        Some((width / lane_size, stride / lane_size))
    } else {
        None
    }
}

/// A mutable subgrid of a buffer: `height` rows of `width` samples, the rows
/// `stride` elements apart, the first row at the start of `buf`.
///
/// Since the window holds the only borrow of `buf`, two windows can never
/// overlap.
#[derive(Debug)]
pub struct CutGrid<'g, Lane> {
    pub buf: &'g mut [Lane],
    pub width: usize,
    pub height: usize,
    pub stride: usize,
}

impl<'g, Lane: Copy> CutGrid<'g, Lane> {
    /// What the borrowed buffer holds.
    pub open spec fn backing(&self) -> Seq<Lane> {
        self.buf@
    }

    pub open spec fn wf(&self) -> bool {
        area_fits(self.backing().len() as int, self.width as int, self.height as int, self.stride as int)
    }

    pub open spec fn in_bounds(&self, x: int, y: int) -> bool {
        0 <= x < self.width && 0 <= y < self.height
    }

    /// Position of sample `(x, y)` in `buf`.
    pub open spec fn index_of(&self, x: int, y: int) -> int {
        y * self.stride + x
    }

    /// The sample at `(x, y)` of the window.
    pub open spec fn at(&self, x: int, y: int) -> Lane {
        self.backing()[self.index_of(x, y)]
    }

    /// Holds when `other` is a window of the same shape over a buffer of the
    /// same length.
    pub open spec fn same_shape(&self, other: &Self) -> bool {
        &&& other.width == self.width
        &&& other.height == self.height
        &&& other.stride == self.stride
        &&& other.backing().len() == self.backing().len()
    }

    /// The row `y` of a well-formed window lies inside the buffer.
    pub proof fn lemma_row_in_range(&self, y: int)
        requires
            self.wf(),
            0 <= y < self.height,
        ensures
            0 <= y * self.stride,
            self.index_of(0, y) + self.width <= self.backing().len(),
    {
        let s = self.stride as int;
        let h = self.height as int;
        assert(0 <= y * s) by (nonlinear_arith)
            requires
                0 <= y,
                0 <= s,
        ;
        assert(y * s <= s * (h - 1)) by (nonlinear_arith)
            requires
                0 <= y < h,
                0 <= s,
        ;
    }

    /// Makes a window over `buf` whose area the caller has checked.
    pub fn new(buf: &'g mut [Lane], width: usize, height: usize, stride: usize) -> (r: Self)
        requires
            area_fits(old(buf)@.len() as int, width as int, height as int, stride as int),
        ensures
            r.wf(),
            r.buf@ == old(buf)@,
            r.width == width,
            r.height == height,
            r.stride == stride,
            final(buf)@ == final(r.buf)@,
    {
        CutGrid { buf, width, height, stride }
    }

    /// Makes a window over `buf`, or fails with `InvalidDimensions` when
    /// either dimension is zero, `width > stride`, or `buf` is shorter than
    /// `stride * (height - 1) + width`.
    pub fn from_buf(buf: &'g mut [Lane], width: usize, height: usize, stride: usize) -> (r: Result<
        Self,
        GridError,
    >)
        ensures
            r is Ok <==> (width > 0 && height > 0 && area_fits(
                old(buf)@.len() as int,
                width as int,
                height as int,
                stride as int,
            )),
            r is Err ==> r == Err::<Self, GridError>(GridError::InvalidDimensions) && final(buf)@
                == old(buf)@,
            r matches Ok(g) ==> {
                &&& g.wf()
                &&& g.buf@ == old(buf)@
                &&& g.width == width
                &&& g.height == height
                &&& g.stride == stride
                &&& final(buf)@ == final(g.buf)@
            },
    {
        if width == 0 || height == 0 || width > stride {
            return Err(GridError::InvalidDimensions);
        }
        let len = buf.len();
        if len < width {
            return Err(GridError::InvalidDimensions);
        }
        if (height - 1) > (len - width) / stride {
            proof {
                assert(stride * (height - 1) + width > len) by (nonlinear_arith)
                    requires
                        height - 1 > (len - width) / stride as int,
                        stride > 0,
                        len >= width,
                ;
            }
            return Err(GridError::InvalidDimensions);
        }
        proof {
            assert(stride * (height - 1) + width <= len) by (nonlinear_arith)
                requires
                    height - 1 <= (len - width) / stride as int,
                    stride > 0,
                    len >= width,
            ;
        }
        Ok(CutGrid::new(buf, width, height, stride))
    }
    pub fn width(&self) -> (r: usize)
        ensures
            r == self.width,
    {
        self.width
    }

    pub fn height(&self) -> (r: usize)
        ensures
            r == self.height,
    {
        self.height
    }

    /// The sample at `(x, y)`.
    pub fn get(&self, x: usize, y: usize) -> (r: Lane)
        requires
            self.wf(),
            self.in_bounds(x as int, y as int),
        ensures
            r == self.at(x as int, y as int),
    {
        let _len = self.buf.len();
        proof {
            self.lemma_row_in_range(y as int);
        }
        self.buf[y * self.stride + x]
    }

    /// The `width` samples of row `row`.
    pub fn get_row(&self, row: usize) -> (r: &[Lane])
        requires
            self.wf(),
            row < self.height,
        ensures
            r@ == self.backing().subrange(
                self.index_of(0, row as int),
                self.index_of(0, row as int) + self.width,
            ),
            forall|x: int| 0 <= x < self.width ==> #[trigger] r@[x] == self.at(x, row as int),
    {
        let _len = self.buf.len();
        proof {
            self.lemma_row_in_range(row as int);
        }
        let start = row * self.stride;
        &self.buf[start..start + self.width]
    }

    /// A mutable reference to the sample at `(x, y)`.
    pub fn get_mut(&mut self, x: usize, y: usize) -> (r: &mut Lane)
        requires
            old(self).wf(),
            old(self).in_bounds(x as int, y as int),
        ensures
            *r == old(self).at(x as int, y as int),
            old(self).same_shape(&*final(self)),
            final(final(self).buf)@ == final(old(self).buf)@,
            final(self).backing() == old(self).backing().update(
                old(self).index_of(x as int, y as int),
                *final(r),
            ),
    {
        let _len = self.buf.len();
        proof {
            self.lemma_row_in_range(y as int);
        }
        let idx = y * self.stride + x;
        &mut self.buf[idx]
    }

    /// The `width` samples of row `row`, for writing.
    pub fn get_row_mut(&mut self, row: usize) -> (r: &mut [Lane])
        requires
            old(self).wf(),
            row < old(self).height,
        ensures
            r@ == old(self).backing().subrange(
                old(self).index_of(0, row as int),
                old(self).index_of(0, row as int) + old(self).width,
            ),
            old(self).width == final(self).width,
            old(self).height == final(self).height,
            old(self).stride == final(self).stride,
            final(final(self).buf)@ == final(old(self).buf)@,
            final(self).backing() == old(self).backing().subrange(
                0,
                old(self).index_of(0, row as int),
            ) + final(r)@ + old(self).backing().subrange(
                old(self).index_of(0, row as int) + old(self).width,
                old(self).backing().len() as int,
            ),
    {
        let _len = self.buf.len();
        proof {
            self.lemma_row_in_range(row as int);
        }
        let start = row * self.stride;
        let width = self.width;
        let (_, rest) = self.buf.split_at_mut(start);
        let (line, _) = rest.split_at_mut(width);
        line
    }

    /// Shape of the window in lanes of `lane_size` samples, as
    /// `(width, stride)`, when its buffer starts at a multiple of
    /// `lane_align` bytes and its width and stride are multiples of
    /// `lane_size`; `None` otherwise, and always when the width or the
    /// stride is not such a multiple.
    pub fn lane_layout(&self, lane_size: usize, lane_align: usize) -> (r: Option<(usize, usize)>)
        requires
            lane_size > 0,
            lane_align > 0,
        ensures
            !(self.width % lane_size == 0 && self.stride % lane_size == 0) ==> r is None,
            r is Some ==> r == Some((self.width / lane_size, self.stride / lane_size)),
    {
        let addr = slice_address(&*self.buf);
        lane_dims(addr, self.width, self.stride, lane_size, lane_align)
    }

    /// Exchanges the samples at `a` and `b`, each given as `(x, y)`.
    pub fn swap(&mut self, a: (usize, usize), b: (usize, usize))
        requires
            old(self).wf(),
            old(self).in_bounds(a.0 as int, a.1 as int),
            old(self).in_bounds(b.0 as int, b.1 as int),
        ensures
            old(self).same_shape(&*final(self)),
            final(final(self).buf)@ == final(old(self).buf)@,
            final(self).backing() == old(self).backing().update(
                old(self).index_of(a.0 as int, a.1 as int),
                old(self).at(b.0 as int, b.1 as int),
            ).update(old(self).index_of(b.0 as int, b.1 as int), old(self).at(a.0 as int, a.1 as int)),
    {
        let (ax, ay) = a;
        let (bx, by) = b;
        let _len = self.buf.len();
        proof {
            self.lemma_row_in_range(ay as int);
            self.lemma_row_in_range(by as int);
        }
        let ia = ay * self.stride + ax;
        let ib = by * self.stride + bx;
        if ia == ib {
            return;
        }
        let va = self.buf[ia];
        let vb = self.buf[ib];
        self.buf[ia] = vb;
        self.buf[ib] = va;
    }
}

} // verus!
