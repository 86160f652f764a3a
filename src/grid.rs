//! A contiguous, alignment-padded sample buffer in raster order.
use vstd::prelude::*;

verus! {

/// Smallest alignment, in bytes, of the first sample of a grid: the width of
/// the widest vector registers that the transforms are written for.
pub const MIN_ALIGN: usize = 32;

/// The alignment a grid of `S` gives its first sample: the larger of the
/// type's own alignment and [`MIN_ALIGN`].
pub open spec fn spec_align<S>() -> nat {
    if vstd::layout::align_of::<S>() > MIN_ALIGN as nat {
        vstd::layout::align_of::<S>()
    } else {
        MIN_ALIGN as nat
    }
}

/// Computes [`spec_align`].
pub fn compute_align<S>() -> (r: usize)
    ensures
        r as nat == spec_align::<S>(),
        r >= MIN_ALIGN,
{
    let base_align = core::mem::align_of::<S>();
    if base_align > MIN_ALIGN {
        base_align
    } else {
        MIN_ALIGN
    }
}

/// Holds when `v` is a value that `S::default()` may return.
pub open spec fn is_default<S: Default>(v: S) -> bool {
    call_ensures(S::default, (), v)
}

/// Relies on `Vec::as_ptr`: the address of the buffer's first element, as an
/// integer. Nothing is known of its value.
#[verifier::external_body]
fn buffer_address<S>(buf: &Vec<S>) -> (r: usize) {
    buf.as_ptr() as usize
}

/// How far `addr + k * size` lies past a multiple of `align`.
pub open spec fn misalignment(addr: int, k: int, size: int, align: int) -> int {
    (addr + k * size) % align
}

/// The least `k < align` such that `addr + k * size` is a multiple of
/// `align`, or `0` where there is none: how many elements of `size` bytes to
/// skip from `addr` to reach an aligned one.
pub fn aligning_offset(addr: usize, size: usize, align: usize) -> (r: usize)
    requires
        align > 0,
    ensures
        r < align,
        r == 0 || misalignment(addr as int, r as int, size as int, align as int) == 0,
        r == 0 ==> (misalignment(addr as int, 0, size as int, align as int) == 0 || forall|k: int|
            0 <= k < align ==> #[trigger] misalignment(addr as int, k, size as int, align as int)
                != 0),
        forall|k: int|
            0 <= k < r ==> #[trigger] misalignment(addr as int, k, size as int, align as int) != 0,
{
    let step = size % align;
    let mut pos = addr % align;
    let mut k: usize = 0;
    while k < align && pos != 0
        invariant
            align > 0,
            step == size % align,
            k <= align,
            pos < align,
            pos == misalignment(addr as int, k as int, size as int, align as int),
            forall|j: int|
                0 <= j < k ==> #[trigger] misalignment(addr as int, j, size as int, align as int)
                    != 0,
        decreases align - k,
    {
        proof {
            lemma_step_mod(addr as int, k as int, size as int, align as int);
        }
        if pos >= align - step {
            proof {
                vstd::arithmetic::div_mod::lemma_fundamental_div_mod_converse(
                    pos + step,
                    align as int,
                    1,
                    pos + step - align,
                );
            }
            pos = pos - (align - step);
        } else {
            proof {
                vstd::arithmetic::div_mod::lemma_small_mod((pos + step) as nat, align as nat);
            }
            pos = pos + step;
        }
        k = k + 1;
    }
    if pos == 0 && k < align {
        k
    } else {
        0
    }
}

proof fn lemma_step_mod(addr: int, k: int, size: int, align: int)
    requires
        align > 0,
        0 <= addr,
        0 <= k,
        0 <= size,
    ensures
        (addr + (k + 1) * size) % align == ((addr + k * size) % align + size % align) % align,
{
    assert(addr + (k + 1) * size == (addr + k * size) + size) by (nonlinear_arith);
    vstd::arithmetic::div_mod::lemma_add_mod_noop(addr + k * size, size, align);
}

/// A continuous buffer in raster order.
///
/// The first sample is preceded by `offset` padding elements, chosen so that
/// the sample can be used by aligned vector loads.
#[derive(Debug, Clone)]
pub struct SimpleGrid<S> {
    width: usize,
    height: usize,
    offset: usize,
    buf: Vec<S>,
}

impl<S> SimpleGrid<S> {
    pub closed spec fn spec_width(&self) -> nat {
        self.width as nat
    }

    pub closed spec fn spec_height(&self) -> nat {
        self.height as nat
    }

    /// Number of padding elements in front of the first sample.
    pub closed spec fn spec_offset(&self) -> nat {
        self.offset as nat
    }

    /// The samples in raster order, padding excluded.
    pub closed spec fn samples(&self) -> Seq<S> {
        self.buf@.subrange(self.offset as int, self.buf@.len() as int)
    }

    pub closed spec fn wf(&self) -> bool {
        &&& self.offset <= self.buf@.len()
        &&& self.buf@.len() - self.offset == self.width * self.height
        &&& self.buf@.len() <= usize::MAX
    }

    /// Position of sample `(x, y)` in [`Self::samples`].
    pub open spec fn index_of(&self, x: int, y: int) -> int {
        y * self.spec_width() + x
    }

    /// The sample at `(x, y)`.
    pub open spec fn at(&self, x: int, y: int) -> S {
        self.samples()[self.index_of(x, y)]
    }

    pub open spec fn in_bounds(&self, x: int, y: int) -> bool {
        0 <= x < self.spec_width() && 0 <= y < self.spec_height()
    }

    /// A well-formed grid holds exactly `width × height` samples.
    pub proof fn lemma_samples_len(&self)
        requires
            self.wf(),
        ensures
            self.samples().len() == self.spec_width() * self.spec_height(),
    {
    }

    /// Every sample of a well-formed grid has its place in [`Self::samples`].
    pub proof fn lemma_at_in_range(&self, x: int, y: int)
        requires
            self.wf(),
            self.in_bounds(x, y),
        ensures
            0 <= self.index_of(x, y) < self.samples().len(),
            self.samples().len() == self.spec_width() * self.spec_height(),
    {
        self.lemma_index_in_range(x, y);
    }

    proof fn lemma_index_in_range(&self, x: int, y: int)
        requires
            self.wf(),
            self.in_bounds(x, y),
        ensures
            0 <= self.index_of(x, y) < self.samples().len(),
            self.samples().len() == self.spec_width() * self.spec_height(),
            y * self.width + x + self.offset < self.buf@.len(),
            0 <= y * self.width,
    {
        assert(self.samples().len() == self.spec_width() * self.spec_height());
        assert(y * self.spec_width() + x < self.spec_width() * self.spec_height()) by (nonlinear_arith)
            requires
                0 <= x < self.spec_width(),
                0 <= y < self.spec_height(),
        ;
        assert(0 <= y * self.spec_width()) by (nonlinear_arith)
            requires
                0 <= y,
        ;
    }
}

impl<S: Default + Clone> SimpleGrid<S> {
    /// Creates a `width × height` grid whose samples are all `S::default()`.
    pub fn new(width: usize, height: usize) -> (r: Self)
        requires
            width * height <= usize::MAX,
        ensures
            r.wf(),
            r.spec_width() == width,
            r.spec_height() == height,
            r.spec_offset() < spec_align::<S>(),
            r.samples().len() == width * height,
            forall|i: int| 0 <= i < r.samples().len() ==> is_default(#[trigger] r.samples()[i]),
    {
        let align = compute_align::<S>();
        let len = width * height;
        let room = usize::MAX - len;
        let mut buf: Vec<S> = Vec::with_capacity(if align <= room {
            len + align
        } else {
            len
        });
        let offset = if align <= room {
            aligning_offset(buffer_address(&buf), core::mem::size_of::<S>(), align)
        } else {
            0
        };
        let total = offset + len;
        let mut i: usize = 0;
        while i < total
            invariant
                i <= total,
                total == offset + len,
                buf@.len() == i,
                forall|j: int| 0 <= j < i ==> is_default(#[trigger] buf@[j]),
            decreases total - i,
        {
            buf.push(S::default());
            i = i + 1;
        }
        let r = SimpleGrid { width, height, offset, buf };
        assert(r.samples().len() == width * height);
        r
    }
}

impl<S> SimpleGrid<S> {
    pub fn width(&self) -> (r: usize)
        ensures
            r == self.spec_width(),
    {
        self.width
    }

    pub fn height(&self) -> (r: usize)
        ensures
            r == self.spec_height(),
    {
        self.height
    }

    /// The sample at `(x, y)`, or `None` when `x >= width` or `y >= height`.
    pub fn get(&self, x: usize, y: usize) -> (r: Option<&S>)
        requires
            self.wf(),
        ensures
            r.is_some() == self.in_bounds(x as int, y as int),
            r.is_some() ==> *r.unwrap() == self.samples()[self.index_of(x as int, y as int)],
    {
        if x >= self.width || y >= self.height {
            return None;
        }
        proof {
            self.lemma_index_in_range(x as int, y as int);
        }
        Some(&self.buf[y * self.width + x + self.offset])
    }

    /// A mutable reference to the sample at `(x, y)`, or `None` when
    /// `x >= width` or `y >= height`.
    pub fn get_mut(&mut self, x: usize, y: usize) -> (r: Option<&mut S>)
        requires
            old(self).wf(),
        ensures
            r.is_some() == old(self).in_bounds(x as int, y as int),
            final(self).wf(),
            final(self).spec_width() == old(self).spec_width(),
            final(self).spec_height() == old(self).spec_height(),
            final(self).spec_offset() == old(self).spec_offset(),
            match r {
                Some(e) => {
                    &&& *e == old(self).samples()[old(self).index_of(x as int, y as int)]
                    &&& final(self).samples() == old(self).samples().update(
                        old(self).index_of(x as int, y as int),
                        *final(e),
                    )
                },
                None => *final(self) == *old(self),
            },
    {
        if x >= self.width || y >= self.height {
            return None;
        }
        proof {
            self.lemma_index_in_range(x as int, y as int);
        }
        Some(&mut self.buf[y * self.width + x + self.offset])
    }

    /// The samples in raster order, padding excluded.
    pub fn buf(&self) -> (r: &[S])
        requires
            self.wf(),
        ensures
            r@ == self.samples(),
            r@.len() == self.spec_width() * self.spec_height(),
    {
        self.buf.as_slice().split_at(self.offset).1
    }

    /// The samples in raster order, padding excluded, for writing.
    pub fn buf_mut(&mut self) -> (r: &mut [S])
        requires
            old(self).wf(),
        ensures
            r@ == old(self).samples(),
            r@.len() == old(self).spec_width() * old(self).spec_height(),
            final(r)@.len() == r@.len() ==> final(self).wf(),
            final(self).spec_width() == old(self).spec_width(),
            final(self).spec_height() == old(self).spec_height(),
            final(self).spec_offset() == old(self).spec_offset(),
            final(self).samples() == final(r)@,
    {
        let offset = self.offset;
        self.buf.as_mut_slice().split_at_mut(offset).1
    }

    /// Consumes the grid, handing out its samples in raster order.
    pub fn into_buf_iter(self) -> (r: std::vec::IntoIter<S>)
        requires
            self.wf(),
        ensures
            vstd::std_specs::vec::into_iter_elts(r) == self.samples(),
    {
        let mut buf = self.buf;
        let samples = buf.split_off(self.offset);
        proof {
            broadcast use vstd::std_specs::vec::group_vec_axioms;
        }
        samples.into_iter()
    }
}


} // verus!
