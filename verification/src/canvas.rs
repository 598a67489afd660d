//! The pixel buffer and what it holds.

use crate::error::ErrorTypes;
use vstd::prelude::*;

verus! {

/// Red, green and blue.
pub type Color = [u8; 3];

/// A three-dimensional array of bytes, kept by `ndarray`. Nothing of what
/// is inside is known here but what `array_dim` and `array_cells` name and
/// the functions below say of them.
#[verifier::external_body]
pub struct ByteArray3 {
    inner: ndarray::Array3<u8>,
}

/// The lengths of the three axes of an array.
pub uninterp spec fn array_dim(a: ByteArray3) -> (nat, nat, nat);

/// The bytes of an array, by their three indices.
pub uninterp spec fn array_cells(a: ByteArray3) -> Map<(int, int, int), u8>;

/// The product of those of three lengths that are not zero.
pub open spec fn nonzero_product(d0: nat, d1: nat, d2: nat) -> nat {
    (if d0 == 0 { 1 } else { d0 }) * (if d1 == 0 { 1 } else { d1 }) * (if d2 == 0 { 1 } else { d2 })
}

/// `ndarray::Array3::<u8>::zeros`: an array of the three lengths given, every
/// byte of it zero. The call panics where the product of the lengths that are
/// not zero exceeds `isize::MAX`, which the precondition rules out.
#[verifier::external_body]
fn array_zeros(d0: usize, d1: usize, d2: usize) -> (a: ByteArray3)
    requires
        nonzero_product(d0 as nat, d1 as nat, d2 as nat) <= isize::MAX,
    ensures
        array_dim(a) == (d0 as nat, d1 as nat, d2 as nat),
        forall|i: int, j: int, k: int|
            0 <= i < d0 && 0 <= j < d1 && 0 <= k < d2
                ==> #[trigger] array_cells(a)[(i, j, k)] == 0,
{
    ByteArray3 { inner: ndarray::Array3::<u8>::zeros((d0, d1, d2)) }
}

/// `ArrayBase::dim`: the lengths of the axes.
#[verifier::external_body]
fn array_shape(a: &ByteArray3) -> (d: (usize, usize, usize))
    ensures
        (d.0 as nat, d.1 as nat, d.2 as nat) == array_dim(*a),
{
    a.inner.dim()
}

/// Indexing an array by a triple: the byte at that place. Out of bounds the
/// call panics, which the precondition rules out.
#[verifier::external_body]
fn array_get(a: &ByteArray3, i: usize, j: usize, k: usize) -> (v: u8)
    requires
        i < array_dim(*a).0,
        j < array_dim(*a).1,
        k < array_dim(*a).2,
    ensures
        v == array_cells(*a)[(i as int, j as int, k as int)],
{
    a.inner[(i, j, k)]
}

/// Assigning through an index: that byte changes and no other, and the
/// lengths stay. Out of bounds the call panics, which the precondition rules
/// out; within bounds it does not unwind.
#[verifier::external_body]
fn array_set(a: &mut ByteArray3, i: usize, j: usize, k: usize, v: u8)
    requires
        i < array_dim(*old(a)).0,
        j < array_dim(*old(a)).1,
        k < array_dim(*old(a)).2,
    ensures
        array_dim(*final(a)) == array_dim(*old(a)),
        array_cells(*final(a)) == array_cells(*old(a)).insert((i as int, j as int, k as int), v),
    no_unwind
{
    a.inner[(i, j, k)] = v;
}

/// The place that is mirrored into `(i, j, k)` where an array of the
/// lengths `dim` is mirrored along `axis`.
pub open spec fn mirrored_place(dim: (nat, nat, nat), axis: int, i: int, j: int, k: int) -> (
    int,
    int,
    int,
) {
    if axis == 0 {
        (dim.0 - 1 - i, j, k)
    } else if axis == 1 {
        (i, dim.1 - 1 - j, k)
    } else {
        (i, j, dim.2 - 1 - k)
    }
}

/// `ArrayBase::invert_axis`: the lengths stay, and each place holds what
/// the mirrored place along that axis held. The call panics for an axis that
/// the array does not have, which the precondition rules out, and does not
/// unwind otherwise.
#[verifier::external_body]
fn array_invert_axis(a: &mut ByteArray3, axis: usize)
    requires
        axis < 3,
    ensures
        array_dim(*final(a)) == array_dim(*old(a)),
        forall|i: int, j: int, k: int|
            0 <= i < array_dim(*old(a)).0 && 0 <= j < array_dim(*old(a)).1 && 0 <= k < array_dim(
                *old(a),
            ).2 ==> #[trigger] array_cells(*final(a))[(i, j, k)] == array_cells(
                *old(a),
            )[mirrored_place(array_dim(*old(a)), axis as int, i, j, k)],
    no_unwind
{
    a.inner.invert_axis(ndarray::Axis(axis));
}

/// What a pixel buffer holds: for each place of a grid of `width` by
/// `height`, the three bytes of its colour.
pub struct Raster {
    pub width: nat,
    pub height: nat,
    pub pixels: Map<(int, int), Seq<u8>>,
}

impl Raster {
    /// Whether `(i, j)` is a place of the grid.
    pub open spec fn contains(self, i: int, j: int) -> bool {
        0 <= i < self.width && 0 <= j < self.height
    }

    /// The colour at `(i, j)`.
    pub open spec fn at(self, i: int, j: int) -> Seq<u8> {
        self.pixels[(i, j)]
    }

    /// A colour for every place of the grid and for nothing else.
    pub open spec fn wf(self) -> bool {
        forall|p: (int, int)| self.pixels.dom().contains(p) <==> self.contains(p.0, p.1)
    }

    /// Whether an allocation can hold the grid.
    pub open spec fn allocatable(self) -> bool {
        nonzero_product(self.width, self.height, 3) <= isize::MAX
    }

    /// The grid of `width` by `height` that is black everywhere.
    pub open spec fn blank(width: nat, height: nat) -> Raster {
        Raster {
            width,
            height,
            pixels: Map::new(
                |p: (int, int)| 0 <= p.0 < width && 0 <= p.1 < height,
                |p: (int, int)| seq![0u8, 0u8, 0u8],
            ),
        }
    }

    /// This grid with `color` at the places of `region`.
    pub open spec fn paint(self, region: spec_fn(int, int) -> bool, color: Seq<u8>) -> Raster {
        Raster {
            width: self.width,
            height: self.height,
            pixels: Map::new(
                |p: (int, int)| self.contains(p.0, p.1),
                |p: (int, int)| if region(p.0, p.1) { color } else { self.pixels[p] },
            ),
        }
    }

    /// The byte at place `n` of the grid written out densely, row by row
    /// of the picture: the second index of the grid counts the rows, the
    /// first the pixels of a row, and a pixel is its three bytes.
    pub open spec fn dense_byte(self, n: int) -> u8 {
        self.at((n / 3) % (self.width as int), (n / 3) / (self.width as int))[n % 3]
    }

    /// The grid written out densely, row by row of the picture.
    pub open spec fn dense(self) -> Seq<u8> {
        Seq::new(self.width * self.height * 3, |n: int| self.dense_byte(n))
    }

    /// This grid mirrored along its first axis.
    pub open spec fn flip_first(self) -> Raster {
        Raster {
            width: self.width,
            height: self.height,
            pixels: Map::new(
                |p: (int, int)| self.contains(p.0, p.1),
                |p: (int, int)| self.pixels[(self.width - 1 - p.0, p.1)],
            ),
        }
    }

    /// This grid mirrored along its second axis.
    pub open spec fn flip_second(self) -> Raster {
        Raster {
            width: self.width,
            height: self.height,
            pixels: Map::new(
                |p: (int, int)| self.contains(p.0, p.1),
                |p: (int, int)| self.pixels[(p.0, self.height - 1 - p.1)],
            ),
        }
    }
}

/// A buffer of `width` by `height` pixels of three bytes each.
pub struct PixelBuffer {
    data: ByteArray3,
}

impl View for PixelBuffer {
    type V = Raster;

    closed spec fn view(&self) -> Raster {
        Raster {
            width: array_dim(self.data).0,
            height: array_dim(self.data).1,
            pixels: Map::new(
                |p: (int, int)|
                    0 <= p.0 < array_dim(self.data).0 && 0 <= p.1 < array_dim(self.data).1,
                |p: (int, int)|
                    seq![
                        array_cells(self.data)[(p.0, p.1, 0)],
                        array_cells(self.data)[(p.0, p.1, 1)],
                        array_cells(self.data)[(p.0, p.1, 2)],
                    ],
            ),
        }
    }
}

impl PixelBuffer {
    #[verifier::type_invariant]
    spec fn three_channels(self) -> bool {
        &&& array_dim(self.data).2 == 3
        &&& nonzero_product(array_dim(self.data).0, array_dim(self.data).1, 3) <= isize::MAX
    }

    /// A black buffer of `width` by `height` pixels, unless no allocation can
    /// hold that many.
    pub fn new(width: usize, height: usize) -> (made: Result<PixelBuffer, ErrorTypes>)
        ensures
            match made {
                Ok(buffer) => {
                    &&& nonzero_product(width as nat, height as nat, 3) <= isize::MAX
                    &&& buffer@ == Raster::blank(width as nat, height as nat)
                },
                Err(e) => {
                    &&& nonzero_product(width as nat, height as nat, 3) > isize::MAX
                    &&& e == ErrorTypes::ImageCreation
                },
            },
    {
        let w: usize = if width == 0 { 1 } else { width };
        let h: usize = if height == 0 { 1 } else { height };
        let limit: usize = isize::MAX as usize / 3;
        if w > limit / h {
            assert(w * h * 3 > isize::MAX) by (nonlinear_arith)
                requires
                    h >= 1,
                    w > limit / h,
                    limit == isize::MAX as usize / 3,
            ;
            return Err(ErrorTypes::ImageCreation);
        }
        assert(w * h * 3 <= isize::MAX) by (nonlinear_arith)
            requires
                h >= 1,
                w <= limit / h,
                limit == isize::MAX as usize / 3,
        ;
        let data = array_zeros(width, height, 3);
        let buffer = PixelBuffer { data };
        assert(buffer@.pixels =~= Raster::blank(width as nat, height as nat).pixels);
        Ok(buffer)
    }

    /// The number of pixels along the first axis.
    pub fn width(&self) -> (w: usize)
        ensures
            w == self@.width,
            self@.wf(),
            self@.allocatable(),
    {
        proof {
            use_type_invariant(self);
        }
        array_shape(&self.data).0
    }

    /// The number of pixels along the second axis.
    pub fn height(&self) -> (h: usize)
        ensures
            h == self@.height,
            self@.wf(),
            self@.allocatable(),
    {
        proof {
            use_type_invariant(self);
        }
        array_shape(&self.data).1
    }

    /// The colour at `(i, j)`, where the buffer has such a place.
    pub fn get(&self, i: usize, j: usize) -> (found: Option<Color>)
        ensures
            match found {
                Some(color) => self@.contains(i as int, j as int) && color@ == self@.at(
                    i as int,
                    j as int,
                ),
                None => !self@.contains(i as int, j as int),
            },
    {
        proof {
            use_type_invariant(self);
        }
        let (w, h, _) = array_shape(&self.data);
        if i < w && j < h {
            let color: Color = [
                array_get(&self.data, i, j, 0),
                array_get(&self.data, i, j, 1),
                array_get(&self.data, i, j, 2),
            ];
            assert(color@ =~= self@.at(i as int, j as int));
            Some(color)
        } else {
            None
        }
    }

    /// The bytes of the buffer, densely, row by row of the picture.
    pub fn to_bytes(&self) -> (bytes: Vec<u8>)
        ensures
            bytes@ == self@.dense(),
    {
        let width = self.width();
        let height = self.height();
        let mut bytes: Vec<u8> = Vec::new();
        let mut j: usize = 0;
        while j < height
            invariant
                j <= height == self@.height,
                width == self@.width,
                self@.allocatable(),
                bytes@.len() == j * width * 3,
                forall|n: int| 0 <= n < bytes@.len() ==> bytes@[n] == self@.dense_byte(n),
            decreases height - j,
        {
            let mut i: usize = 0;
            assert(j * width * 3 == (j * width + 0) * 3) by (nonlinear_arith);
            while i < width
                invariant
                    j < height == self@.height,
                    i <= width == self@.width,
                    self@.allocatable(),
                    bytes@.len() == (j * width + i) * 3,
                    forall|n: int| 0 <= n < bytes@.len() ==> bytes@[n] == self@.dense_byte(n),
                decreases width - i,
            {
                let ghost start = (j * width + i) * 3;
                proof {
                    vstd::arithmetic::div_mod::lemma_fundamental_div_mod_converse(
                        j * width + i,
                        width as int,
                        j as int,
                        i as int,
                    );
                    assert((j * width + i) * 3 + 3 <= width * height * 3) by (nonlinear_arith)
                        requires
                            i < width,
                            j < height,
                    ;
                    assert(width * height * 3 <= isize::MAX);
                }
                match self.get(i, j) {
                    Some(color) => {
                        bytes.push(color[0]);
                        bytes.push(color[1]);
                        bytes.push(color[2]);
                        assert(start / 3 == j * width + i && start % 3 == 0);
                        assert((start + 1) / 3 == j * width + i && (start + 1) % 3 == 1);
                        assert((start + 2) / 3 == j * width + i && (start + 2) % 3 == 2);
                    },
                    None => {},
                }
                i += 1;
            }
            assert((j * width + width) * 3 == (j + 1) * width * 3) by (nonlinear_arith);
            j += 1;
        }
        assert(bytes@.len() == self@.width * self@.height * 3) by (nonlinear_arith)
            requires
                bytes@.len() == j * width * 3,
                j == self@.height,
                width == self@.width,
        ;
        assert(bytes@ =~= self@.dense());
        bytes
    }

    /// Writes `color` at `(i, j)`, where the buffer has such a place, and
    /// refuses to write elsewhere.
    pub fn put(&mut self, i: usize, j: usize, color: Color) -> (written: Result<(), ErrorTypes>)
        ensures
            final(self)@.width == old(self)@.width,
            final(self)@.height == old(self)@.height,
            match written {
                Ok(()) => {
                    &&& old(self)@.contains(i as int, j as int)
                    &&& final(self)@.pixels == old(self)@.pixels.insert(
                        (i as int, j as int),
                        color@,
                    )
                },
                Err(e) => {
                    &&& e == ErrorTypes::OutOfBoundsWrite
                    &&& !old(self)@.contains(i as int, j as int)
                    &&& final(self)@ == old(self)@
                },
            },
    {
        if i < self.width() && j < self.height() {
            self.write(i, j, color);
            Ok(())
        } else {
            Err(ErrorTypes::OutOfBoundsWrite)
        }
    }

    /// Writes `color` at `(i, j)`.
    pub(crate) fn write(&mut self, i: usize, j: usize, color: Color)
        requires
            old(self)@.contains(i as int, j as int),
        ensures
            final(self)@.width == old(self)@.width,
            final(self)@.height == old(self)@.height,
            final(self)@.pixels == old(self)@.pixels.insert((i as int, j as int), color@),
    {
        proof {
            use_type_invariant(&*self);
        }
        array_set(&mut self.data, i, j, 0, color[0]);
        array_set(&mut self.data, i, j, 1, color[1]);
        array_set(&mut self.data, i, j, 2, color[2]);
        assert(self@.pixels[(i as int, j as int)] =~= color@);
        assert(self@.pixels =~= old(self)@.pixels.insert((i as int, j as int), color@));
    }

    /// Mirrors the buffer along its first axis.
    pub fn flip_first(&mut self)
        ensures
            final(self)@ == old(self)@.flip_first(),
    {
        proof {
            use_type_invariant(&*self);
        }
        array_invert_axis(&mut self.data, 0);
        assert(self@.pixels =~= old(self)@.flip_first().pixels);
    }

    /// Mirrors the buffer along its second axis.
    pub fn flip_second(&mut self)
        ensures
            final(self)@ == old(self)@.flip_second(),
    {
        proof {
            use_type_invariant(&*self);
        }
        array_invert_axis(&mut self.data, 1);
        assert(self@.pixels =~= old(self)@.flip_second().pixels);
    }
}

} // verus!
