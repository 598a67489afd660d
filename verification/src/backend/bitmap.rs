//! Drawing the elements onto a pixel buffer.

use crate::canvas::{Color, PixelBuffer, Raster};
use crate::element::{Circle, ColorMap, Element, Rectangle};
use crate::error::ErrorTypes;
use crate::figure::Figure;
use crate::number::{Fixed, Point, ONE_RAW};
use crate::window::{axis_to_coordinate, axis_to_pixel, lemma_coordinates_fit, Window};
use vstd::prelude::*;

verus! {

/// Two corners in pixels, as the first mapping gives them.
pub struct PixelBox {
    pub x0: int,
    pub x1: int,
    pub y0: int,
    pub y1: int,
}

impl PixelBox {
    /// Whether both corners lie in a buffer of `width` by `height`, its far
    /// edges included.
    pub open spec fn within(self, width: nat, height: nat) -> bool {
        &&& 0 <= self.x0 <= width
        &&& 0 <= self.x1 <= width
        &&& 0 <= self.y0 <= height
        &&& 0 <= self.y1 <= height
    }

    /// Whether pixel `(i, j)` lies between the corners: from the first
    /// corner on, and before the second. An empty set where the second
    /// corner is not beyond the first on both axes.
    pub open spec fn in_block(self, i: int, j: int) -> bool {
        self.x0 <= i < self.x1 && self.y0 <= j < self.y1
    }

    /// Whether pixel `(i, j)` lies in the ellipse that touches the four
    /// sides of the box. In column `i` the ellipse reaches up and down from
    /// the middle of the box by `(y1 - y0) / 2 * sqrt(1 - t * t)`, where
    /// `t` is the distance of `i` from the middle column over half the width
    /// of the box; the rows from the integer part of the upper end up to, and
    /// without, the integer part of the lower end belong to it. That is
    /// stated here without roots and fractions, all lengths doubled. An
    /// empty set where the second corner is not beyond the first on both
    /// axes.
    pub open spec fn in_ellipse(self, i: int, j: int) -> bool {
        let wx = self.x1 - self.x0;
        let hy = self.y1 - self.y0;
        let d = 2 * i - (self.x0 + self.x1);
        let u = 2 * (j + 1) - (self.y0 + self.y1);
        &&& self.x0 <= i < self.x1
        &&& self.y0 < self.y1
        &&& if u > 0 {
            u * u * (wx * wx) <= hy * hy * (wx * wx - d * d)
        } else {
            u * u * (wx * wx) < hy * hy * (wx * wx - d * d)
        }
    }
}

impl PixelBox {
    /// Where a quarter turn about the middle of a square box takes pixel
    /// `(i, j)`.
    pub open spec fn quarter_turn(self, i: int, j: int) -> (int, int) {
        (self.x0 + (self.y1 - 1 - j), self.y0 + (i - self.x0))
    }

    /// Whether the square of pixel `(i, j)`, its corners included, lies
    /// inside the circle that touches the four sides of a square box, and
    /// off the rim of that circle.
    pub open spec fn wholly_inside(self, i: int, j: int) -> bool {
        let w = self.x1 - self.x0;
        let a = 2 * i + 1 - (self.x0 + self.x1);
        let b = 2 * j + 1 - (self.y0 + self.y1);
        let far_a = if a < 0 { 1 - a } else { a + 1 };
        let far_b = if b < 0 { 1 - b } else { b + 1 };
        far_a * far_a + far_b * far_b < w * w
    }

    /// Whether the corner of the square of pixel `(i, j)` that is nearest to
    /// the middle of a square box lies in the circle that touches the four
    /// sides of the box, or on the rim of that circle.
    pub open spec fn reached(self, i: int, j: int) -> bool {
        let w = self.x1 - self.x0;
        let a = 2 * i + 1 - (self.x0 + self.x1);
        let b = 2 * j + 1 - (self.y0 + self.y1);
        let near_a = if a < 0 { -a - 1 } else { a - 1 };
        let near_b = if b < 0 { -b - 1 } else { b - 1 };
        near_a * near_a + near_b * near_b <= w * w
    }
}

impl Rectangle {
    /// The corners of the rectangle in a buffer of `width` by `height`.
    pub open spec fn pixel_box(self, window: Window, width: nat, height: nat) -> PixelBox {
        PixelBox {
            x0: window.pixel_x(self.min.x.raw as int, width as int),
            x1: window.pixel_x(self.max.x.raw as int, width as int),
            y0: window.pixel_y(self.min.y.raw as int, height as int),
            y1: window.pixel_y(self.max.y.raw as int, height as int),
        }
    }
}

impl Circle {
    /// The corners, in a buffer of `width` by `height`, of the square about
    /// the circle.
    pub open spec fn pixel_box(self, window: Window, width: nat, height: nat) -> PixelBox {
        PixelBox {
            x0: window.pixel_x(self.middle.x.raw - self.radius.raw, width as int),
            x1: window.pixel_x(self.middle.x.raw + self.radius.raw, width as int),
            y0: window.pixel_y(self.middle.y.raw - self.radius.raw, height as int),
            y1: window.pixel_y(self.middle.y.raw + self.radius.raw, height as int),
        }
    }
}

/// Whether a pixel may hold `after` once a field has been drawn over
/// `before`: the colour of a value that `func` can give at `place`, or
/// `before` where `func` can give nothing there.
pub open spec fn field_pixel<F: Fn(Point) -> Option<Fixed>, C: ColorMap>(
    func: F,
    cmap: C,
    place: Point,
    before: Seq<u8>,
    after: Seq<u8>,
) -> bool {
    exists|r: Option<Fixed>|
        #[trigger] call_ensures(func, (place,), r) && after == match r {
            Some(v) => cmap.color_normalized(v, Fixed { raw: 0 }, Fixed { raw: ONE_RAW }),
            None => before,
        }
}

/// Whether drawing a field through `window` can turn `before` into `after`:
/// the grid stays, and each pixel is as `field_pixel` says for its place.
pub open spec fn field_drawn<F: Fn(Point) -> Option<Fixed>, C: ColorMap>(
    func: F,
    cmap: C,
    window: Window,
    before: Raster,
    after: Raster,
) -> bool {
    &&& after.width == before.width
    &&& after.height == before.height
    &&& after.pixels.dom() == before.pixels.dom()
    &&& forall|i: int, j: int| #[trigger]
        before.contains(i, j) ==> field_pixel(
            func,
            cmap,
            window.place(i, j, before.width as int, before.height as int),
            before.at(i, j),
            after.at(i, j),
        )
}

impl<F: Fn(Point) -> Option<Fixed>, C: ColorMap> Element<F, C> {
    /// Why the element cannot be drawn through `window` onto a buffer of
    /// `width` by `height`, if it cannot.
    pub open spec fn fill_error(self, window: Window, width: nat, height: nat) -> Option<
        ErrorTypes,
    > {
        match self {
            Element::Triangle(_) => Some(ErrorTypes::UnsupportedPrimitive),
            Element::Rectangle(r) => if window.degenerate() {
                Some(ErrorTypes::DegenerateTransform)
            } else if r.pixel_box(window, width, height).within(width, height) {
                None
            } else {
                Some(ErrorTypes::OutOfBoundsWrite)
            },
            Element::Circle(c) => if window.degenerate() {
                Some(ErrorTypes::DegenerateTransform)
            } else if c.pixel_box(window, width, height).within(width, height) {
                None
            } else {
                Some(ErrorTypes::OutOfBoundsWrite)
            },
            Element::FuncEval(_, _) => if window.degenerate() {
                Some(ErrorTypes::DegenerateTransform)
            } else if width == 0 || height == 0 || window.places_fit(width as int, height as int) {
                None
            } else {
                Some(ErrorTypes::CastError)
            },
        }
    }

    /// Whether drawing the element through `window` can turn `before` into
    /// `after`. A rectangle and a circle paint their pixels in their colour.
    /// A field gives each pixel the colour of the value that its function
    /// gives at the pixel's place, and leaves the pixel as it is where the
    /// function gives nothing.
    pub open spec fn draws(self, window: Window, before: Raster, after: Raster) -> bool {
        match self {
            Element::Triangle(_) => false,
            Element::Rectangle(r) => after == before.paint(
                |i: int, j: int| r.pixel_box(window, before.width, before.height).in_block(i, j),
                r.color@,
            ),
            Element::Circle(c) => after == before.paint(
                |i: int, j: int| c.pixel_box(window, before.width, before.height).in_ellipse(i, j),
                c.color@,
            ),
            Element::FuncEval(func, cmap) => field_drawn(func, cmap, window, before, after),
        }
    }
}

/// Paints the rows from `j0` up to, and without, `j1` of column `i`.
fn fill_span(canvas: &mut PixelBuffer, i: usize, j0: usize, j1: usize, color: Color)
    requires
        i < old(canvas)@.width,
        j1 <= old(canvas)@.height,
    ensures
        final(canvas)@ == old(canvas)@.paint(|a: int, b: int| a == i && j0 <= b < j1, color@),
{
    let ghost before = canvas@;
    let height = canvas.height();
    if j0 >= j1 {
        assert(canvas@.pixels =~= before.paint(
            |a: int, b: int| a == i && j0 <= b < j1,
            color@,
        ).pixels);
        return ;
    }
    let mut j: usize = j0;
    assert(canvas@.pixels =~= before.paint(|a: int, b: int| a == i && j0 <= b < j, color@).pixels);
    while j < j1
        invariant
            j0 <= j <= j1 <= before.height,
            i < before.width,
            before.wf(),
            canvas@ == before.paint(|a: int, b: int| a == i && j0 <= b < j, color@),
        decreases j1 - j,
    {
        canvas.write(i, j, color);
        assert(canvas@.pixels =~= before.paint(
            |a: int, b: int| a == i && j0 <= b < j + 1,
            color@,
        ).pixels);
        j += 1;
    }
}

/// Paints the pixels between two corners.
fn fill_block(canvas: &mut PixelBuffer, x0: usize, x1: usize, y0: usize, y1: usize, color: Color)
    requires
        x1 <= old(canvas)@.width,
        y1 <= old(canvas)@.height,
    ensures
        final(canvas)@ == old(canvas)@.paint(
            |a: int, b: int|
                (PixelBox { x0: x0 as int, x1: x1 as int, y0: y0 as int, y1: y1 as int }).in_block(
                    a,
                    b,
                ),
            color@,
        ),
{
    let ghost before = canvas@;
    let ghost corners = PixelBox { x0: x0 as int, x1: x1 as int, y0: y0 as int, y1: y1 as int };
    let width = canvas.width();
    if x0 >= x1 {
        assert(canvas@.pixels =~= before.paint(
            |a: int, b: int| corners.in_block(a, b),
            color@,
        ).pixels);
        return ;
    }
    let mut i: usize = x0;
    assert(canvas@.pixels =~= before.paint(
        |a: int, b: int| a < i && corners.in_block(a, b),
        color@,
    ).pixels);
    while i < x1
        invariant
            x0 <= i <= x1 <= before.width,
            y1 <= before.height,
            before.wf(),
            corners == (PixelBox { x0: x0 as int, x1: x1 as int, y0: y0 as int, y1: y1 as int }),
            canvas@ == before.paint(|a: int, b: int| a < i && corners.in_block(a, b), color@),
        decreases x1 - i,
    {
        fill_span(canvas, i, y0, y1, color);
        assert(canvas@.pixels =~= before.paint(
            |a: int, b: int| a < i + 1 && corners.in_block(a, b),
            color@,
        ).pixels);
        i += 1;
    }
    assert(canvas@.pixels =~= before.paint(
        |a: int, b: int| corners.in_block(a, b),
        color@,
    ).pixels);
}

/// Squares, scaled by a positive number, keep the order of their roots.
proof fn lemma_square_scaled(a: int, b: int, dd: int)
    by (nonlinear_arith)
    requires
        0 <= a <= b,
        0 < dd,
    ensures
        a * a * dd <= b * b * dd,
        a < b ==> a * a * dd < b * b * dd,
{
}

/// Where `f` is the integer part of the root of `n / dd`, and `g` the
/// greatest whole number below that root, the doubled offsets `u` of the rows
/// of the ellipse are those from `-g` to `f`.
proof fn lemma_chord_rows(f: int, g: int, n: int, dd: int, u: int)
    requires
        0 < dd,
        0 < n,
        0 <= f,
        f * f * dd <= n < (f + 1) * (f + 1) * dd,
        g == if f * f * dd == n { f - 1 } else { f },
    ensures
        (if u > 0 { u * u * dd <= n } else { u * u * dd < n }) <==> -g <= u <= f,
{
    if u > 0 {
        if u <= f {
            lemma_square_scaled(u, f, dd);
        } else {
            lemma_square_scaled(f + 1, u, dd);
        }
    } else {
        let t = -u;
        assert(t * t * dd == u * u * dd) by (nonlinear_arith)
            requires
                t == -u,
        ;
        if t <= g {
            lemma_square_scaled(t, f, dd);
        } else if t <= f {
            assert(t == f);
        } else {
            lemma_square_scaled(f + 1, t, dd);
        }
    }
}

/// The rows of column `m` that belong to the ellipse in a box: from the
/// first of the pair up to, and without, the second.
fn chord(x0: usize, x1: usize, y0: usize, y1: usize, m: usize) -> (rows: (usize, usize))
    requires
        x0 <= m < x1,
        y0 < y1,
        (x1 - x0) * (y1 - y0) < 0x4000_0000_0000_0000,
    ensures
        y0 <= rows.0 <= rows.1 <= y1,
        forall|j: int|
            rows.0 <= j < rows.1 <==> #[trigger] (PixelBox {
                x0: x0 as int,
                x1: x1 as int,
                y0: y0 as int,
                y1: y1 as int,
            }).in_ellipse(m as int, j),
{
    let ghost corners = PixelBox { x0: x0 as int, x1: x1 as int, y0: y0 as int, y1: y1 as int };
    // All lengths are doubled, so that the middle of the box is a whole
    // number: `wx` and `hy` are the doubled half axes, `sx` and `sy` the
    // doubled middle, `dabs` the doubled distance of the column from it.
    let wx: u128 = (x1 - x0) as u128;
    let hy: u128 = (y1 - y0) as u128;
    let twice: u128 = 2 * (m as u128);
    let sx: u128 = x0 as u128 + x1 as u128;
    let sy: u128 = y0 as u128 + y1 as u128;
    let dabs: u128 = if twice >= sx { twice - sx } else { sx - twice };
    let ghost d: int = 2 * m - (x0 + x1);
    proof {
        assert(wx * hy < 0x4000_0000_0000_0000);
        assert(wx <= wx * hy) by (nonlinear_arith)
            requires
                hy >= 1,
                wx >= 0,
        ;
        assert(hy <= wx * hy) by (nonlinear_arith)
            requires
                wx >= 1,
                hy >= 0,
        ;
        assert(wx * wx < 0x1000_0000_0000_0000_0000_0000_0000_0000) by (nonlinear_arith)
            requires
                0 <= wx < 0x4000_0000_0000_0000,
        ;
        assert(hy * hy < 0x1000_0000_0000_0000_0000_0000_0000_0000) by (nonlinear_arith)
            requires
                0 <= hy < 0x4000_0000_0000_0000,
        ;
        assert(dabs * dabs <= wx * wx) by (nonlinear_arith)
            requires
                0 <= dabs <= wx,
        ;
        assert(d * d == dabs * dabs) by (nonlinear_arith)
            requires
                dabs == d || dabs == -d,
        ;
    }
    // The square of the doubled half chord is `n / dd`.
    let dd: u128 = wx * wx;
    let part: u128 = dd - dabs * dabs;
    proof {
        assert(hy * hy * part <= (wx * hy) * (wx * hy)) by (nonlinear_arith)
            requires
                0 <= part <= wx * wx,
                0 <= hy,
        ;
        assert((wx * hy) * (wx * hy) < 0x1000_0000_0000_0000_0000_0000_0000_0000)
            by (nonlinear_arith)
            requires
                0 <= wx * hy < 0x4000_0000_0000_0000,
        ;
    }
    let n: u128 = hy * hy * part;
    if n == 0 {
        assert forall|j: int| y0 <= j < y0 <==> #[trigger] corners.in_ellipse(m as int, j) by {
            let u = 2 * (j + 1) - (y0 + y1);
            if u > 0 {
                assert(u * u * (wx * wx) >= 1) by (nonlinear_arith)
                    requires
                        u >= 1,
                        wx >= 1,
                ;
            } else {
                assert(u * u * (wx * wx) >= 0) by (nonlinear_arith);
            }
        }
        return (y0, y0);
    }
    // `f` is the integer part of the doubled half chord, and `g` the
    // greatest whole number below the doubled half chord.
    let q: u128 = n / dd;
    let f: u128 = crate::arith::floor_sqrt(q);
    proof {
        assert(q * dd <= n < (q + 1) * dd) by (nonlinear_arith)
            requires
                q == n / dd,
                dd > 0,
        ;
        assert(f * f * dd <= q * dd) by (nonlinear_arith)
            requires
                f * f <= q,
                dd > 0,
        ;
        assert((f + 1) * (f + 1) * dd >= (q + 1) * dd) by (nonlinear_arith)
            requires
                (f + 1) * (f + 1) >= q + 1,
                dd > 0,
        ;
        assert(n <= hy * hy * dd) by (nonlinear_arith)
            requires
                n == hy * hy * part,
                part <= dd,
        ;
        if f > hy {
            lemma_square_scaled(hy as int + 1, f as int, dd as int);
            assert((hy + 1) * (hy + 1) * dd > hy * hy * dd) by (nonlinear_arith)
                requires
                    dd > 0,
                    hy >= 0,
            ;
        }
        assert(f <= hy);
    }
    let exact: bool = f * f * dd == n;
    proof {
        if exact && f == 0 {
            assert(f * f * dd == 0) by (nonlinear_arith)
                requires
                    f == 0,
            ;
        }
        if !exact && f == hy {
            assert(hy * hy * part <= hy * hy * dd) by (nonlinear_arith)
                requires
                    part <= dd,
            ;
        }
    }
    let g: u128 = if exact { f - 1 } else { f };
    assert(g + 1 <= hy) by {
        if !exact && f == hy {
            assert(f * f * dd >= n);
        }
    }
    let high: u128 = (sy + f) / 2;
    let low: u128 = (sy - g - 1) / 2;
    assert forall|j: int| low <= j < high <==> #[trigger] corners.in_ellipse(m as int, j) by {
        let u = 2 * (j + 1) - (y0 + y1);
        lemma_chord_rows(f as int, g as int, n as int, dd as int, u);
        assert(hy * hy * (wx * wx - d * d) == n);
    }
    (low as usize, high as usize)
}

/// Paints the pixels of the ellipse in a box.
fn fill_ellipse(canvas: &mut PixelBuffer, x0: usize, x1: usize, y0: usize, y1: usize, color: Color)
    requires
        x1 <= old(canvas)@.width,
        y1 <= old(canvas)@.height,
    ensures
        final(canvas)@ == old(canvas)@.paint(
            |a: int, b: int|
                (PixelBox {
                    x0: x0 as int,
                    x1: x1 as int,
                    y0: y0 as int,
                    y1: y1 as int,
                }).in_ellipse(a, b),
            color@,
        ),
{
    let ghost before = canvas@;
    let ghost corners = PixelBox { x0: x0 as int, x1: x1 as int, y0: y0 as int, y1: y1 as int };
    let width = canvas.width();
    let height = canvas.height();
    if x0 >= x1 || y0 >= y1 {
        assert(canvas@.pixels =~= before.paint(
            |a: int, b: int| corners.in_ellipse(a, b),
            color@,
        ).pixels);
        return ;
    }
    proof {
        assert((x1 - x0) * (y1 - y0) <= width * height) by (nonlinear_arith)
            requires
                0 <= x1 - x0 <= width,
                0 <= y1 - y0 <= height,
        ;
        assert(width * height * 3 <= isize::MAX);
        assert(width * height < 0x4000_0000_0000_0000);
        assert((x1 - x0) * (y1 - y0) < 0x4000_0000_0000_0000);
    }
    let mut i: usize = x0;
    assert(canvas@.pixels =~= before.paint(
        |a: int, b: int| a < i && corners.in_ellipse(a, b),
        color@,
    ).pixels);
    while i < x1
        invariant
            x0 <= i <= x1 <= before.width,
            y0 < y1 <= before.height,
            (x1 - x0) * (y1 - y0) < 0x4000_0000_0000_0000,
            before.wf(),
            corners == (PixelBox { x0: x0 as int, x1: x1 as int, y0: y0 as int, y1: y1 as int }),
            canvas@ == before.paint(|a: int, b: int| a < i && corners.in_ellipse(a, b), color@),
        decreases x1 - i,
    {
        let (low, high) = chord(x0, x1, y0, y1, i);
        fill_span(canvas, i, low, high, color);
        assert(canvas@.pixels =~= before.paint(
            |a: int, b: int| a < i + 1 && corners.in_ellipse(a, b),
            color@,
        ).pixels);
        i += 1;
    }
    assert(canvas@.pixels =~= before.paint(
        |a: int, b: int| corners.in_ellipse(a, b),
        color@,
    ).pixels);
}

/// Gives each pixel the colour of the value of `func` at its place, and
/// leaves it as it is where `func` gives nothing.
fn fill_field<F: Fn(Point) -> Option<Fixed>, C: ColorMap>(
    canvas: &mut PixelBuffer,
    window: &Window,
    func: &F,
    cmap: &C,
) -> (drawn: Result<(), ErrorTypes>)
    requires
        forall|p: Point| call_requires(*func, (p,)),
    ensures
        match drawn {
            Ok(()) => {
                &&& old(canvas)@.width == 0 || old(canvas)@.height == 0 || window.places_fit(
                    old(canvas)@.width as int,
                    old(canvas)@.height as int,
                )
                &&& field_drawn(*func, *cmap, *window, old(canvas)@, final(canvas)@)
            },
            Err(e) => {
                &&& e == ErrorTypes::CastError
                &&& old(canvas)@.width != 0
                &&& old(canvas)@.height != 0
                &&& !window.places_fit(old(canvas)@.width as int, old(canvas)@.height as int)
                &&& final(canvas)@ == old(canvas)@
            },
        },
{
    let ghost before = canvas@;
    let width = canvas.width();
    let height = canvas.height();
    if width == 0 || height == 0 {
        return Ok(());
    }
    let last_x = axis_to_coordinate(width - 1, window.min.x.raw, window.max.x.raw, width);
    let last_y = axis_to_coordinate(height - 1, window.min.y.raw, window.max.y.raw, height);
    if last_x.is_none() || last_y.is_none() {
        return Err(ErrorTypes::CastError);
    }
    let mut i: usize = 0;
    while i < width
        invariant
            i <= width == before.width,
            height == before.height,
            before.wf(),
            window.places_fit(width as int, height as int),
            forall|p: Point| call_requires(*func, (p,)),
            canvas@.width == before.width,
            canvas@.height == before.height,
            canvas@.pixels.dom() == before.pixels.dom(),
            forall|a: int, b: int| #[trigger]
                before.contains(a, b) ==> if a < i {
                    field_pixel(
                        *func,
                        *cmap,
                        window.place(a, b, width as int, height as int),
                        before.at(a, b),
                        canvas@.at(a, b),
                    )
                } else {
                    canvas@.at(a, b) == before.at(a, b)
                },
        decreases width - i,
    {
        proof {
            lemma_coordinates_fit(
                i as int,
                window.min.x.raw as int,
                window.max.x.raw as int,
                width as int,
            );
        }
        let x = match axis_to_coordinate(i, window.min.x.raw, window.max.x.raw, width) {
            Some(x) => x,
            None => { return Err(ErrorTypes::CastError); },
        };
        let mut j: usize = 0;
        while j < height
            invariant
                i < width == before.width,
                j <= height == before.height,
                before.wf(),
                window.places_fit(width as int, height as int),
                x == window.coordinate_x(i as int, width as int),
                forall|p: Point| call_requires(*func, (p,)),
                canvas@.width == before.width,
                canvas@.height == before.height,
                canvas@.pixels.dom() == before.pixels.dom(),
                forall|a: int, b: int| #[trigger]
                    before.contains(a, b) ==> if a < i || (a == i && b < j) {
                        field_pixel(
                            *func,
                            *cmap,
                            window.place(a, b, width as int, height as int),
                            before.at(a, b),
                            canvas@.at(a, b),
                        )
                    } else {
                        canvas@.at(a, b) == before.at(a, b)
                    },
            decreases height - j,
        {
            proof {
                lemma_coordinates_fit(
                    j as int,
                    window.min.y.raw as int,
                    window.max.y.raw as int,
                    height as int,
                );
            }
            let y = match axis_to_coordinate(j, window.min.y.raw, window.max.y.raw, height) {
                Some(y) => y,
                None => { return Err(ErrorTypes::CastError); },
            };
            let place = Point { x: Fixed { raw: x }, y: Fixed { raw: y } };
            assert(place == window.place(i as int, j as int, width as int, height as int));
            let ghost painted = canvas@;
            let value = func(place);
            match value {
                Some(v) => {
                    let color = cmap.get_color(v);
                    canvas.write(i, j, color);
                    assert(canvas@.pixels.dom() =~= before.pixels.dom());
                },
                None => {},
            }
            proof {
                assert(before.contains(i as int, j as int));
                assert(field_pixel(
                    *func,
                    *cmap,
                    place,
                    before.at(i as int, j as int),
                    canvas@.at(i as int, j as int),
                ));
                assert forall|a: int, b: int| #[trigger] before.contains(a, b) implies if a < i || (
                a == i && b < j + 1) {
                    field_pixel(
                        *func,
                        *cmap,
                        window.place(a, b, width as int, height as int),
                        before.at(a, b),
                        canvas@.at(a, b),
                    )
                } else {
                    canvas@.at(a, b) == before.at(a, b)
                } by {
                    if a == i && b == j {
                    } else {
                        assert(canvas@.at(a, b) == painted.at(a, b));
                    }
                }
            }
            j += 1;
        }
        i += 1;
    }
    assert forall|a: int, b: int| #[trigger] before.contains(a, b) implies field_pixel(
        *func,
        *cmap,
        window.place(a, b, before.width as int, before.height as int),
        before.at(a, b),
        canvas@.at(a, b),
    ) by {}
    Ok(())
}

/// The pixels of two corners given by their raw coordinates, where both
/// lie in a buffer of `width` by `height`, its far edges included.
fn corners_in_buffer(
    window: &Window,
    low: (i128, i128),
    high: (i128, i128),
    width: usize,
    height: usize,
) -> (found: Option<(usize, usize, usize, usize)>)
    requires
        !window.degenerate(),
        -0x1_0000_0000_0000_0000 <= low.0 <= 0x1_0000_0000_0000_0000,
        -0x1_0000_0000_0000_0000 <= low.1 <= 0x1_0000_0000_0000_0000,
        -0x1_0000_0000_0000_0000 <= high.0 <= 0x1_0000_0000_0000_0000,
        -0x1_0000_0000_0000_0000 <= high.1 <= 0x1_0000_0000_0000_0000,
    ensures
        ({
            let corners = PixelBox {
                x0: window.pixel_x(low.0 as int, width as int),
                x1: window.pixel_x(high.0 as int, width as int),
                y0: window.pixel_y(low.1 as int, height as int),
                y1: window.pixel_y(high.1 as int, height as int),
            };
            match found {
                Some((x0, x1, y0, y1)) => {
                    &&& corners.within(width as nat, height as nat)
                    &&& corners == (PixelBox {
                        x0: x0 as int,
                        x1: x1 as int,
                        y0: y0 as int,
                        y1: y1 as int,
                    })
                },
                None => !corners.within(width as nat, height as nat),
            }
        }),
{
    let x0 = axis_to_pixel(low.0, window.min.x.raw, window.max.x.raw, width);
    let x1 = axis_to_pixel(high.0, window.min.x.raw, window.max.x.raw, width);
    let y0 = axis_to_pixel(low.1, window.min.y.raw, window.max.y.raw, height);
    let y1 = axis_to_pixel(high.1, window.min.y.raw, window.max.y.raw, height);
    match (x0, x1, y0, y1) {
        (Some(x0), Some(x1), Some(y0), Some(y1)) => {
            if x0 <= width && x1 <= width && y0 <= height && y1 <= height {
                Some((x0, x1, y0, y1))
            } else {
                None
            }
        },
        _ => None,
    }
}

impl<F: Fn(Point) -> Option<Fixed>, C: ColorMap> Element<F, C> {
    /// Draws the element onto `canvas` through the window of `axis`.
    ///
    /// A triangle is refused, since no fill is defined for it. Every other
    /// element is refused where the window has no extent along an axis. A
    /// rectangle or a circle is refused where a corner of its box does not
    /// fall into the buffer, and a field where the place of some pixel
    /// cannot be held. A refused element leaves the buffer as it was.
    pub fn draw_to_axis(&self, axis: &Figure<F, C>, canvas: &mut PixelBuffer) -> (drawn: Result<
        (),
        ErrorTypes,
    >)
        requires
            self.callable(),
        ensures
            match drawn {
                Ok(()) => {
                    &&& self.fill_error(axis.window(), old(canvas)@.width, old(canvas)@.height)
                        is None
                    &&& self.draws(axis.window(), old(canvas)@, final(canvas)@)
                },
                Err(e) => {
                    &&& self.fill_error(axis.window(), old(canvas)@.width, old(canvas)@.height)
                        == Some(e)
                    &&& final(canvas)@ == old(canvas)@
                },
            },
    {
        let window = axis.get_window();
        let width = canvas.width();
        let height = canvas.height();
        match self {
            Element::Triangle(_) => Err(ErrorTypes::UnsupportedPrimitive),
            Element::Rectangle(Rectangle { color, min, max }) => {
                if window.min.x.raw == window.max.x.raw || window.min.y.raw == window.max.y.raw {
                    return Err(ErrorTypes::DegenerateTransform);
                }
                let low = (min.x.raw as i128, min.y.raw as i128);
                let high = (max.x.raw as i128, max.y.raw as i128);
                match corners_in_buffer(&window, low, high, width, height) {
                    Some((x0, x1, y0, y1)) => {
                        fill_block(canvas, x0, x1, y0, y1, *color);
                        Ok(())
                    },
                    None => Err(ErrorTypes::OutOfBoundsWrite),
                }
            },
            Element::Circle(Circle { middle, radius, color }) => {
                if window.min.x.raw == window.max.x.raw || window.min.y.raw == window.max.y.raw {
                    return Err(ErrorTypes::DegenerateTransform);
                }
                let r = radius.raw as i128;
                let low = (middle.x.raw as i128 - r, middle.y.raw as i128 - r);
                let high = (middle.x.raw as i128 + r, middle.y.raw as i128 + r);
                match corners_in_buffer(&window, low, high, width, height) {
                    Some((x0, x1, y0, y1)) => {
                        fill_ellipse(canvas, x0, x1, y0, y1, *color);
                        Ok(())
                    },
                    None => Err(ErrorTypes::OutOfBoundsWrite),
                }
            },
            Element::FuncEval(func, cmap) => {
                if window.min.x.raw == window.max.x.raw || window.min.y.raw == window.max.y.raw {
                    return Err(ErrorTypes::DegenerateTransform);
                }
                fill_field(canvas, &window, func, cmap)
            },
        }
    }
}

} // verus!
