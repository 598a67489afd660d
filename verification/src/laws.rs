//! What holds of the mappings and of the fills, whatever the figure.

use crate::arith::{
    lemma_round_error, lemma_round_exact, lemma_round_magnitude, lemma_round_monotone,
    lemma_round_order, round_div,
};
use crate::backend::bitmap::PixelBox;
use crate::canvas::Raster;
use crate::element::{Circle, ColorMap, Element, Rectangle};
use crate::figure::{drawn_in_order, mirrored, renders, Origin};
use crate::number::{Fixed, Point};
use crate::window::{coordinate_of, pixel_of, Window};
use vstd::prelude::*;

verus! {

/// The first mapping keeps the order of the coordinates along an axis, and
/// turns it round where the window runs backwards.
pub proof fn law_to_pixel_keeps_order(p: int, q: int, lo: int, hi: int, size: int)
    requires
        p <= q,
        lo != hi,
        0 <= size,
    ensures
        lo < hi ==> pixel_of(p, lo, hi, size) <= pixel_of(q, lo, hi, size),
        hi < lo ==> pixel_of(p, lo, hi, size) >= pixel_of(q, lo, hi, size),
{
    assert((p - lo) * size <= (q - lo) * size) by (nonlinear_arith)
        requires
            p <= q,
            0 <= size,
    ;
    if lo < hi {
        lemma_round_order((p - lo) * size, (q - lo) * size, hi - lo);
    } else {
        lemma_round_order(-((q - lo) * size), -((p - lo) * size), lo - hi);
    }
}

/// The second mapping keeps the order of the pixels along an axis, and turns
/// it round where the window runs backwards.
pub proof fn law_to_logical_keeps_order(i: int, j: int, lo: int, hi: int, size: int)
    requires
        i <= j,
        0 < size,
    ensures
        lo <= hi ==> coordinate_of(i, lo, hi, size) <= coordinate_of(j, lo, hi, size),
        hi <= lo ==> coordinate_of(i, lo, hi, size) >= coordinate_of(j, lo, hi, size),
{
    if lo <= hi {
        assert(i * (hi - lo) <= j * (hi - lo)) by (nonlinear_arith)
            requires
                i <= j,
                lo <= hi,
        ;
        lemma_round_order(i * (hi - lo), j * (hi - lo), size);
    }
    if hi <= lo {
        assert(j * (hi - lo) <= i * (hi - lo)) by (nonlinear_arith)
            requires
                i <= j,
                hi <= lo,
        ;
        lemma_round_order(j * (hi - lo), i * (hi - lo), size);
    }
}

/// Along one axis, the pixel of the coordinate of a pixel is that pixel or
/// one next to it, where the window's minimum, measured in pixels, and half
/// a step of the numbers together come to no more than one pixel. The second
/// mapping counts from the window's minimum and the first takes the minimum
/// off, so a window that begins further from zero than that does not lead
/// back. The pixel need not lie in the buffer.
pub proof fn law_round_trip_axis(i: int, lo: int, hi: int, size: int)
    requires
        0 < size,
        lo != hi,
        (2 * (if lo < 0 { -lo } else { lo }) + 1) * size <= 2 * (if hi < lo { lo - hi } else {
            hi - lo
        }),
    ensures
        i - 1 <= pixel_of(coordinate_of(i, lo, hi, size), lo, hi, size) <= i + 1,
{
    let e = hi - lo;
    let place = coordinate_of(i, lo, hi, size);
    let t = (place - lo) * size;
    lemma_round_error(i * e, size);
    let c = if lo < 0 { -lo } else { lo };
    let m = if e < 0 { -e } else { e };
    assert(-m <= t - i * e <= m) by (nonlinear_arith)
        requires
            t == (place - lo) * size,
            -size <= 2 * (place * size - i * e) <= size,
            (2 * c + 1) * size <= 2 * m,
            c == lo || c == -lo,
            0 < size,
            0 <= c,
    ;
    assert((i - 1) * e == i * e - e && (i + 1) * e == i * e + e) by (nonlinear_arith);
    if e > 0 {
        lemma_round_order((i - 1) * e, t, e);
        lemma_round_order(t, (i + 1) * e, e);
        lemma_round_exact(i - 1, e);
        lemma_round_exact(i + 1, e);
    } else {
        assert(-((i - 1) * e) == (i - 1) * m && -((i + 1) * e) == (i + 1) * m)
            by (nonlinear_arith)
            requires
                m == -e,
        ;
        lemma_round_order((i - 1) * m, -t, m);
        lemma_round_order(-t, (i + 1) * m, m);
        lemma_round_exact(i - 1, m);
        lemma_round_exact(i + 1, m);
        assert(round_div(t, e) == round_div(-t, m));
    }
}

/// The pixel of the place of a pixel of the buffer is that pixel or one
/// next to it, on each axis, where the window begins at zero on both axes
/// and no axis has more than two pixels to a step of the numbers.
pub proof fn law_round_trip(window: Window, pix: Seq<usize>, size: Seq<usize>)
    requires
        pix.len() == 2,
        size.len() == 2,
        pix[0] < size[0],
        pix[1] < size[1],
        !window.degenerate(),
        window.min.x.raw == 0,
        window.min.y.raw == 0,
        size[0] <= 2 * window.max.x.raw || size[0] <= -2 * window.max.x.raw,
        size[1] <= 2 * window.max.y.raw || size[1] <= -2 * window.max.y.raw,
    ensures
        window.to_logical_spec(pix, size) is Ok,
        window.to_pixel_spec(window.to_logical_spec(pix, size)->Ok_0, size) is Ok,
        ({
            let back = window.to_pixel_spec(window.to_logical_spec(pix, size)->Ok_0, size)->Ok_0;
            &&& pix[0] - 1 <= back.0 <= pix[0] + 1
            &&& pix[1] - 1 <= back.1 <= pix[1] + 1
        }),
{
    lemma_place_from_zero(pix[0] as int, window.max.x.raw as int, size[0] as int);
    lemma_place_from_zero(pix[1] as int, window.max.y.raw as int, size[1] as int);
    assert((2 * 0 + 1) * size[0] == size[0] && (2 * 0 + 1) * size[1] == size[1])
        by (nonlinear_arith);
    law_round_trip_axis(pix[0] as int, 0, window.max.x.raw as int, size[0] as int);
    law_round_trip_axis(pix[1] as int, 0, window.max.y.raw as int, size[1] as int);
}

/// In a window that begins at zero, the coordinate of a pixel of the buffer
/// lies between zero and the window's end, and its pixel is not below zero.
proof fn lemma_place_from_zero(i: int, hi: int, size: int)
    requires
        0 <= i < size,
        hi != 0,
        i64::MIN <= hi <= i64::MAX,
    ensures
        i64::MIN <= coordinate_of(i, 0, hi, size) <= i64::MAX,
        0 <= pixel_of(coordinate_of(i, 0, hi, size), 0, hi, size),
{
    let m = if hi < 0 { -hi } else { hi };
    let place = coordinate_of(i, 0, hi, size);
    assert(0 <= i * m <= m * size) by (nonlinear_arith)
        requires
            0 <= i < size,
            0 <= m,
    ;
    lemma_round_monotone(i * m, m * size, size);
    lemma_round_exact(m, size);
    lemma_round_magnitude(i * m, size);
    let near = round_div(i * m, size);
    assert(i * hi == i * m || i * hi == -(i * m)) by (nonlinear_arith)
        requires
            m == hi || m == -hi,
    ;
    assert(hi > 0 ==> i * hi == i * m);
    assert(hi < 0 ==> i * hi == -(i * m)) by (nonlinear_arith)
        requires
            m == if hi < 0 { -hi } else { hi },
    ;
    assert(place == if hi > 0 { near } else { -near });
    assert(0 <= near * size) by (nonlinear_arith)
        requires
            0 <= near,
            0 < size,
    ;
    assert((place - 0) * size == if hi > 0 { near * size } else { -(near * size) })
        by (nonlinear_arith)
        requires
            place == if hi > 0 { near } else { -near },
    ;
    lemma_round_monotone(0, near * size, m);
}

/// A rectangle that spans the window from corner to corner can be drawn on
/// every buffer, and every pixel then has its colour.
pub proof fn law_full_rectangle<F: Fn(Point) -> Option<Fixed>, C: ColorMap>(
    window: Window,
    rectangle: Rectangle,
    before: Raster,
    after: Raster,
)
    requires
        !window.degenerate(),
        rectangle.min == window.min,
        rectangle.max == window.max,
        Element::<F, C>::Rectangle(rectangle).draws(window, before, after),
    ensures
        Element::<F, C>::Rectangle(rectangle).fill_error(window, before.width, before.height)
            is None,
        after.width == before.width,
        after.height == before.height,
        forall|i: int, j: int| #[trigger]
            after.contains(i, j) ==> after.at(i, j) == rectangle.color@,
{
    lemma_round_exact(before.width as int, window.max.x.raw - window.min.x.raw);
    lemma_round_exact(before.height as int, window.max.y.raw - window.min.y.raw);
    assert((window.max.x.raw - window.min.x.raw) * before.width == before.width * (window.max.x.raw
        - window.min.x.raw)) by (nonlinear_arith);
    assert((window.max.y.raw - window.min.y.raw) * before.height == before.height * (
    window.max.y.raw - window.min.y.raw)) by (nonlinear_arith);
    lemma_round_exact(0, window.max.x.raw - window.min.x.raw);
    lemma_round_exact(0, window.max.y.raw - window.min.y.raw);
    let corners = rectangle.pixel_box(window, before.width, before.height);
    assert(corners.x0 == 0 && corners.y0 == 0);
    assert(corners.x1 == before.width && corners.y1 == before.height);
}

/// A rectangle whose second corner is not beyond its first on both axes,
/// once mapped, paints nothing.
pub proof fn law_empty_rectangle<F: Fn(Point) -> Option<Fixed>, C: ColorMap>(
    window: Window,
    rectangle: Rectangle,
    before: Raster,
    after: Raster,
)
    requires
        before.wf(),
        Element::<F, C>::Rectangle(rectangle).draws(window, before, after),
        ({
            let corners = rectangle.pixel_box(window, before.width, before.height);
            corners.x1 <= corners.x0 || corners.y1 <= corners.y0
        }),
    ensures
        after == before,
{
    assert(after.pixels =~= before.pixels);
}

/// A circle whose box is empty, once mapped, paints nothing.
pub proof fn law_empty_circle<F: Fn(Point) -> Option<Fixed>, C: ColorMap>(
    window: Window,
    circle: Circle,
    before: Raster,
    after: Raster,
)
    requires
        before.wf(),
        Element::<F, C>::Circle(circle).draws(window, before, after),
        ({
            let corners = circle.pixel_box(window, before.width, before.height);
            corners.x1 <= corners.x0 || corners.y1 <= corners.y0
        }),
    ensures
        after == before,
{
    assert(after.pixels =~= before.pixels);
}

/// Drawing keeps the size of the buffer and leaves it with a colour for
/// each of its places.
pub proof fn lemma_trace_keeps_grid<F: Fn(Point) -> Option<Fixed>, C: ColorMap>(
    window: Window,
    scene: Seq<Element<F, C>>,
    trace: Seq<Raster>,
    k: int,
)
    requires
        drawn_in_order(window, scene, trace),
        trace[0].wf(),
        0 <= k <= scene.len(),
    ensures
        trace[k].width == trace[0].width,
        trace[k].height == trace[0].height,
        trace[k].wf(),
    decreases k,
{
    if k > 0 {
        lemma_trace_keeps_grid(window, scene, trace, k - 1);
        assert(scene[k - 1].draws(window, trace[k - 1], trace[k]));
    }
}

/// Where the last element of a scene is a rectangle that spans the window
/// from corner to corner, every pixel of the picture has its colour.
pub proof fn law_full_rectangle_rendered<F: Fn(Point) -> Option<Fixed>, C: ColorMap>(
    window: Window,
    scene: Seq<Element<F, C>>,
    origin: Origin,
    width: nat,
    height: nat,
    out: Raster,
    rectangle: Rectangle,
)
    requires
        scene.len() > 0,
        scene.last() == Element::<F, C>::Rectangle(rectangle),
        !window.degenerate(),
        rectangle.min == window.min,
        rectangle.max == window.max,
        renders(window, scene, origin, width, height, out),
    ensures
        out.width == width,
        out.height == height,
        forall|i: int, j: int| #[trigger] out.contains(i, j) ==> out.at(i, j) == rectangle.color@,
{
    let trace = choose|trace: Seq<Raster>|
        {
            &&& #[trigger] drawn_in_order(window, scene, trace)
            &&& trace[0] == Raster::blank(width, height)
            &&& out == mirrored(origin, trace.last())
        };
    let n = scene.len() as int;
    lemma_trace_keeps_grid(window, scene, trace, n - 1);
    assert(scene[n - 1].draws(window, trace[n - 1], trace[n]));
    law_full_rectangle::<F, C>(window, rectangle, trace[n - 1], trace[n]);
    let drawn = trace[n];
    let sideways = if origin.is_left { drawn } else { drawn.flip_first() };
    assert forall|i: int, j: int| #[trigger] sideways.contains(i, j) implies sideways.at(i, j)
        == rectangle.color@ by {
        assert(drawn.contains(i, j));
        assert(drawn.contains(drawn.width - 1 - i, j));
    }
    assert forall|i: int, j: int| #[trigger] out.contains(i, j) implies out.at(i, j)
        == rectangle.color@ by {
        assert(sideways.contains(i, j));
        assert(sideways.contains(i, sideways.height - 1 - j));
    }
}

/// A field whose function gives nothing anywhere leaves the buffer as it
/// was.
pub proof fn law_silent_field<F: Fn(Point) -> Option<Fixed>, C: ColorMap>(
    window: Window,
    field: Element<F, C>,
    before: Raster,
    after: Raster,
)
    requires
        field is FuncEval,
        field.gives_nothing(),
        before.wf(),
        field.draws(window, before, after),
    ensures
        after == before,
{
    assert forall|p: (int, int)| before.pixels.dom().contains(p) implies #[trigger] after.pixels[p]
        == before.pixels[p] by {
        assert(before.contains(p.0, p.1));
    }
    assert(after.pixels =~= before.pixels);
}

/// Where the last element of a scene is a field whose function gives
/// nothing anywhere, the picture is that of the scene without it: what was
/// drawn before stays as it was.
pub proof fn law_silent_field_rendered<F: Fn(Point) -> Option<Fixed>, C: ColorMap>(
    window: Window,
    scene: Seq<Element<F, C>>,
    origin: Origin,
    width: nat,
    height: nat,
    out: Raster,
)
    requires
        scene.len() > 0,
        scene.last() is FuncEval,
        scene.last().gives_nothing(),
        renders(window, scene, origin, width, height, out),
    ensures
        renders(window, scene.drop_last(), origin, width, height, out),
{
    let trace = choose|trace: Seq<Raster>|
        {
            &&& #[trigger] drawn_in_order(window, scene, trace)
            &&& trace[0] == Raster::blank(width, height)
            &&& out == mirrored(origin, trace.last())
        };
    let n = scene.len() as int;
    lemma_trace_keeps_grid(window, scene, trace, n - 1);
    assert(scene[n - 1].draws(window, trace[n - 1], trace[n]));
    law_silent_field(window, scene[n - 1], trace[n - 1], trace[n]);
    let shorter = trace.drop_last();
    assert(drawn_in_order(window, scene.drop_last(), shorter)) by {
        let rest = scene.drop_last();
        assert forall|k: int| 0 <= k < rest.len() implies (#[trigger] rest[k]).draws(
            window,
            shorter[k],
            shorter[k + 1],
        ) by {
            assert(scene[k].draws(window, trace[k], trace[k + 1]));
        }
    }
    assert(shorter[0] == Raster::blank(width, height));
    assert(shorter.last() == trace[n - 1]);
}

/// The picture of a scene of nothing but fields whose functions give nothing
/// anywhere is the black buffer.
pub proof fn law_silent_scene<F: Fn(Point) -> Option<Fixed>, C: ColorMap>(
    window: Window,
    scene: Seq<Element<F, C>>,
    origin: Origin,
    width: nat,
    height: nat,
    out: Raster,
)
    requires
        forall|k: int|
            0 <= k < scene.len() ==> (#[trigger] scene[k]) is FuncEval && scene[k].gives_nothing(),
        renders(window, scene, origin, width, height, out),
    ensures
        out == Raster::blank(width, height),
    decreases scene.len(),
{
    if scene.len() == 0 {
        let trace = choose|trace: Seq<Raster>|
            {
                &&& #[trigger] drawn_in_order(window, scene, trace)
                &&& trace[0] == Raster::blank(width, height)
                &&& out == mirrored(origin, trace.last())
            };
        let blank = Raster::blank(width, height);
        assert(trace.last() == blank);
        assert(blank.flip_first().pixels =~= blank.pixels);
        assert(blank.flip_second().pixels =~= blank.pixels);
        assert(blank.flip_first() == blank);
        assert(blank.flip_second() == blank);
    } else {
        law_silent_field_rendered(window, scene, origin, width, height, out);
        law_silent_scene(window, scene.drop_last(), origin, width, height, out);
    }
}

/// On a square buffer, through a window of one extent on both axes, the
/// box of a circle about the middle of the window is square, and its middle
/// is the middle of the buffer or half a pixel off it.
pub proof fn law_centred_circle_box(window: Window, circle: Circle, size: nat)
    requires
        !window.degenerate(),
        window.max.x.raw - window.min.x.raw == window.max.y.raw - window.min.y.raw,
        2 * (circle.middle.x.raw - window.min.x.raw) == window.max.x.raw - window.min.x.raw,
        2 * (circle.middle.y.raw - window.min.y.raw) == window.max.y.raw - window.min.y.raw,
    ensures
        ({
            let corners = circle.pixel_box(window, size, size);
            &&& corners.x0 == corners.y0
            &&& corners.x1 == corners.y1
            &&& size - 1 <= corners.x0 + corners.x1 <= size + 1
        }),
{
    let e = window.max.x.raw - window.min.x.raw;
    let low = (circle.middle.x.raw - circle.radius.raw - window.min.x.raw) * size;
    let high = (circle.middle.x.raw + circle.radius.raw - window.min.x.raw) * size;
    lemma_round_error(low, e);
    lemma_round_error(high, e);
    let corners = circle.pixel_box(window, size, size);
    assert(corners.x0 == round_div(low, e));
    assert(corners.x1 == round_div(high, e));
    assert(low + high == size * e) by (nonlinear_arith)
        requires
            low == (circle.middle.x.raw - circle.radius.raw - window.min.x.raw) * size,
            high == (circle.middle.x.raw + circle.radius.raw - window.min.x.raw) * size,
            2 * (circle.middle.x.raw - window.min.x.raw) == e,
    ;
    let sum = corners.x0 + corners.x1;
    assert((sum - size) * e == (corners.x0 * e - low) + (corners.x1 * e - high))
        by (nonlinear_arith)
        requires
            sum == corners.x0 + corners.x1,
            low + high == size * e,
    ;
    assert(-1 <= sum - size <= 1) by (nonlinear_arith)
        requires
            e != 0,
            -e <= (sum - size) * e <= e || e <= (sum - size) * e <= -e,
    ;
}

/// In a square box the circle is the same after a quarter turn about the
/// middle of the box, but for the pixels that its rim crosses. A pixel whose
/// whole square lies inside the circle is painted, and so is the pixel to
/// which the quarter turn takes it; a pixel whose square the circle does not
/// reach is not painted, nor is the pixel to which the quarter turn takes
/// it.
pub proof fn law_circle_quarter_turn(corners: PixelBox, i: int, j: int)
    requires
        corners.x1 - corners.x0 == corners.y1 - corners.y0,
        corners.x0 < corners.x1,
    ensures
        ({
            let turned = corners.quarter_turn(i, j);
            &&& corners.wholly_inside(i, j) ==> corners.in_ellipse(i, j) && corners.in_ellipse(
                turned.0,
                turned.1,
            )
            &&& !corners.reached(i, j) ==> !corners.in_ellipse(i, j) && !corners.in_ellipse(
                turned.0,
                turned.1,
            )
        }),
{
    let turned = corners.quarter_turn(i, j);
    lemma_circle_rim(corners, i, j);
    lemma_circle_rim(corners, turned.0, turned.1);
    let a = 2 * i + 1 - (corners.x0 + corners.x1);
    let b = 2 * j + 1 - (corners.y0 + corners.y1);
    let turned_a = 2 * turned.0 + 1 - (corners.x0 + corners.x1);
    let turned_b = 2 * turned.1 + 1 - (corners.y0 + corners.y1);
    assert(turned_a == -b && turned_b == a);
    let far_a = if a < 0 { 1 - a } else { a + 1 };
    let far_b = if b < 0 { 1 - b } else { b + 1 };
    assert(far_a * far_a + far_b * far_b == far_b * far_b + far_a * far_a);
    let near_a = if a < 0 { -a - 1 } else { a - 1 };
    let near_b = if b < 0 { -b - 1 } else { b - 1 };
    assert(near_a * near_a + near_b * near_b == near_b * near_b + near_a * near_a);
    assert(corners.wholly_inside(i, j) == corners.wholly_inside(turned.0, turned.1));
    assert(corners.reached(i, j) == corners.reached(turned.0, turned.1));
}

/// A circle about the middle of the window, drawn through a window of one
/// extent on both axes onto a square buffer, is the same after a quarter turn
/// about the middle of its box, but for the pixels that its rim crosses: a
/// pixel whose whole square lies inside the circle has the circle's colour,
/// and so has the pixel to which the quarter turn takes it; a pixel whose
/// square the circle does not reach is as it was, and so is the pixel to
/// which the quarter turn takes it, where the buffer has such a pixel.
pub proof fn law_centred_circle_drawn<F: Fn(Point) -> Option<Fixed>, C: ColorMap>(
    window: Window,
    circle: Circle,
    before: Raster,
    after: Raster,
    i: int,
    j: int,
)
    requires
        window.max.x.raw - window.min.x.raw == window.max.y.raw - window.min.y.raw,
        2 * (circle.middle.x.raw - window.min.x.raw) == window.max.x.raw - window.min.x.raw,
        2 * (circle.middle.y.raw - window.min.y.raw) == window.max.y.raw - window.min.y.raw,
        before.width == before.height,
        Element::<F, C>::Circle(circle).fill_error(window, before.width, before.height) is None,
        Element::<F, C>::Circle(circle).draws(window, before, after),
        circle.pixel_box(window, before.width, before.height).x0 < circle.pixel_box(
            window,
            before.width,
            before.height,
        ).x1,
        before.contains(i, j),
    ensures
        ({
            let corners = circle.pixel_box(window, before.width, before.height);
            let turned = corners.quarter_turn(i, j);
            &&& corners.wholly_inside(i, j) ==> {
                &&& before.contains(turned.0, turned.1)
                &&& after.at(i, j) == circle.color@
                &&& after.at(turned.0, turned.1) == circle.color@
            }
            &&& !corners.reached(i, j) && before.contains(turned.0, turned.1) ==> {
                &&& after.at(i, j) == before.at(i, j)
                &&& after.at(turned.0, turned.1) == before.at(turned.0, turned.1)
            }
        }),
{
    let corners = circle.pixel_box(window, before.width, before.height);
    let turned = corners.quarter_turn(i, j);
    law_centred_circle_box(window, circle, before.width);
    law_circle_quarter_turn(corners, i, j);
    if corners.wholly_inside(i, j) {
        lemma_ellipse_in_box(corners, turned.0, turned.1);
    }
}

/// The ellipse in a box lies between the corners of the box.
pub proof fn lemma_ellipse_in_box(corners: PixelBox, i: int, j: int)
    requires
        corners.in_ellipse(i, j),
    ensures
        corners.in_block(i, j),
{
    let wx = corners.x1 - corners.x0;
    let hy = corners.y1 - corners.y0;
    let d = 2 * i - (corners.x0 + corners.x1);
    let u = 2 * (j + 1) - (corners.y0 + corners.y1);
    let room = wx * wx - d * d;
    assert(0 <= d * d && 0 < wx * wx && 0 < hy * hy) by (nonlinear_arith)
        requires
            wx > 0,
            hy > 0,
    ;
    assert(hy * hy * room <= hy * hy * (wx * wx)) by (nonlinear_arith)
        requires
            room <= wx * wx,
            0 < hy * hy,
    ;
    if u > hy {
        assert(u * u * (wx * wx) > hy * hy * (wx * wx)) by (nonlinear_arith)
            requires
                u > hy,
                hy > 0,
                0 < wx * wx,
        ;
    }
    if u <= -hy {
        assert(u * u * (wx * wx) >= hy * hy * (wx * wx)) by (nonlinear_arith)
            requires
                u <= -hy,
                hy > 0,
                0 < wx * wx,
        ;
    }
}

/// In a square box a pixel whose whole square lies inside the circle is
/// painted, and a painted pixel is one whose square the circle reaches.
pub proof fn lemma_circle_rim(corners: PixelBox, i: int, j: int)
    requires
        corners.x1 - corners.x0 == corners.y1 - corners.y0,
        corners.x0 < corners.x1,
    ensures
        corners.wholly_inside(i, j) ==> corners.in_ellipse(i, j),
        corners.in_ellipse(i, j) ==> corners.reached(i, j),
{
    let w = corners.x1 - corners.x0;
    let a = 2 * i + 1 - (corners.x0 + corners.x1);
    let b = 2 * j + 1 - (corners.y0 + corners.y1);
    let d = 2 * i - (corners.x0 + corners.x1);
    let u = 2 * (j + 1) - (corners.y0 + corners.y1);
    let far_a = if a < 0 { 1 - a } else { a + 1 };
    let far_b = if b < 0 { 1 - b } else { b + 1 };
    let near_a = if a < 0 { -a - 1 } else { a - 1 };
    let near_b = if b < 0 { -b - 1 } else { b - 1 };
    assert(d == a - 1 && u == b + 1);
    assert(near_a * near_a <= d * d <= far_a * far_a) by (nonlinear_arith)
        requires
            d == a - 1,
            far_a == if a < 0 { 1 - a } else { a + 1 },
            near_a == if a < 0 { -a - 1 } else { a - 1 },
    ;
    assert(near_b * near_b <= u * u <= far_b * far_b) by (nonlinear_arith)
        requires
            u == b + 1,
            far_b == if b < 0 { 1 - b } else { b + 1 },
            near_b == if b < 0 { -b - 1 } else { b - 1 },
    ;
    assert(u * u * (w * w) + d * d * (w * w) == (u * u + d * d) * (w * w)) by (nonlinear_arith);
    assert(w * w * (w * w - d * d) == (w * w) * (w * w) - d * d * (w * w)) by (nonlinear_arith);
    assert(w * w > 0) by (nonlinear_arith)
        requires
            w > 0,
    ;
    let s = u * u + d * d;
    let ww = w * w;
    assert(s < ww ==> s * ww < ww * ww) by (nonlinear_arith)
        requires
            ww > 0,
    ;
    assert(s * ww <= ww * ww ==> s <= ww) by (nonlinear_arith)
        requires
            ww > 0,
    ;
    if corners.wholly_inside(i, j) {
        assert(far_a < w) by (nonlinear_arith)
            requires
                far_a * far_a + far_b * far_b < w * w,
                far_a >= 1,
                w > 0,
        ;
        assert(corners.x0 <= i < corners.x1);
    }
}

} // verus!
