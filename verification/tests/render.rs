use vizzavi::{
    Circle, CmapGreys, ColorMap, Element, ElementKind, ErrorTypes, FailedElement, Figure, Fixed,
    Origin, PixelBuffer, Point, Rectangle, RenderError, Triangle, ONE_RAW,
};

type Plain = Figure<fn(Point) -> Option<Fixed>, CmapGreys>;

const TOP_LEFT: Origin = Origin { is_left: true, is_bottom: false };

fn figure(x: [i32; 2], y: [i32; 2]) -> Plain {
    let mut figure = Figure::new();
    figure.set_xlim([Fixed::from_int(x[0]), Fixed::from_int(x[1])]);
    figure.set_ylim([Fixed::from_int(y[0]), Fixed::from_int(y[1])]);
    figure.set_origin(TOP_LEFT);
    figure
}

fn rectangle(min: [i32; 2], max: [i32; 2], color: [u8; 3]) -> Rectangle {
    let (min, max) = (Point::from_ints(min[0], min[1]), Point::from_ints(max[0], max[1]));
    Rectangle { min, max, color }
}

fn rows(buffer: &PixelBuffer, on: [u8; 3]) -> Vec<String> {
    let mut rows = Vec::new();
    for j in 0..buffer.height() {
        let mut row = String::new();
        for i in 0..buffer.width() {
            row.push(if buffer.get(i, j) == Some(on) { '#' } else { '.' });
        }
        rows.push(row);
    }
    rows
}

fn failed(cause: ErrorTypes, index: usize, kind: ElementKind) -> RenderError {
    RenderError { cause, element: Some(FailedElement { index, kind }) }
}

#[test]
fn an_empty_scene_is_black() {
    let buffer = figure([0, 4], [0, 4]).render([3, 2]).unwrap();
    assert_eq!((buffer.width(), buffer.height()), (3, 2));
    assert_eq!(buffer.to_bytes(), vec![0; 18]);
}

#[test]
fn a_rectangle_fills_from_its_first_corner_up_to_its_second() {
    let mut figure = figure([0, 8], [0, 4]);
    figure.add_element(rectangle([2, 1], [5, 3], [9, 8, 7]).into());
    let buffer = figure.render([8, 4]).unwrap();
    assert_eq!(rows(&buffer, [9, 8, 7]), ["........", "..###...", "..###...", "........"]);
    assert_eq!(buffer.get(0, 0), Some([0, 0, 0]));
}

#[test]
fn a_rectangle_is_scaled_with_the_buffer() {
    let mut figure = figure([0, 8], [0, 4]);
    figure.add_element(rectangle([2, 1], [5, 3], [9, 8, 7]).into());
    let buffer = figure.render([4, 8]).unwrap();
    assert_eq!(
        rows(&buffer, [9, 8, 7]),
        ["....", "....", ".##.", ".##.", ".##.", ".##.", "....", "...."]
    );
}

#[test]
fn a_rectangle_whose_corners_are_in_the_wrong_order_paints_nothing() {
    let mut figure = figure([0, 8], [0, 4]);
    figure.add_element(rectangle([5, 1], [2, 3], [9, 8, 7]).into());
    figure.add_element(rectangle([2, 3], [5, 1], [9, 8, 7]).into());
    figure.add_element(rectangle([3, 2], [3, 4], [9, 8, 7]).into());
    let buffer = figure.render([8, 4]).unwrap();
    assert_eq!(buffer.to_bytes(), vec![0; 8 * 4 * 3]);
}

#[test]
fn later_elements_are_drawn_over_earlier_ones() {
    let mut figure = figure([0, 4], [0, 4]);
    figure.add_element(rectangle([0, 0], [3, 3], [1, 1, 1]).into());
    figure.add_element(rectangle([2, 2], [4, 4], [2, 2, 2]).into());
    let buffer = figure.render([4, 4]).unwrap();
    assert_eq!(rows(&buffer, [1, 1, 1]), ["###.", "###.", "##..", "...."]);
    assert_eq!(rows(&buffer, [2, 2, 2]), ["....", "....", "..##", "..##"]);
    let mut figure = self::figure([0, 4], [0, 4]);
    figure.add_element(rectangle([2, 2], [4, 4], [2, 2, 2]).into());
    figure.add_element(rectangle([0, 0], [3, 3], [1, 1, 1]).into());
    let buffer = figure.render([4, 4]).unwrap();
    assert_eq!(rows(&buffer, [1, 1, 1]), ["###.", "###.", "###.", "...."]);
}

#[test]
fn the_origin_decides_how_the_picture_is_mirrored() {
    let mut figure = figure([0, 4], [0, 4]);
    figure.add_element(rectangle([0, 0], [1, 2], [5, 5, 5]).into());
    let mut origin = Origin::default();
    figure.set_origin(origin);
    let buffer = figure.render([4, 4]).unwrap();
    assert_eq!(rows(&buffer, [5, 5, 5]), ["....", "....", "#...", "#..."]);
    origin.switchy();
    figure.set_origin(origin);
    let buffer = figure.render([4, 4]).unwrap();
    assert_eq!(rows(&buffer, [5, 5, 5]), ["#...", "#...", "....", "...."]);
    origin.switchx();
    figure.set_origin(origin);
    let buffer = figure.render([4, 4]).unwrap();
    assert_eq!(rows(&buffer, [5, 5, 5]), ["...#", "...#", "....", "...."]);
    origin.switchy();
    figure.set_origin(origin);
    assert!(!figure.get_origin().is_left && figure.get_origin().is_bottom);
    let buffer = figure.render([4, 4]).unwrap();
    assert_eq!(rows(&buffer, [5, 5, 5]), ["....", "....", "...#", "...#"]);
}

#[test]
fn a_circle_is_filled_column_by_column() {
    let mut figure = figure([0, 8], [0, 8]);
    figure.add_element(
        Circle { middle: Point::from_ints(4, 4), radius: Fixed::from_int(3), color: [200, 0, 0] }
            .into(),
    );
    let buffer = figure.render([8, 8]).unwrap();
    assert_eq!(
        rows(&buffer, [200, 0, 0]),
        [
            "........",
            "..#####.",
            "..#####.",
            "..#####.",
            "..#####.",
            "..#####.",
            "....#...",
            "........",
        ]
    );
}

#[test]
fn a_circle_shows_as_an_ellipse_where_the_axes_are_scaled_differently() {
    let mut figure = figure([0, 8], [0, 8]);
    figure.add_element(
        Circle { middle: Point::from_ints(4, 4), radius: Fixed::from_int(3), color: [200, 0, 0] }
            .into(),
    );
    let buffer = figure.render([16, 8]).unwrap();
    assert_eq!(
        rows(&buffer, [200, 0, 0]),
        [
            "................",
            "....#########...",
            "...###########..",
            "...###########..",
            "...###########..",
            "....#########...",
            "........#.......",
            "................",
        ]
    );
}

#[test]
fn a_circle_without_radius_paints_nothing() {
    let mut figure = figure([0, 8], [0, 8]);
    figure.add_element(
        Circle { middle: Point::from_ints(4, 4), radius: Fixed::zero(), color: [200, 0, 0] }.into(),
    );
    figure.add_element(
        Circle { middle: Point::from_ints(4, 4), radius: Fixed::from_int(-2), color: [200, 0, 0] }
            .into(),
    );
    let buffer = figure.render([8, 8]).unwrap();
    assert_eq!(buffer.to_bytes(), vec![0; 8 * 8 * 3]);
}

#[test]
fn a_field_colours_each_pixel_by_the_value_at_its_place() {
    fn ramp(p: Point) -> Option<Fixed> {
        if p.x.raw >= 2 * ONE_RAW {
            Some(Fixed { raw: p.y.raw / 4 })
        } else {
            None
        }
    }
    let mut figure = figure([0, 4], [0, 4]);
    figure.add_element(rectangle([0, 0], [4, 4], [1, 2, 3]).into());
    figure.color_by_func(ramp, CmapGreys);
    let buffer = figure.render([4, 4]).unwrap();
    for j in 0..4 {
        let grey = [0u8, 63, 127, 191][j];
        assert_eq!(buffer.get(0, j), Some([1, 2, 3]));
        assert_eq!(buffer.get(1, j), Some([1, 2, 3]));
        assert_eq!(buffer.get(2, j), Some([grey, grey, grey]));
        assert_eq!(buffer.get(3, j), Some([grey, grey, grey]));
    }
}

#[test]
fn a_field_sees_places_counted_from_the_start_of_the_window() {
    fn is_origin(p: Point) -> Option<Fixed> {
        if p == Point::from_ints(0, 0) {
            Some(Fixed::one())
        } else if p == Point::from_ints(6, 3) {
            Some(Fixed { raw: ONE_RAW / 2 })
        } else {
            None
        }
    }
    let mut figure = figure([10, 18], [-4, 0]);
    figure.color_by_func(is_origin, CmapGreys);
    let buffer = figure.render([4, 4]).unwrap();
    assert_eq!(rows(&buffer, [255, 255, 255]), ["#...", "....", "....", "...."]);
    assert_eq!(rows(&buffer, [127, 127, 127]), ["....", "....", "....", "...#"]);
}

#[test]
fn fields_of_one_figure_can_have_functions_and_maps_of_their_own() {
    struct Red;
    impl ColorMap for Red {
        fn get_color_normalized(&self, _h: Fixed, _min: Fixed, _max: Fixed) -> [u8; 3] {
            [255, 0, 0]
        }
    }
    let threshold = 2 * ONE_RAW;
    let mut figure: Figure<Box<dyn Fn(Point) -> Option<Fixed>>, Box<dyn ColorMap>> = Figure::new();
    figure.set_xlim([Fixed::zero(), Fixed::from_int(4)]);
    figure.set_ylim([Fixed::zero(), Fixed::from_int(2)]);
    figure.set_origin(TOP_LEFT);
    figure.color_by_func(Box::new(|_| Some(Fixed::one())), Box::new(CmapGreys));
    figure.color_by_func(
        Box::new(move |p: Point| if p.x.raw < threshold { Some(Fixed::zero()) } else { None }),
        Box::new(Red),
    );
    let buffer = figure.render([4, 2]).unwrap();
    assert_eq!(rows(&buffer, [255, 0, 0]), ["##..", "##.."]);
    assert_eq!(rows(&buffer, [255, 255, 255]), ["..##", "..##"]);
}

#[test]
fn a_field_on_an_empty_buffer_does_nothing() {
    fn never(_: Point) -> Option<Fixed> {
        unreachable!()
    }
    let mut figure = figure([0, 4], [0, 4]);
    figure.color_by_func(never, CmapGreys);
    assert_eq!(figure.render([0, 4]).unwrap().to_bytes(), Vec::<u8>::new());
    assert_eq!(figure.render([4, 0]).unwrap().to_bytes(), Vec::<u8>::new());
}

#[test]
fn a_triangle_is_refused() {
    let mut figure = figure([0, 4], [0, 4]);
    figure.add_element(rectangle([0, 0], [1, 1], [1, 1, 1]).into());
    figure.add_element(
        Triangle {
            points: [Point::from_ints(0, 0), Point::from_ints(1, 0), Point::from_ints(0, 1)],
            color: [1, 2, 3],
        }
        .into(),
    );
    figure.add_element(rectangle([0, 0], [9, 9], [1, 1, 1]).into());
    assert_eq!(
        figure.render([4, 4]).err(),
        Some(failed(ErrorTypes::UnsupportedPrimitive, 1, ElementKind::Triangle))
    );
    figure.set_xlim([Fixed::one(), Fixed::one()]);
    assert_eq!(
        figure.render([4, 4]).err(),
        Some(failed(ErrorTypes::DegenerateTransform, 0, ElementKind::Rectangle))
    );
}

#[test]
fn an_element_that_leaves_the_buffer_is_refused() {
    let mut figure = figure([0, 4], [0, 4]);
    figure.add_element(rectangle([0, 0], [4, 4], [1, 1, 1]).into());
    figure.add_element(rectangle([1, 1], [5, 2], [1, 1, 1]).into());
    assert_eq!(
        figure.render([4, 4]).err(),
        Some(failed(ErrorTypes::OutOfBoundsWrite, 1, ElementKind::Rectangle))
    );
    let mut figure = self::figure([0, 4], [0, 4]);
    figure.add_element(rectangle([-1, 1], [2, 2], [1, 1, 1]).into());
    assert_eq!(
        figure.render([4, 4]).err(),
        Some(failed(ErrorTypes::OutOfBoundsWrite, 0, ElementKind::Rectangle))
    );
    let mut figure = self::figure([0, 4], [0, 4]);
    figure.add_element(
        Circle { middle: Point::from_ints(1, 2), radius: Fixed::from_int(2), color: [1, 1, 1] }
            .into(),
    );
    assert_eq!(
        figure.render([4, 4]).err(),
        Some(failed(ErrorTypes::OutOfBoundsWrite, 0, ElementKind::Circle))
    );
    let mut figure = self::figure([0, 4], [0, 4]);
    figure.add_element(
        Circle {
            middle: Point { x: Fixed { raw: i64::MAX }, y: Fixed { raw: i64::MAX } },
            radius: Fixed { raw: i64::MAX },
            color: [1, 1, 1],
        }
        .into(),
    );
    assert_eq!(
        figure.render([4, 4]).err(),
        Some(failed(ErrorTypes::OutOfBoundsWrite, 0, ElementKind::Circle))
    );
}

#[test]
fn a_field_whose_places_cannot_be_held_is_refused() {
    fn one(_: Point) -> Option<Fixed> {
        Some(Fixed::one())
    }
    let mut figure = figure([0, 4], [0, 4]);
    figure.set_xlim([Fixed { raw: i64::MIN }, Fixed { raw: i64::MAX }]);
    figure.color_by_func(one, CmapGreys);
    assert_eq!(
        figure.render([10, 10]).err(),
        Some(failed(ErrorTypes::CastError, 0, ElementKind::FuncEval))
    );
    assert_eq!(
        figure.render([2, 2]).err(),
        Some(failed(ErrorTypes::CastError, 0, ElementKind::FuncEval))
    );
    assert_eq!(figure.render([1, 3]).unwrap().to_bytes(), vec![255; 9]);
    figure.set_xlim([Fixed { raw: i64::MIN }, Fixed { raw: i64::MAX - 1 }]);
    assert_eq!(figure.render([2, 2]).unwrap().to_bytes(), vec![255; 12]);
}

#[test]
fn a_buffer_too_large_is_refused() {
    let mut figure = figure([0, 4], [0, 4]);
    figure.add_element(rectangle([0, 0], [4, 4], [1, 1, 1]).into());
    assert_eq!(
        figure.render([usize::MAX, 2]).err(),
        Some(RenderError { cause: ErrorTypes::ImageCreation, element: None })
    );
}

#[test]
fn drawing_one_element_onto_a_buffer() {
    let figure = figure([0, 4], [0, 4]);
    let mut buffer = PixelBuffer::new(4, 4).unwrap();
    buffer.put(3, 3, [7, 7, 7]).unwrap();
    let element: Element<fn(Point) -> Option<Fixed>, CmapGreys> =
        rectangle([1, 1], [3, 2], [4, 4, 4]).into();
    assert_eq!(element.kind(), ElementKind::Rectangle);
    assert_eq!(element.draw_to_axis(&figure, &mut buffer), Ok(()));
    assert_eq!(rows(&buffer, [4, 4, 4]), ["....", ".##.", "....", "...."]);
    assert_eq!(buffer.get(3, 3), Some([7, 7, 7]));
    let outside: Element<fn(Point) -> Option<Fixed>, CmapGreys> =
        rectangle([1, 1], [3, 5], [6, 6, 6]).into();
    assert_eq!(outside.draw_to_axis(&figure, &mut buffer), Err(ErrorTypes::OutOfBoundsWrite));
    assert_eq!(rows(&buffer, [4, 4, 4]), ["....", ".##.", "....", "...."]);
    assert_eq!(rows(&buffer, [6, 6, 6]), ["....", "....", "....", "...."]);
}

#[test]
fn elements_are_made_from_shapes() {
    type Plain = Element<fn(Point) -> Option<Fixed>, CmapGreys>;
    let triangle = Triangle { points: [Point::from_ints(0, 0); 3], color: [0, 0, 0] };
    let circle = Circle { middle: Point::from_ints(0, 0), radius: Fixed::one(), color: [0, 0, 0] };
    assert_eq!(Plain::from(triangle).kind(), ElementKind::Triangle);
    assert_eq!(Plain::from(circle).kind(), ElementKind::Circle);
    assert_eq!(Plain::from(rectangle([0, 0], [1, 1], [0, 0, 0])).kind(), ElementKind::Rectangle);
    fn nothing(_: Point) -> Option<Fixed> {
        None
    }
    assert_eq!(Plain::FuncEval(nothing, CmapGreys).kind(), ElementKind::FuncEval);
    assert!(matches!(Plain::from(circle), Element::Circle(c) if c.radius == Fixed::one()));
}
