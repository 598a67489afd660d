use vizzavi::{Circle, CmapGreys, ColorMap, Figure, Fixed, Origin, Point, ONE_RAW};

type Plain = Figure<fn(Point) -> Option<Fixed>, CmapGreys>;

/// The rows of one column of a circle, from the first up to and without the
/// second, as floating-point arithmetic gives them.
fn rows_in_floats(low: [usize; 2], high: [usize; 2], column: usize) -> (usize, usize) {
    let middle = [(high[0] + low[0]) as f64 / 2.0, (high[1] + low[1]) as f64 / 2.0];
    let t = (column as f64 - middle[0]).abs() / (high[0] as f64 - middle[0]);
    let s = (1.0 - t.powf(2.0)).sqrt();
    let q = s * (high[1] - low[1]) as f64 / 2.0;
    ((middle[1] - q) as usize, (middle[1] + q) as usize)
}

#[test]
fn circles_agree_with_the_rows_that_floats_give() {
    for (size, middle, radius) in [
        ([64, 64], [32, 32], 19),
        ([64, 48], [30, 20], 7),
        ([100, 100], [50, 50], 47),
        ([31, 57], [11, 40], 11),
        ([200, 30], [100, 23], 3),
        ([22, 22], [11, 11], 11),
    ] {
        let mut figure: Plain = Figure::new();
        figure.set_xlim([Fixed::zero(), Fixed::from_int(size[0] as i32)]);
        figure.set_ylim([Fixed::zero(), Fixed::from_int(size[1] as i32)]);
        figure.set_origin(Origin { is_left: true, is_bottom: false });
        figure.add_element(
            Circle {
                middle: Point::from_ints(middle[0] as i32, middle[1] as i32),
                radius: Fixed::from_int(radius as i32),
                color: [200, 0, 0],
            }
            .into(),
        );
        let buffer = figure.render(size).unwrap();
        let low = [middle[0] - radius, middle[1] - radius];
        let high = [middle[0] + radius, middle[1] + radius];
        for i in 0..size[0] {
            let rows = if low[0] <= i && i < high[0] { rows_in_floats(low, high, i) } else { (0, 0) };
            for j in 0..size[1] {
                let painted = buffer.get(i, j) == Some([200, 0, 0]);
                assert_eq!(painted, rows.0 <= j && j < rows.1);
            }
        }
    }
}

#[test]
fn a_circle_is_exact_where_a_root_is_a_whole_number() {
    let mut figure: Plain = Figure::new();
    figure.set_xlim([Fixed::zero(), Fixed::from_int(20)]);
    figure.set_ylim([Fixed::zero(), Fixed::from_int(20)]);
    figure.set_origin(Origin { is_left: true, is_bottom: false });
    figure.add_element(
        Circle { middle: Point::from_ints(10, 10), radius: Fixed::from_int(10), color: [200, 0, 0] }
            .into(),
    );
    let buffer = figure.render([20, 20]).unwrap();
    let painted = |i: usize| -> Vec<usize> {
        (0..20).filter(|j| buffer.get(i, *j) == Some([200, 0, 0])).collect()
    };
    assert_eq!(painted(0), Vec::<usize>::new());
    assert_eq!(painted(2), (4..16).collect::<Vec<usize>>());
    assert_eq!(painted(4), (2..18).collect::<Vec<usize>>());
    assert_eq!(painted(10), (0..20).collect::<Vec<usize>>());
    assert_eq!(painted(16), (2..18).collect::<Vec<usize>>());
    assert_eq!(painted(18), (4..16).collect::<Vec<usize>>());
    assert_eq!(painted(19), (5..14).collect::<Vec<usize>>());
    assert_eq!(painted(1), (5..14).collect::<Vec<usize>>());
}

#[test]
fn ellipses_agree_with_the_rows_that_floats_give() {
    let mut figure: Plain = Figure::new();
    figure.set_xlim([Fixed::zero(), Fixed::from_int(10)]);
    figure.set_ylim([Fixed::zero(), Fixed::from_int(10)]);
    figure.set_origin(Origin { is_left: true, is_bottom: false });
    figure.add_element(
        Circle { middle: Point::from_ints(4, 6), radius: Fixed::from_int(3), color: [200, 0, 0] }
            .into(),
    );
    let size = [70, 30];
    let buffer = figure.render(size).unwrap();
    let (low, high) = ([7, 9], [49, 27]);
    let mut count = 0;
    for i in 0..size[0] {
        let rows = if low[0] <= i && i < high[0] { rows_in_floats(low, high, i) } else { (0, 0) };
        for j in 0..size[1] {
            let painted = buffer.get(i, j) == Some([200, 0, 0]);
            assert_eq!(painted, rows.0 <= j && j < rows.1);
            count += painted as usize;
        }
    }
    assert!(count > 500);
}

#[test]
fn greys_agree_with_floats() {
    for parts in 0..=1000i64 {
        let value = parts as f64 / 1000.0;
        let raw = (value * ONE_RAW as f64).round() as i64;
        let level = (raw as f64 / ONE_RAW as f64 * 255.0) as u8;
        assert_eq!(CmapGreys.get_color(Fixed { raw }), [level; 3]);
    }
}

#[test]
fn mappings_agree_with_floats() {
    let mut figure: Plain = Figure::new();
    figure.set_xlim([Fixed::from_int(-7), Fixed::from_int(13)]);
    figure.set_ylim([Fixed::from_int(40), Fixed::from_int(-2)]);
    let size = [333, 71];
    for step in 0..200i64 {
        let place = Point {
            x: Fixed { raw: -7 * ONE_RAW + step * (ONE_RAW / 10 + 12345) },
            y: Fixed { raw: 40 * ONE_RAW - step * (ONE_RAW / 5 + 777) },
        };
        let x = place.x.raw as f64 / ONE_RAW as f64;
        let y = place.y.raw as f64 / ONE_RAW as f64;
        let expected = [
            ((x - -7.0) / (13.0 - -7.0) * 333.0).round() as usize,
            ((y - 40.0) / (-2.0 - 40.0) * 71.0).round() as usize,
        ];
        assert_eq!(figure.coordinate_to_pixel(&place, size), Ok(expected));
    }
    for i in 0..333 {
        let place = figure.pixel_to_coordinate(&[i, i % 71], size).unwrap();
        let expected = [i as f64 / 333.0 * 20.0, (i % 71) as f64 / 71.0 * -42.0];
        assert!((place.x.raw as f64 / ONE_RAW as f64 - expected[0]).abs() < 1e-9);
        assert!((place.y.raw as f64 / ONE_RAW as f64 - expected[1]).abs() < 1e-9);
    }
}
