use vizzavi::{
    Circle, CmapGreys, ElementKind, ErrorTypes, FailedElement, Figure, Fixed, Point, Rectangle,
    RenderError,
};

type Plain = Figure<fn(Point) -> Option<Fixed>, CmapGreys>;

const GREY: [u8; 3] = [250, 250, 250];
const RED: [u8; 3] = [200, 0, 0];

#[test]
fn a_window_without_extent_is_refused_by_every_mapping() {
    let mut figure: Plain = Figure::new();
    figure.set_xlim([Fixed::from_int(5), Fixed::from_int(5)]);
    figure.set_ylim([Fixed::from_int(0), Fixed::from_int(300)]);
    assert_eq!(
        figure.coordinate_to_pixel(&Point::from_ints(5, 100), [400, 300]),
        Err(ErrorTypes::DegenerateTransform)
    );
    assert_eq!(
        figure.pixel_to_coordinate(&[3, 3], [400, 300]),
        Err(ErrorTypes::DegenerateTransform)
    );
    assert_eq!(figure.get_dx(), Ok(Point::from_ints(0, 300)));
    assert!(figure.render([400, 300]).is_ok());
    figure.add_element(
        Rectangle { min: Point::from_ints(5, 0), max: Point::from_ints(5, 300), color: GREY }
            .into(),
    );
    assert_eq!(
        figure.render([400, 300]).err(),
        Some(RenderError {
            cause: ErrorTypes::DegenerateTransform,
            element: Some(FailedElement { index: 0, kind: ElementKind::Rectangle }),
        })
    );
    let mut figure: Plain = Figure::new();
    figure.set_ylim([Fixed::from_int(-2), Fixed::from_int(-2)]);
    figure.color_by_func(|_| None, CmapGreys);
    assert_eq!(
        figure.render([4, 3]).err(),
        Some(RenderError {
            cause: ErrorTypes::DegenerateTransform,
            element: Some(FailedElement { index: 0, kind: ElementKind::FuncEval }),
        })
    );
    let mut figure: Plain = Figure::new();
    figure.set_ylim([Fixed::from_int(-2), Fixed::from_int(-2)]);
    figure.add_element(
        Circle { middle: Point::from_ints(0, -2), radius: Fixed::one(), color: RED }.into(),
    );
    assert_eq!(
        figure.render([4, 3]).err(),
        Some(RenderError {
            cause: ErrorTypes::DegenerateTransform,
            element: Some(FailedElement { index: 0, kind: ElementKind::Circle }),
        })
    );
}

#[test]
fn a_red_disk_on_a_grey_ground() {
    let mut figure: Plain = Figure::new();
    figure.set_xlim([Fixed::from_int(0), Fixed::from_int(400)]);
    figure.set_ylim([Fixed::from_int(0), Fixed::from_int(300)]);
    figure.add_element(
        Rectangle { min: Point::from_ints(0, 0), max: Point::from_ints(400, 300), color: GREY }
            .into(),
    );
    figure.add_element(
        Circle { middle: Point::from_ints(150, 200), radius: Fixed::from_int(30), color: RED }
            .into(),
    );
    let buffer = figure.render([400, 300]).unwrap();
    assert_eq!((buffer.width(), buffer.height()), (400, 300));

    let mut red = 0;
    for i in 0..400usize {
        for j in 0..300usize {
            let color = buffer.get(i, j).unwrap();
            assert!(color == GREY || color == RED);
            let from_middle = ((i as i64 - 150).pow(2) + (j as i64 - 100).pow(2)) as u64;
            if color == RED {
                red += 1;
                assert!(from_middle <= 31 * 31);
            }
            if from_middle <= 28 * 28 {
                assert_eq!(color, RED);
            }
        }
    }
    assert_eq!(red, 2814);

    assert_eq!(buffer.get(150, 100), Some(RED));
    assert_eq!(buffer.get(150, 70), Some(RED));
    assert_eq!(buffer.get(150, 69), Some(GREY));
    assert_eq!(buffer.get(150, 129), Some(RED));
    assert_eq!(buffer.get(150, 130), Some(GREY));
    assert_eq!(buffer.get(120, 100), Some(GREY));
    assert_eq!(buffer.get(121, 100), Some(RED));
    assert_eq!(buffer.get(121, 93), Some(RED));
    assert_eq!(buffer.get(121, 92), Some(GREY));
    assert_eq!(buffer.get(121, 107), Some(RED));
    assert_eq!(buffer.get(121, 108), Some(GREY));
    assert_eq!(buffer.get(135, 75), Some(RED));
    assert_eq!(buffer.get(135, 125), Some(RED));
    assert_eq!(buffer.get(135, 126), Some(GREY));
    assert_eq!(buffer.get(179, 100), Some(RED));
    assert_eq!(buffer.get(180, 100), Some(GREY));
    assert_eq!(buffer.get(0, 0), Some(GREY));
    assert_eq!(buffer.get(399, 299), Some(GREY));
    assert_eq!(buffer.get(150, 200), Some(GREY));

    let bytes = buffer.to_bytes();
    assert_eq!(bytes.len(), 400 * 300 * 3);
    assert_eq!(bytes[(100 * 400 + 150) * 3..(100 * 400 + 150) * 3 + 3], RED);
    assert_eq!(bytes[(200 * 400 + 150) * 3..(200 * 400 + 150) * 3 + 3], GREY);
}
