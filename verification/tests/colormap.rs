use vizzavi::{CmapGreys, ColorMap, Fixed, ONE_RAW};

fn parts(n: i64, of: i64) -> Fixed {
    Fixed { raw: n * (ONE_RAW / of) }
}

#[test]
fn greys_run_from_black_at_zero_to_white_at_one() {
    assert_eq!(CmapGreys.get_color(Fixed::zero()), [0, 0, 0]);
    assert_eq!(CmapGreys.get_color(Fixed::one()), [255, 255, 255]);
    assert_eq!(CmapGreys.get_color(parts(1, 2)), [127, 127, 127]);
    assert_eq!(CmapGreys.get_color(parts(1, 4)), [63, 63, 63]);
    assert_eq!(CmapGreys.get_color(parts(3, 4)), [191, 191, 191]);
    assert_eq!(CmapGreys.get_color(Fixed { raw: ONE_RAW - 1 }), [254, 254, 254]);
    assert_eq!(CmapGreys.get_color(Fixed { raw: 1 }), [0, 0, 0]);
}

#[test]
fn greys_are_clamped_outside_the_range() {
    assert_eq!(CmapGreys.get_color(Fixed::from_int(2)), [255, 255, 255]);
    assert_eq!(CmapGreys.get_color(Fixed::from_int(-1)), [0, 0, 0]);
    assert_eq!(CmapGreys.get_color(Fixed { raw: i64::MAX }), [255, 255, 255]);
    assert_eq!(CmapGreys.get_color(Fixed { raw: i64::MIN }), [0, 0, 0]);
}

#[test]
fn greys_take_a_range() {
    let map = CmapGreys;
    let ten = Fixed::from_int(10);
    let zero = Fixed::zero();
    assert_eq!(map.get_color_normalized(Fixed::from_int(5), zero, ten), [127, 127, 127]);
    assert_eq!(map.get_color_normalized(Fixed::from_int(10), zero, ten), [255, 255, 255]);
    let minus_ten = Fixed::from_int(-10);
    assert_eq!(map.get_color_normalized(Fixed::from_int(-5), minus_ten, ten), [63, 63, 63]);
    let (lowest, highest) = (Fixed { raw: i64::MIN }, Fixed { raw: i64::MAX });
    assert_eq!(map.get_color_normalized(zero, lowest, highest), [127, 127, 127]);
}

#[test]
fn greys_take_a_range_that_runs_backwards() {
    let map = CmapGreys;
    let ten = Fixed::from_int(10);
    let zero = Fixed::zero();
    assert_eq!(map.get_color_normalized(parts(5, 2), ten, zero), [191, 191, 191]);
    assert_eq!(map.get_color_normalized(ten, ten, zero), [0, 0, 0]);
    assert_eq!(map.get_color_normalized(zero, ten, zero), [255, 255, 255]);
    assert_eq!(map.get_color_normalized(Fixed::from_int(11), ten, zero), [0, 0, 0]);
    assert_eq!(map.get_color_normalized(Fixed::from_int(-1), ten, zero), [255, 255, 255]);
}

#[test]
fn greys_on_an_empty_range_are_white_above_it_and_black_elsewhere() {
    let map = CmapGreys;
    let one = Fixed::one();
    assert_eq!(map.get_color_normalized(Fixed::from_int(2), one, one), [255, 255, 255]);
    assert_eq!(map.get_color_normalized(one, one, one), [0, 0, 0]);
    assert_eq!(map.get_color_normalized(Fixed::zero(), one, one), [0, 0, 0]);
}

#[test]
fn a_boxed_map_is_the_map_in_the_box() {
    let boxed: Box<dyn ColorMap> = Box::new(CmapGreys);
    assert_eq!(boxed.get_color(parts(1, 2)), [127, 127, 127]);
    assert_eq!(
        boxed.get_color_normalized(Fixed::from_int(5), Fixed::zero(), Fixed::from_int(10)),
        [127, 127, 127]
    );
}
