use vizzavi::{ErrorTypes, PixelBuffer};

#[test]
fn fresh_buffer_is_black() {
    let buffer = PixelBuffer::new(4, 3).unwrap();
    assert_eq!(buffer.width(), 4);
    assert_eq!(buffer.height(), 3);
    for i in 0..4 {
        for j in 0..3 {
            assert_eq!(buffer.get(i, j), Some([0, 0, 0]));
        }
    }
    assert_eq!(buffer.get(4, 0), None);
    assert_eq!(buffer.get(0, 3), None);
}

#[test]
fn empty_buffers_can_be_made() {
    let buffer = PixelBuffer::new(0, 7).unwrap();
    assert_eq!((buffer.width(), buffer.height()), (0, 7));
    assert_eq!(buffer.get(0, 0), None);
    assert_eq!(buffer.to_bytes(), Vec::<u8>::new());
    let buffer = PixelBuffer::new(5, 0).unwrap();
    assert_eq!((buffer.width(), buffer.height()), (5, 0));
}

#[test]
fn buffer_too_large_is_refused() {
    assert!(matches!(PixelBuffer::new(usize::MAX, 2), Err(ErrorTypes::ImageCreation)));
    assert!(matches!(PixelBuffer::new(usize::MAX / 2, 0), Err(ErrorTypes::ImageCreation)));
    assert!(matches!(
        PixelBuffer::new(isize::MAX as usize / 3 + 1, 1),
        Err(ErrorTypes::ImageCreation)
    ));
}

#[test]
fn put_changes_one_pixel() {
    let mut buffer = PixelBuffer::new(3, 2).unwrap();
    buffer.put(1, 0, [10, 20, 30]).unwrap();
    assert_eq!(buffer.get(1, 0), Some([10, 20, 30]));
    for i in 0..3 {
        for j in 0..2 {
            if (i, j) != (1, 0) {
                assert_eq!(buffer.get(i, j), Some([0, 0, 0]));
            }
        }
    }
    buffer.put(1, 0, [1, 2, 3]).unwrap();
    assert_eq!(buffer.get(1, 0), Some([1, 2, 3]));
    assert_eq!((buffer.width(), buffer.height()), (3, 2));
}

#[test]
fn put_refuses_a_place_outside_the_buffer() {
    let mut buffer = PixelBuffer::new(3, 2).unwrap();
    assert_eq!(buffer.put(3, 0, [1, 1, 1]), Err(ErrorTypes::OutOfBoundsWrite));
    assert_eq!(buffer.put(0, 2, [1, 1, 1]), Err(ErrorTypes::OutOfBoundsWrite));
    assert_eq!(buffer.put(2, 1, [1, 1, 1]), Ok(()));
    assert_eq!(buffer.to_bytes(), vec![0, 0, 0, 0, 0, 0, 0, 0, 0, 0, 0, 0, 0, 0, 0, 1, 1, 1]);
}

#[test]
fn flips_mirror_one_axis_each() {
    let mut buffer = PixelBuffer::new(3, 2).unwrap();
    buffer.put(0, 0, [1, 1, 1]).unwrap();
    buffer.put(1, 1, [2, 2, 2]).unwrap();
    buffer.flip_first();
    assert_eq!(buffer.get(2, 0), Some([1, 1, 1]));
    assert_eq!(buffer.get(1, 1), Some([2, 2, 2]));
    assert_eq!(buffer.get(0, 0), Some([0, 0, 0]));
    buffer.flip_second();
    assert_eq!(buffer.get(2, 1), Some([1, 1, 1]));
    assert_eq!(buffer.get(1, 0), Some([2, 2, 2]));
    assert_eq!(buffer.get(2, 0), Some([0, 0, 0]));
    assert_eq!((buffer.width(), buffer.height()), (3, 2));
    buffer.put(0, 0, [9, 9, 9]).unwrap();
    assert_eq!(buffer.get(0, 0), Some([9, 9, 9]));
    buffer.flip_first();
    buffer.flip_second();
    assert_eq!(buffer.get(2, 1), Some([9, 9, 9]));
    assert_eq!(buffer.get(0, 0), Some([1, 1, 1]));
}

#[test]
fn bytes_come_row_by_row() {
    let mut buffer = PixelBuffer::new(2, 3).unwrap();
    buffer.put(0, 0, [1, 2, 3]).unwrap();
    buffer.put(1, 0, [4, 5, 6]).unwrap();
    buffer.put(0, 1, [7, 8, 9]).unwrap();
    buffer.put(1, 1, [10, 11, 12]).unwrap();
    buffer.put(0, 2, [13, 14, 15]).unwrap();
    buffer.put(1, 2, [16, 17, 18]).unwrap();
    assert_eq!(
        buffer.to_bytes(),
        vec![1, 2, 3, 4, 5, 6, 7, 8, 9, 10, 11, 12, 13, 14, 15, 16, 17, 18]
    );
}
