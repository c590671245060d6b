use raytracer::bmp::BmpImage;

fn le(bytes: &[u8], at: usize) -> u32 {
    u32::from_le_bytes([bytes[at], bytes[at + 1], bytes[at + 2], bytes[at + 3]])
}

#[test]
fn new_image_is_black() {
    let image = BmpImage::new(3, 2);
    let bytes = image.encode();
    assert_eq!(bytes.len(), 54 + 2 * 12);
    assert!(bytes[54..].iter().all(|b| *b == 0));
}

#[test]
fn header_of_a_two_by_two_image() {
    let bytes = BmpImage::new(2, 2).encode();
    let expected: Vec<u8> = vec![
        0x42, 0x4D, 70, 0, 0, 0, 0, 0, 0, 0, 54, 0, 0, 0, 40, 0, 0, 0, 2, 0, 0, 0, 2, 0, 0, 0, 1,
        0, 24, 0, 0, 0, 0, 0, 0, 0, 0, 0, 0, 0, 0, 0, 0, 0, 0, 0, 0, 0, 0, 0, 0, 0, 0, 0,
    ];
    assert_eq!(&bytes[..54], &expected[..]);
    assert_eq!(bytes.len(), 70);
}

#[test]
fn header_fields_are_little_endian() {
    let bytes = BmpImage::new(300, 70000).encode();
    assert_eq!(le(&bytes, 18), 300);
    assert_eq!(le(&bytes, 22), 70000);
    assert_eq!(le(&bytes, 2), 54 + 70000 * 900);
    assert_eq!(bytes.len(), 54 + 70000 * 900);
    assert_eq!(&bytes[18..26], &[0x2C, 0x01, 0, 0, 0x70, 0x11, 0x01, 0]);
}

#[test]
fn rows_are_written_bottom_to_top() {
    let mut image = BmpImage::new(2, 2);
    image.set_pixel(0, 0, 1, 2, 3);
    image.set_pixel(0, 1, 4, 5, 6);
    image.set_pixel(1, 0, 7, 8, 9);
    image.set_pixel(1, 1, 10, 11, 12);
    let bytes = image.encode();
    let expected: Vec<u8> = vec![9, 8, 7, 12, 11, 10, 0, 0, 3, 2, 1, 6, 5, 4, 0, 0];
    assert_eq!(&bytes[54..], &expected[..]);
}

#[test]
fn each_row_is_padded_to_four_bytes() {
    for (width, padding) in [(0u32, 0usize), (1, 1), (2, 2), (3, 3), (4, 0), (5, 1)] {
        let bytes = BmpImage::new(width, 3).encode();
        let stride = 3 * width as usize + padding;
        assert_eq!(stride % 4, 0);
        assert_eq!(bytes.len(), 54 + 3 * stride);
        assert_eq!(le(&bytes, 2) as usize, bytes.len());
    }
}

#[test]
fn padding_bytes_are_zero() {
    let mut image = BmpImage::new(1, 2);
    image.set_pixel(0, 0, 255, 255, 255);
    image.set_pixel(1, 0, 255, 255, 255);
    let bytes = image.encode();
    assert_eq!(&bytes[54..], &[255, 255, 255, 0, 255, 255, 255, 0]);
}

#[test]
fn empty_images_are_a_header_alone() {
    assert_eq!(BmpImage::new(0, 0).encode().len(), 54);
    assert_eq!(BmpImage::new(0, 7).encode().len(), 54);
    assert_eq!(BmpImage::new(7, 0).encode().len(), 54);
    assert_eq!(le(&BmpImage::new(7, 0).encode(), 18), 7);
}

#[test]
fn set_pixel_overwrites() {
    let mut image = BmpImage::new(1, 1);
    image.set_pixel(0, 0, 1, 2, 3);
    image.set_pixel(0, 0, 30, 20, 10);
    assert_eq!(&image.encode()[54..], &[10, 20, 30, 0]);
}

#[test]
fn encoded_size_is_the_length_of_the_encoding() {
    assert_eq!(BmpImage::encoded_size(2, 2), Some(70));
    assert_eq!(BmpImage::encoded_size(640, 460), Some(54 + 460 * 1920));
    assert_eq!(BmpImage::encoded_size(0, 0), Some(54));
    assert_eq!(BmpImage::encoded_size(u32::MAX, 0), Some(54));
    assert_eq!(BmpImage::encoded_size(1, 5), Some(54 + 20));
}

#[test]
fn encoded_size_refuses_what_does_not_fit() {
    assert_eq!(BmpImage::encoded_size(65535, 65535), None);
    assert_eq!(BmpImage::encoded_size(u32::MAX, 1), None);
    assert_eq!(BmpImage::encoded_size(u32::MAX, u32::MAX), None);
    // 4 * 1073741810 + 54 = 4294967294
    assert_eq!(BmpImage::encoded_size(1, 1073741810), Some(4294967294));
    assert_eq!(BmpImage::encoded_size(1, 1073741811), None);
}

#[test]
fn pixels_read_back_from_the_encoding() {
    let width: u32 = 5;
    let height: u32 = 4;
    let mut image = BmpImage::new(width, height);
    for row in 0..height {
        for col in 0..width {
            let v = (row * width + col) as u8;
            image.set_pixel(row, col, v, v + 50, v + 100);
        }
    }
    let bytes = image.encode();
    let stride = 16usize;
    for row in 0..height {
        for col in 0..width {
            let v = (row * width + col) as u8;
            let at = 54 + (height - 1 - row) as usize * stride + 3 * col as usize;
            assert_eq!(bytes[at], v + 100);
            assert_eq!(bytes[at + 1], v + 50);
            assert_eq!(bytes[at + 2], v);
        }
        let row_start = 54 + row as usize * stride;
        assert_eq!(bytes[row_start + 15], 0);
    }
}

#[test]
fn encoding_twice_gives_the_same_bytes() {
    let mut image = BmpImage::new(3, 3);
    image.set_pixel(1, 1, 9, 99, 199);
    assert_eq!(image.encode(), image.encode());
}
