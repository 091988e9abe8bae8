use dust::image::{parse_pnm, PnmError};

fn file(header: &str, data: &[u8]) -> Vec<u8> {
    let mut b = header.as_bytes().to_vec();
    b.extend_from_slice(data);
    b
}

#[test]
fn rows_are_flipped() {
    // Top row: red, green; bottom row: blue, white.
    let data = [255, 0, 0, 0, 255, 0, 0, 0, 255, 255, 255, 255];
    let img = parse_pnm(&file("P6\n# made by hand\n2 2\n255\n", &data)).unwrap();
    assert_eq!(img.width(), 2);
    assert_eq!(img.height(), 2);
    assert_eq!(img.pixels(), &vec![0, 0, 255, 255, 255, 255, 255, 0, 0, 0, 255, 0]);
    // The bottom-left pixel is the file's last row's first pixel.
    assert_eq!(&img.pixels()[0..3], &data[6..9]);
}

#[test]
fn three_rows_reverse_in_order() {
    let data: Vec<u8> = (0..9).collect();
    let img = parse_pnm(&file("P6\n#\n1 3\n255\n", &data)).unwrap();
    assert_eq!(img.into_pixels(), vec![6, 7, 8, 3, 4, 5, 0, 1, 2]);
}

#[test]
fn empty_picture() {
    let img = parse_pnm(&file("P6\n#\n0 5\n255\n", &[])).unwrap();
    assert_eq!(img.height(), 5);
    assert!(img.pixels().is_empty());
}

#[test]
fn extra_size_fields_are_ignored() {
    let img = parse_pnm(&file("P6\n#\n1 1 9\n255\n", &[1, 2, 3])).unwrap();
    assert_eq!(img.pixels(), &vec![1, 2, 3]);
}

#[test]
fn header_errors() {
    assert_eq!(parse_pnm(b"P6").err(), Some(PnmError::Unterminated));
    assert_eq!(parse_pnm(b"P5\n#\n1 1\n255\n\0\0\0").err(), Some(PnmError::BadMagic));
    assert_eq!(parse_pnm(b"P6\n#\n1 1").err(), Some(PnmError::Unterminated));
    assert_eq!(parse_pnm(b"P6\n#\n1x1\n255\n\0\0\0").err(), Some(PnmError::BadSize));
    assert_eq!(parse_pnm(b"P6\n#\n1  1\n255\n\0\0\0").err(), Some(PnmError::BadSize));
    assert_eq!(parse_pnm(b"P6\n#\n4294967296 1\n255\n").err(), Some(PnmError::BadSize));
    assert_eq!(parse_pnm(b"P6\n#\n1 1\n65535\n\0\0\0").err(), Some(PnmError::BadMaxValue));
    assert_eq!(parse_pnm(b"P6\n#\n1 1\n255").err(), Some(PnmError::Unterminated));
}

#[test]
fn data_must_be_three_bytes_per_pixel() {
    assert_eq!(parse_pnm(b"P6\n#\n1 1\n255\n\0\0").err(), Some(PnmError::BadDataLength));
    assert_eq!(parse_pnm(b"P6\n#\n1 1\n255\n\0\0\0\0").err(), Some(PnmError::BadDataLength));
}

#[test]
fn size_may_carry_a_plus_sign() {
    let img = parse_pnm(&file("P6\n#\n+1 +2\n255\n", &[1, 2, 3, 4, 5, 6])).unwrap();
    assert_eq!((img.width(), img.height()), (1, 2));
    assert_eq!(img.pixels(), &vec![4, 5, 6, 1, 2, 3]);
    assert_eq!(parse_pnm(b"P6\n#\n+ 1\n255\n").err(), Some(PnmError::BadSize));
}
