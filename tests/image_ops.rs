use terrain::codec::PngError;
use terrain::heightmap::HeightMap;
use terrain::image::Image;

#[test]
fn new_image_is_black() {
    let img = Image::new(4, 3);
    assert_eq!(img.width(), 4);
    assert_eq!(img.height(), 3);
    assert_eq!(img.data().len(), 36);
    assert_eq!(img.get_pixel(3, 2), (0, 0, 0));
}

#[test]
fn set_then_get_round_trip() {
    let mut img = Image::new(5, 4);
    img.set_pixel(2, 3, (1, 2, 3));
    assert_eq!(img.get_pixel(2, 3), (1, 2, 3));
    assert_eq!(img.get_pixel(3, 2), (0, 0, 0));
    assert_eq!(img.get_pixel(1, 3), (0, 0, 0));
    assert_eq!(&img.data()[(3 * 5 + 2) * 3..(3 * 5 + 2) * 3 + 3], &[1, 2, 3]);
}

#[test]
fn fill_rect_inside_and_outside() {
    let mut img = Image::new(6, 5);
    img.set_pixel(0, 0, (9, 9, 9));
    img.fill_rect(1, 1, 3, 2, (7, 8, 9));
    for y in 0..5 {
        for x in 0..6 {
            let inside = (1..4).contains(&x) && (1..3).contains(&y);
            let expected = if inside {
                (7, 8, 9)
            } else if x == 0 && y == 0 {
                (9, 9, 9)
            } else {
                (0, 0, 0)
            };
            assert_eq!(img.get_pixel(x, y), expected);
        }
    }
}

#[test]
fn fill_whole_image() {
    let mut img = Image::new(3, 2);
    img.fill_rect(0, 0, 3, 2, (51, 204, 255));
    assert!(img.data().chunks(3).all(|p| p == [51, 204, 255]));
}

#[test]
fn vertical_span_empty_when_reversed() {
    let mut img = Image::new(4, 4);
    img.draw_vertical_line(1, 3, 3, (5, 5, 5));
    img.draw_vertical_line(1, 3, 1, (5, 5, 5));
    assert!(img.data().iter().all(|&b| b == 0));
}

#[test]
fn vertical_span_writes_exactly_its_rows() {
    let mut img = Image::new(4, 6);
    img.draw_vertical_line(2, 1, 4, (5, 6, 7));
    let mut written = 0;
    for y in 0..6 {
        for x in 0..4 {
            if img.get_pixel(x, y) != (0, 0, 0) {
                written += 1;
                assert_eq!(x, 2);
                assert!((1..4).contains(&y));
            }
        }
    }
    assert_eq!(written, 3);
}

#[test]
fn blit_copies_rectangle() {
    let mut src = Image::new(4, 4);
    src.set_pixel(1, 1, (10, 0, 0));
    src.set_pixel(2, 1, (20, 0, 0));
    src.set_pixel(1, 2, (30, 0, 0));
    let mut dst = Image::new(5, 5);
    dst.fill_rect(0, 0, 5, 5, (1, 1, 1));
    dst.draw(&src, 1, 1, 2, 2, 3, 2);
    assert_eq!(dst.get_pixel(3, 2), (10, 0, 0));
    assert_eq!(dst.get_pixel(4, 2), (20, 0, 0));
    assert_eq!(dst.get_pixel(3, 3), (30, 0, 0));
    assert_eq!(dst.get_pixel(4, 3), (0, 0, 0));
    assert_eq!(dst.get_pixel(2, 2), (1, 1, 1));
    assert_eq!(dst.get_pixel(3, 4), (1, 1, 1));
}

#[test]
fn sample_outside_is_none() {
    let mut img = Image::new(2, 2);
    img.set_pixel(1, 1, (4, 5, 6));
    assert_eq!(img.sample(1, 1), Some((4, 5, 6)));
    assert_eq!(img.sample(2, 1), None);
    assert_eq!(img.sample(-1, 0), None);
    let m = HeightMap::from_raw(2, 2, vec![1, 2, 3, 4]).unwrap();
    assert_eq!(m.sample(1, 0), Some(2));
    assert_eq!(m.sample(0, 1), Some(3));
    assert_eq!(m.get_sample(1, 1), 4);
    assert_eq!(m.sample(0, 2), None);
    assert_eq!(m.sample(0, -1), None);
}

#[test]
fn raw_layout_enforced() {
    assert!(Image::from_raw(2, 2, vec![0; 12]).is_some());
    assert!(Image::from_raw(2, 2, vec![0; 11]).is_none());
    assert!(Image::from_raw(0, 2, vec![]).is_none());
    assert!(HeightMap::from_raw(3, 2, vec![0; 6]).is_some());
    assert!(HeightMap::from_raw(3, 2, vec![0; 18]).is_none());
    assert!(HeightMap::from_raw(70000, 70000, vec![]).is_none());
    let m = HeightMap::from_raw(3, 1, vec![7, 8, 9]).unwrap();
    assert_eq!((m.width(), m.height()), (3, 1));
    assert_eq!(m.data(), &[7, 8, 9]);
}

#[test]
fn png_round_trip() {
    let mut img = Image::new(3, 2);
    img.set_pixel(0, 0, (255, 0, 0));
    img.set_pixel(2, 1, (1, 2, 3));
    let bytes = img.save_png().unwrap();
    assert_eq!(&bytes[..8], &[137, 80, 78, 71, 13, 10, 26, 10]);
    let back = Image::from_png(&bytes).unwrap();
    assert_eq!((back.width(), back.height()), (3, 2));
    assert_eq!(back.data(), img.data());
}

#[test]
fn png_errors() {
    assert_eq!(Image::from_png(&[1, 2, 3, 4]).err(), Some(PngError::Decode));
    assert_eq!(HeightMap::from_png(&[]).err(), Some(PngError::Decode));
    let img = Image::new(2, 2);
    let bytes = img.save_png().unwrap();
    assert_eq!(HeightMap::from_png(&bytes).err(), Some(PngError::Layout));
}

fn header_only_stream(depth: u8, color: u8) -> Vec<u8> {
    let mut s = vec![137, 80, 78, 71, 13, 10, 26, 10, 0, 0, 0, 13, 73, 72, 68, 82];
    s.extend_from_slice(&[0, 0, 0, 8, 0, 0, 0, 8, depth, color, 0, 0, 1]);
    s.extend_from_slice(&[0, 0, 0, 0]);
    s
}

#[test]
fn png_header_pair_refused() {
    assert_eq!(Image::from_png(&header_only_stream(1, 2)).err(), Some(PngError::Header));
    assert_eq!(HeightMap::from_png(&header_only_stream(4, 6)).err(), Some(PngError::Header));
    assert_eq!(Image::from_png(&header_only_stream(16, 3)).err(), Some(PngError::Header));
    // a fitting pair reaches the decoder, which refuses the bad checksum
    assert_eq!(Image::from_png(&header_only_stream(8, 2)).err(), Some(PngError::Decode));
}

#[test]
fn png_second_header_checked() {
    let img = Image::new(2, 2);
    let mut bytes = img.save_png().unwrap();
    assert!(Image::from_png(&bytes).is_ok());
    bytes.extend_from_slice(&header_only_stream(2, 2)[8..]);
    assert_eq!(Image::from_png(&bytes).err(), Some(PngError::Header));
}

#[test]
fn empty_rectangles_change_nothing() {
    let mut img = Image::new(3, 3);
    img.fill_rect(-5, 100, 0, 4, (1, 1, 1));
    img.fill_rect(2, 2, 5, -1, (1, 1, 1));
    let src = Image::new(1, 1);
    img.draw(&src, 40, 40, -2, 3, -9, 0);
    img.draw(&src, 0, 0, 1, 0, 9, 9);
    assert!(img.data().iter().all(|&b| b == 0));
}

#[test]
fn png_header_length_must_be_fixed() {
    // a header chunk declaring 14 data bytes, with a fitting pair in front
    let mut s = vec![137, 80, 78, 71, 13, 10, 26, 10, 0, 0, 0, 14, 73, 72, 68, 82];
    s.extend_from_slice(&[0, 0, 0, 8, 0, 0, 0, 8, 8, 2, 0, 0, 0, 0]);
    s.extend_from_slice(&[0, 0, 0, 0]);
    assert_eq!(Image::from_png(&s).err(), Some(PngError::Header));
    assert_eq!(HeightMap::from_png(&s).err(), Some(PngError::Header));
}

#[test]
fn empty_span_anywhere_is_a_no_op() {
    let mut img = Image::new(2, 2);
    img.draw_vertical_line(-7, 5, 5, (1, 1, 1));
    img.draw_vertical_line(40, 3, -3, (1, 1, 1));
    assert!(img.data().iter().all(|&b| b == 0));
}
