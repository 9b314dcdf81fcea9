use terrain::heightmap::HeightMap;
use terrain::image::Image;
use terrain::terrain::{draw_terrain, Camera};

const SKY: (u8, u8, u8) = (51, 204, 255);
const GROUND: (u8, u8, u8) = (10, 20, 30);

fn flat_fields(level: u8) -> (HeightMap, Image) {
    let hmap = HeightMap::from_raw(1024, 1024, vec![level; 1024 * 1024]).unwrap();
    let mut cmap = Image::new(1024, 1024);
    cmap.fill_rect(0, 0, 1024, 1024, GROUND);
    (hmap, cmap)
}

fn cleared(w: i32, h: i32) -> Image {
    let mut img = Image::new(w, h);
    img.fill_rect(0, 0, w, h, SKY);
    img
}

fn camera(x: i32, y: i32, z: i32, hmap_scale: i32, horizon: i32, zscale: i32, distance: i32) -> Camera {
    Camera { x, y, z, hmap_scale, horizon, zscale, distance }
}

#[test]
fn flat_field_draws_band_below_horizon() {
    let (hmap, cmap) = flat_fields(0);
    let mut dest = cleared(16, 40);
    draw_terrain(&mut dest, &hmap, &cmap, camera(0, 0, 50, 200, 20, 1, 100));
    for y in 0..40 {
        for x in 0..16 {
            let expected = if y >= 20 { GROUND } else { SKY };
            assert_eq!(dest.get_pixel(x, y), expected, "pixel ({}, {})", x, y);
        }
    }
}

#[test]
fn distance_one_draws_nothing() {
    let (hmap, cmap) = flat_fields(0);
    let mut dest = cleared(8, 8);
    let before = dest.data().to_vec();
    draw_terrain(&mut dest, &hmap, &cmap, camera(0, 0, 50, 200, 4, 1, 1));
    assert_eq!(dest.data(), &before[..]);
}

#[test]
fn outside_field_draws_nothing() {
    let (hmap, cmap) = flat_fields(0);
    let mut dest = cleared(8, 8);
    let before = dest.data().to_vec();
    draw_terrain(&mut dest, &hmap, &cmap, camera(5000, 0, 50, 200, 0, 1, 50));
    assert_eq!(dest.data(), &before[..]);
    draw_terrain(&mut dest, &hmap, &cmap, camera(0, -600, 50, 200, 0, 1, 50));
    assert_eq!(dest.data(), &before[..]);
}

#[test]
fn projection_rounds_down() {
    // one slice (z = 1) over two columns that sample (511, 511) and (512, 511)
    let mut samples = vec![0u8; 1024 * 1024];
    samples[511 * 1024 + 511] = 100;
    samples[511 * 1024 + 512] = 200;
    let hmap = HeightMap::from_raw(1024, 1024, samples).unwrap();
    let mut cmap = Image::new(1024, 1024);
    cmap.set_pixel(511, 511, (1, 1, 1));
    cmap.set_pixel(512, 511, (2, 2, 2));
    let mut dest = cleared(2, 100);
    // column 0: (10 * 255 - 100 * 7) / 255 = 7.25..; rows from 57
    // column 1: (10 * 255 - 200 * 13) / 255 = -0.19..; rows from 49
    draw_terrain(&mut dest, &hmap, &cmap, camera(0, 0, 10, 7, 50, 1, 2));
    for y in 0..100 {
        assert_eq!(dest.get_pixel(0, y), if y >= 57 { (1, 1, 1) } else { SKY });
    }
    let mut hmap2 = vec![0u8; 1024 * 1024];
    hmap2[511 * 1024 + 512] = 200;
    let hmap2 = HeightMap::from_raw(1024, 1024, hmap2).unwrap();
    let mut dest2 = cleared(2, 100);
    draw_terrain(&mut dest2, &hmap2, &cmap, camera(0, 0, 10, 13, 50, 1, 2));
    for y in 0..100 {
        assert_eq!(dest2.get_pixel(1, y), if y >= 49 { (2, 2, 2) } else { SKY });
    }
}

#[test]
fn nearer_slice_occludes_farther() {
    // a tall ridge at depth 1 hides everything a lower depth-2 slice would paint
    let mut samples = vec![0u8; 1024 * 1024];
    for x in 0..1024 {
        samples[511 * 1024 + x] = 255;
    }
    let hmap = HeightMap::from_raw(1024, 1024, samples).unwrap();
    let mut cmap = Image::new(1024, 1024);
    cmap.fill_rect(0, 511, 1024, 1, (7, 7, 7));
    cmap.fill_rect(0, 510, 1024, 1, (8, 8, 8));
    let mut dest = cleared(4, 60);
    // depth 1: (0 - 40) / 1 + 30 = -10 -> whole column; depth 2: 0 / 2 + 30 = 30
    draw_terrain(&mut dest, &hmap, &cmap, camera(0, 0, 0, 40, 30, 1, 3));
    for x in 0..4 {
        for y in 0..60 {
            assert_eq!(dest.get_pixel(x, y), (7, 7, 7));
        }
    }
}

#[test]
fn taller_far_slice_fills_only_revealed_strip() {
    // depth 1 is flat ground, depth 2 is a ridge that rises above it
    let mut samples = vec![0u8; 1024 * 1024];
    for x in 0..1024 {
        samples[510 * 1024 + x] = 255;
    }
    let hmap = HeightMap::from_raw(1024, 1024, samples).unwrap();
    let mut cmap = Image::new(1024, 1024);
    cmap.fill_rect(0, 511, 1024, 1, (7, 7, 7));
    cmap.fill_rect(0, 510, 1024, 1, (8, 8, 8));
    let mut dest = cleared(4, 60);
    // depth 1: (20 - 0) / 1 + 10 = 30; depth 2: (20 - 40) / 2 + 10 = 0
    draw_terrain(&mut dest, &hmap, &cmap, camera(0, 0, 20, 40, 10, 1, 3));
    for x in 0..4 {
        for y in 0..60 {
            let expected = if y >= 30 { (7, 7, 7) } else { (8, 8, 8) };
            assert_eq!(dest.get_pixel(x, y), expected);
        }
    }
}

#[test]
fn sample_column_truncates_toward_zero() {
    // three columns at depth 1: world x = -1, -1/3, 1/3 sample field columns 511, 512, 512
    let mut cmap = Image::new(1024, 1024);
    cmap.set_pixel(511, 511, (1, 1, 1));
    cmap.set_pixel(512, 511, (2, 2, 2));
    let hmap = HeightMap::from_raw(1024, 1024, vec![0u8; 1024 * 1024]).unwrap();
    let mut dest = cleared(3, 20);
    draw_terrain(&mut dest, &hmap, &cmap, camera(0, 0, 5, 1, 10, 1, 2));
    assert_eq!(dest.get_pixel(0, 19), (1, 1, 1));
    assert_eq!(dest.get_pixel(1, 19), (2, 2, 2));
    assert_eq!(dest.get_pixel(2, 19), (2, 2, 2));
    assert_eq!(dest.get_pixel(1, 14), SKY);
    assert_eq!(dest.get_pixel(1, 15), (2, 2, 2));
}

#[test]
fn sample_column_near_field_edge() {
    // camera x = -512, depth 1, three columns: world x = -513, -512.33.., -511.66..
    let mut cmap = Image::new(1024, 1024);
    cmap.set_pixel(0, 511, (1, 1, 1));
    cmap.set_pixel(1, 511, (2, 2, 2));
    let hmap = HeightMap::from_raw(1024, 1024, vec![0u8; 1024 * 1024]).unwrap();
    let mut dest = cleared(3, 20);
    draw_terrain(&mut dest, &hmap, &cmap, camera(-512, 0, 5, 1, 10, 1, 2));
    assert_eq!(dest.get_pixel(0, 19), SKY);
    assert_eq!(dest.get_pixel(1, 19), (1, 1, 1));
    assert_eq!(dest.get_pixel(2, 19), (2, 2, 2));
}
