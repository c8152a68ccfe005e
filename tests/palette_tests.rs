use palettize::img::Image;
use palettize::palette::{condense, to_bgr, Error, Palette, PALETTE_LEN, SENTINEL};
use palettize::raster::RgbRaster;

fn raster(width: u32, height: u32, pixels: &[(u8, u8, u8)]) -> RgbRaster {
    let mut data = Vec::new();
    for &(r, g, b) in pixels {
        data.push(r);
        data.push(g);
        data.push(b);
    }
    RgbRaster::new(width, height, data).unwrap()
}

/// A distinct packed code for each `i < 32`, varying the red channel only.
fn red(i: u8) -> (u8, u8, u8) {
    (i << 3, 0, 0)
}

#[test]
fn condense_exact_values() {
    assert_eq!(condense(0xF8, 0x00, 0x00), 0x00F8);
    assert_eq!(condense(0x00, 0xF8, 0x00), 0x1F00);
    assert_eq!(condense(0x00, 0x00, 0x08), 0x2000);
    assert_eq!(condense(0xFF, 0xFF, 0xFF), 0xFFF8);
    assert_eq!(condense(0, 0, 0), 0);
}

#[test]
fn condense_ignores_low_bits() {
    for &(r, g, b) in &[(0x12u8, 0x34u8, 0x56u8), (0xFF, 0x07, 0x80), (0x01, 0x02, 0x03)] {
        assert_eq!(condense(r, g, b), condense(r & 0xF8, g & 0xF8, b & 0xF8));
    }
    assert_eq!(condense(0x07, 0x07, 0x07), condense(0, 0, 0));
}

#[test]
fn condense_never_sentinel() {
    for v in 0..=255u8 {
        assert_ne!(condense(v, v, v), SENTINEL);
        assert_ne!(condense(0xFF, 0xFF, v), SENTINEL);
    }
    assert!(condense(0xFF, 0xFF, 0x1F) < 0x8000);
    assert_eq!(condense(0, 0, 0x20), 0x8000);
}

#[test]
fn to_bgr_reads_red_green_blue() {
    assert_eq!(to_bgr(&[0xF8, 0x00, 0x00]), 0x00F8);
    assert_eq!(to_bgr(&[0x00, 0xF8, 0x00, 0x77]), 0x1F00);
}

#[test]
fn new_palette_is_sentinel_filled() {
    let p = Palette::new();
    for i in 0..PALETTE_LEN {
        assert_eq!(p.get_color(i), 0xFFFF);
    }
    assert_eq!(p.find(0xFFFF), None);
}

#[test]
fn fresh_palette_contains_sentinel_only() {
    let p = Palette::new();
    assert!(p.contains(0xFFFF));
    assert!(!p.contains(condense(0xF8, 0, 0)));
    assert!(!p.contains(0));
}

#[test]
fn init_clamps_used() {
    let mut cols = [0u16; PALETTE_LEN];
    for i in 0..PALETTE_LEN {
        cols[i] = i as u16 * 8;
    }
    let p = Palette::init(cols, 40);
    assert_eq!(p.find(15 * 8), Some(15));
    let q = Palette::init(cols, 2);
    assert_eq!(q.find(8), Some(1));
    assert_eq!(q.find(16), None);
    assert!(q.contains(16));
}

#[test]
fn set_and_get_color() {
    let mut p = Palette::new();
    p.set_color(3, 0x1234);
    assert_eq!(p.get_color(3), 0x1234);
    assert_eq!(p.get_color(2), 0xFFFF);
    assert_eq!(p.find(0x1234), None);
    assert!(p.contains(0x1234));
}

#[test]
fn add_color_until_full() {
    let mut p = Palette::new();
    for i in 0..PALETTE_LEN {
        assert_eq!(p.add_color(i as u16), Ok(()));
        assert_eq!(p.get_color(i), i as u16);
    }
    assert_eq!(p.add_color(100), Err(Error::TooManyColors));
    assert_eq!(p.find(100), None);
    assert_eq!(p.find(15), Some(15));
}

#[test]
fn add_color_keeps_duplicates() {
    let mut p = Palette::new();
    assert_eq!(p.add_color(8), Ok(()));
    assert_eq!(p.add_color(8), Ok(()));
    assert_eq!(p.get_color(1), 8);
    assert_eq!(p.find(8), Some(0));
}

#[test]
fn map_touches_used_slots_only() {
    let mut p = Palette::new();
    p.add_color(8).unwrap();
    p.add_color(16).unwrap();
    p.map(|c| c + 1);
    assert_eq!(p.get_color(0), 9);
    assert_eq!(p.get_color(1), 17);
    assert_eq!(p.get_color(2), 0xFFFF);
    assert_eq!(p.find(17), Some(1));
}

#[test]
fn raster_rejects_wrong_length() {
    assert!(RgbRaster::new(2, 1, vec![0; 5]).is_none());
    assert!(RgbRaster::new(2, 1, vec![0; 7]).is_none());
    assert!(RgbRaster::new(0, 5, vec![]).is_some());
    let im = RgbRaster::new(2, 3, vec![0; 18]).unwrap();
    assert_eq!(im.width(), 2);
    assert_eq!(im.height(), 3);
    assert_eq!(im.num_pixels(), 6);
}

#[test]
fn scan_with_k_colors() {
    let mut pixels = Vec::new();
    for i in 0..40u8 {
        pixels.push(red((i * 7) % 16));
    }
    let im = raster(8, 5, &pixels);
    let (pal, buf) = Palette::from_unindexed_image(&im).ok().unwrap();
    assert_eq!(buf.len(), 40);
    for k in 0..40 {
        let (r, g, b) = pixels[k];
        assert_eq!(pal.get_color(buf[k] as usize), condense(r, g, b));
    }
    // first-seen order: 0, 7, 14, 5, 12, 3, ...
    assert_eq!(pal.get_color(0), condense(0, 0, 0));
    assert_eq!(pal.get_color(1), condense(7 << 3, 0, 0));
    assert_eq!(pal.get_color(2), condense(14 << 3, 0, 0));
    let mut used = 0;
    while used < PALETTE_LEN && pal.get_color(used) != SENTINEL {
        used += 1;
    }
    assert_eq!(used, 16);
}

#[test]
fn scan_merges_colors_equal_after_quantizing() {
    let im = raster(3, 1, &[(0x10, 0x20, 0x30), (0x17, 0x27, 0x37), (0x18, 0x20, 0x30)]);
    let (pal, buf) = Palette::from_unindexed_image(&im).ok().unwrap();
    assert_eq!(buf, vec![0, 0, 1]);
    assert_eq!(pal.get_color(0), condense(0x10, 0x20, 0x30));
    assert_eq!(pal.get_color(1), condense(0x18, 0x20, 0x30));
    assert_eq!(pal.get_color(2), SENTINEL);
}

#[test]
fn scan_with_seventeen_colors_fails() {
    let pixels: Vec<(u8, u8, u8)> = (0..17u8).map(red).collect();
    let im = raster(17, 1, &pixels);
    assert_eq!(Palette::from_unindexed_image(&im).err(), Some(Error::TooManyColors));
    let sixteen: Vec<(u8, u8, u8)> = (0..16u8).map(red).collect();
    assert!(Palette::from_unindexed_image(&raster(16, 1, &sixteen)).is_ok());
}

#[test]
fn scan_of_empty_image() {
    let im = raster(0, 0, &[]);
    let (pal, buf) = Palette::from_unindexed_image(&im).ok().unwrap();
    assert!(buf.is_empty());
    assert_eq!(pal.get_color(0), SENTINEL);
}

#[test]
fn index_image_missing_color_fails() {
    let mut pal = Palette::new();
    pal.add_color(condense(0xF8, 0, 0)).unwrap();
    let im = raster(2, 1, &[(0xF8, 0, 0), (0, 0xF8, 0)]);
    assert_eq!(pal.index_image(&im), Err(Error::UnindexedColor));
    pal.add_color(condense(0, 0xF8, 0)).unwrap();
    assert_eq!(pal.index_image(&im), Ok(vec![0, 1]));
}

#[test]
fn index_image_ignores_unused_slots() {
    let mut pal = Palette::new();
    pal.set_color(5, condense(0xF8, 0, 0));
    let im = raster(1, 1, &[(0xF8, 0, 0)]);
    assert_eq!(pal.index_image(&im), Err(Error::UnindexedColor));
}

#[test]
fn strip_with_three_colors() {
    let a = (0xF8, 0, 0);
    let b = (0, 0xF8, 0);
    let c = (0, 0, 0x08);
    let other = (0x40, 0x40, 0x40);
    let mut pixels = vec![other, other];
    pixels.extend_from_slice(&[b, b, a, c, a, b, c, c]);
    pixels.extend_from_slice(&[other; 10]);
    let im = raster(10, 2, &pixels);
    let pal = Palette::from_indexed_image(&im);
    assert_eq!(pal.get_color(0), condense(0, 0xF8, 0));
    assert_eq!(pal.get_color(1), condense(0xF8, 0, 0));
    assert_eq!(pal.get_color(2), condense(0, 0, 0x08));
    for i in 3..PALETTE_LEN {
        assert_eq!(pal.get_color(i), SENTINEL);
    }
    assert_eq!(pal.find(condense(0x40, 0x40, 0x40)), None);
}

#[test]
fn image_unindexed_two_pixels() {
    let im = raster(2, 1, &[(0xF8, 0x00, 0x00), (0x00, 0xF8, 0x00)]);
    let img = Image::init(im, false).ok().unwrap();
    assert_eq!(img.width(), 2);
    assert_eq!(img.height(), 1);
    assert_eq!(img.pal().get_color(0), 0x00F8);
    assert_eq!(img.pal().get_color(1), 0x1F00);
    assert_eq!(img.pal().get_color(2), SENTINEL);
    let (data, pal) = img.data();
    assert_eq!(data, vec![0, 1]);
    assert_eq!(pal.find(0x1F00), Some(1));
}

#[test]
fn image_unindexed_too_many_colors() {
    let pixels: Vec<(u8, u8, u8)> = (0..20u8).map(red).collect();
    let im = raster(5, 4, &pixels);
    assert_eq!(Image::init(im, false).err(), Some(Error::TooManyColors));
}

#[test]
fn image_indexed() {
    let mut pixels: Vec<(u8, u8, u8)> = (0..8u8).map(|i| red(i % 4)).collect();
    pixels.extend((0..8u8).map(|i| red(3 - i % 4)));
    let im = raster(8, 2, &pixels);
    let img = Image::init(im, true).ok().unwrap();
    assert_eq!(img.pal().get_color(3), condense(3 << 3, 0, 0));
    assert_eq!(img.pal().get_color(4), SENTINEL);
    let (data, _) = img.data();
    assert_eq!(data, vec![0, 1, 2, 3, 0, 1, 2, 3, 3, 2, 1, 0, 3, 2, 1, 0]);
}

#[test]
fn image_indexed_unindexed_color() {
    let mut pixels: Vec<(u8, u8, u8)> = vec![red(2)];
    pixels.extend_from_slice(&[red(1); 8]);
    let im = raster(9, 1, &pixels);
    assert_eq!(Image::init(im, true).err(), Some(Error::UnindexedColor));
}
