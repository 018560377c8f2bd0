use photonix_core::ai::preprocess::normalize::{hwc_to_nchw, nchw_to_hwc};
use photonix_core::ai::preprocess::tile::split_into_tiles;

fn px(w: usize, h: usize, ch: usize) -> Vec<f32> {
    (0..w * h * ch).map(|i| (i % 256) as f32 / 255.0).collect()
}

#[test]
fn test_hwc_nchw_roundtrip() {
    let orig = px(64, 64, 3);
    let tensor = hwc_to_nchw(&orig, 64, 64, 3);
    let back = nchw_to_hwc(&tensor, 64, 64, 3);
    for (a, b) in orig.iter().zip(back.iter()) {
        assert!((a - b).abs() < 1e-5);
    }
}

#[test]
fn test_tile_split() {
    assert!(!split_into_tiles(&px(512, 512, 3), 512, 512, 3, 256, 32).is_empty());
}

#[test]
fn planar_layout_puts_each_channel_in_its_own_plane() {
    // 2 x 2 image, 3 channels: sample value = 100*y + 10*x + c.
    let mut src = Vec::new();
    for y in 0..2u32 {
        for x in 0..2u32 {
            for c in 0..3u32 {
                src.push(100 * y + 10 * x + c);
            }
        }
    }
    let planar = hwc_to_nchw(&src, 2, 2, 3);
    assert_eq!(planar, vec![0, 10, 100, 110, 1, 11, 101, 111, 2, 12, 102, 112]);
    let back = nchw_to_hwc(&planar, 2, 2, 3);
    assert_eq!(back, src);
}

#[test]
fn tiles_follow_the_stride_and_pull_back_at_the_edge() {
    // 10 x 7 single-channel image, tiles of 4 with overlap 1: stride 3.
    let w = 10usize;
    let h = 7usize;
    let src: Vec<u32> = (0..(w * h) as u32).collect();
    let tiles = split_into_tiles(&src, w, h, 1, 4, 1);
    let places: Vec<(usize, usize, usize, usize)> = tiles.iter().map(|t| (t.x, t.y, t.w, t.h)).collect();
    assert_eq!(
        places,
        vec![
            (0, 0, 4, 4),
            (3, 0, 4, 4),
            (6, 0, 4, 4),
            (0, 3, 4, 4),
            (3, 3, 4, 4),
            (6, 3, 4, 4),
        ]
    );
    let t = &tiles[4];
    assert_eq!(t.channels, 1);
    assert_eq!(t.pixels.len(), 16);
    assert_eq!(t.pixels[0], (3 * w + 3) as u32);
    assert_eq!(t.pixels[5], (4 * w + 4) as u32);
    assert_eq!(t.pixels[15], (6 * w + 6) as u32);
}

#[test]
fn tiles_of_a_small_image_cover_it_once() {
    let src: Vec<u8> = vec![7; 3 * 5 * 2];
    let tiles = split_into_tiles(&src, 3, 5, 2, 8, 2);
    assert_eq!(tiles.len(), 1);
    assert_eq!((tiles[0].x, tiles[0].y, tiles[0].w, tiles[0].h), (0, 0, 3, 5));
    assert_eq!(tiles[0].pixels, src);
}
