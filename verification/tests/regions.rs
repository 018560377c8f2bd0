use photonix_core::compute::region::{extract_region, translate_pixels, write_region};
use photonix_core::pipeline::face::{face_region_from_skin_mask, FaceRegion};

fn mask_with_box(w: usize, h: usize, x0: usize, y0: usize, x1: usize, y1: usize) -> Vec<bool> {
    let mut m = vec![false; w * h];
    for y in y0..=y1 {
        for x in x0..=x1 {
            m[y * w + x] = true;
        }
    }
    m
}

#[test]
fn face_box_is_padded_by_a_fifth_and_clamped() {
    let m = mask_with_box(40, 30, 10, 5, 30, 20);
    let r = face_region_from_skin_mask(&m, 40, 30).expect("face expected");
    // span 20 x 15 -> padding 4 x 3
    assert_eq!(r, FaceRegion { x: 6, y: 2, w: 34 - 6, h: 23 - 2 });
    let edge = face_region_from_skin_mask(&mask_with_box(20, 20, 0, 0, 19, 19), 20, 20).expect("face expected");
    assert_eq!(edge, FaceRegion { x: 0, y: 0, w: 20, h: 20 });
}

#[test]
fn too_little_skin_or_a_single_line_is_no_face() {
    let mut m = vec![false; 100 * 100];
    m[0] = true;
    m[101] = true;
    assert_eq!(face_region_from_skin_mask(&m, 100, 100), None);
    let column = mask_with_box(10, 10, 4, 0, 4, 9);
    assert_eq!(face_region_from_skin_mask(&column, 10, 10), None);
    assert_eq!(face_region_from_skin_mask(&vec![false; 0], 0, 0), None);
}

#[test]
fn only_the_largest_region_is_boxed() {
    // A 2x2 block and a separate single pixel: the block alone is boxed.
    let mut m = mask_with_box(4, 4, 0, 0, 1, 1);
    m[3 * 4 + 3] = true;
    assert_eq!(face_region_from_skin_mask(&m, 4, 4), Some(FaceRegion { x: 0, y: 0, w: 1, h: 1 }));
    // A large block and a small block far apart: the small one does not widen the box.
    let mut big = mask_with_box(40, 30, 20, 10, 35, 25);
    for y in 0..3 {
        for x in 0..3 {
            big[y * 40 + x] = true;
        }
    }
    assert_eq!(
        face_region_from_skin_mask(&big, 40, 30),
        Some(FaceRegion { x: 17, y: 7, w: 38 - 17, h: 28 - 7 })
    );
}

#[test]
fn diagonal_pixels_are_separate_regions() {
    // Pixels touching only at corners are not connected; the first largest
    // region (a single pixel) spans one column and row, so there is no face.
    let mut m = vec![false; 3 * 3];
    m[0] = true;
    m[4] = true;
    m[8] = true;
    assert_eq!(face_region_from_skin_mask(&m, 3, 3), None);
    // Ties go to the region met first in row-major order.
    let mut t = mask_with_box(6, 6, 0, 0, 1, 1);
    t[4 * 6 + 4] = true;
    t[4 * 6 + 5] = true;
    t[5 * 6 + 4] = true;
    t[5 * 6 + 5] = true;
    assert_eq!(face_region_from_skin_mask(&t, 6, 6), Some(FaceRegion { x: 0, y: 0, w: 1, h: 1 }));
}

#[test]
fn eye_and_skin_rectangles() {
    let r = FaceRegion { x: 3, y: 4, w: 20, h: 18 };
    assert_eq!(r.eye_rect(), (3, 4, 20, 4));
    assert_eq!(r.skin_rect(), (3, 4, 20, 18));
}

#[test]
fn region_copy_and_write_back() {
    let w = 5;
    let h = 4;
    let img: Vec<u32> = (0..(w * h * 2) as u32).collect();
    let region = extract_region(&img, w, h, 2, 1, 2, 3, 2);
    assert_eq!(region, vec![22, 23, 24, 25, 26, 27, 32, 33, 34, 35, 36, 37]);
    let mut copy = img.clone();
    write_region(&mut copy, w, h, 2, 1, 2, 3, 2, &region);
    assert_eq!(copy, img);
    let mut zeroed = img.clone();
    write_region(&mut zeroed, w, h, 2, 0, 0, 2, 1, &[0, 0, 0, 0]);
    assert_eq!(&zeroed[..4], &[0, 0, 0, 0]);
    assert_eq!(&zeroed[4..], &img[4..]);
}

#[test]
fn translation_shifts_and_fills() {
    let img: Vec<u8> = (1..=9).collect();
    let right = translate_pixels(&img, 3, 3, 1, 1, 0, 0);
    assert_eq!(right, vec![0, 1, 2, 0, 4, 5, 0, 7, 8]);
    let up = translate_pixels(&img, 3, 3, 1, 0, -1, 0);
    assert_eq!(up, vec![4, 5, 6, 7, 8, 9, 0, 0, 0]);
    let same = translate_pixels(&img, 3, 3, 1, 0, 0, 0);
    assert_eq!(same, img);
}
