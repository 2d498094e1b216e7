use wonderdraft_asset_studio::image_ops::{
    apply_brush_to_pixels, color_within_tolerance, crop_rgba, has_visible_pixels,
    remove_picked_color, smart_edge_remove, soften_alpha, threshold_alpha, BrushMode,
};
use wonderdraft_asset_studio::pixels::RgbaBuffer;

#[test]
fn smart_edge_only_removes_connected_background() {
    let mut img = RgbaBuffer::from_pixel(5, 5, [255, 255, 255, 255]);
    for y in 1..4 {
        for x in 1..4 {
            img.put_pixel(x, y, [0, 0, 0, 255]);
        }
    }
    img.put_pixel(2, 2, [255, 255, 255, 255]);
    let removed = smart_edge_remove(&mut img, 0);
    assert_eq!(removed, 16);
    assert_eq!(img.get_pixel(0, 0)[3], 0);
    assert_eq!(img.get_pixel(2, 2)[3], 255);
}

#[test]
fn picked_color_removes_every_match() {
    let mut img = RgbaBuffer::from_pixel(2, 1, [255, 255, 255, 255]);
    img.put_pixel(1, 0, [0, 0, 0, 255]);
    assert_eq!(remove_picked_color(&mut img, [255, 255, 255], 0), 1);
    assert_eq!(img.get_pixel(0, 0)[3], 0);
    assert_eq!(img.get_pixel(1, 0)[3], 255);
}

#[test]
fn threshold_is_binary() {
    let mut img = RgbaBuffer::new(2, 1);
    img.put_pixel(0, 0, [0, 0, 0, 100]);
    img.put_pixel(1, 0, [0, 0, 0, 200]);
    threshold_alpha(&mut img, 128);
    assert_eq!(img.get_pixel(0, 0)[3], 0);
    assert_eq!(img.get_pixel(1, 0)[3], 255);
}

#[test]
fn restore_brush_pixels_restore_original_rgba() {
    let original = RgbaBuffer::from_pixel(3, 3, [10, 20, 30, 200]);
    let mut working = original.clone();
    working.put_pixel(1, 1, [10, 20, 30, 0]);
    apply_brush_to_pixels(&mut working, &original, &vec![(1, 1)], BrushMode::Restore);
    assert_eq!(working.get_pixel(1, 1), [10, 20, 30, 200]);
}

#[test]
fn erase_brush_only_clears_covered_alpha() {
    let original = RgbaBuffer::from_pixel(3, 2, [10, 20, 30, 200]);
    let mut working = original.clone();
    apply_brush_to_pixels(&mut working, &original, &vec![(0, 0), (2, 1), (0, 0)], BrushMode::Erase);
    assert_eq!(working.get_pixel(0, 0), [10, 20, 30, 0]);
    assert_eq!(working.get_pixel(2, 1), [10, 20, 30, 0]);
    assert_eq!(working.get_pixel(1, 0), [10, 20, 30, 200]);
}

#[test]
fn tolerance_matches_single_precision_test_for_every_distance() {
    // One colour for every squared distance that two colours can have.
    let mut witness: Vec<Option<[u8; 3]>> = vec![None; 3 * 255 * 255 + 1];
    for r in 0..=255u32 {
        for g in 0..=r {
            for b in 0..=g {
                let d2 = (r * r + g * g + b * b) as usize;
                if witness[d2].is_none() {
                    witness[d2] = Some([r as u8, g as u8, b as u8]);
                }
            }
        }
    }
    let colours: Vec<(f32, [u8; 3])> = witness
        .iter()
        .enumerate()
        .filter_map(|(d2, c)| c.map(|c| (d2 as f32, c)))
        .collect();
    for tolerance in 0..=255u8 {
        let radius = tolerance as f32 * 1.73;
        for &(d2, [r, g, b]) in &colours {
            let expected = d2.sqrt() <= radius;
            assert_eq!(
                color_within_tolerance([r, g, b, 255], [0, 0, 0], tolerance),
                expected,
                "tolerance {tolerance}, colour {:?}",
                [r, g, b]
            );
        }
    }
}

#[test]
fn tolerance_matches_single_precision_distance_test() {
    for tolerance in 0..=255u8 {
        let radius = tolerance as f32 * 1.73;
        for r in 0..=255u8 {
            for g in [0u8, 37, 128, 255] {
                let pixel = [r, g, 0, 255];
                let dr = r as f32;
                let dg = g as f32;
                let expected = (dr * dr + dg * dg).sqrt() <= radius;
                assert_eq!(
                    color_within_tolerance(pixel, [0, 0, 0], tolerance),
                    expected,
                    "tolerance {tolerance}, pixel {pixel:?}"
                );
            }
        }
    }
}

#[test]
fn tolerance_limits_at_the_extremes() {
    // The largest possible distance, about 441.67, lies just beyond 255 × 1.73.
    assert!(!color_within_tolerance([255, 255, 255, 255], [0, 0, 0], 255));
    assert!(color_within_tolerance([255, 255, 254, 255], [0, 0, 0], 255));
    assert!(!color_within_tolerance([1, 0, 0, 255], [0, 0, 0], 0));
    assert!(color_within_tolerance([7, 7, 7, 0], [7, 7, 7], 0));
}

#[test]
fn smart_edge_on_empty_image_removes_nothing() {
    let mut img = RgbaBuffer::new(0, 4);
    assert_eq!(smart_edge_remove(&mut img, 10), 0);
    assert_eq!(img.dimensions(), (0, 4));
}

#[test]
fn smart_edge_follows_corner_colours_inwards() {
    // A red border with a red channel reaching the centre, and a blue island.
    let mut img = RgbaBuffer::from_pixel(5, 5, [255, 0, 0, 255]);
    img.put_pixel(1, 1, [0, 0, 255, 255]);
    img.put_pixel(3, 3, [0, 0, 255, 255]);
    let removed = smart_edge_remove(&mut img, 10);
    assert_eq!(removed, 23);
    assert_eq!(img.get_pixel(2, 2)[3], 0);
    assert_eq!(img.get_pixel(1, 1), [0, 0, 255, 255]);
    assert_eq!(img.get_pixel(3, 3), [0, 0, 255, 255]);
}

#[test]
fn soften_alpha_averages_the_window() {
    let mut img = RgbaBuffer::from_pixel(3, 1, [1, 2, 3, 0]);
    img.put_pixel(1, 0, [1, 2, 3, 255]);
    soften_alpha(&mut img, 1);
    // Left window: (0 + 255) / 2 = 127.5 rounds to 128.
    assert_eq!(img.get_pixel(0, 0), [1, 2, 3, 128]);
    assert_eq!(img.get_pixel(1, 0), [1, 2, 3, 85]);
    assert_eq!(img.get_pixel(2, 0), [1, 2, 3, 128]);
}

#[test]
fn soften_alpha_with_radius_zero_changes_nothing() {
    let mut img = RgbaBuffer::from_pixel(2, 2, [9, 9, 9, 40]);
    img.put_pixel(1, 1, [9, 9, 9, 200]);
    let before = img.clone();
    soften_alpha(&mut img, 0);
    assert_eq!(img.as_raw(), before.as_raw());
}

#[test]
fn soften_alpha_rounds_halves_up() {
    let mut img = RgbaBuffer::from_pixel(2, 2, [0, 0, 0, 0]);
    img.put_pixel(0, 0, [0, 0, 0, 2]);
    img.put_pixel(1, 1, [0, 0, 0, 4]);
    soften_alpha(&mut img, 5);
    // Every window is the whole image: 6 / 4 = 1.5, which rounds to 2.
    for y in 0..2 {
        for x in 0..2 {
            assert_eq!(img.get_pixel(x, y)[3], 2);
        }
    }
}

#[test]
fn crop_is_clamped_into_the_image() {
    let mut img = RgbaBuffer::from_pixel(4, 3, [0, 0, 0, 255]);
    img.put_pixel(3, 2, [7, 8, 9, 10]);
    let out = crop_rgba(&img, 10, 10, 5, 5);
    assert_eq!(out.dimensions(), (1, 1));
    assert_eq!(out.get_pixel(0, 0), [7, 8, 9, 10]);
    let out = crop_rgba(&img, 2, 1, 0, 0);
    assert_eq!(out.dimensions(), (1, 1));
    assert_eq!(out.get_pixel(0, 0), [0, 0, 0, 255]);
}

#[test]
fn crop_copies_the_block() {
    let mut img = RgbaBuffer::new(4, 4);
    for y in 0..4u32 {
        for x in 0..4u32 {
            img.put_pixel(x, y, [x as u8, y as u8, 0, 255]);
        }
    }
    let out = crop_rgba(&img, 1, 2, 2, 2);
    assert_eq!(out.dimensions(), (2, 2));
    assert_eq!(out.get_pixel(0, 0), [1, 2, 0, 255]);
    assert_eq!(out.get_pixel(1, 1), [2, 3, 0, 255]);
}

#[test]
fn visible_pixels_are_detected() {
    let mut img = RgbaBuffer::new(2, 2);
    assert!(!has_visible_pixels(&img));
    img.put_pixel(1, 1, [0, 0, 0, 1]);
    assert!(has_visible_pixels(&img));
}

#[test]
fn raw_buffers_must_match_the_size() {
    assert!(RgbaBuffer::from_raw(2, 2, vec![0; 15]).is_none());
    let img = RgbaBuffer::from_raw(2, 1, vec![1, 2, 3, 4, 5, 6, 7, 8]).unwrap();
    assert_eq!(img.get_pixel(1, 0), [5, 6, 7, 8]);
    assert_eq!(img.into_raw(), vec![1, 2, 3, 4, 5, 6, 7, 8]);
}
