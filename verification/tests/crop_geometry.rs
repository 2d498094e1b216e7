use wonderdraft_asset_studio::crop_geometry::{
    adjust_crop_with_keys, adjust_offsets_after_sprite_crop, adjust_offsets_after_sprite_reframe,
    reframe_sprite_from_source, reshape_crop_square, rotate_crop_clockwise, set_crop_square_side,
    sprite_crop_bounds, square_after_key_resize, clamp_crop_origin, fit_crop_size,
    square_after_edit,
};
use wonderdraft_asset_studio::image_ops::crop_rgba;
use wonderdraft_asset_studio::model::CropRegion;
use wonderdraft_asset_studio::pixels::RgbaBuffer;

fn crop(x: u32, y: u32, width: u32, height: u32) -> CropRegion {
    CropRegion::new(1, x, y, width, height)
}

#[test]
fn clockwise_rotation_transforms_crop_coordinates() {
    let mut changed = crop(10, 20, 30, 40);
    rotate_crop_clockwise(&mut changed, 100);
    assert_eq!(
        (changed.x, changed.y, changed.width, changed.height),
        (40, 10, 40, 30)
    );
}

#[test]
fn four_clockwise_rotations_restore_crop_coordinates() {
    let original = crop(10, 20, 30, 40);
    let mut changed = original.clone();
    let mut width = 120;
    let mut height = 100;
    for _ in 0..4 {
        rotate_crop_clockwise(&mut changed, height);
        std::mem::swap(&mut width, &mut height);
    }
    assert_eq!(
        (changed.x, changed.y, changed.width, changed.height),
        (original.x, original.y, original.width, original.height)
    );
}

#[test]
fn keyboard_moves_crop_and_stays_inside_source() {
    let mut changed = crop(0, 0, 20, 20);
    adjust_crop_with_keys(&mut changed, 100, 100, false, true, false, true, false);
    assert_eq!((changed.x, changed.y), (0, 0));

    adjust_crop_with_keys(&mut changed, 100, 100, false, false, true, false, true);
    assert_eq!((changed.x, changed.y), (1, 1));
}

#[test]
fn shifted_keyboard_resizes_crop() {
    let mut changed = crop(10, 10, 20, 20);
    adjust_crop_with_keys(&mut changed, 100, 100, true, true, false, true, false);
    assert_eq!((changed.width, changed.height), (19, 19));

    adjust_crop_with_keys(&mut changed, 100, 100, true, false, true, false, true);
    assert_eq!((changed.width, changed.height), (20, 20));
}

#[test]
fn enabling_square_clamps_to_image_bounds() {
    let mut changed = crop(90, 80, 30, 20);
    reshape_crop_square(&mut changed, 100, 100);
    assert_eq!((changed.width, changed.height), (10, 10));
}

#[test]
fn sprite_crop_preserves_pivot_location_in_remaining_pixels() {
    let mut offset_x = 10;
    let mut offset_y = -5;
    adjust_offsets_after_sprite_crop(&mut offset_x, &mut offset_y, 100, 80, 10, 5, 70, 60);
    assert_eq!((offset_x, offset_y), (15, -10));
}

#[test]
fn expanding_sprite_crop_preserves_edits_and_restores_source_pixels() {
    let mut source = RgbaBuffer::from_pixel(4, 4, [10, 20, 30, 255]);
    source.put_pixel(0, 0, [1, 2, 3, 255]);
    let old_bounds = crop(1, 1, 2, 2);
    let mut old_working = crop_rgba(&source, 1, 1, 2, 2);
    old_working.put_pixel(0, 0, [99, 88, 77, 0]);
    let new_bounds = crop(0, 0, 4, 4);

    let (original, working) =
        reframe_sprite_from_source(&source, &old_working, &old_bounds, &new_bounds);

    assert_eq!(original.get_pixel(0, 0), [1, 2, 3, 255]);
    assert_eq!(working.get_pixel(1, 1), [99, 88, 77, 0]);
    assert_eq!(working.get_pixel(0, 0), [1, 2, 3, 255]);
}

#[test]
fn shrinking_sprite_crop_keeps_edits_inside_the_new_frame() {
    let source = RgbaBuffer::from_pixel(6, 6, [5, 5, 5, 255]);
    let old_bounds = crop(0, 0, 6, 6);
    let mut old_working = crop_rgba(&source, 0, 0, 6, 6);
    old_working.put_pixel(3, 2, [7, 7, 7, 0]);
    let new_bounds = crop(2, 1, 3, 3);
    let (original, working) =
        reframe_sprite_from_source(&source, &old_working, &old_bounds, &new_bounds);
    assert_eq!(original.dimensions(), (3, 3));
    assert_eq!(working.dimensions(), (3, 3));
    assert_eq!(working.get_pixel(1, 1), [7, 7, 7, 0]);
    assert_eq!(working.get_pixel(0, 0), [5, 5, 5, 255]);
}

#[test]
fn rotated_crop_lies_inside_the_turned_image() {
    let mut changed = crop(90, 0, 10, 50);
    rotate_crop_clockwise(&mut changed, 50);
    assert_eq!((changed.x, changed.y, changed.width, changed.height), (0, 90, 50, 10));
}

#[test]
fn rotation_saturates_for_crops_below_the_image() {
    let mut changed = crop(5, 90, 10, 20);
    rotate_crop_clockwise(&mut changed, 100);
    assert_eq!((changed.x, changed.y, changed.width, changed.height), (0, 5, 20, 10));
}

#[test]
fn keyboard_resize_never_drops_below_one_pixel() {
    let mut changed = crop(10, 10, 1, 1);
    adjust_crop_with_keys(&mut changed, 100, 100, true, true, false, true, false);
    assert_eq!((changed.width, changed.height), (1, 1));
}

#[test]
fn keyboard_resize_stops_at_the_image_edge() {
    let mut changed = crop(90, 95, 10, 5);
    adjust_crop_with_keys(&mut changed, 100, 100, true, false, true, false, true);
    assert_eq!((changed.width, changed.height), (10, 5));
}

#[test]
fn keyboard_move_stops_at_the_image_edge() {
    let mut changed = crop(80, 90, 20, 10);
    adjust_crop_with_keys(&mut changed, 100, 100, false, false, true, false, true);
    assert_eq!((changed.x, changed.y), (80, 90));
}

#[test]
fn square_side_is_at_least_one() {
    let mut changed = crop(100, 100, 30, 20);
    set_crop_square_side(&mut changed, 0, 100, 100);
    assert_eq!((changed.width, changed.height), (1, 1));
    set_crop_square_side(&mut changed, 40, 200, 120);
    assert_eq!((changed.width, changed.height), (20, 20));
}

#[test]
fn odd_reframe_rounds_half_away_from_zero() {
    let mut offset_x = 0;
    let mut offset_y = 0;
    adjust_offsets_after_sprite_reframe(&mut offset_x, &mut offset_y, 11, 11, 0, 0, 10, 10);
    assert_eq!((offset_x, offset_y), (1, -1));
    let mut offset_x = 0;
    let mut offset_y = 0;
    adjust_offsets_after_sprite_reframe(&mut offset_x, &mut offset_y, 10, 10, 0, 0, 11, 11);
    assert_eq!((offset_x, offset_y), (-1, 1));
}

#[test]
fn reframe_offsets_saturate_at_i32_limits() {
    let mut offset_x = i32::MAX;
    let mut offset_y = 0;
    adjust_offsets_after_sprite_reframe(&mut offset_x, &mut offset_y, 10, 10, -5, 0, 10, 10);
    assert_eq!((offset_x, offset_y), (i32::MAX, 0));
}

#[test]
fn square_follows_the_side_the_keys_changed() {
    let mut changed = crop(10, 10, 20, 20);
    adjust_crop_with_keys(&mut changed, 100, 100, true, false, true, false, false);
    assert_eq!((changed.width, changed.height), (21, 20));
    square_after_key_resize(&mut changed, 20, 100, 100);
    assert_eq!((changed.width, changed.height), (21, 21));

    let mut taller = crop(10, 10, 20, 20);
    adjust_crop_with_keys(&mut taller, 100, 100, true, false, false, false, true);
    square_after_key_resize(&mut taller, 20, 100, 100);
    assert_eq!((taller.width, taller.height), (21, 21));
}

#[test]
fn sprite_crop_bounds_move_onto_the_source() {
    let old = crop(10, 20, 30, 40);
    let b = sprite_crop_bounds(&old, 5, -3, 25, 30, 100, 100);
    assert_eq!((b.x, b.y, b.width, b.height), (15, 17, 20, 33));
    assert_eq!(b.id, old.id);
}

#[test]
fn sprite_crop_bounds_stay_inside_the_source() {
    let old = crop(10, 20, 30, 40);
    let b = sprite_crop_bounds(&old, -50, -50, 500, 500, 100, 90);
    assert_eq!((b.x, b.y, b.width, b.height), (0, 0, 100, 90));
    let thin = sprite_crop_bounds(&old, 200, 5, 100, 5, 100, 90);
    assert_eq!((thin.x, thin.y, thin.width, thin.height), (99, 25, 1, 1));
}

#[test]
fn editing_a_crop_keeps_it_in_the_image() {
    let mut changed = crop(90, 95, 30, 20);
    clamp_crop_origin(&mut changed, 100, 100);
    assert_eq!((changed.x, changed.y), (70, 80));
    let mut wide = crop(10, 10, 200, 5);
    clamp_crop_origin(&mut wide, 100, 100);
    assert_eq!(wide.x, 0);
    let mut edited = crop(60, 70, 50, 0);
    fit_crop_size(&mut edited, 100, 100);
    assert_eq!((edited.width, edited.height), (40, 1));
}

#[test]
fn square_follows_the_edited_side() {
    let mut c = crop(10, 10, 25, 20);
    square_after_edit(&mut c, 20, 20, 100, 100);
    assert_eq!((c.width, c.height), (25, 25));
    let mut c = crop(10, 10, 20, 30);
    square_after_edit(&mut c, 20, 20, 100, 100);
    assert_eq!((c.width, c.height), (30, 30));
    let mut c = crop(10, 10, 20, 35);
    square_after_edit(&mut c, 20, 35, 100, 100);
    assert_eq!((c.width, c.height), (35, 35));
}
