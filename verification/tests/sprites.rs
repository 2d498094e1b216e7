use wonderdraft_asset_studio::crop_geometry::rotate_crop_clockwise;
use wonderdraft_asset_studio::image_ops::{crop_rgba, rotate_clockwise};
use wonderdraft_asset_studio::model::{AssetKind, CropRegion, DrawMode, SourceImage, SpriteAsset};
use wonderdraft_asset_studio::pixels::RgbaBuffer;
use wonderdraft_asset_studio::shortcuts::ModifierKey;
use wonderdraft_asset_studio::sprites::{
    copy_crop, extract_sprite, rotate_crops_clockwise, rotate_sprite_clockwise, sync_sprite_crop,
    unlink_crop, remove_crop, unextracted_crop_ids, extract_crop, CropExtraction,
};
use wonderdraft_asset_studio::text::push_decimal;

fn numbered_image(width: u32, height: u32) -> RgbaBuffer {
    let mut image = RgbaBuffer::new(width, height);
    for y in 0..height {
        for x in 0..width {
            image.put_pixel(x, y, [x as u8, y as u8, (x + 10 * y) as u8, 255]);
        }
    }
    image
}

#[test]
fn copied_crop_moves_ten_pixels_and_has_no_sprite() {
    let mut original = CropRegion::new(4, 5, 6, 20, 10);
    original.sprite_id = Some(9);
    let copy = copy_crop(&original, 11, 100, 100);
    assert_eq!((copy.id, copy.x, copy.y, copy.width, copy.height), (11, 15, 16, 20, 10));
    assert_eq!(copy.sprite_id, None);
}

#[test]
fn copied_crop_stops_at_the_image_edge() {
    let original = CropRegion::new(4, 75, 85, 20, 10);
    let copy = copy_crop(&original, 5, 100, 100);
    assert_eq!((copy.x, copy.y), (80, 90));
    let wide = CropRegion::new(4, 0, 0, 200, 10);
    assert_eq!(copy_crop(&wide, 5, 100, 100).x, 0);
}

#[test]
fn extracted_sprite_takes_the_crop_pixels_and_a_numbered_name() {
    let image = numbered_image(6, 5);
    let crop = CropRegion::new(3, 1, 2, 4, 2);
    let sprite = extract_sprite(8, 1, &crop, &image, "old_tower", 12);
    assert_eq!(sprite.name, "old tower 12");
    assert_eq!(sprite.file_stem, "old_tower_12");
    assert_eq!((sprite.id, sprite.source_id, sprite.crop_id), (8, 1, 3));
    assert_eq!(sprite.crop_bounds.sprite_id, Some(8));
    assert_eq!(sprite.original.dimensions(), (4, 2));
    assert_eq!(sprite.original.get_pixel(0, 0), [1, 2, 21, 255]);
    assert_eq!(sprite.working.get_pixel(3, 1), [4, 3, 34, 255]);
    assert_eq!(sprite.kind, AssetKind::Symbols);
    assert_eq!(sprite.category, "Uncategorized");
    assert_eq!(sprite.draw_mode, DrawMode::Normal);
    assert_eq!(sprite.radius, 2);
    assert_eq!((sprite.offset_x, sprite.offset_y), (0, 0));
    assert!(sprite.texture_dirty);
    assert!(sprite.undo.is_empty() && sprite.redo.is_empty());
}

#[test]
fn tiny_sprite_has_radius_one() {
    let image = numbered_image(3, 3);
    let crop = CropRegion::new(3, 0, 0, 1, 1);
    let sprite = extract_sprite(1, 1, &crop, &image, "Dot!", 1);
    assert_eq!(sprite.radius, 1);
    assert_eq!(sprite.name, "Dot! 1");
    assert_eq!(sprite.file_stem, "Dot__1");
}

#[test]
fn decimal_numbers() {
    let mut s = String::from("n=");
    push_decimal(&mut s, 0);
    push_decimal(&mut s, 7);
    s.push(' ');
    push_decimal(&mut s, 18446744073709551615);
    assert_eq!(s, "n=07 18446744073709551615");
}

#[test]
fn rotation_turns_pixels_clockwise() {
    let image = numbered_image(3, 2);
    let turned = rotate_clockwise(&image);
    assert_eq!(turned.dimensions(), (2, 3));
    // The bottom-left pixel of the source becomes the top-left one.
    assert_eq!(turned.get_pixel(0, 0), image.get_pixel(0, 1));
    assert_eq!(turned.get_pixel(1, 0), image.get_pixel(0, 0));
    assert_eq!(turned.get_pixel(0, 2), image.get_pixel(2, 1));
}

#[test]
fn four_rotations_restore_the_image() {
    let image = numbered_image(5, 3);
    let mut turned = image.clone();
    for _ in 0..4 {
        turned = rotate_clockwise(&turned);
    }
    assert_eq!(turned.as_raw(), image.as_raw());
    assert_eq!(turned.dimensions(), (5, 3));
}

fn sprite_from(image: &RgbaBuffer) -> SpriteAsset {
    extract_sprite(2, 1, &CropRegion::new(7, 0, 0, 3, 2), image, "s", 1)
}

#[test]
fn rotating_a_sprite_turns_its_images_and_pivot() {
    let image = numbered_image(3, 2);
    let mut sprite = sprite_from(&image);
    sprite.offset_x = 4;
    sprite.offset_y = -3;
    sprite.push_undo();
    sprite.texture_dirty = false;
    rotate_sprite_clockwise(&mut sprite, 2);
    assert_eq!((sprite.offset_x, sprite.offset_y), (-3, -4));
    assert_eq!(sprite.working.dimensions(), (2, 3));
    assert_eq!(sprite.original.get_pixel(1, 0), image.get_pixel(0, 0));
    assert_eq!(
        (sprite.crop_bounds.x, sprite.crop_bounds.y, sprite.crop_bounds.width, sprite.crop_bounds.height),
        (0, 0, 2, 3)
    );
    assert!(sprite.texture_dirty);
    assert!(sprite.undo.is_empty());
    assert!(!sprite.undo());
}

#[test]
fn rotating_keeps_the_most_negative_offset() {
    let image = numbered_image(1, 1);
    let mut sprite = sprite_from(&image);
    sprite.offset_x = i32::MIN;
    rotate_sprite_clockwise(&mut sprite, 1);
    assert_eq!(sprite.offset_y, i32::MIN);
}

#[test]
fn rotating_crops_moves_each_one() {
    let mut crops = vec![CropRegion::new(1, 10, 20, 30, 40), CropRegion::new(2, 0, 0, 5, 5)];
    rotate_crops_clockwise(&mut crops, 100);
    assert_eq!((crops[0].x, crops[0].y, crops[0].width, crops[0].height), (40, 10, 40, 30));
    assert_eq!((crops[1].x, crops[1].y), (95, 0));
}

#[test]
fn sync_copies_sprite_bounds_over_its_crop() {
    let image = numbered_image(4, 4);
    let mut sprite = sprite_from(&image);
    sprite.crop_bounds = CropRegion::new(99, 1, 1, 2, 2);
    let mut crops = vec![
        CropRegion::new(5, 0, 0, 1, 1),
        CropRegion::new(7, 0, 0, 3, 2),
        CropRegion::new(7, 3, 3, 1, 1),
    ];
    sync_sprite_crop(&mut sprite, &mut crops);
    assert_eq!((sprite.crop_bounds.id, sprite.crop_bounds.sprite_id), (7, Some(2)));
    assert_eq!((crops[1].id, crops[1].x, crops[1].y, crops[1].width), (7, 1, 1, 2));
    assert_eq!(crops[1].sprite_id, Some(2));
    assert_eq!((crops[2].x, crops[2].sprite_id), (3, None));
    assert_eq!((crops[0].id, crops[0].width), (5, 1));
}

#[test]
fn sync_without_matching_crop_leaves_crops_alone() {
    let image = numbered_image(4, 4);
    let mut sprite = sprite_from(&image);
    let mut crops = vec![CropRegion::new(5, 0, 0, 1, 1)];
    sync_sprite_crop(&mut sprite, &mut crops);
    assert_eq!((crops[0].id, crops[0].sprite_id), (5, None));
    assert_eq!(sprite.crop_bounds.sprite_id, Some(2));
}

#[test]
fn modifier_labels() {
    assert_eq!(ModifierKey::Shift.label(), "Shift");
    assert_eq!(ModifierKey::Alt.label(), "Alt / Option");
    assert_eq!(ModifierKey::Control.label(), "Ctrl");
    assert_eq!(ModifierKey::Command.label(), "Command");
}

#[test]
fn unlinking_frees_the_first_crop_with_the_id() {
    let mut a = CropRegion::new(3, 0, 0, 1, 1);
    a.sprite_id = Some(10);
    let mut b = CropRegion::new(4, 0, 0, 1, 1);
    b.sprite_id = Some(11);
    let mut crops = vec![a, b];
    unlink_crop(&mut crops, 4);
    assert_eq!((crops[0].sprite_id, crops[1].sprite_id), (Some(10), None));
    unlink_crop(&mut crops, 99);
    assert_eq!(crops[0].sprite_id, Some(10));
}

#[test]
fn removing_a_crop_returns_it() {
    let mut a = CropRegion::new(3, 0, 0, 1, 1);
    a.sprite_id = Some(8);
    let mut crops = vec![CropRegion::new(1, 0, 0, 1, 1), a, CropRegion::new(3, 5, 5, 1, 1)];
    let removed = remove_crop(&mut crops, 3).expect("crop 3 is there");
    assert_eq!(removed.sprite_id, Some(8));
    assert_eq!(crops.len(), 2);
    assert_eq!((crops[1].id, crops[1].x), (3, 5));
    assert!(remove_crop(&mut crops, 42).is_none());
    assert_eq!(crops.len(), 2);
}

#[test]
fn unextracted_crops_are_listed_in_order() {
    let mut linked = CropRegion::new(2, 0, 0, 1, 1);
    linked.sprite_id = Some(9);
    let crops = vec![CropRegion::new(5, 0, 0, 1, 1), linked, CropRegion::new(1, 0, 0, 1, 1)];
    assert_eq!(unextracted_crop_ids(&crops), vec![5, 1]);
    assert!(unextracted_crop_ids(&Vec::new()).is_empty());
}

fn source_with(crops: Vec<CropRegion>) -> SourceImage {
    SourceImage {
        id: 4,
        path: "/maps/old_tower.png".to_owned(),
        image: numbered_image(6, 5),
        crops,
        exif_orientation_applied: true,
        quarter_turns: 0,
    }
}

#[test]
fn extracting_links_the_crop_and_takes_the_next_id() {
    let mut source = source_with(vec![CropRegion::new(2, 1, 1, 2, 2)]);
    let mut next_id = 10;
    match extract_crop(&mut source, 2, &mut next_id, "old_tower", 3) {
        CropExtraction::Extracted(sprite) => {
            assert_eq!((sprite.id, sprite.source_id, sprite.crop_id), (10, 4, 2));
            assert_eq!(sprite.name, "old tower 3");
            assert_eq!(sprite.working.get_pixel(0, 0), [1, 1, 11, 255]);
        }
        _ => panic!("the crop should have been extracted"),
    }
    assert_eq!(next_id, 11);
    assert_eq!(source.crops[0].sprite_id, Some(10));
}

#[test]
fn extracting_twice_returns_the_existing_sprite() {
    let mut source = source_with(vec![CropRegion::new(2, 1, 1, 2, 2)]);
    let mut next_id = 10;
    let _ = extract_crop(&mut source, 2, &mut next_id, "s", 1);
    match extract_crop(&mut source, 2, &mut next_id, "s", 2) {
        CropExtraction::AlreadyExtracted(id) => assert_eq!(id, 10),
        _ => panic!("the crop already has a sprite"),
    }
    assert_eq!(next_id, 11);
    assert!(matches!(
        extract_crop(&mut source, 77, &mut next_id, "s", 2),
        CropExtraction::NoSuchCrop
    ));
    assert_eq!(next_id, 11);
}

#[test]
fn turning_then_cropping_matches_cropping_then_turning() {
    let image = numbered_image(7, 5);
    let crop = CropRegion::new(1, 2, 1, 3, 2);
    let cut = crop_rgba(&image, crop.x, crop.y, crop.width, crop.height);
    let mut moved = crop.clone();
    rotate_crop_clockwise(&mut moved, 5);
    let turned = rotate_clockwise(&image);
    let cut_of_turned = crop_rgba(&turned, moved.x, moved.y, moved.width, moved.height);
    let turned_cut = rotate_clockwise(&cut);
    assert_eq!(cut_of_turned.dimensions(), (2, 3));
    assert_eq!(cut_of_turned.as_raw(), turned_cut.as_raw());
}
