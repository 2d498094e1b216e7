use wonderdraft_asset_studio::model::{
    default_theme_json, AssetKind, CropRegion, DrawMode, SpriteAsset, ThemeDraft,
    DEFAULT_THEME_JSON, MAX_UNDO_HISTORY,
};
use wonderdraft_asset_studio::pixels::RgbaBuffer;

fn sprite_with_pixel(pixel: [u8; 4]) -> SpriteAsset {
    let image = RgbaBuffer::from_pixel(2, 2, pixel);
    SpriteAsset {
        id: 7,
        source_id: 1,
        crop_id: 2,
        crop_bounds: CropRegion::new(2, 0, 0, 2, 2),
        original: image.clone(),
        working: image,
        name: "Tower 1".to_owned(),
        file_stem: "tower_1".to_owned(),
        kind: AssetKind::Symbols,
        category: "Uncategorized".to_owned(),
        draw_mode: DrawMode::Normal,
        radius: 1,
        offset_x: 0,
        offset_y: 0,
        texture_dirty: false,
        undo: Vec::new(),
        redo: Vec::new(),
    }
}

#[test]
fn draw_mode_keys_and_labels() {
    let keys: Vec<&str> = DrawMode::all().iter().map(|m| m.as_str()).collect();
    assert_eq!(keys, vec!["normal", "sample_color", "custom_colors"]);
    assert_eq!(DrawMode::SampleColor.label(), "Sample ground color");
}

#[test]
fn asset_kinds_and_their_folders() {
    assert_eq!(AssetKind::all().len(), 6);
    assert!(AssetKind::Trees.is_sprite());
    assert!(!AssetKind::Brush.is_sprite());
    assert_eq!(
        AssetKind::Symbols.relative_base("Pack"),
        vec!["assets", "Pack", "sprites", "symbols"]
    );
    assert_eq!(
        AssetKind::WaterTexture.relative_base("Pack"),
        vec!["assets", "Pack", "textures", "water"]
    );
    assert_eq!(AssetKind::Brush.relative_base("Pack"), vec!["brushes"]);
}

#[test]
fn new_crop_is_at_least_one_pixel() {
    let c = CropRegion::new(3, 4, 5, 0, 0);
    assert_eq!((c.id, c.x, c.y, c.width, c.height), (3, 4, 5, 1, 1));
    assert_eq!(c.sprite_id, None);
}

#[test]
fn default_theme_is_adventure() {
    let theme = ThemeDraft::default();
    assert_eq!(theme.file_stem, "Adventure");
    assert_eq!(theme.json_text, DEFAULT_THEME_JSON);
    assert_eq!(default_theme_json(), DEFAULT_THEME_JSON);
}

#[test]
fn undo_then_redo_round_trips_an_edit() {
    let mut sprite = sprite_with_pixel([1, 2, 3, 255]);
    sprite.push_undo();
    sprite.working.put_pixel(0, 0, [9, 9, 9, 0]);
    sprite.offset_x = 5;

    assert!(sprite.undo());
    assert_eq!(sprite.working.get_pixel(0, 0), [1, 2, 3, 255]);
    assert_eq!(sprite.offset_x, 0);
    assert!(sprite.texture_dirty);

    assert!(sprite.redo());
    assert_eq!(sprite.working.get_pixel(0, 0), [9, 9, 9, 0]);
    assert_eq!(sprite.offset_x, 5);

    assert!(!sprite.redo());
}

#[test]
fn undo_with_empty_history_changes_nothing() {
    let mut sprite = sprite_with_pixel([1, 2, 3, 255]);
    assert!(!sprite.undo());
    assert!(!sprite.texture_dirty);
}

#[test]
fn new_edit_forgets_redo() {
    let mut sprite = sprite_with_pixel([1, 2, 3, 255]);
    sprite.push_undo();
    sprite.offset_y = 3;
    assert!(sprite.undo());
    sprite.push_undo();
    assert!(!sprite.redo());
}

#[test]
fn undo_history_keeps_the_latest_states() {
    let mut sprite = sprite_with_pixel([0, 0, 0, 255]);
    for step in 0..(MAX_UNDO_HISTORY as i32 + 5) {
        sprite.offset_x = step;
        sprite.push_undo();
    }
    assert_eq!(sprite.undo.len(), MAX_UNDO_HISTORY);
    let mut undone = 0;
    while sprite.undo() {
        undone += 1;
    }
    assert_eq!(undone, MAX_UNDO_HISTORY);
    assert_eq!(sprite.offset_x, 5);
}
