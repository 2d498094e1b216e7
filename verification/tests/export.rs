use wonderdraft_asset_studio::export::{
    format_theme_json, plan_export, plan_export_with, ExportError, ExportPlan, ExportReport,
};
use wonderdraft_asset_studio::model::{
    AssetKind, CropRegion, DrawMode, SpriteAsset, ThemeDraft,
};
use wonderdraft_asset_studio::pixels::RgbaBuffer;

fn sprite(file_stem: &str, kind: AssetKind, category: &str, alpha: u8) -> SpriteAsset {
    let image = RgbaBuffer::from_pixel(2, 2, [10, 20, 30, alpha]);
    SpriteAsset {
        id: 1,
        source_id: 2,
        crop_id: 3,
        crop_bounds: CropRegion::new(3, 0, 0, 2, 2),
        original: image.clone(),
        working: image,
        name: format!("Name of {file_stem}"),
        file_stem: file_stem.to_owned(),
        kind,
        category: category.to_owned(),
        draw_mode: DrawMode::SampleColor,
        radius: 4,
        offset_x: -1,
        offset_y: 2,
        texture_dirty: false,
        undo: Vec::new(),
        redo: Vec::new(),
    }
}

fn theme(file_stem: &str, json_text: &str) -> ThemeDraft {
    ThemeDraft { file_stem: file_stem.to_owned(), json_text: json_text.to_owned() }
}

fn folders(plan: &ExportPlan) -> Vec<Vec<String>> {
    plan.sprite_files.iter().map(|f| f.folder.clone()).collect()
}

#[test]
fn report_starts_empty() {
    let report = ExportReport::default();
    assert_eq!((report.png_files, report.metadata_files, report.theme_files), (0, 0, 0));
    assert!(report.warnings.is_empty());
}

#[test]
fn sprites_go_to_their_kind_and_category_folders() {
    let sprites = vec![
        sprite("tower", AssetKind::Symbols, "Buildings/Castles", 255),
        sprite("grass", AssetKind::GroundTexture, "", 255),
        sprite("ink", AssetKind::Brush, "Lines", 0),
    ];
    let plan = plan_export("My Pack", &sprites, &Vec::new());
    assert_eq!(plan.pack_name, "My Pack");
    assert!(plan.failure.is_none());
    assert_eq!(
        folders(&plan),
        vec![
            vec!["assets", "My Pack", "sprites", "symbols", "Buildings", "Castles"],
            vec!["assets", "My Pack", "textures", "ground", "Uncategorized"],
            vec!["brushes", "Lines"],
        ]
    );
    let stems: Vec<&str> = plan.sprite_files.iter().map(|f| f.file_stem.as_str()).collect();
    assert_eq!(stems, vec!["tower", "grass", "ink"]);
    let visible: Vec<bool> = plan.sprite_files.iter().map(|f| f.visible).collect();
    assert_eq!(visible, vec![true, true, false]);
    assert!(!plan.create_theme_folder);
    assert!(plan.theme_files.is_empty());
}

#[test]
fn only_symbols_mountains_and_trees_get_metadata() {
    let sprites = vec![
        sprite("a", AssetKind::Trees, "Oak", 255),
        sprite("b", AssetKind::WaterTexture, "", 255),
        sprite("c", AssetKind::Trees, "Oak", 255),
        sprite("d", AssetKind::Mountains, "", 255),
    ];
    let plan = plan_export("", &sprites, &Vec::new());
    assert_eq!(plan.pack_name, "MyFantasyPack");
    assert_eq!(plan.metadata_files.len(), 2);
    assert_eq!(
        plan.metadata_files[0].folder,
        vec!["assets", "MyFantasyPack", "sprites", "trees", "Oak"]
    );
    let stems: Vec<&str> =
        plan.metadata_files[0].entries.iter().map(|e| e.file_stem.as_str()).collect();
    assert_eq!(stems, vec!["a", "c"]);
    let meta = &plan.metadata_files[0].entries[0].metadata;
    assert_eq!(meta.name, "Name of a");
    assert_eq!((meta.radius, meta.offset_x, meta.offset_y), (4, -1, 2));
    assert_eq!(meta.draw_mode, "sample_color");
    assert_eq!(plan.metadata_files[1].entries.len(), 1);
}

#[test]
fn duplicate_sprite_file_stops_the_export() {
    let sprites = vec![
        sprite("rock", AssetKind::Symbols, "A", 255),
        sprite("tree", AssetKind::Symbols, "A", 255),
        sprite("rock!", AssetKind::Symbols, "A", 255),
        sprite("late", AssetKind::Symbols, "A", 255),
    ];
    let plan = plan_export("P", &sprites, &vec![theme("t", "{}")]);
    assert_eq!(plan.sprite_files.len(), 2);
    assert!(plan.metadata_files.is_empty());
    assert!(!plan.create_theme_folder);
    assert!(plan.theme_files.is_empty());
    match plan.failure {
        Some(ExportError::DuplicateSpriteFile { folder, file_stem }) => {
            assert_eq!(folder, vec!["assets", "P", "sprites", "symbols", "A"]);
            assert_eq!(file_stem, "rock");
        }
        other => panic!("unexpected result {other:?}"),
    }
}

#[test]
fn same_name_in_other_folders_is_fine() {
    let sprites = vec![
        sprite("rock", AssetKind::Symbols, "A", 255),
        sprite("rock", AssetKind::Symbols, "B", 255),
        sprite("rock", AssetKind::Trees, "A", 255),
    ];
    let plan = plan_export("P", &sprites, &Vec::new());
    assert!(plan.failure.is_none());
    assert_eq!(plan.sprite_files.len(), 3);
}

#[test]
fn themes_are_written_in_order() {
    let themes = vec![theme("Dark Night", "{\"a\": 1}"), theme("day", "[]")];
    let plan = plan_export("P", &Vec::new(), &themes);
    assert!(plan.create_theme_folder);
    assert!(plan.failure.is_none());
    let stems: Vec<(usize, &str)> =
        plan.theme_files.iter().map(|t| (t.theme, t.file_stem.as_str())).collect();
    assert_eq!(stems, vec![(0, "Dark_Night"), (1, "day")]);
}

#[test]
fn duplicate_theme_name_stops_the_export() {
    let themes = vec![theme("Night", "{}"), theme("Night?", "{}"), theme("x", "{}")];
    let plan = plan_export("P", &Vec::new(), &themes);
    assert_eq!(plan.theme_files.len(), 1);
    match plan.failure {
        Some(ExportError::DuplicateThemeName { file_stem }) => assert_eq!(file_stem, "Night"),
        other => panic!("unexpected result {other:?}"),
    }
}

#[test]
fn invalid_theme_json_stops_the_export() {
    let themes = vec![theme("good", "{}"), theme("bad", "{not json"), theme("later", "{}")];
    let plan = plan_export("P", &Vec::new(), &themes);
    assert_eq!(plan.theme_files.len(), 1);
    match plan.failure {
        Some(ExportError::InvalidThemeJson { file_stem }) => assert_eq!(file_stem, "bad"),
        other => panic!("unexpected result {other:?}"),
    }
}

#[test]
fn name_clash_is_reported_before_invalid_json() {
    let themes = vec![theme("a", "{}"), theme("a", "nope")];
    let plan = plan_export_with("P", &Vec::new(), &themes, &vec![true, false]);
    assert!(matches!(plan.failure, Some(ExportError::DuplicateThemeName { .. })));
}

#[test]
fn given_validity_decides_when_planning_with_it() {
    let themes = vec![theme("a", "{}")];
    let plan = plan_export_with("P", &Vec::new(), &themes, &vec![false]);
    assert!(matches!(plan.failure, Some(ExportError::InvalidThemeJson { .. })));
    let plan = plan_export_with("P", &Vec::new(), &themes, &vec![true]);
    assert!(plan.failure.is_none());
}

#[test]
fn theme_json_is_laid_out_by_the_pretty_printer() {
    let text = format_theme_json("{\"a\":[1,2],\"b\":{\"c\":true}}").unwrap();
    assert_eq!(text, "{\n  \"a\": [\n    1,\n    2\n  ],\n  \"b\": {\n    \"c\": true\n  }\n}");
    assert_eq!(format_theme_json(&text).unwrap(), text);
}

#[test]
fn theme_text_that_is_not_json_cannot_be_laid_out() {
    assert!(format_theme_json("{\"a\": }").is_err());
    assert!(format_theme_json("").is_err());
}
