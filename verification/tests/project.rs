use wonderdraft_asset_studio::image_ops::{crop_rgba, rotate_clockwise};
use wonderdraft_asset_studio::model::{
    AssetKind, CropRegion, DrawMode, SourceImage, SourceRecord, SpriteAsset, SpriteRecord,
    ThemeDraft,
};
use wonderdraft_asset_studio::pixels::RgbaBuffer;
use wonderdraft_asset_studio::project::{
    check_project_version, project_file, reopen_project, source_from_record, source_record,
    sprite_from_record, sprite_record, ProjectError, ReopenedProject, PROJECT_VERSION,
};
use wonderdraft_asset_studio::image_files::{load_stored_rgba, load_upright_rgba, png_bytes};
use wonderdraft_asset_studio::model::ProjectFile;
use wonderdraft_asset_studio::sprites::{extract_sprite, rotate_source_clockwise};

fn numbered_image(width: u32, height: u32) -> RgbaBuffer {
    let mut image = RgbaBuffer::new(width, height);
    for y in 0..height {
        for x in 0..width {
            image.put_pixel(x, y, [x as u8, y as u8, 7, 255]);
        }
    }
    image
}

fn source(id: u64, image: RgbaBuffer, crops: Vec<CropRegion>) -> SourceImage {
    SourceImage {
        id,
        path: format!("/images/{id}.png"),
        image,
        crops,
        exif_orientation_applied: true,
        quarter_turns: 0,
    }
}

fn record(crop_bounds: Option<CropRegion>, source_id: u64, crop_id: u64) -> SpriteRecord {
    SpriteRecord {
        id: 40,
        source_id,
        crop_id,
        crop_bounds,
        original_file: "data/sprites/40_original.png".to_owned(),
        working_file: "data/sprites/40_working.png".to_owned(),
        name: "Well".to_owned(),
        file_stem: "well".to_owned(),
        kind: AssetKind::Trees,
        category: "Village".to_owned(),
        draw_mode: DrawMode::CustomColors,
        radius: 9,
        offset_x: 3,
        offset_y: -2,
    }
}

#[test]
fn only_version_one_opens() {
    assert_eq!(PROJECT_VERSION, 1);
    assert!(check_project_version(1).is_ok());
    match check_project_version(2) {
        Err(ProjectError::UnsupportedVersion { found }) => assert_eq!(found, 2),
        other => panic!("unexpected result {other:?}"),
    }
}

#[test]
fn saved_sprite_reopens_unchanged() {
    let image = numbered_image(8, 6);
    let mut sprite = extract_sprite(5, 1, &CropRegion::new(2, 1, 1, 4, 3), &image, "well", 1);
    sprite.offset_x = 3;
    sprite.radius = 12;
    let saved = sprite_record(&sprite, "a.png".to_owned(), "b.png".to_owned());
    assert_eq!(saved.crop_bounds.as_ref().map(|c| (c.x, c.y, c.width, c.height)), Some((1, 1, 4, 3)));
    assert_eq!((saved.original_file.as_str(), saved.working_file.as_str()), ("a.png", "b.png"));
    let reopened = sprite_from_record(saved, sprite.original.clone(), sprite.working.clone(), &Vec::new());
    assert_eq!((reopened.id, reopened.source_id, reopened.crop_id), (5, 1, 2));
    assert_eq!((reopened.radius, reopened.offset_x, reopened.offset_y), (12, 3, 0));
    assert_eq!(reopened.name, sprite.name);
    assert_eq!(reopened.crop_bounds.sprite_id, Some(5));
    assert_eq!(reopened.working.as_raw(), sprite.working.as_raw());
    assert!(reopened.texture_dirty);
}

#[test]
fn missing_bounds_come_from_the_source_crop() {
    let sources = vec![
        source(1, numbered_image(4, 4), vec![CropRegion::new(9, 0, 0, 1, 1)]),
        source(2, numbered_image(4, 4), vec![CropRegion::new(8, 0, 0, 1, 1), CropRegion::new(9, 2, 1, 2, 3)]),
    ];
    let image = numbered_image(2, 3);
    let reopened = sprite_from_record(record(None, 2, 9), image.clone(), image, &sources);
    let b = &reopened.crop_bounds;
    assert_eq!((b.id, b.x, b.y, b.width, b.height), (9, 2, 1, 2, 3));
    assert_eq!((reopened.kind, reopened.draw_mode), (AssetKind::Trees, DrawMode::CustomColors));
    assert_eq!(reopened.category, "Village");
}

#[test]
fn missing_bounds_without_crop_cover_the_whole_image() {
    let sources = vec![source(2, numbered_image(4, 4), vec![CropRegion::new(8, 0, 0, 1, 1)])];
    let image = numbered_image(5, 2);
    let reopened = sprite_from_record(record(None, 2, 9), image.clone(), image, &sources);
    let b = &reopened.crop_bounds;
    assert_eq!((b.id, b.x, b.y, b.width, b.height, b.sprite_id), (9, 0, 0, 5, 2, Some(40)));
}

#[test]
fn recorded_bounds_win() {
    let sources = vec![source(2, numbered_image(4, 4), vec![CropRegion::new(9, 2, 1, 2, 3)])];
    let image = numbered_image(1, 1);
    let kept = CropRegion::new(9, 3, 3, 1, 1);
    let reopened = sprite_from_record(record(Some(kept), 2, 9), image.clone(), image, &sources);
    assert_eq!((reopened.crop_bounds.x, reopened.crop_bounds.y), (3, 3));
}

#[test]
fn saved_source_reopens_turned_as_it_was() {
    let loaded = numbered_image(3, 2);
    let mut src = source(1, loaded.clone(), vec![CropRegion::new(4, 0, 0, 2, 1)]);
    let mut sprites: Vec<SpriteAsset> = Vec::new();
    for _ in 0..3 {
        rotate_source_clockwise(&mut src, &mut sprites);
    }
    assert_eq!(src.quarter_turns, 3);
    let rec: SourceRecord = source_record(&src);
    assert_eq!((rec.id, rec.quarter_turns, rec.crops.len()), (1, 3, 1));
    let reopened = source_from_record(rec, loaded);
    assert_eq!(reopened.quarter_turns, 3);
    assert_eq!(reopened.image.dimensions(), src.image.dimensions());
    assert_eq!(reopened.image.as_raw(), src.image.as_raw());
    assert_eq!(reopened.crops[0].x, src.crops[0].x);
}

#[test]
fn recorded_turns_count_modulo_four() {
    let loaded = numbered_image(3, 2);
    let rec = SourceRecord {
        id: 1,
        path: "p".to_owned(),
        crops: Vec::new(),
        exif_orientation_applied: false,
        quarter_turns: 5,
    };
    let reopened = source_from_record(rec, loaded.clone());
    assert_eq!(reopened.quarter_turns, 1);
    assert_eq!(reopened.image.as_raw(), rotate_clockwise(&loaded).as_raw());
}

#[test]
fn turning_a_source_turns_only_its_sprites() {
    let image = numbered_image(4, 2);
    let mut src = source(1, image.clone(), vec![CropRegion::new(4, 0, 0, 2, 2)]);
    let mine = extract_sprite(5, 1, &CropRegion::new(4, 0, 0, 2, 2), &image, "a", 1);
    let other = extract_sprite(6, 2, &CropRegion::new(4, 0, 0, 3, 1), &image, "b", 2);
    let mut sprites = vec![mine, other];
    rotate_source_clockwise(&mut src, &mut sprites);
    assert_eq!(src.image.dimensions(), (2, 4));
    assert_eq!(src.quarter_turns, 1);
    assert_eq!((src.crops[0].x, src.crops[0].y), (0, 0));
    assert_eq!(sprites[0].working.dimensions(), (2, 2));
    assert_eq!(sprites[0].working.get_pixel(1, 0), image.get_pixel(0, 0));
    assert_eq!(sprites[1].working.dimensions(), (3, 1));
}

#[test]
fn project_file_holds_all_records() {
    let sources = vec![source(1, numbered_image(2, 2), vec![CropRegion::new(3, 0, 0, 1, 1)])];
    let themes = vec![ThemeDraft::default()];
    let file = project_file("Pack", 17, &sources, vec![record(None, 1, 3)], &themes);
    assert_eq!((file.version, file.next_id), (1, 17));
    assert_eq!(file.pack_name, "Pack");
    assert_eq!(file.sources.len(), 1);
    assert_eq!(file.sources[0].path, "/images/1.png");
    assert_eq!(file.sprites.len(), 1);
    assert_eq!(file.themes[0].file_stem, "Adventure");
}

#[test]
fn turned_sprite_still_shows_its_crop_of_the_source() {
    let image = numbered_image(6, 4);
    let crop = CropRegion::new(4, 1, 2, 3, 2);
    let mut src = source(1, image.clone(), vec![crop.clone()]);
    let mut sprites = vec![extract_sprite(5, 1, &crop, &image, "a", 1)];
    rotate_source_clockwise(&mut src, &mut sprites);
    let b = &sprites[0].crop_bounds;
    let recut = crop_rgba(&src.image, b.x, b.y, b.width, b.height);
    assert_eq!(recut.dimensions(), sprites[0].original.dimensions());
    assert_eq!(recut.as_raw(), sprites[0].original.as_raw());
}

fn source_entry(id: u64, turns: u8) -> SourceRecord {
    SourceRecord {
        id,
        path: format!("/images/{id}.png"),
        crops: vec![CropRegion::new(9, 1, 1, 2, 2)],
        exif_orientation_applied: true,
        quarter_turns: turns,
    }
}

fn saved_project(version: u32, sources: Vec<SourceRecord>, sprites: Vec<SpriteRecord>) -> ProjectFile {
    ProjectFile {
        version,
        pack_name: "Pack".to_owned(),
        next_id: 77,
        sources,
        sprites,
        themes: vec![ThemeDraft::default()],
    }
}

fn loaded(width: u32, height: u32) -> Result<RgbaBuffer, String> {
    Ok(numbered_image(width, height))
}

fn failed(message: &str) -> Result<RgbaBuffer, String> {
    Err(message.to_owned())
}

fn reopened(r: Result<ReopenedProject, ProjectError>) -> ReopenedProject {
    match r {
        Ok(p) => p,
        Err(e) => panic!("unexpected error {e:?}"),
    }
}

#[test]
fn reopened_project_keeps_every_record() {
    let project = saved_project(1, vec![source_entry(1, 1)], vec![record(None, 1, 9)]);
    let p = reopened(reopen_project(project, vec![loaded(4, 3)], vec![(loaded(2, 2), loaded(2, 2))]));
    assert_eq!((p.pack_name.as_str(), p.next_id), ("Pack", 77));
    assert_eq!(p.themes.len(), 1);
    assert_eq!(p.themes[0].file_stem, "Adventure");
    assert!(p.skipped.is_empty());
    assert_eq!(p.sources.len(), 1);
    assert_eq!(p.sources[0].image.dimensions(), (3, 4));
    assert_eq!(p.sources[0].quarter_turns, 1);
    assert_eq!(p.sprites.len(), 1);
    assert_eq!(p.sprites[0].id, 40);
    let b = &p.sprites[0].crop_bounds;
    assert_eq!((b.id, b.x, b.y, b.width, b.height), (9, 1, 1, 2, 2));
}

#[test]
fn unreadable_source_is_skipped_with_its_reason() {
    let project = saved_project(1, vec![source_entry(1, 0), source_entry(2, 0)], vec![record(None, 2, 9)]);
    let p = reopened(reopen_project(
        project,
        vec![failed("missing file"), loaded(5, 5)],
        vec![(loaded(2, 2), loaded(2, 2))],
    ));
    assert_eq!(p.sources.len(), 1);
    assert_eq!(p.sources[0].id, 2);
    assert_eq!(p.skipped.len(), 1);
    assert_eq!(p.skipped[0].path, "/images/1.png");
    assert_eq!(p.skipped[0].message, "missing file");
    assert_eq!(p.sprites.len(), 1);
}

#[test]
fn unreadable_original_stops_the_reopening() {
    let project = saved_project(1, vec![source_entry(1, 0)], vec![record(None, 1, 9), record(None, 1, 9)]);
    let r = reopen_project(
        project,
        vec![failed("source gone")],
        vec![(loaded(2, 2), loaded(2, 2)), (failed("bad png"), failed("also bad"))],
    );
    match r {
        Err(ProjectError::SpriteImage { sprite, working, message }) => {
            assert_eq!((sprite, working), (1, false));
            assert_eq!(message, "bad png");
        }
        _ => panic!("expected a sprite image error"),
    }
}

#[test]
fn unreadable_working_image_stops_the_reopening() {
    let project = saved_project(1, Vec::new(), vec![record(None, 1, 9), record(None, 1, 9)]);
    let r = reopen_project(
        project,
        Vec::new(),
        vec![(loaded(2, 2), failed("truncated")), (failed("later"), loaded(2, 2))],
    );
    match r {
        Err(ProjectError::SpriteImage { sprite, working, message }) => {
            assert_eq!((sprite, working), (0, true));
            assert_eq!(message, "truncated");
        }
        _ => panic!("expected a sprite image error"),
    }
}

#[test]
fn other_version_is_refused_before_any_image() {
    let project = saved_project(3, Vec::new(), vec![record(None, 1, 9)]);
    match reopen_project(project, Vec::new(), vec![(failed("x"), failed("y"))]) {
        Err(ProjectError::UnsupportedVersion { found }) => assert_eq!(found, 3),
        _ => panic!("expected a version error"),
    }
}

#[test]
fn saved_project_reopens_from_its_files() {
    let source_file = png_bytes(&numbered_image(6, 4)).unwrap();
    let crop = CropRegion::new(4, 1, 0, 3, 2);
    let image = load_upright_rgba(&source_file, "png").unwrap();
    let mut src = source(1, image.clone(), vec![crop.clone()]);
    let mut sprites = vec![extract_sprite(5, 1, &crop, &image, "a", 1)];
    sprites[0].radius = 21;
    rotate_source_clockwise(&mut src, &mut sprites);
    let sources = vec![src];

    let records: Vec<SpriteRecord> = sprites
        .iter()
        .map(|s| sprite_record(s, format!("d/{}_original.png", s.id), format!("d/{}_working.png", s.id)))
        .collect();
    let files: Vec<(Vec<u8>, Vec<u8>)> = sprites
        .iter()
        .map(|s| (png_bytes(&s.original).unwrap(), png_bytes(&s.working).unwrap()))
        .collect();
    let project = project_file("Pack", 9, &sources, records, &vec![ThemeDraft::default()]);

    let source_loads = vec![load_upright_rgba(&source_file, "png")];
    let sprite_loads = files
        .iter()
        .map(|(original, working)| (load_stored_rgba(original, "png"), load_stored_rgba(working, "png")))
        .collect();
    let p = reopened(reopen_project(project, source_loads, sprite_loads));

    assert_eq!((p.pack_name.as_str(), p.next_id), ("Pack", 9));
    assert!(p.skipped.is_empty());
    assert_eq!(p.sources.len(), 1);
    assert_eq!(p.sources[0].quarter_turns, 1);
    assert_eq!(p.sources[0].image.dimensions(), sources[0].image.dimensions());
    assert_eq!(p.sources[0].image.as_raw(), sources[0].image.as_raw());
    assert_eq!(p.sources[0].crops[0].x, sources[0].crops[0].x);
    assert_eq!(p.sprites.len(), 1);
    let (a, b) = (&p.sprites[0], &sprites[0]);
    assert_eq!((a.id, a.source_id, a.crop_id, a.radius), (b.id, b.source_id, b.crop_id, 21));
    assert_eq!(a.original.as_raw(), b.original.as_raw());
    assert_eq!(a.working.dimensions(), b.working.dimensions());
    assert_eq!(a.working.as_raw(), b.working.as_raw());
    let (ca, cb) = (&a.crop_bounds, &b.crop_bounds);
    assert_eq!((ca.x, ca.y, ca.width, ca.height), (cb.x, cb.y, cb.width, cb.height));
}
