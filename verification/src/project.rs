//! Saving and reopening projects: the records a project file holds, and the
//! sources and sprites rebuilt from them.

use vstd::prelude::*;
use vstd::string::*;

use crate::image_files::{decoded_form, is_load_of, png_of, stored_rgba_of, upright_rgba_of};
use crate::image_ops::{is_turned_clockwise, lemma_turn_is_unique, rotate_clockwise};
use crate::model::{CropRegion, ProjectFile, SourceImage, SourceRecord, SpriteAsset, SpriteRecord, ThemeDraft};
use crate::pixels::{RgbaBuffer, RgbaModel};
use crate::sprites::is_first_with_id;

verus! {

/// The project file format this library writes and reads.
pub const PROJECT_VERSION: u32 = 1;

/// Why a project cannot be reopened.
#[derive(Debug)]
pub enum ProjectError {
    /// The file was written in another format version.
    UnsupportedVersion { found: u32 },
    /// An image of sprite `sprite` could not be loaded: its working image
    /// when `working` is set, else its original; `message` says why.
    SpriteImage { sprite: usize, working: bool, message: String },
}

/// `r` is the error for the unsupported format version `version`.
pub open spec fn is_version_error<T>(r: Result<T, ProjectError>, version: u32) -> bool {
    match r {
        Err(ProjectError::UnsupportedVersion { found }) => found == version,
        _ => false,
    }
}

/// Accepts exactly the format version `PROJECT_VERSION`.
pub fn check_project_version(version: u32) -> (r: Result<(), ProjectError>)
    ensures
        r is Ok <==> version == PROJECT_VERSION,
        r is Err ==> is_version_error(r, version),
{
    if version == PROJECT_VERSION {
        Ok(())
    } else {
        Err(ProjectError::UnsupportedVersion { found: version })
    }
}

// ---------------------------------------------------------------------------
// Saving
// ---------------------------------------------------------------------------

/// `r` records the source `s`: everything but its pixels.
pub open spec fn is_source_record(s: SourceImage, r: SourceRecord) -> bool {
    &&& r.id == s.id
    &&& r.path@ == s.path@
    &&& r.crops@ == s.crops@
    &&& r.exif_orientation_applied == s.exif_orientation_applied
    &&& r.quarter_turns == s.quarter_turns
}

fn clone_crops(crops: &Vec<CropRegion>) -> (out: Vec<CropRegion>)
    ensures
        out@ == crops@,
{
    let mut out: Vec<CropRegion> = Vec::new();
    let mut i: usize = 0;
    while i < crops.len()
        invariant
            i <= crops@.len(),
            out@ == crops@.take(i as int),
        decreases crops@.len() - i,
    {
        out.push(crops[i].clone());
        i = i + 1;
        proof {
            assert(out@ =~= crops@.take(i as int));
        }
    }
    proof {
        assert(crops@.take(i as int) =~= crops@);
    }
    out
}

/// The record of a source in a project file.
pub fn source_record(source: &SourceImage) -> (r: SourceRecord)
    ensures
        is_source_record(*source, r),
{
    SourceRecord {
        id: source.id,
        path: source.path.clone(),
        crops: clone_crops(&source.crops),
        exif_orientation_applied: source.exif_orientation_applied,
        quarter_turns: source.quarter_turns,
    }
}

/// `r` records the sprite `s`, whose images are stored in the files
/// `original_file` and `working_file`: its settings and its crop bounds.
pub open spec fn is_sprite_record(s: SpriteAsset, original_file: Seq<char>, working_file: Seq<char>, r: SpriteRecord) -> bool {
    &&& r.id == s.id
    &&& r.source_id == s.source_id
    &&& r.crop_id == s.crop_id
    &&& r.crop_bounds == Some(s.crop_bounds)
    &&& r.original_file@ == original_file
    &&& r.working_file@ == working_file
    &&& r.name@ == s.name@
    &&& r.file_stem@ == s.file_stem@
    &&& r.kind == s.kind
    &&& r.category@ == s.category@
    &&& r.draw_mode == s.draw_mode
    &&& r.radius == s.radius
    &&& r.offset_x == s.offset_x
    &&& r.offset_y == s.offset_y
}

/// The record of a sprite whose images are stored in `original_file` and
/// `working_file`.
pub fn sprite_record(sprite: &SpriteAsset, original_file: String, working_file: String) -> (r: SpriteRecord)
    ensures
        is_sprite_record(*sprite, original_file@, working_file@, r),
{
    SpriteRecord {
        id: sprite.id,
        source_id: sprite.source_id,
        crop_id: sprite.crop_id,
        crop_bounds: Some(sprite.crop_bounds.clone()),
        original_file,
        working_file,
        name: sprite.name.clone(),
        file_stem: sprite.file_stem.clone(),
        kind: sprite.kind,
        category: sprite.category.clone(),
        draw_mode: sprite.draw_mode,
        radius: sprite.radius,
        offset_x: sprite.offset_x,
        offset_y: sprite.offset_y,
    }
}

/// The project file for the pack `pack_name` with the id counter `next_id`:
/// a record of each source, the given sprite records, and the themes.
pub fn project_file(
    pack_name: &str,
    next_id: u64,
    sources: &Vec<SourceImage>,
    sprites: Vec<SpriteRecord>,
    themes: &Vec<ThemeDraft>,
) -> (p: ProjectFile)
    ensures
        p.version == PROJECT_VERSION,
        p.pack_name@ == pack_name@,
        p.next_id == next_id,
        p.sources@.len() == sources@.len(),
        forall|k: int| 0 <= k < sources@.len() ==> is_source_record(sources@[k], #[trigger] p.sources@[k]),
        p.sprites@ == sprites@,
        p.themes@.len() == themes@.len(),
        forall|k: int|
            0 <= k < themes@.len() ==> (#[trigger] p.themes@[k]).file_stem@ == themes@[k].file_stem@
                && p.themes@[k].json_text@ == themes@[k].json_text@,
{
    let mut records: Vec<SourceRecord> = Vec::new();
    let mut i: usize = 0;
    while i < sources.len()
        invariant
            i <= sources@.len(),
            records@.len() == i,
            forall|k: int| 0 <= k < i ==> is_source_record(sources@[k], #[trigger] records@[k]),
        decreases sources@.len() - i,
    {
        records.push(source_record(&sources[i]));
        i = i + 1;
    }
    let mut theme_copies: Vec<ThemeDraft> = Vec::new();
    let mut j: usize = 0;
    while j < themes.len()
        invariant
            j <= themes@.len(),
            theme_copies@.len() == j,
            forall|k: int|
                0 <= k < j ==> (#[trigger] theme_copies@[k]).file_stem@ == themes@[k].file_stem@
                    && theme_copies@[k].json_text@ == themes@[k].json_text@,
        decreases themes@.len() - j,
    {
        theme_copies.push(themes[j].clone());
        j = j + 1;
    }
    ProjectFile {
        version: PROJECT_VERSION,
        pack_name: String::from_str(pack_name),
        next_id,
        sources: records,
        sprites,
        themes: theme_copies,
    }
}

// ---------------------------------------------------------------------------
// Reopening
// ---------------------------------------------------------------------------

/// `out` is `m` turned a quarter clockwise `n` times.
pub open spec fn is_turned_times(m: RgbaModel, out: RgbaModel, n: nat) -> bool
    decreases n,
{
    if n == 0 {
        out == m
    } else {
        exists|mid: RgbaModel| is_turned_times(m, mid, (n - 1) as nat) && #[trigger] is_turned_clockwise(mid, out)
    }
}

/// `source` is the source that `record` describes, `loaded` being the image
/// read from its path: that image turned as many quarter turns as were
/// recorded, counted modulo four.
pub open spec fn is_reopened_source(record: SourceRecord, loaded: RgbaModel, source: SourceImage) -> bool {
    &&& source.id == record.id
    &&& source.path@ == record.path@
    &&& source.crops@ == record.crops@
    &&& source.exif_orientation_applied == record.exif_orientation_applied
    &&& source.quarter_turns == record.quarter_turns % 4
    &&& is_turned_times(loaded, source.image@, (record.quarter_turns % 4) as nat)
}

/// The source a record describes, given the image loaded from its path; see
/// `is_reopened_source`.
pub fn source_from_record(record: SourceRecord, image: RgbaBuffer) -> (source: SourceImage)
    ensures
        is_reopened_source(record, image@, source),
{
    let turns = record.quarter_turns % 4;
    let mut turned = image;
    let ghost loaded = turned@;
    let mut t: u8 = 0;
    proof {
        assert(is_turned_times(loaded, turned@, 0));
    }
    while t < turns
        invariant
            t <= turns,
            is_turned_times(loaded, turned@, t as nat),
        decreases turns - t,
    {
        let next = rotate_clockwise(&turned);
        proof {
            assert(is_turned_times(loaded, turned@, t as nat) && is_turned_clockwise(turned@, next@));
            assert(is_turned_times(loaded, next@, (t + 1) as nat));
        }
        turned = next;
        t = t + 1;
    }
    SourceImage {
        id: record.id,
        path: record.path,
        image: turned,
        crops: record.crops,
        exif_orientation_applied: record.exif_orientation_applied,
        quarter_turns: turns,
    }
}

/// Source `k` is the first of `sources` with the id `id`.
pub open spec fn is_first_source(sources: Seq<SourceImage>, id: u64, k: int) -> bool {
    &&& 0 <= k < sources.len()
    &&& sources[k].id == id
    &&& forall|j: int| 0 <= j < k ==> #[trigger] sources[j].id != id
}

/// The first source with the id `source_id` has a crop with the id `crop_id`.
pub open spec fn source_has_crop(sources: Seq<SourceImage>, source_id: u64, crop_id: u64) -> bool {
    exists|k: int, c: int|
        is_first_source(sources, source_id, k) && 0 <= c < sources[k].crops@.len()
            && #[trigger] sources[k].crops@[c].id == crop_id
}

/// The crop bounds of a reopened sprite that recorded none and whose crop is
/// gone: the whole image, as the crop `crop_id` linked to the sprite `id`.
pub open spec fn whole_image_bounds(id: u64, crop_id: u64, m: RgbaModel) -> CropRegion {
    CropRegion {
        id: crop_id,
        x: 0,
        y: 0,
        width: if m.width >= 1 {
            m.width as u32
        } else {
            1
        },
        height: if m.height >= 1 {
            m.height as u32
        } else {
            1
        },
        sprite_id: Some(id),
    }
}

fn find_crop_bounds(sources: &Vec<SourceImage>, source_id: u64, crop_id: u64) -> (found: Option<CropRegion>)
    ensures
        found is Some <==> source_has_crop(sources@, source_id, crop_id),
        forall|k: int, c: int|
            is_first_source(sources@, source_id, k) && is_first_with_id(sources@[k].crops@, crop_id, c)
                ==> found == Some(sources@[k].crops@[c]),
{
    let mut i: usize = 0;
    while i < sources.len()
        invariant
            i <= sources@.len(),
            forall|j: int| 0 <= j < i ==> #[trigger] sources@[j].id != source_id,
        decreases sources@.len() - i,
    {
        if sources[i].id == source_id {
            let crops = &sources[i].crops;
            let mut c: usize = 0;
            while c < crops.len()
                invariant
                    c <= crops@.len(),
                    i < sources@.len(),
                    sources@[i as int].id == source_id,
                    forall|j: int| 0 <= j < i ==> #[trigger] sources@[j].id != source_id,
                    crops@ == sources@[i as int].crops@,
                    forall|j: int| 0 <= j < c ==> #[trigger] crops@[j].id != crop_id,
                decreases crops@.len() - c,
            {
                if crops[c].id == crop_id {
                    proof {
                        assert(is_first_source(sources@, source_id, i as int));
                        assert(sources@[i as int].crops@[c as int].id == crop_id);
                        assert forall|k: int, cc: int|
                            is_first_source(sources@, source_id, k) && is_first_with_id(
                                sources@[k].crops@,
                                crop_id,
                                cc,
                            ) implies k == i && cc == c by {
                            if k < i {
                                assert(sources@[k].id != source_id);
                            }
                            if i < k {
                                assert(sources@[i as int].id != source_id);
                            }
                            if cc < c {
                                assert(crops@[cc].id != crop_id);
                            }
                            if c < cc {
                                assert(sources@[k].crops@[c as int].id != crop_id);
                            }
                        }
                    }
                    return Some(crops[c].clone());
                }
                c = c + 1;
            }
            proof {
                assert(is_first_source(sources@, source_id, i as int));
                assert forall|k: int, cc: int|
                    is_first_source(sources@, source_id, k) && 0 <= cc < sources@[k].crops@.len()
                        implies #[trigger] sources@[k].crops@[cc].id != crop_id by {
                    if k < i {
                        assert(sources@[k].id != source_id);
                    }
                    if i < k {
                        assert(sources@[i as int].id != source_id);
                    }
                    assert(crops@[cc].id != crop_id);
                }
            }
            return None;
        }
        i = i + 1;
    }
    proof {
        assert forall|k: int| !is_first_source(sources@, source_id, k) by {
            if 0 <= k < sources@.len() {
                assert(sources@[k].id != source_id);
            }
        }
    }
    None
}

/// `sprite` is the sprite that `record` describes, given its images loaded
/// from the recorded files and the reopened sources. Its crop bounds are the
/// recorded ones; when none were recorded, the crop of that id on the first
/// source of that id; when there is none, `whole_image_bounds`. It reopens
/// with no history, to be redrawn.
pub open spec fn is_reopened_sprite(
    record: SpriteRecord,
    original: RgbaModel,
    working: RgbaModel,
    sources: Seq<SourceImage>,
    sprite: SpriteAsset,
) -> bool {
    &&& sprite.id == record.id
    &&& sprite.source_id == record.source_id
    &&& sprite.crop_id == record.crop_id
    &&& record.crop_bounds matches Some(b) ==> sprite.crop_bounds == b
    &&& record.crop_bounds is None ==> forall|k: int, c: int|
        is_first_source(sources, record.source_id, k) && is_first_with_id(sources[k].crops@, record.crop_id, c)
            ==> sprite.crop_bounds == sources[k].crops@[c]
    &&& record.crop_bounds is None && !source_has_crop(sources, record.source_id, record.crop_id)
        ==> sprite.crop_bounds == whole_image_bounds(record.id, record.crop_id, original)
    &&& sprite.original@ == original
    &&& sprite.working@ == working
    &&& sprite.name@ == record.name@
    &&& sprite.file_stem@ == record.file_stem@
    &&& sprite.kind == record.kind
    &&& sprite.category@ == record.category@
    &&& sprite.draw_mode == record.draw_mode
    &&& sprite.radius == record.radius
    &&& sprite.offset_x == record.offset_x
    &&& sprite.offset_y == record.offset_y
    &&& sprite.texture_dirty
    &&& sprite.undo@.len() == 0
    &&& sprite.redo@.len() == 0
}

/// The sprite a record describes; see `is_reopened_sprite`.
pub fn sprite_from_record(
    record: SpriteRecord,
    original: RgbaBuffer,
    working: RgbaBuffer,
    sources: &Vec<SourceImage>,
) -> (sprite: SpriteAsset)
    ensures
        is_reopened_sprite(record, original@, working@, sources@, sprite),
{
    let crop_bounds = match record.crop_bounds {
        Some(b) => b,
        None => match find_crop_bounds(sources, record.source_id, record.crop_id) {
            Some(b) => b,
            None => {
                let mut crop = CropRegion::new(record.crop_id, 0, 0, original.width(), original.height());
                crop.sprite_id = Some(record.id);
                crop
            },
        },
    };
    SpriteAsset {
        id: record.id,
        source_id: record.source_id,
        crop_id: record.crop_id,
        crop_bounds,
        original,
        working,
        name: record.name,
        file_stem: record.file_stem,
        kind: record.kind,
        category: record.category,
        draw_mode: record.draw_mode,
        radius: record.radius,
        offset_x: record.offset_x,
        offset_y: record.offset_y,
        texture_dirty: true,
        undo: Vec::new(),
        redo: Vec::new(),
    }
}

// ---------------------------------------------------------------------------
// Reopening a whole project
// ---------------------------------------------------------------------------

/// The image a load gave, if it succeeded.
pub open spec fn load_image(r: Result<RgbaBuffer, String>) -> RgbaModel {
    match r {
        Ok(b) => b@,
        Err(_) => RgbaModel { width: 0, height: 0, bytes: Seq::empty() },
    }
}

/// Why a load failed, if it did.
pub open spec fn failure_message(r: Result<RgbaBuffer, String>) -> Seq<char> {
    match r {
        Ok(_) => Seq::empty(),
        Err(m) => m@,
    }
}

/// The positions of the loads that succeeded, in order.
pub open spec fn loaded_indices(loads: Seq<Result<RgbaBuffer, String>>) -> Seq<int>
    decreases loads.len(),
{
    if loads.len() == 0 {
        Seq::empty()
    } else if loads.last() is Ok {
        loaded_indices(loads.drop_last()).push(loads.len() - 1)
    } else {
        loaded_indices(loads.drop_last())
    }
}

/// The positions of the loads that failed, in order.
pub open spec fn failed_indices(loads: Seq<Result<RgbaBuffer, String>>) -> Seq<int>
    decreases loads.len(),
{
    if loads.len() == 0 {
        Seq::empty()
    } else if loads.last() is Err {
        failed_indices(loads.drop_last()).push(loads.len() - 1)
    } else {
        failed_indices(loads.drop_last())
    }
}

/// The first sprite whose original or working image failed to load.
pub open spec fn first_failed_sprite(loads: Seq<(Result<RgbaBuffer, String>, Result<RgbaBuffer, String>)>) -> Option<
    int,
>
    decreases loads.len(),
{
    if loads.len() == 0 {
        None
    } else {
        match first_failed_sprite(loads.drop_last()) {
            Some(k) => Some(k),
            None => if loads.last().0 is Err || loads.last().1 is Err {
                Some(loads.len() - 1)
            } else {
                None
            },
        }
    }
}

/// A source left out of a reopened project because its image could not be
/// loaded.
#[derive(Debug)]
pub struct SkippedSource {
    pub path: String,
    pub message: String,
}

/// A reopened project.
pub struct ReopenedProject {
    pub pack_name: String,
    pub next_id: u64,
    pub sources: Vec<SourceImage>,
    pub sprites: Vec<SpriteAsset>,
    pub themes: Vec<ThemeDraft>,
    /// The sources whose image could not be loaded, in order.
    pub skipped: Vec<SkippedSource>,
}

/// `p` is `project` reopened with the given loads of its source images and
/// sprite images: the sources whose image loaded, in order, rebuilt as
/// `is_reopened_source` says; the others listed as skipped, with their path
/// and the reason; every sprite rebuilt as `is_reopened_sprite` says, against
/// the reopened sources; the pack name, id counter and themes as recorded.
pub open spec fn is_reopened_project(
    project: ProjectFile,
    source_loads: Seq<Result<RgbaBuffer, String>>,
    sprite_loads: Seq<(Result<RgbaBuffer, String>, Result<RgbaBuffer, String>)>,
    p: ReopenedProject,
) -> bool {
    let kept = loaded_indices(source_loads);
    let failed = failed_indices(source_loads);
    &&& p.pack_name@ == project.pack_name@
    &&& p.next_id == project.next_id
    &&& p.themes@ == project.themes@
    &&& p.sources@.len() == kept.len()
    &&& forall|j: int|
        0 <= j < kept.len() ==> is_reopened_source(
            project.sources@[kept[j]],
            load_image(source_loads[kept[j]]),
            #[trigger] p.sources@[j],
        )
    &&& p.skipped@.len() == failed.len()
    &&& forall|j: int|
        0 <= j < failed.len() ==> (#[trigger] p.skipped@[j]).path@ == project.sources@[failed[j]].path@
            && p.skipped@[j].message@ == failure_message(source_loads[failed[j]])
    &&& p.sprites@.len() == project.sprites@.len()
    &&& forall|k: int|
        0 <= k < project.sprites@.len() ==> is_reopened_sprite(
            project.sprites@[k],
            load_image(sprite_loads[k].0),
            load_image(sprite_loads[k].1),
            p.sources@,
            #[trigger] p.sprites@[k],
        )
}

proof fn lemma_first_failed_prefix(
    loads: Seq<(Result<RgbaBuffer, String>, Result<RgbaBuffer, String>)>,
    m: int,
    i: int,
)
    requires
        0 <= m <= loads.len(),
        first_failed_sprite(loads.take(m)) == Some(i),
    ensures
        first_failed_sprite(loads) == Some(i),
    decreases loads.len(),
{
    if loads.len() == m {
        assert(loads.take(m) =~= loads);
    } else {
        assert(loads.drop_last().take(m) =~= loads.take(m));
        lemma_first_failed_prefix(loads.drop_last(), m, i);
    }
}

/// `r` is the outcome of reopening `project` with the given loads: the
/// version error for another format version; else, when some sprite image
/// failed, the error for the first such sprite (its original counts before
/// its working image); else the reopened project, as `is_reopened_project`
/// says.
pub open spec fn is_reopen_outcome(
    project: ProjectFile,
    source_loads: Seq<Result<RgbaBuffer, String>>,
    sprite_loads: Seq<(Result<RgbaBuffer, String>, Result<RgbaBuffer, String>)>,
    r: Result<ReopenedProject, ProjectError>,
) -> bool {
    if project.version != PROJECT_VERSION {
        is_version_error(r, project.version)
    } else {
        match first_failed_sprite(sprite_loads) {
            Some(k) => match r {
                Err(ProjectError::SpriteImage { sprite, working, message }) => {
                    &&& sprite == k
                    &&& working == (sprite_loads[k].0 is Ok)
                    &&& message@ == if working {
                        failure_message(sprite_loads[k].1)
                    } else {
                        failure_message(sprite_loads[k].0)
                    }
                },
                _ => false,
            },
            None => match r {
                Ok(p) => is_reopened_project(project, source_loads, sprite_loads, p),
                Err(_) => false,
            },
        }
    }
}

/// Reopens a project file, given the result of loading each source's image
/// and each sprite's original and working images, in record order. A source
/// whose image did not load is skipped with a note; a sprite image that did
/// not load stops the reopening, at the first such sprite (its original is
/// tried before its working image); another format version stops it first.
pub fn reopen_project(
    project: ProjectFile,
    source_loads: Vec<Result<RgbaBuffer, String>>,
    sprite_loads: Vec<(Result<RgbaBuffer, String>, Result<RgbaBuffer, String>)>,
) -> (r: Result<ReopenedProject, ProjectError>)
    requires
        source_loads@.len() == project.sources@.len(),
        sprite_loads@.len() == project.sprites@.len(),
    ensures
        is_reopen_outcome(project, source_loads@, sprite_loads@, r),
{
    if project.version != PROJECT_VERSION {
        return Err(ProjectError::UnsupportedVersion { found: project.version });
    }
    let ghost whole = project;
    let ProjectFile { version: _, pack_name, next_id, sources: records, sprites: sprite_records, themes } =
        project;
    let ghost rec0 = records@;
    let ghost load0 = source_loads@;
    let mut records = records;
    let mut loads = source_loads;
    let n = records.len();
    let mut sources: Vec<SourceImage> = Vec::new();
    let mut skipped: Vec<SkippedSource> = Vec::new();
    let mut i: usize = 0;
    proof {
        assert(load0.take(0) =~= Seq::<Result<RgbaBuffer, String>>::empty());
        assert(rec0.skip(0) =~= rec0);
        assert(load0.skip(0) =~= load0);
    }
    while i < n
        invariant
            n == rec0.len(),
            load0.len() == n,
            i <= n,
            records@ == rec0.skip(i as int),
            loads@ == load0.skip(i as int),
            sources@.len() == loaded_indices(load0.take(i as int)).len(),
            forall|j: int|
                0 <= j < loaded_indices(load0.take(i as int)).len() ==> is_reopened_source(
                    rec0[loaded_indices(load0.take(i as int))[j]],
                    load_image(load0[loaded_indices(load0.take(i as int))[j]]),
                    #[trigger] sources@[j],
                ),
            forall|j: int|
                0 <= j < loaded_indices(load0.take(i as int)).len() ==> 0 <= #[trigger] loaded_indices(
                    load0.take(i as int),
                )[j] < i,
            skipped@.len() == failed_indices(load0.take(i as int)).len(),
            forall|j: int|
                0 <= j < failed_indices(load0.take(i as int)).len() ==> (#[trigger] skipped@[j]).path@
                    == rec0[failed_indices(load0.take(i as int))[j]].path@ && skipped@[j].message@
                    == failure_message(load0[failed_indices(load0.take(i as int))[j]]),
            forall|j: int|
                0 <= j < failed_indices(load0.take(i as int)).len() ==> 0 <= #[trigger] failed_indices(
                    load0.take(i as int),
                )[j] < i,
        decreases n - i,
    {
        let ghost kept_before = loaded_indices(load0.take(i as int));
        let ghost failed_before = failed_indices(load0.take(i as int));
        let ghost sources_before = sources@;
        let ghost skipped_before = skipped@;
        let record = records.remove(0);
        let load = loads.remove(0);
        proof {
            assert(load0.take(i + 1).drop_last() =~= load0.take(i as int));
            assert(load0.take(i + 1).last() == load0[i as int]);
            assert(rec0.skip(i as int).remove(0) =~= rec0.skip(i + 1));
            assert(load0.skip(i as int).remove(0) =~= load0.skip(i + 1));
        }
        match load {
            Ok(image) => {
                let source = source_from_record(record, image);
                sources.push(source);
                proof {
                    assert(loaded_indices(load0.take(i + 1)) == kept_before.push(i as int));
                    assert(failed_indices(load0.take(i + 1)) == failed_before);
                    assert forall|j: int| 0 <= j < kept_before.len() + 1 implies is_reopened_source(
                        rec0[kept_before.push(i as int)[j]],
                        load_image(load0[kept_before.push(i as int)[j]]),
                        #[trigger] sources@[j],
                    ) by {
                        if j < kept_before.len() {
                            assert(sources@[j] == sources_before[j]);
                        }
                    }
                }
            },
            Err(message) => {
                skipped.push(SkippedSource { path: record.path, message });
                proof {
                    assert(failed_indices(load0.take(i + 1)) == failed_before.push(i as int));
                    assert(loaded_indices(load0.take(i + 1)) == kept_before);
                    assert forall|j: int| 0 <= j < failed_before.len() + 1 implies (#[trigger] skipped@[j]).path@
                        == rec0[failed_before.push(i as int)[j]].path@ && skipped@[j].message@
                        == failure_message(load0[failed_before.push(i as int)[j]]) by {
                        if j < failed_before.len() {
                            assert(skipped@[j] == skipped_before[j]);
                        }
                    }
                }
            },
        }
        i = i + 1;
    }
    proof {
        assert(load0.take(n as int) =~= load0);
    }

    let ghost srec0 = sprite_records@;
    let ghost sload0 = sprite_loads@;
    let mut sprite_records = sprite_records;
    let mut pending_loads = sprite_loads;
    let m = sprite_records.len();
    let mut sprites: Vec<SpriteAsset> = Vec::new();
    let mut k: usize = 0;
    proof {
        assert(sload0.take(0) =~= Seq::<(Result<RgbaBuffer, String>, Result<RgbaBuffer, String>)>::empty());
        assert(srec0.skip(0) =~= srec0);
        assert(sload0.skip(0) =~= sload0);
    }
    while k < m
        invariant
            m == srec0.len(),
            sload0.len() == m,
            whole.version == PROJECT_VERSION,
            whole == project,
            sload0 == sprite_loads@,
            load0 == source_loads@,
            k <= m,
            sprite_records@ == srec0.skip(k as int),
            pending_loads@ == sload0.skip(k as int),
            first_failed_sprite(sload0.take(k as int)) is None,
            sprites@.len() == k,
            forall|kk: int|
                0 <= kk < k ==> is_reopened_sprite(
                    srec0[kk],
                    load_image(sload0[kk].0),
                    load_image(sload0[kk].1),
                    sources@,
                    #[trigger] sprites@[kk],
                ),
        decreases m - k,
    {
        let ghost sprites_before = sprites@;
        let record = sprite_records.remove(0);
        let ghost pair = pending_loads@[0];
        let (original, working) = pending_loads.remove(0);
        proof {
            assert(pair == sload0[k as int]);
            assert(original == pair.0 && working == pair.1);
            assert(sload0.take(k + 1).drop_last() =~= sload0.take(k as int));
            assert(sload0.take(k + 1).last() == sload0[k as int]);
            assert(srec0.skip(k as int).remove(0) =~= srec0.skip(k + 1));
            assert(sload0.skip(k as int).remove(0) =~= sload0.skip(k + 1));
        }
        match (original, working) {
            (Ok(o), Ok(w)) => {
                let sprite = sprite_from_record(record, o, w, &sources);
                sprites.push(sprite);
                proof {
                    assert forall|kk: int| 0 <= kk < k + 1 implies is_reopened_sprite(
                        srec0[kk],
                        load_image(sload0[kk].0),
                        load_image(sload0[kk].1),
                        sources@,
                        #[trigger] sprites@[kk],
                    ) by {
                        if kk < k {
                            assert(sprites@[kk] == sprites_before[kk]);
                        }
                    }
                }
            },
            (Err(message), _) => {
                proof {
                    assert(first_failed_sprite(sload0.take(k + 1)) == Some(k as int));
                    lemma_first_failed_prefix(sload0, k + 1, k as int);
                }
                return Err(ProjectError::SpriteImage { sprite: k, working: false, message });
            },
            (Ok(_), Err(message)) => {
                proof {
                    assert(first_failed_sprite(sload0.take(k + 1)) == Some(k as int));
                    lemma_first_failed_prefix(sload0, k + 1, k as int);
                }
                return Err(ProjectError::SpriteImage { sprite: k, working: true, message });
            },
        }
        k = k + 1;
    }
    proof {
        assert(sload0.take(m as int) =~= sload0);
    }
    Ok(ReopenedProject { pack_name, next_id, sources, sprites, themes, skipped })
}

// ---------------------------------------------------------------------------
// Laws of saving and reopening
// ---------------------------------------------------------------------------

proof fn lemma_turned_times_unique(m: RgbaModel, a: RgbaModel, b: RgbaModel, n: nat)
    requires
        is_turned_times(m, a, n),
        is_turned_times(m, b, n),
    ensures
        a == b,
    decreases n,
{
    if n > 0 {
        let ma = choose|mid: RgbaModel| is_turned_times(m, mid, (n - 1) as nat) && #[trigger] is_turned_clockwise(mid, a);
        let mb = choose|mid: RgbaModel| is_turned_times(m, mid, (n - 1) as nat) && #[trigger] is_turned_clockwise(mid, b);
        lemma_turned_times_unique(m, ma, mb, (n - 1) as nat);
        lemma_turn_is_unique(ma, a, b);
    }
}

/// Reopening a saved sprite, with the images read back as they were written,
/// gives back the sprite: its settings, crop bounds, pixels and pivot.
pub proof fn law_reopened_sprite_is_the_saved_one(
    saved: SpriteAsset,
    original_file: Seq<char>,
    working_file: Seq<char>,
    record: SpriteRecord,
    sources: Seq<SourceImage>,
    reopened: SpriteAsset,
)
    requires
        is_sprite_record(saved, original_file, working_file, record),
        is_reopened_sprite(record, saved.original@, saved.working@, sources, reopened),
    ensures
        reopened.same_settings(saved),
        reopened.edit_state() == saved.edit_state(),
{
}

/// Reopening a saved source whose path still holds the image it was loaded
/// from gives back the source as it was shown: its turned pixels, its turn
/// count and its crops.
pub proof fn law_reopened_source_is_the_saved_one(
    saved: SourceImage,
    loaded: RgbaModel,
    record: SourceRecord,
    reopened: SourceImage,
)
    requires
        saved.quarter_turns < 4,
        is_turned_times(loaded, saved.image@, saved.quarter_turns as nat),
        is_source_record(saved, record),
        is_reopened_source(record, loaded, reopened),
    ensures
        reopened.id == saved.id,
        reopened.path@ == saved.path@,
        reopened.image@ == saved.image@,
        reopened.crops@ == saved.crops@,
        reopened.exif_orientation_applied == saved.exif_orientation_applied,
        reopened.quarter_turns == saved.quarter_turns,
{
    lemma_turned_times_unique(loaded, reopened.image@, saved.image@, saved.quarter_turns as nat);
}

proof fn lemma_all_loaded(loads: Seq<Result<RgbaBuffer, String>>)
    requires
        forall|i: int| 0 <= i < loads.len() ==> #[trigger] loads[i] is Ok,
    ensures
        loaded_indices(loads).len() == loads.len(),
        forall|j: int| 0 <= j < loads.len() ==> #[trigger] loaded_indices(loads)[j] == j,
        failed_indices(loads).len() == 0,
    decreases loads.len(),
{
    if loads.len() > 0 {
        let d = loads.drop_last();
        assert forall|i: int| 0 <= i < d.len() implies #[trigger] d[i] is Ok by {
            assert(d[i] == loads[i]);
        }
        lemma_all_loaded(d);
        assert(loads[loads.len() - 1] is Ok);
    }
}

proof fn lemma_no_failed_sprite(loads: Seq<(Result<RgbaBuffer, String>, Result<RgbaBuffer, String>)>)
    requires
        forall|k: int| 0 <= k < loads.len() ==> (#[trigger] loads[k]).0 is Ok && loads[k].1 is Ok,
    ensures
        first_failed_sprite(loads) is None,
    decreases loads.len(),
{
    if loads.len() > 0 {
        let d = loads.drop_last();
        assert forall|k: int| 0 <= k < d.len() implies (#[trigger] d[k]).0 is Ok && d[k].1 is Ok by {
            assert(d[k] == loads[k]);
        }
        lemma_no_failed_sprite(d);
        assert(loads[loads.len() - 1].0 is Ok);
    }
}

/// `r` gives back, in order and with nothing skipped, the sources
/// `saved_sources` as they were shown (pixels, crops, turns) and the sprites
/// `saved_sprites` with their settings, crop bounds, pixels and pivot, along
/// with the project's pack name, id counter and themes.
pub open spec fn reopened_as_saved(
    project: ProjectFile,
    saved_sources: Seq<SourceImage>,
    saved_sprites: Seq<SpriteAsset>,
    r: Result<ReopenedProject, ProjectError>,
) -> bool {
    match r {
        Ok(p) => {
            &&& p.pack_name@ == project.pack_name@
            &&& p.next_id == project.next_id
            &&& p.themes@ == project.themes@
            &&& p.skipped@.len() == 0
            &&& p.sources@.len() == saved_sources.len()
            &&& forall|i: int|
                0 <= i < saved_sources.len() ==> {
                    let s = #[trigger] p.sources@[i];
                    &&& s.id == saved_sources[i].id
                    &&& s.path@ == saved_sources[i].path@
                    &&& s.image@ == saved_sources[i].image@
                    &&& s.crops@ == saved_sources[i].crops@
                    &&& s.exif_orientation_applied == saved_sources[i].exif_orientation_applied
                    &&& s.quarter_turns == saved_sources[i].quarter_turns
                }
            &&& p.sprites@.len() == saved_sprites.len()
            &&& forall|k: int|
                0 <= k < saved_sprites.len() ==> (#[trigger] p.sprites@[k]).same_settings(saved_sprites[k])
                    && p.sprites@[k].edit_state() == saved_sprites[k].edit_state()
        },
        Err(_) => false,
    }
}

/// Reopening a saved project whose files still hold what was saved gives
/// the project back: each source's path still holds the image it was loaded
/// from (turned since then fewer than four times), and each sprite's image
/// files read back as the images that were written.
pub proof fn law_reopened_project_is_the_saved_one(
    project: ProjectFile,
    saved_sources: Seq<SourceImage>,
    loaded: Seq<RgbaModel>,
    saved_sprites: Seq<SpriteAsset>,
    source_loads: Seq<Result<RgbaBuffer, String>>,
    sprite_loads: Seq<(Result<RgbaBuffer, String>, Result<RgbaBuffer, String>)>,
    r: Result<ReopenedProject, ProjectError>,
)
    requires
        project.version == PROJECT_VERSION,
        project.sources@.len() == saved_sources.len(),
        loaded.len() == saved_sources.len(),
        source_loads.len() == saved_sources.len(),
        project.sprites@.len() == saved_sprites.len(),
        sprite_loads.len() == saved_sprites.len(),
        forall|i: int|
            0 <= i < saved_sources.len() ==> {
                &&& is_source_record(saved_sources[i], #[trigger] project.sources@[i])
                &&& saved_sources[i].quarter_turns < 4
                &&& is_turned_times(loaded[i], saved_sources[i].image@, saved_sources[i].quarter_turns as nat)
                &&& source_loads[i] is Ok
                &&& load_image(source_loads[i]) == loaded[i]
            },
        forall|k: int|
            0 <= k < saved_sprites.len() ==> {
                &&& is_sprite_record(
                    saved_sprites[k],
                    project.sprites@[k].original_file@,
                    project.sprites@[k].working_file@,
                    #[trigger] project.sprites@[k],
                )
                &&& sprite_loads[k].0 is Ok
                &&& sprite_loads[k].1 is Ok
                &&& load_image(sprite_loads[k].0) == saved_sprites[k].original@
                &&& load_image(sprite_loads[k].1) == saved_sprites[k].working@
            },
        is_reopen_outcome(project, source_loads, sprite_loads, r),
    ensures
        reopened_as_saved(project, saved_sources, saved_sprites, r),
{
    assert forall|i: int| 0 <= i < source_loads.len() implies #[trigger] source_loads[i] is Ok by {
        assert(is_source_record(saved_sources[i], project.sources@[i]));
    }
    lemma_all_loaded(source_loads);
    assert forall|k: int| 0 <= k < sprite_loads.len() implies (#[trigger] sprite_loads[k]).0 is Ok
        && sprite_loads[k].1 is Ok by {
        assert(is_sprite_record(
            saved_sprites[k],
            project.sprites@[k].original_file@,
            project.sprites@[k].working_file@,
            project.sprites@[k],
        ));
    }
    lemma_no_failed_sprite(sprite_loads);
    let p = r->Ok_0;
    assert forall|i: int| 0 <= i < saved_sources.len() implies {
        let s = #[trigger] p.sources@[i];
        &&& s.id == saved_sources[i].id
        &&& s.path@ == saved_sources[i].path@
        &&& s.image@ == saved_sources[i].image@
        &&& s.crops@ == saved_sources[i].crops@
        &&& s.exif_orientation_applied == saved_sources[i].exif_orientation_applied
        &&& s.quarter_turns == saved_sources[i].quarter_turns
    } by {
        assert(loaded_indices(source_loads)[i] == i);
        assert(is_source_record(saved_sources[i], project.sources@[i]));
        assert(is_reopened_source(project.sources@[i], load_image(source_loads[i]), p.sources@[i]));
        law_reopened_source_is_the_saved_one(saved_sources[i], loaded[i], project.sources@[i], p.sources@[i]);
    }
    assert forall|k: int| 0 <= k < saved_sprites.len() implies (#[trigger] p.sprites@[k]).same_settings(
        saved_sprites[k],
    ) && p.sprites@[k].edit_state() == saved_sprites[k].edit_state() by {
        assert(is_sprite_record(
            saved_sprites[k],
            project.sprites@[k].original_file@,
            project.sprites@[k].working_file@,
            project.sprites@[k],
        ));
        law_reopened_sprite_is_the_saved_one(
            saved_sprites[k],
            project.sprites@[k].original_file@,
            project.sprites@[k].working_file@,
            project.sprites@[k],
            p.sources@,
            p.sprites@[k],
        );
    }
}

/// What a source's image file decodes to: turned upright as its EXIF
/// orientation asks where the record says so, as stored otherwise.
pub open spec fn source_file_image(record: SourceRecord, bytes: Seq<u8>, extension: Seq<char>) -> Option<
    (u32, u32, Seq<u8>),
> {
    if record.exif_orientation_applied {
        upright_rgba_of(bytes, extension)
    } else {
        stored_rgba_of(bytes, extension)
    }
}

/// The PNG file written for `m` reads back as `m` when it is decoded as a
/// PNG file.
pub open spec fn png_reads_back(m: RgbaModel) -> bool {
    png_of(m) matches Some(file) ==> stored_rgba_of(file, "png"@) == Some(decoded_form(m))
}

proof fn lemma_load_of_decoded_form(m: RgbaModel, r: Result<RgbaBuffer, String>)
    requires
        m.well_formed(),
        is_load_of(Some(decoded_form(m)), r),
    ensures
        r is Ok,
        load_image(r) == m,
{
}

/// Saving a project and reopening it from its files gives it back. The
/// project file holds the records of `saved_sources` and `saved_sprites`;
/// each source's file still holds bytes that decode (upright where the
/// record says so) to the image that was loaded from it, and that image
/// turned as often as recorded (fewer than four times) is the source's
/// image; each sprite's two images were written as PNG files, the files
/// still hold them, and the PNG decoder reads such a file back as the image
/// written. Loading every file (sources with their extension, sprite files
/// as `png`) and reopening then gives every source and sprite back.
pub proof fn law_saved_project_reopens_from_its_files(
    project: ProjectFile,
    saved_sources: Seq<SourceImage>,
    loaded: Seq<RgbaModel>,
    source_files: Seq<Seq<u8>>,
    source_extensions: Seq<Seq<char>>,
    saved_sprites: Seq<SpriteAsset>,
    source_loads: Seq<Result<RgbaBuffer, String>>,
    sprite_loads: Seq<(Result<RgbaBuffer, String>, Result<RgbaBuffer, String>)>,
    r: Result<ReopenedProject, ProjectError>,
)
    requires
        project.version == PROJECT_VERSION,
        project.sources@.len() == saved_sources.len(),
        loaded.len() == saved_sources.len(),
        source_files.len() == saved_sources.len(),
        source_extensions.len() == saved_sources.len(),
        source_loads.len() == saved_sources.len(),
        project.sprites@.len() == saved_sprites.len(),
        sprite_loads.len() == saved_sprites.len(),
        forall|i: int|
            0 <= i < saved_sources.len() ==> {
                &&& is_source_record(saved_sources[i], #[trigger] project.sources@[i])
                &&& saved_sources[i].quarter_turns < 4
                &&& loaded[i].well_formed()
                &&& is_turned_times(loaded[i], saved_sources[i].image@, saved_sources[i].quarter_turns as nat)
                &&& source_file_image(project.sources@[i], source_files[i], source_extensions[i])
                    == Some(decoded_form(loaded[i]))
                &&& is_load_of(
                    source_file_image(project.sources@[i], source_files[i], source_extensions[i]),
                    source_loads[i],
                )
            },
        forall|k: int|
            0 <= k < saved_sprites.len() ==> {
                let original = saved_sprites[k].original@;
                let working = saved_sprites[k].working@;
                &&& is_sprite_record(
                    saved_sprites[k],
                    project.sprites@[k].original_file@,
                    project.sprites@[k].working_file@,
                    #[trigger] project.sprites@[k],
                )
                &&& original.well_formed()
                &&& working.well_formed()
                &&& png_of(original) is Some
                &&& png_of(working) is Some
                &&& png_reads_back(original)
                &&& png_reads_back(working)
                &&& is_load_of(stored_rgba_of(png_of(original)->Some_0, "png"@), sprite_loads[k].0)
                &&& is_load_of(stored_rgba_of(png_of(working)->Some_0, "png"@), sprite_loads[k].1)
            },
        is_reopen_outcome(project, source_loads, sprite_loads, r),
    ensures
        reopened_as_saved(project, saved_sources, saved_sprites, r),
{
    assert forall|i: int| 0 <= i < saved_sources.len() implies {
        &&& #[trigger] source_loads[i] is Ok
        &&& load_image(source_loads[i]) == loaded[i]
    } by {
        assert(is_source_record(saved_sources[i], project.sources@[i]));
        lemma_load_of_decoded_form(loaded[i], source_loads[i]);
    }
    assert forall|k: int| 0 <= k < saved_sprites.len() implies {
        &&& (#[trigger] sprite_loads[k]).0 is Ok
        &&& sprite_loads[k].1 is Ok
        &&& load_image(sprite_loads[k].0) == saved_sprites[k].original@
        &&& load_image(sprite_loads[k].1) == saved_sprites[k].working@
    } by {
        assert(is_sprite_record(
            saved_sprites[k],
            project.sprites@[k].original_file@,
            project.sprites@[k].working_file@,
            project.sprites@[k],
        ));
        lemma_load_of_decoded_form(saved_sprites[k].original@, sprite_loads[k].0);
        lemma_load_of_decoded_form(saved_sprites[k].working@, sprite_loads[k].1);
    }
    law_reopened_project_is_the_saved_one(
        project,
        saved_sources,
        loaded,
        saved_sprites,
        source_loads,
        sprite_loads,
        r,
    );
}

} // verus!
