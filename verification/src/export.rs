//! Planning the export of a pack: where each sprite goes, which symbol
//! metadata files are written, which themes are written, and which name
//! clash or invalid theme stops the export.

use vstd::prelude::*;
use vstd::string::*;

use crate::image_ops::{has_visible_pixel, has_visible_pixels};
use crate::model::{
    asset_kind_base,
    asset_kind_is_sprite,
    components_view,
    draw_mode_key,
    lemma_components_view,
    SpriteAsset,
    ThemeDraft,
};
use crate::naming::{
    category_folders,
    component_char_allowed,
    is_safe_folder_name,
    law_category_folders_are_safe,
    law_component_is_safe,
    law_file_stem_is_safe,
    safe_category_path,
    sanitize_file_stem,
    sanitize_pack_name,
    sanitized_component,
    sanitized_file_stem,
};

verus! {

/// What an export produced.
#[derive(Debug)]
pub struct ExportReport {
    pub png_files: usize,
    pub metadata_files: usize,
    pub theme_files: usize,
    pub warnings: Vec<String>,
}

impl Default for ExportReport {
    fn default() -> (r: Self)
        ensures
            r.png_files == 0,
            r.metadata_files == 0,
            r.theme_files == 0,
            r.warnings@.len() == 0,
    {
        ExportReport { png_files: 0, metadata_files: 0, theme_files: 0, warnings: Vec::new() }
    }
}

/// The Wonderdraft metadata of one symbol.
#[derive(Debug)]
pub struct SymbolMetadata {
    pub name: String,
    pub radius: i32,
    pub offset_x: i32,
    pub offset_y: i32,
    pub draw_mode: String,
}

/// A sprite image to write: `folder/file_stem.png`.
#[derive(Debug)]
pub struct SpriteFile {
    /// Index of the sprite.
    pub sprite: usize,
    pub folder: Vec<String>,
    pub file_stem: String,
    /// Whether the image has a pixel that is not fully transparent.
    pub visible: bool,
}

/// One symbol in a metadata file.
#[derive(Debug)]
pub struct MetadataEntry {
    pub file_stem: String,
    pub metadata: SymbolMetadata,
}

/// A `.wonderdraft_symbols` file for one folder.
#[derive(Debug)]
pub struct MetadataFile {
    pub folder: Vec<String>,
    pub entries: Vec<MetadataEntry>,
}

/// A theme to write: `themes/file_stem.wonderdraft_theme`.
#[derive(Debug)]
pub struct ThemeFile {
    /// Index of the theme.
    pub theme: usize,
    pub file_stem: String,
}

/// Why an export stops.
#[derive(Debug)]
pub enum ExportError {
    /// Two sprites would be written to the same file.
    DuplicateSpriteFile { folder: Vec<String>, file_stem: String },
    /// Two themes would be written to the same file.
    DuplicateThemeName { file_stem: String },
    /// A theme's text is not JSON.
    InvalidThemeJson { file_stem: String },
}

/// What an export does, in order: write the sprite files, then (unless a
/// sprite name clashed) the metadata files, the theme folder and the theme
/// files; `failure`, when set, is the error the export ends with after that.
#[derive(Debug)]
pub struct ExportPlan {
    pub pack_name: String,
    pub sprite_files: Vec<SpriteFile>,
    pub metadata_files: Vec<MetadataFile>,
    pub create_theme_folder: bool,
    pub theme_files: Vec<ThemeFile>,
    pub failure: Option<ExportError>,
}

// ---------------------------------------------------------------------------
// The model
// ---------------------------------------------------------------------------

/// The folder, as path components, that a sprite is exported to.
pub open spec fn export_folder(pack: Seq<char>, s: SpriteAsset) -> Seq<Seq<char>> {
    asset_kind_base(s.kind, pack) + category_folders(s.category@)
}

/// The file name, without `.png`, that a sprite is exported as.
pub open spec fn export_stem(s: SpriteAsset) -> Seq<char> {
    sanitized_file_stem(s.file_stem@)
}

/// Sprite `k` goes to the same file as an earlier sprite.
pub open spec fn clashes_before(pack: Seq<char>, sprites: Seq<SpriteAsset>, k: int) -> bool {
    exists|j: int|
        0 <= j < k && #[trigger] export_folder(pack, sprites[j]) == export_folder(pack, sprites[k])
            && export_stem(sprites[j]) == export_stem(sprites[k])
}

/// The first sprite that goes to the same file as an earlier one.
pub open spec fn first_sprite_clash(pack: Seq<char>, sprites: Seq<SpriteAsset>) -> Option<int>
    decreases sprites.len(),
{
    if sprites.len() == 0 {
        None
    } else {
        match first_sprite_clash(pack, sprites.drop_last()) {
            Some(k) => Some(k),
            None => if clashes_before(pack, sprites, sprites.len() - 1) {
                Some(sprites.len() - 1)
            } else {
                None
            },
        }
    }
}

/// The symbol metadata Wonderdraft gets for a sprite: name, radius, offsets
/// and draw mode key.
pub open spec fn sprite_metadata(s: SpriteAsset) -> (Seq<char>, i32, i32, i32, Seq<char>) {
    (s.name@, s.radius, s.offset_x, s.offset_y, draw_mode_key(s.draw_mode))
}

pub open spec fn metadata_view(m: SymbolMetadata) -> (Seq<char>, i32, i32, i32, Seq<char>) {
    (m.name@, m.radius, m.offset_x, m.offset_y, m.draw_mode@)
}

/// The folders that get a metadata file: those of the symbol, mountain and
/// tree sprites, in order of first appearance.
pub open spec fn symbol_folders(pack: Seq<char>, sprites: Seq<SpriteAsset>) -> Seq<Seq<Seq<char>>>
    decreases sprites.len(),
{
    if sprites.len() == 0 {
        Seq::empty()
    } else {
        let before = symbol_folders(pack, sprites.drop_last());
        let s = sprites.last();
        if asset_kind_is_sprite(s.kind) && !before.contains(export_folder(pack, s)) {
            before.push(export_folder(pack, s))
        } else {
            before
        }
    }
}

/// The entries of the metadata file of `folder`: file name and metadata of
/// each symbol, mountain and tree sprite exported there, in sprite order.
pub open spec fn folder_entries(pack: Seq<char>, sprites: Seq<SpriteAsset>, folder: Seq<Seq<char>>) -> Seq<
    (Seq<char>, (Seq<char>, i32, i32, i32, Seq<char>)),
>
    decreases sprites.len(),
{
    if sprites.len() == 0 {
        Seq::empty()
    } else {
        let before = folder_entries(pack, sprites.drop_last(), folder);
        let s = sprites.last();
        if asset_kind_is_sprite(s.kind) && export_folder(pack, s) == folder {
            before.push((export_stem(s), sprite_metadata(s)))
        } else {
            before
        }
    }
}

pub open spec fn entries_view(e: Seq<MetadataEntry>) -> Seq<(Seq<char>, (Seq<char>, i32, i32, i32, Seq<char>))> {
    e.map_values(|m: MetadataEntry| (m.file_stem@, metadata_view(m.metadata)))
}

/// The file name a theme is exported as.
pub open spec fn theme_stem(t: ThemeDraft) -> Seq<char> {
    sanitized_file_stem(t.file_stem@)
}

/// Theme `k` goes to the same file as an earlier theme.
pub open spec fn theme_clashes_before(themes: Seq<ThemeDraft>, k: int) -> bool {
    exists|j: int| 0 <= j < k && #[trigger] theme_stem(themes[j]) == theme_stem(themes[k])
}

/// Theme `k` cannot be written: its name clashes or its text is not JSON.
pub open spec fn theme_fails(themes: Seq<ThemeDraft>, json_valid: Seq<bool>, k: int) -> bool {
    theme_clashes_before(themes, k) || !json_valid[k]
}

/// The first theme that cannot be written.
pub open spec fn first_theme_failure(themes: Seq<ThemeDraft>, json_valid: Seq<bool>) -> Option<int>
    decreases themes.len(),
{
    if themes.len() == 0 {
        None
    } else {
        match first_theme_failure(themes.drop_last(), json_valid) {
            Some(k) => Some(k),
            None => if theme_fails(themes, json_valid, themes.len() - 1) {
                Some(themes.len() - 1)
            } else {
                None
            },
        }
    }
}

/// Why an export stops, as values.
pub enum ExportErrorModel {
    DuplicateSpriteFile(Seq<Seq<char>>, Seq<char>),
    DuplicateThemeName(Seq<char>),
    InvalidThemeJson(Seq<char>),
}

pub open spec fn error_view(e: ExportError) -> ExportErrorModel {
    match e {
        ExportError::DuplicateSpriteFile { folder, file_stem } => ExportErrorModel::DuplicateSpriteFile(
            components_view(folder@),
            file_stem@,
        ),
        ExportError::DuplicateThemeName { file_stem } => ExportErrorModel::DuplicateThemeName(file_stem@),
        ExportError::InvalidThemeJson { file_stem } => ExportErrorModel::InvalidThemeJson(file_stem@),
    }
}

/// The error for theme `k`: a clash is reported before invalid JSON.
pub open spec fn theme_error(themes: Seq<ThemeDraft>, k: int) -> ExportErrorModel {
    if theme_clashes_before(themes, k) {
        ExportErrorModel::DuplicateThemeName(theme_stem(themes[k]))
    } else {
        ExportErrorModel::InvalidThemeJson(theme_stem(themes[k]))
    }
}

/// Sprite file `f` is the export of sprite `k`.
pub open spec fn is_sprite_file(pack: Seq<char>, sprites: Seq<SpriteAsset>, f: SpriteFile, k: int) -> bool {
    &&& f.sprite == k
    &&& components_view(f.folder@) == export_folder(pack, sprites[k])
    &&& f.file_stem@ == export_stem(sprites[k])
    &&& f.visible == has_visible_pixel(sprites[k].working@)
}

/// The plan writes sprites `0 .. n` in order.
pub open spec fn writes_sprites(pack: Seq<char>, sprites: Seq<SpriteAsset>, files: Seq<SpriteFile>, n: int) -> bool {
    &&& files.len() == n
    &&& forall|k: int| 0 <= k < n ==> #[trigger] is_sprite_file(pack, sprites, files[k], k)
}

/// The plan writes themes `0 .. n` in order.
pub open spec fn writes_themes(themes: Seq<ThemeDraft>, files: Seq<ThemeFile>, n: int) -> bool {
    &&& files.len() == n
    &&& forall|k: int|
        0 <= k < n ==> (#[trigger] files[k]).theme == k && files[k].file_stem@ == theme_stem(themes[k])
}

/// The plan writes one metadata file per symbol folder, with its entries.
pub open spec fn writes_metadata(pack: Seq<char>, sprites: Seq<SpriteAsset>, files: Seq<MetadataFile>) -> bool {
    let folders = symbol_folders(pack, sprites);
    &&& files.len() == folders.len()
    &&& forall|g: int|
        0 <= g < folders.len() ==> components_view((#[trigger] files[g]).folder@) == folders[g]
            && entries_view(files[g].entries@) == folder_entries(pack, sprites, folders[g])
}

/// The export of `sprites` and `themes` into the pack `pack_name`, given
/// whether the text of each theme is JSON.
pub open spec fn is_export_plan(
    pack_name: Seq<char>,
    sprites: Seq<SpriteAsset>,
    themes: Seq<ThemeDraft>,
    json_valid: Seq<bool>,
    plan: ExportPlan,
) -> bool {
    let pack = sanitized_component(pack_name, "MyFantasyPack"@);
    &&& plan.pack_name@ == pack
    &&& match first_sprite_clash(pack, sprites) {
        Some(k) => {
            &&& writes_sprites(pack, sprites, plan.sprite_files@, k)
            &&& plan.metadata_files@.len() == 0
            &&& !plan.create_theme_folder
            &&& plan.theme_files@.len() == 0
            &&& plan.failure matches Some(e) && error_view(e) == ExportErrorModel::DuplicateSpriteFile(
                export_folder(pack, sprites[k]),
                export_stem(sprites[k]),
            )
        },
        None => {
            &&& writes_sprites(pack, sprites, plan.sprite_files@, sprites.len() as int)
            &&& writes_metadata(pack, sprites, plan.metadata_files@)
            &&& plan.create_theme_folder == (themes.len() > 0)
            &&& match first_theme_failure(themes, json_valid) {
                Some(k) => {
                    &&& writes_themes(themes, plan.theme_files@, k)
                    &&& plan.failure matches Some(e) && error_view(e) == theme_error(themes, k)
                },
                None => {
                    &&& writes_themes(themes, plan.theme_files@, themes.len() as int)
                    &&& plan.failure is None
                },
            }
        },
    }
}

// ---------------------------------------------------------------------------
// Prefix facts
// ---------------------------------------------------------------------------

proof fn lemma_clashes_before_prefix(pack: Seq<char>, sprites: Seq<SpriteAsset>, n: int, k: int)
    requires
        0 <= k < n <= sprites.len(),
    ensures
        clashes_before(pack, sprites.take(n), k) == clashes_before(pack, sprites, k),
{
    let t = sprites.take(n);
    if clashes_before(pack, sprites, k) {
        let j = choose|j: int|
            0 <= j < k && #[trigger] export_folder(pack, sprites[j]) == export_folder(pack, sprites[k])
                && export_stem(sprites[j]) == export_stem(sprites[k]);
        assert(t[j] == sprites[j] && t[k] == sprites[k]);
    }
    if clashes_before(pack, t, k) {
        let j = choose|j: int|
            0 <= j < k && #[trigger] export_folder(pack, t[j]) == export_folder(pack, t[k])
                && export_stem(t[j]) == export_stem(t[k]);
        assert(t[j] == sprites[j] && t[k] == sprites[k]);
    }
}

/// The first clash among the first `n` sprites is the first clash overall.
proof fn lemma_first_clash_prefix(pack: Seq<char>, sprites: Seq<SpriteAsset>, n: int)
    requires
        0 <= n <= sprites.len(),
        first_sprite_clash(pack, sprites.take(n)) is Some,
    ensures
        first_sprite_clash(pack, sprites) == first_sprite_clash(pack, sprites.take(n)),
    decreases sprites.len() - n,
{
    if n < sprites.len() {
        assert(sprites.take(n + 1).drop_last() =~= sprites.take(n));
        lemma_first_clash_prefix(pack, sprites, n + 1);
    } else {
        assert(sprites.take(n) =~= sprites);
    }
}

proof fn lemma_theme_fails_prefix(themes: Seq<ThemeDraft>, json_valid: Seq<bool>, n: int, k: int)
    requires
        0 <= k < n <= themes.len(),
    ensures
        theme_fails(themes.take(n), json_valid, k) == theme_fails(themes, json_valid, k),
        theme_clashes_before(themes.take(n), k) == theme_clashes_before(themes, k),
{
    let t = themes.take(n);
    if theme_clashes_before(themes, k) {
        let j = choose|j: int| 0 <= j < k && #[trigger] theme_stem(themes[j]) == theme_stem(themes[k]);
        assert(t[j] == themes[j] && t[k] == themes[k]);
    }
    if theme_clashes_before(t, k) {
        let j = choose|j: int| 0 <= j < k && #[trigger] theme_stem(t[j]) == theme_stem(t[k]);
        assert(t[j] == themes[j] && t[k] == themes[k]);
    }
}

proof fn lemma_first_theme_failure_prefix(themes: Seq<ThemeDraft>, json_valid: Seq<bool>, n: int)
    requires
        0 <= n <= themes.len(),
        first_theme_failure(themes.take(n), json_valid) is Some,
    ensures
        first_theme_failure(themes, json_valid) == first_theme_failure(themes.take(n), json_valid),
    decreases themes.len() - n,
{
    if n < themes.len() {
        assert(themes.take(n + 1).drop_last() =~= themes.take(n));
        lemma_first_theme_failure_prefix(themes, json_valid, n + 1);
    } else {
        assert(themes.take(n) =~= themes);
    }
}

// ---------------------------------------------------------------------------
// Planning
// ---------------------------------------------------------------------------

/// A copy of `path`.
fn clone_path(path: &Vec<String>) -> (r: Vec<String>)
    ensures
        components_view(r@) == components_view(path@),
{
    let mut r: Vec<String> = Vec::new();
    let mut i: usize = 0;
    while i < path.len()
        invariant
            i <= path@.len(),
            components_view(r@) == components_view(path@.take(i as int)),
        decreases path@.len() - i,
    {
        let c = path[i].clone();
        let ghost old_r = r@;
        r.push(c);
        i = i + 1;
        proof {
            let a = components_view(r@);
            let b = components_view(path@.take(i as int));
            lemma_components_view(r@);
            lemma_components_view(old_r);
            lemma_components_view(path@.take(i as int));
            lemma_components_view(path@.take(i - 1));
            assert(a.len() == b.len());
            assert forall|j: int| 0 <= j < a.len() implies a[j] == b[j] by {
                if j < a.len() - 1 {
                    assert(r@[j] == old_r[j]);
                    assert(components_view(old_r)[j] == components_view(path@.take(i - 1))[j]);
                }
            }
            assert(a =~= b);
        }
    }
    proof {
        assert(path@.take(i as int) =~= path@);
    }
    r
}

/// Whether two paths have the same components.
fn same_path(a: &Vec<String>, b: &Vec<String>) -> (r: bool)
    ensures
        r == (components_view(a@) == components_view(b@)),
{
    if a.len() != b.len() {
        proof {
            assert(components_view(a@).len() != components_view(b@).len());
        }
        return false;
    }
    let mut i: usize = 0;
    while i < a.len()
        invariant
            a@.len() == b@.len(),
            i <= a@.len(),
            forall|j: int| 0 <= j < i ==> (#[trigger] a@[j])@ == b@[j]@,
        decreases a@.len() - i,
    {
        if a[i] != b[i] {
            proof {
                assert(components_view(a@)[i as int] != components_view(b@)[i as int]);
            }
            return false;
        }
        i = i + 1;
    }
    proof {
        assert(components_view(a@) =~= components_view(b@));
    }
    true
}

/// The folder and file name a sprite is exported to.
fn export_location(pack: &str, sprite: &SpriteAsset) -> (r: (Vec<String>, String))
    ensures
        components_view(r.0@) == export_folder(pack@, *sprite),
        r.1@ == export_stem(*sprite),
{
    let mut folder = sprite.kind.relative_base(pack);
    let category = safe_category_path(sprite.category.as_str());
    let ghost base = components_view(folder@);
    let mut i: usize = 0;
    while i < category.len()
        invariant
            base == asset_kind_base(sprite.kind, pack@),
            i <= category@.len(),
            components_view(folder@) == base + components_view(category@.take(i as int)),
        decreases category@.len() - i,
    {
        let c = category[i].clone();
        let ghost old_f = folder@;
        folder.push(c);
        i = i + 1;
        proof {
            let a = components_view(folder@);
            let b = base + components_view(category@.take(i as int));
            let b0 = base + components_view(category@.take(i - 1));
            lemma_components_view(folder@);
            lemma_components_view(old_f);
            lemma_components_view(category@.take(i as int));
            lemma_components_view(category@.take(i - 1));
            assert(a.len() == b.len());
            assert forall|j: int| 0 <= j < a.len() implies a[j] == b[j] by {
                if j < a.len() - 1 {
                    assert(folder@[j] == old_f[j]);
                    assert(components_view(old_f)[j] == b0[j]);
                    if j >= base.len() {
                        assert(category@.take(i as int)[j - base.len()] == category@.take(i - 1)[j - base.len()]);
                    }
                }
            }
            assert(a =~= b);
        }
    }
    proof {
        assert(category@.take(i as int) =~= category@);
    }
    (folder, sanitize_file_stem(sprite.file_stem.as_str()))
}

/// Whether some sprite file already goes to `folder/stem`.
fn find_clash(files: &Vec<SpriteFile>, folder: &Vec<String>, stem: &String) -> (r: bool)
    ensures
        r == exists|j: int|
            0 <= j < files@.len() && #[trigger] components_view(files@[j].folder@) == components_view(folder@)
                && files@[j].file_stem@ == stem@,
{
    let mut j: usize = 0;
    while j < files.len()
        invariant
            j <= files@.len(),
            forall|jj: int|
                0 <= jj < j ==> !(#[trigger] components_view(files@[jj].folder@) == components_view(folder@)
                    && files@[jj].file_stem@ == stem@),
        decreases files@.len() - j,
    {
        if same_path(&files[j].folder, folder) && files[j].file_stem == *stem {
            return true;
        }
        j = j + 1;
    }
    false
}

/// The metadata Wonderdraft gets for a sprite.
fn metadata_of(sprite: &SpriteAsset) -> (m: SymbolMetadata)
    ensures
        metadata_view(m) == sprite_metadata(*sprite),
{
    SymbolMetadata {
        name: sprite.name.clone(),
        radius: sprite.radius,
        offset_x: sprite.offset_x,
        offset_y: sprite.offset_y,
        draw_mode: String::from_str(sprite.draw_mode.as_str()),
    }
}

/// The sprite files of an export, up to the first name clash, and the clash.
fn plan_sprite_files(pack: &String, sprites: &Vec<SpriteAsset>) -> (r: (Vec<SpriteFile>, Option<ExportError>))
    ensures
        match first_sprite_clash(pack@, sprites@) {
            Some(k) => {
                &&& writes_sprites(pack@, sprites@, r.0@, k)
                &&& r.1 matches Some(e) && error_view(e) == ExportErrorModel::DuplicateSpriteFile(
                    export_folder(pack@, sprites@[k]),
                    export_stem(sprites@[k]),
                )
            },
            None => {
                &&& writes_sprites(pack@, sprites@, r.0@, sprites@.len() as int)
                &&& r.1 is None
            },
        },
{
    let ghost p = pack@;
    let mut files: Vec<SpriteFile> = Vec::new();
    let mut k: usize = 0;
    while k < sprites.len()
        invariant
            p == pack@,
            k <= sprites@.len(),
            writes_sprites(p, sprites@, files@, k as int),
            first_sprite_clash(p, sprites@.take(k as int)) is None,
        decreases sprites@.len() - k,
    {
        let (folder, stem) = export_location(pack.as_str(), &sprites[k]);
        let ghost t = sprites@.take(k + 1);
        proof {
            assert(t.drop_last() =~= sprites@.take(k as int));
            assert(t[k as int] == sprites@[k as int]);
            lemma_clashes_before_prefix(p, sprites@, k + 1, k as int);
        }
        if find_clash(&files, &folder, &stem) {
            proof {
                let j = choose|j: int|
                    0 <= j < files@.len() && #[trigger] components_view(files@[j].folder@) == components_view(
                        folder@,
                    ) && files@[j].file_stem@ == stem@;
                assert(is_sprite_file(p, sprites@, files@[j], j));
                assert(export_folder(p, sprites@[j]) == export_folder(p, sprites@[k as int]));
                assert(clashes_before(p, sprites@, k as int));
                assert(first_sprite_clash(p, t) == Some(k as int));
                lemma_first_clash_prefix(p, sprites@, k + 1);
            }
            return (files, Some(ExportError::DuplicateSpriteFile { folder, file_stem: stem }));
        }
        proof {
            assert(!clashes_before(p, sprites@, k as int)) by {
                if clashes_before(p, sprites@, k as int) {
                    let j = choose|j: int|
                        0 <= j < k && #[trigger] export_folder(p, sprites@[j]) == export_folder(p, sprites@[k as int])
                            && export_stem(sprites@[j]) == export_stem(sprites@[k as int]);
                    assert(is_sprite_file(p, sprites@, files@[j], j));
                    assert(components_view(files@[j].folder@) == components_view(folder@));
                }
            }
            assert(first_sprite_clash(p, t) is None);
        }
        let visible = has_visible_pixels(&sprites[k].working);
        let ghost old_files = files@;
        files.push(SpriteFile { sprite: k, folder, file_stem: stem, visible });
        proof {
            assert forall|kk: int| 0 <= kk < k + 1 implies #[trigger] is_sprite_file(p, sprites@, files@[kk], kk) by {
                if kk < k {
                    assert(files@[kk] == old_files[kk]);
                }
            }
        }
        k = k + 1;
    }
    proof {
        assert(sprites@.take(k as int) =~= sprites@);
    }
    (files, None)
}

/// The folders of `list`, as component texts.
pub open spec fn folders_view(list: Seq<Vec<String>>) -> Seq<Seq<Seq<char>>> {
    list.map_values(|p: Vec<String>| components_view(p@))
}

fn contains_path(list: &Vec<Vec<String>>, path: &Vec<String>) -> (r: bool)
    ensures
        r == folders_view(list@).contains(components_view(path@)),
{
    let mut i: usize = 0;
    while i < list.len()
        invariant
            i <= list@.len(),
            forall|j: int| 0 <= j < i ==> #[trigger] components_view(list@[j]@) != components_view(path@),
        decreases list@.len() - i,
    {
        if same_path(&list[i], path) {
            proof {
                assert(folders_view(list@)[i as int] == components_view(path@));
            }
            return true;
        }
        i = i + 1;
    }
    proof {
        if folders_view(list@).contains(components_view(path@)) {
            let j = choose|j: int| 0 <= j < folders_view(list@).len() && folders_view(list@)[j] == components_view(path@);
            assert(components_view(list@[j]@) == components_view(path@));
        }
    }
    false
}

/// The metadata files of an export whose sprite files are `files`.
fn plan_metadata(pack: &String, sprites: &Vec<SpriteAsset>, files: &Vec<SpriteFile>) -> (r: Vec<MetadataFile>)
    requires
        writes_sprites(pack@, sprites@, files@, sprites@.len() as int),
    ensures
        writes_metadata(pack@, sprites@, r@),
{
    let ghost p = pack@;
    let mut folders: Vec<Vec<String>> = Vec::new();
    let mut k: usize = 0;
    while k < sprites.len()
        invariant
            p == pack@,
            writes_sprites(p, sprites@, files@, sprites@.len() as int),
            k <= sprites@.len(),
            folders_view(folders@) == symbol_folders(p, sprites@.take(k as int)),
        decreases sprites@.len() - k,
    {
        let ghost t = sprites@.take(k + 1);
        proof {
            assert(t.drop_last() =~= sprites@.take(k as int));
            assert(t.last() == sprites@[k as int]);
            assert(is_sprite_file(p, sprites@, files@[k as int], k as int));
        }
        if sprites[k].kind.is_sprite() && !contains_path(&folders, &files[k].folder) {
            let ghost old_folders = folders@;
            folders.push(clone_path(&files[k].folder));
            proof {
                assert(folders_view(folders@) =~= folders_view(old_folders).push(export_folder(p, sprites@[k as int])));
            }
        }
        k = k + 1;
    }
    proof {
        assert(sprites@.take(k as int) =~= sprites@);
    }
    let ghost fv = folders_view(folders@);
    let mut out: Vec<MetadataFile> = Vec::new();
    let mut g: usize = 0;
    while g < folders.len()
        invariant
            p == pack@,
            writes_sprites(p, sprites@, files@, sprites@.len() as int),
            fv == folders_view(folders@),
            fv == symbol_folders(p, sprites@),
            g <= folders@.len(),
            out@.len() == g,
            forall|gg: int|
                0 <= gg < g ==> components_view((#[trigger] out@[gg]).folder@) == fv[gg] && entries_view(
                    out@[gg].entries@,
                ) == folder_entries(p, sprites@, fv[gg]),
        decreases folders@.len() - g,
    {
        let mut entries: Vec<MetadataEntry> = Vec::new();
        let mut k: usize = 0;
        proof {
            assert(fv[g as int] == components_view(folders@[g as int]@));
        }
        while k < sprites.len()
            invariant
                p == pack@,
                writes_sprites(p, sprites@, files@, sprites@.len() as int),
                fv == folders_view(folders@),
                g < folders@.len(),
                fv[g as int] == components_view(folders@[g as int]@),
                k <= sprites@.len(),
                entries_view(entries@) == folder_entries(p, sprites@.take(k as int), fv[g as int]),
            decreases sprites@.len() - k,
        {
            let ghost t = sprites@.take(k + 1);
            proof {
                assert(t.drop_last() =~= sprites@.take(k as int));
                assert(t.last() == sprites@[k as int]);
                assert(is_sprite_file(p, sprites@, files@[k as int], k as int));
            }
            if sprites[k].kind.is_sprite() && same_path(&files[k].folder, &folders[g]) {
                let ghost old_entries = entries@;
                let entry = MetadataEntry {
                    file_stem: files[k].file_stem.clone(),
                    metadata: metadata_of(&sprites[k]),
                };
                entries.push(entry);
                proof {
                    assert(entries_view(entries@) =~= entries_view(old_entries).push(
                        (export_stem(sprites@[k as int]), sprite_metadata(sprites@[k as int])),
                    ));
                }
            }
            k = k + 1;
        }
        proof {
            assert(sprites@.take(k as int) =~= sprites@);
        }
        let ghost old_out = out@;
        out.push(MetadataFile { folder: clone_path(&folders[g]), entries });
        proof {
            assert forall|gg: int|
                0 <= gg < g + 1 implies components_view((#[trigger] out@[gg]).folder@) == fv[gg] && entries_view(
                out@[gg].entries@,
            ) == folder_entries(p, sprites@, fv[gg]) by {
                if gg < g {
                    assert(out@[gg] == old_out[gg]);
                }
            }
        }
        g = g + 1;
    }
    proof {
        assert(fv.len() == folders@.len());
    }
    out
}

/// The theme files of an export, up to the first theme that cannot be
/// written, and the error for it.
fn plan_themes(themes: &Vec<ThemeDraft>, json_valid: &Vec<bool>) -> (r: (Vec<ThemeFile>, Option<ExportError>))
    requires
        json_valid@.len() == themes@.len(),
    ensures
        match first_theme_failure(themes@, json_valid@) {
            Some(k) => {
                &&& writes_themes(themes@, r.0@, k)
                &&& r.1 matches Some(e) && error_view(e) == theme_error(themes@, k)
            },
            None => {
                &&& writes_themes(themes@, r.0@, themes@.len() as int)
                &&& r.1 is None
            },
        },
{
    let mut files: Vec<ThemeFile> = Vec::new();
    let mut k: usize = 0;
    while k < themes.len()
        invariant
            json_valid@.len() == themes@.len(),
            k <= themes@.len(),
            writes_themes(themes@, files@, k as int),
            first_theme_failure(themes@.take(k as int), json_valid@) is None,
        decreases themes@.len() - k,
    {
        let stem = sanitize_file_stem(themes[k].file_stem.as_str());
        let ghost t = themes@.take(k + 1);
        proof {
            assert(t.drop_last() =~= themes@.take(k as int));
            lemma_theme_fails_prefix(themes@, json_valid@, k + 1, k as int);
        }
        let mut clash = false;
        let mut j: usize = 0;
        while j < files.len()
            invariant
                j <= files@.len(),
                writes_themes(themes@, files@, k as int),
                stem@ == theme_stem(themes@[k as int]),
                clash == exists|jj: int| 0 <= jj < j && #[trigger] theme_stem(themes@[jj]) == stem@,
            decreases files@.len() - j,
        {
            if files[j].file_stem == stem {
                clash = true;
            }
            proof {
                assert(files@[j as int].file_stem@ == theme_stem(themes@[j as int]));
            }
            j = j + 1;
        }
        proof {
            assert(clash == theme_clashes_before(themes@, k as int));
        }
        if clash {
            proof {
                assert(first_theme_failure(t, json_valid@) == Some(k as int));
                lemma_first_theme_failure_prefix(themes@, json_valid@, k + 1);
            }
            return (files, Some(ExportError::DuplicateThemeName { file_stem: stem }));
        }
        if !json_valid[k] {
            proof {
                assert(first_theme_failure(t, json_valid@) == Some(k as int));
                lemma_first_theme_failure_prefix(themes@, json_valid@, k + 1);
            }
            return (files, Some(ExportError::InvalidThemeJson { file_stem: stem }));
        }
        let ghost old_files = files@;
        files.push(ThemeFile { theme: k, file_stem: stem });
        proof {
            assert(first_theme_failure(t, json_valid@) is None);
            assert forall|kk: int| 0 <= kk < k + 1 implies (#[trigger] files@[kk]).theme == kk
                && files@[kk].file_stem@ == theme_stem(themes@[kk]) by {
                if kk < k {
                    assert(files@[kk] == old_files[kk]);
                }
            }
        }
        k = k + 1;
    }
    proof {
        assert(themes@.take(k as int) =~= themes@);
    }
    (files, None)
}

/// Plans the export of `sprites` and `themes` into the pack `pack_name`,
/// given whether the text of each theme is JSON; see `is_export_plan`.
pub fn plan_export_with(
    pack_name: &str,
    sprites: &Vec<SpriteAsset>,
    themes: &Vec<ThemeDraft>,
    json_valid: &Vec<bool>,
) -> (plan: ExportPlan)
    requires
        json_valid@.len() == themes@.len(),
    ensures
        is_export_plan(pack_name@, sprites@, themes@, json_valid@, plan),
{
    let pack = sanitize_pack_name(pack_name);
    let (sprite_files, failure) = plan_sprite_files(&pack, sprites);
    if failure.is_some() {
        return ExportPlan {
            pack_name: pack,
            sprite_files,
            metadata_files: Vec::new(),
            create_theme_folder: false,
            theme_files: Vec::new(),
            failure,
        };
    }
    let metadata_files = plan_metadata(&pack, sprites, &sprite_files);
    let (theme_files, failure) = plan_themes(themes, json_valid);
    ExportPlan {
        pack_name: pack,
        sprite_files,
        metadata_files,
        create_theme_folder: themes.len() > 0,
        theme_files,
        failure,
    }
}

/// The text is JSON: `serde_json` parses it into a `serde_json::Value`.
pub uninterp spec fn json_text_is_valid(text: Seq<char>) -> bool;

/// `serde_json::from_str::<serde_json::Value>`: whether `text` parses as JSON.
#[verifier::external_body]
fn is_json(text: &str) -> (b: bool)
    ensures
        b == json_text_is_valid(text@),
{
    serde_json::from_str::<serde_json::Value>(text).is_ok()
}

/// The text that `serde_json::to_string_pretty` writes for the JSON value that
/// `text` parses to; `None` when either step fails.
pub uninterp spec fn pretty_json_of(text: Seq<char>) -> Option<Seq<char>>;

/// `serde_json::from_str::<serde_json::Value>`, then
/// `serde_json::to_string_pretty` of the value: the text that
/// `pretty_json_of` names, which exists only where the text parsed. The
/// error's text, serde_json's message, is not stated.
#[verifier::external_body]
fn pretty_json(text: &str) -> (r: Result<String, String>)
    ensures
        r is Ok <==> pretty_json_of(text@) is Some,
        r matches Ok(t) ==> pretty_json_of(text@) == Some(t@),
        r is Ok ==> json_text_is_valid(text@),
{
    let value = serde_json::from_str::<serde_json::Value>(text).map_err(|e| e.to_string())?;
    serde_json::to_string_pretty(&value).map_err(|e| e.to_string())
}

/// A theme's JSON text laid out by `serde_json`'s pretty printer, as it is
/// written to its theme file; the error says why the text is not JSON.
pub fn format_theme_json(text: &str) -> (r: Result<String, String>)
    ensures
        r matches Ok(t) ==> pretty_json_of(text@) == Some(t@) && json_text_is_valid(text@),
        r is Err <==> pretty_json_of(text@) is None,
{
    pretty_json(text)
}

/// Whether each theme's text is JSON.
pub open spec fn themes_json_valid(themes: Seq<ThemeDraft>) -> Seq<bool> {
    themes.map_values(|t: ThemeDraft| json_text_is_valid(t.json_text@))
}

/// Plans the export of `sprites` and `themes` into the pack `pack_name`; a
/// theme whose text `serde_json` cannot parse stops the export.
pub fn plan_export(pack_name: &str, sprites: &Vec<SpriteAsset>, themes: &Vec<ThemeDraft>) -> (plan: ExportPlan)
    ensures
        is_export_plan(pack_name@, sprites@, themes@, themes_json_valid(themes@), plan),
{
    let mut valid: Vec<bool> = Vec::new();
    let mut k: usize = 0;
    while k < themes.len()
        invariant
            k <= themes@.len(),
            valid@ == themes_json_valid(themes@.take(k as int)),
        decreases themes@.len() - k,
    {
        valid.push(is_json(themes[k].json_text.as_str()));
        k = k + 1;
        proof {
            assert(valid@ =~= themes_json_valid(themes@.take(k as int)));
        }
    }
    proof {
        assert(themes@.take(k as int) =~= themes@);
    }
    plan_export_with(pack_name, sprites, themes, &valid)
}

// ---------------------------------------------------------------------------
// Laws of exporting
// ---------------------------------------------------------------------------

proof fn lemma_no_first_clash(pack: Seq<char>, sprites: Seq<SpriteAsset>, k: int)
    requires
        first_sprite_clash(pack, sprites) is None,
        0 <= k < sprites.len(),
    ensures
        !clashes_before(pack, sprites, k),
    decreases sprites.len(),
{
    if k < sprites.len() - 1 {
        lemma_no_first_clash(pack, sprites.drop_last(), k);
        if clashes_before(pack, sprites, k) {
            let j = choose|j: int|
                0 <= j < k && #[trigger] export_folder(pack, sprites[j]) == export_folder(pack, sprites[k])
                    && export_stem(sprites[j]) == export_stem(sprites[k]);
            assert(sprites.drop_last()[j] == sprites[j]);
            assert(sprites.drop_last()[k] == sprites[k]);
            assert(export_folder(pack, sprites.drop_last()[j]) == export_folder(pack, sprites.drop_last()[k]));
        }
    }
}

/// When no sprite name clashes, no two sprites are written to the same file.
pub proof fn law_exported_sprite_files_are_distinct(pack: Seq<char>, sprites: Seq<SpriteAsset>, j: int, k: int)
    requires
        first_sprite_clash(pack, sprites) is None,
        0 <= j < k < sprites.len(),
    ensures
        !(export_folder(pack, sprites[j]) == export_folder(pack, sprites[k]) && export_stem(sprites[j])
            == export_stem(sprites[k])),
{
    lemma_no_first_clash(pack, sprites, k);
}

proof fn lemma_no_first_theme_failure(themes: Seq<ThemeDraft>, json_valid: Seq<bool>, k: int)
    requires
        first_theme_failure(themes, json_valid) is None,
        0 <= k < themes.len(),
    ensures
        !theme_fails(themes, json_valid, k),
    decreases themes.len(),
{
    if k < themes.len() - 1 {
        lemma_no_first_theme_failure(themes.drop_last(), json_valid, k);
        if theme_clashes_before(themes, k) {
            let j = choose|j: int| 0 <= j < k && #[trigger] theme_stem(themes[j]) == theme_stem(themes[k]);
            assert(themes.drop_last()[j] == themes[j]);
            assert(themes.drop_last()[k] == themes[k]);
            assert(theme_stem(themes.drop_last()[j]) == theme_stem(themes.drop_last()[k]));
        }
    }
}

/// When every theme can be written, each has its own file name and valid
/// JSON text.
pub proof fn law_written_themes_are_distinct_and_valid(themes: Seq<ThemeDraft>, json_valid: Seq<bool>, j: int, k: int)
    requires
        first_theme_failure(themes, json_valid) is None,
        0 <= j < k < themes.len(),
    ensures
        theme_stem(themes[j]) != theme_stem(themes[k]),
        json_valid[j],
        json_valid[k],
{
    lemma_no_first_theme_failure(themes, json_valid, k);
    lemma_no_first_theme_failure(themes, json_valid, j);
}

/// Every symbol, mountain or tree sprite is listed, under its file name and
/// with its metadata, in the metadata of the folder it is exported to, and
/// that folder is among those that get a metadata file.
pub proof fn law_symbol_sprites_have_metadata(pack: Seq<char>, sprites: Seq<SpriteAsset>, k: int)
    requires
        0 <= k < sprites.len(),
        asset_kind_is_sprite(sprites[k].kind),
    ensures
        symbol_folders(pack, sprites).contains(export_folder(pack, sprites[k])),
        folder_entries(pack, sprites, export_folder(pack, sprites[k])).contains(
            (export_stem(sprites[k]), sprite_metadata(sprites[k])),
        ),
    decreases sprites.len(),
{
    let folder = export_folder(pack, sprites[k]);
    let entry = (export_stem(sprites[k]), sprite_metadata(sprites[k]));
    let before_folders = symbol_folders(pack, sprites.drop_last());
    let before_entries = folder_entries(pack, sprites.drop_last(), folder);
    if k == sprites.len() - 1 {
        if !before_folders.contains(folder) {
            assert(symbol_folders(pack, sprites) == before_folders.push(folder));
            assert(before_folders.push(folder)[before_folders.len() as int] == folder);
        }
        assert(folder_entries(pack, sprites, folder) == before_entries.push(entry));
        assert(before_entries.push(entry)[before_entries.len() as int] == entry);
    } else {
        assert(sprites.drop_last()[k] == sprites[k]);
        law_symbol_sprites_have_metadata(pack, sprites.drop_last(), k);
        let j = choose|j: int| 0 <= j < before_folders.len() && before_folders[j] == folder;
        let i = choose|i: int| 0 <= i < before_entries.len() && before_entries[i] == entry;
        let s = sprites.last();
        if asset_kind_is_sprite(s.kind) && !before_folders.contains(export_folder(pack, s)) {
            assert(before_folders.push(export_folder(pack, s))[j] == folder);
        }
        if asset_kind_is_sprite(s.kind) && export_folder(pack, s) == folder {
            assert(before_entries.push((export_stem(s), sprite_metadata(s)))[i] == entry);
        }
    }
}

/// Every folder an exported sprite lands in is made of safe folder names
/// (no separators, no `.` or `..`, nothing empty), so exports stay below the
/// chosen root; the file name is safe too.
pub proof fn law_export_paths_are_safe(pack_name: Seq<char>, s: SpriteAsset)
    ensures
        ({
            let pack = sanitized_component(pack_name, "MyFantasyPack"@);
            let folder = export_folder(pack, s);
            &&& forall|i: int| 0 <= i < folder.len() ==> is_safe_folder_name(#[trigger] folder[i])
            &&& is_safe_folder_name(export_stem(s))
        }),
{
    reveal_strlit("MyFantasyPack");
    reveal_strlit("assets");
    reveal_strlit("sprites");
    reveal_strlit("symbols");
    reveal_strlit("mountains");
    reveal_strlit("trees");
    reveal_strlit("textures");
    reveal_strlit("ground");
    reveal_strlit("water");
    reveal_strlit("brushes");
    let pack = sanitized_component(pack_name, "MyFantasyPack"@);
    law_component_is_safe(pack_name, "MyFantasyPack"@);
    let f = "MyFantasyPack"@;
    assert forall|i: int| 0 <= i < f.len() implies component_char_allowed(#[trigger] f[i]) by {}
    assert(is_safe_folder_name(pack));
    law_category_folders_are_safe(s.category@);
    law_file_stem_is_safe(s.file_stem@);
    let stem = export_stem(s);
    assert(stem[0] != '.');
    let base = asset_kind_base(s.kind, pack);
    assert forall|i: int| 0 <= i < base.len() implies is_safe_folder_name(#[trigger] base[i]) by {
        let c = base[i];
        if c != pack {
            assert forall|k: int| 0 <= k < c.len() implies component_char_allowed(#[trigger] c[k]) by {}
        }
    }
    let cats = category_folders(s.category@);
    let folder = export_folder(pack, s);
    assert forall|i: int| 0 <= i < folder.len() implies is_safe_folder_name(#[trigger] folder[i]) by {
        if i < base.len() {
            assert(folder[i] == base[i]);
        } else {
            assert(folder[i] == cats[i - base.len()]);
        }
    }
}

} // verus!
