//! The asset model: draw modes, asset kinds, crop regions, themes, project
//! records, and sprites with their edit history.

use vstd::prelude::*;
use vstd::string::*;

use crate::pixels::{RgbaBuffer, RgbaModel};

verus! {

/// How Wonderdraft colours a symbol.
#[derive(Debug, Clone, Copy, PartialEq, Eq, Structural)]
pub enum DrawMode {
    Normal,
    SampleColor,
    CustomColors,
}

/// The key Wonderdraft's symbol metadata uses for a draw mode.
pub open spec fn draw_mode_key(mode: DrawMode) -> Seq<char> {
    match mode {
        DrawMode::Normal => "normal"@,
        DrawMode::SampleColor => "sample_color"@,
        DrawMode::CustomColors => "custom_colors"@,
    }
}

/// The text shown to the user for a draw mode.
pub open spec fn draw_mode_label(mode: DrawMode) -> Seq<char> {
    match mode {
        DrawMode::Normal => "Normal"@,
        DrawMode::SampleColor => "Sample ground color"@,
        DrawMode::CustomColors => "Custom colors (RGB channels)"@,
    }
}

/// Each draw mode has its own metadata key and its own label, so Wonderdraft
/// and the user can tell them apart.
pub proof fn law_draw_modes_have_their_own_key_and_label(a: DrawMode, b: DrawMode)
    ensures
        draw_mode_key(a) == draw_mode_key(b) ==> a == b,
        draw_mode_label(a) == draw_mode_label(b) ==> a == b,
{
    reveal_strlit("normal");
    reveal_strlit("sample_color");
    reveal_strlit("custom_colors");
    reveal_strlit("Normal");
    reveal_strlit("Sample ground color");
    reveal_strlit("Custom colors (RGB channels)");
    if draw_mode_key(a) == draw_mode_key(b) {
        assert(draw_mode_key(a).len() == draw_mode_key(b).len());
    }
    if draw_mode_label(a) == draw_mode_label(b) {
        assert(draw_mode_label(a).len() == draw_mode_label(b).len());
    }
}

impl DrawMode {
    /// Every draw mode, in menu order.
    pub fn all() -> (modes: [DrawMode; 3])
        ensures
            modes[0] == DrawMode::Normal,
            modes[1] == DrawMode::SampleColor,
            modes[2] == DrawMode::CustomColors,
    {
        [DrawMode::Normal, DrawMode::SampleColor, DrawMode::CustomColors]
    }

    pub fn as_str(self) -> (s: &'static str)
        ensures
            s@ == draw_mode_key(self),
    {
        match self {
            DrawMode::Normal => "normal",
            DrawMode::SampleColor => "sample_color",
            DrawMode::CustomColors => "custom_colors",
        }
    }

    pub fn label(self) -> (s: &'static str)
        ensures
            s@ == draw_mode_label(self),
    {
        match self {
            DrawMode::Normal => "Normal",
            DrawMode::SampleColor => "Sample ground color",
            DrawMode::CustomColors => "Custom colors (RGB channels)",
        }
    }
}

/// The kinds of asset a pack can hold.
#[derive(Debug, Clone, Copy, PartialEq, Eq, Structural)]
pub enum AssetKind {
    Symbols,
    Mountains,
    Trees,
    GroundTexture,
    WaterTexture,
    Brush,
}

pub open spec fn asset_kind_label(kind: AssetKind) -> Seq<char> {
    match kind {
        AssetKind::Symbols => "Symbols"@,
        AssetKind::Mountains => "Mountains"@,
        AssetKind::Trees => "Trees"@,
        AssetKind::GroundTexture => "Ground textures"@,
        AssetKind::WaterTexture => "Water textures"@,
        AssetKind::Brush => "Brushes"@,
    }
}

/// Symbols, mountains and trees are sprites and carry symbol metadata.
pub open spec fn asset_kind_is_sprite(kind: AssetKind) -> bool {
    kind == AssetKind::Symbols || kind == AssetKind::Mountains || kind == AssetKind::Trees
}

/// The folder, as path components, under which assets of `kind` in the pack
/// `pack_name` are exported.
pub open spec fn asset_kind_base(kind: AssetKind, pack_name: Seq<char>) -> Seq<Seq<char>> {
    match kind {
        AssetKind::Symbols => seq!["assets"@, pack_name, "sprites"@, "symbols"@],
        AssetKind::Mountains => seq!["assets"@, pack_name, "sprites"@, "mountains"@],
        AssetKind::Trees => seq!["assets"@, pack_name, "sprites"@, "trees"@],
        AssetKind::GroundTexture => seq!["assets"@, pack_name, "textures"@, "ground"@],
        AssetKind::WaterTexture => seq!["assets"@, pack_name, "textures"@, "water"@],
        AssetKind::Brush => seq!["brushes"@],
    }
}

/// `s` with its ASCII capital letters made small.
pub open spec fn ascii_lowercase(s: Seq<char>) -> Seq<char> {
    s.map_values(|c: char| if 'A' <= c && c <= 'Z' {
        ((c as u32) + 32) as char
    } else {
        c
    })
}

/// Each kind of asset has a folder of its own: in any pack, two kinds that
/// export under the same folder are the same kind. Sprites go under
/// `assets/<pack>/sprites/`, each sprite kind into the folder named by its
/// label in small letters (`symbols`, `mountains`, `trees`).
pub proof fn law_asset_kinds_have_their_own_folders(k1: AssetKind, k2: AssetKind, pack_name: Seq<char>)
    ensures
        asset_kind_base(k1, pack_name) == asset_kind_base(k2, pack_name) ==> k1 == k2,
        asset_kind_is_sprite(k1) ==> {
            let base = asset_kind_base(k1, pack_name);
            &&& base.len() == 4
            &&& base[0] == "assets"@
            &&& base[1] == pack_name
            &&& base[2] == "sprites"@
            &&& base[3] == ascii_lowercase(asset_kind_label(k1))
        },
{
    reveal_strlit("assets");
    reveal_strlit("sprites");
    reveal_strlit("textures");
    reveal_strlit("brushes");
    reveal_strlit("symbols");
    reveal_strlit("mountains");
    reveal_strlit("trees");
    reveal_strlit("ground");
    reveal_strlit("water");
    reveal_strlit("Symbols");
    reveal_strlit("Mountains");
    reveal_strlit("Trees");
    assert(ascii_lowercase("Symbols"@) =~= "symbols"@);
    assert(ascii_lowercase("Mountains"@) =~= "mountains"@);
    assert(ascii_lowercase("Trees"@) =~= "trees"@);
    if asset_kind_base(k1, pack_name) == asset_kind_base(k2, pack_name) {
        let b1 = asset_kind_base(k1, pack_name);
        let b2 = asset_kind_base(k2, pack_name);
        assert(b1.len() == b2.len());
        if b1.len() == 4 {
            assert(b1[2] == b2[2]);
            assert(b1[3] == b2[3]);
            assert(b1[2].len() == b2[2].len());
            assert(b1[3].len() == b2[3].len());
            assert(b1[3][0] == b2[3][0]);
        }
    }
}

/// The text of each component of a path.
pub open spec fn components_view(path: Seq<String>) -> Seq<Seq<char>> {
    path.map_values(|c: String| c@)
}

pub proof fn lemma_components_view(path: Seq<String>)
    ensures
        components_view(path).len() == path.len(),
        forall|i: int| 0 <= i < path.len() ==> #[trigger] components_view(path)[i] == path[i]@,
{
}

impl AssetKind {
    /// Every asset kind, in menu order.
    pub fn all() -> (kinds: [AssetKind; 6])
        ensures
            kinds[0] == AssetKind::Symbols,
            kinds[1] == AssetKind::Mountains,
            kinds[2] == AssetKind::Trees,
            kinds[3] == AssetKind::GroundTexture,
            kinds[4] == AssetKind::WaterTexture,
            kinds[5] == AssetKind::Brush,
    {
        [
            AssetKind::Symbols,
            AssetKind::Mountains,
            AssetKind::Trees,
            AssetKind::GroundTexture,
            AssetKind::WaterTexture,
            AssetKind::Brush,
        ]
    }

    pub fn label(self) -> (s: &'static str)
        ensures
            s@ == asset_kind_label(self),
    {
        match self {
            AssetKind::Symbols => "Symbols",
            AssetKind::Mountains => "Mountains",
            AssetKind::Trees => "Trees",
            AssetKind::GroundTexture => "Ground textures",
            AssetKind::WaterTexture => "Water textures",
            AssetKind::Brush => "Brushes",
        }
    }

    pub fn is_sprite(self) -> (b: bool)
        ensures
            b == asset_kind_is_sprite(self),
    {
        match self {
            AssetKind::Symbols | AssetKind::Mountains | AssetKind::Trees => true,
            _ => false,
        }
    }

    /// The export folder for this kind, as path components.
    pub fn relative_base(self, pack_name: &str) -> (path: Vec<String>)
        ensures
            components_view(path@) == asset_kind_base(self, pack_name@),
    {
        let mut path: Vec<String> = Vec::new();
        match self {
            AssetKind::Brush => {
                path.push(String::from_str("brushes"));
            },
            _ => {
                path.push(String::from_str("assets"));
                path.push(String::from_str(pack_name));
                match self {
                    AssetKind::Symbols | AssetKind::Mountains | AssetKind::Trees => {
                        path.push(String::from_str("sprites"));
                    },
                    _ => {
                        path.push(String::from_str("textures"));
                    },
                }
                let leaf = match self {
                    AssetKind::Symbols => "symbols",
                    AssetKind::Mountains => "mountains",
                    AssetKind::Trees => "trees",
                    AssetKind::GroundTexture => "ground",
                    _ => "water",
                };
                path.push(String::from_str(leaf));
            },
        }
        proof {
            assert(components_view(path@) =~= asset_kind_base(self, pack_name@));
        }
        path
    }
}

/// A rectangle of a source image that becomes one sprite.
#[derive(Debug)]
pub struct CropRegion {
    pub id: u64,
    pub x: u32,
    pub y: u32,
    pub width: u32,
    pub height: u32,
    pub sprite_id: Option<u64>,
}

impl Clone for CropRegion {
    fn clone(&self) -> (c: Self)
        ensures
            c == *self,
    {
        CropRegion {
            id: self.id,
            x: self.x,
            y: self.y,
            width: self.width,
            height: self.height,
            sprite_id: self.sprite_id,
        }
    }
}

impl CropRegion {
    /// A crop with no sprite yet; width and height are at least one.
    pub fn new(id: u64, x: u32, y: u32, width: u32, height: u32) -> (c: Self)
        ensures
            c.id == id,
            c.x == x,
            c.y == y,
            c.width == if width >= 1 {
                width
            } else {
                1
            },
            c.height == if height >= 1 {
                height
            } else {
                1
            },
            c.sprite_id is None,
    {
        CropRegion { id, x, y, width: width.max(1), height: height.max(1), sprite_id: None }
    }
}

/// The theme that new projects start with.
pub const DEFAULT_THEME_JSON: &'static str = r#"{
  "water_texture": "Paper",
  "ground_texture": "Feudal",
  "water_hue": 0.02,
  "water_saturation": -0.08,
  "water_value": 0.01,
  "vignette_strength": 0.54,
  "coastal_fx_distance": 22.96,
  "coastline_style": 5,
  "coastline_color": "0.613098,0.765625,0.719152,0.733686",
  "landmass_outline_color": "0.242188,0.217191,0.15799,1",
  "landmass_outline_blend": 1.3,
  "freshwater_color": "0.552887,0.752761,0.773438,0.396706",
  "freshwater_outline_color": "0.039063,0.027906,0.004578,1",
  "ground_colors": [
    "0.902344,0.818217,0.673233,1",
    "0.847656,0.709726,0.562897,1",
    "0.746094,0.734436,0.55957,1",
    "0.84375,0.764494,0.576782,1",
    "0.679688,0.61242,0.49649,1"
  ],
  "water_colors": [
    "0.569641,0.796875,0.722314,1",
    "0.533569,0.710843,0.734375,1",
    "0.422882,0.64827,0.726563,1",
    "0.262177,0.444996,0.554688,1"
  ],
  "water_color_names": ["", "", "", ""],
  "path_color": "0.296875,0.193991,0.10321,1",
  "symbol_custom_colors": [
    "0.335938,0.173587,0.141724,1",
    "0.210938,0.178751,0.12854,1",
    "0.839844,0.794094,0.672531,0.63498"
  ],
  "windrose_color": "0.242188,0.217191,0.15799,0.5",
  "label_presets": {
    "Town": {
      "font_name": "IM FELL DW Pica",
      "font_size": 28,
      "font_color": "0.242188,0.208817,0.120148,1",
      "font_outline_width": 3,
      "font_outline_color": "0.839844,0.794094,0.672531,0.63498"
    },
    "City": {
      "font_name": "IM FELL DW Pica",
      "font_size": 36,
      "font_color": "0.335938,0.173587,0.141724,1",
      "font_outline_width": 3,
      "font_outline_color": "0.839844,0.794094,0.672531,0.63498"
    },
    "Water": {
      "font_name": "IM FELL DW Pica",
      "font_size": 56,
      "font_color": "0.242188,0.208817,0.120148,1",
      "font_outline_width": 4,
      "font_outline_color": "0.687653,0.867188,0.812485,0.505451"
    },
    "Region": {
      "font_name": "IM FELL DW Pica",
      "font_size": 36,
      "font_color": "0.945313,0.901895,0.78653,1",
      "font_outline_width": 2,
      "font_outline_color": "0.210938,0.178751,0.12854,1"
    }
  }
}"#;

/// A Wonderdraft theme being edited: its file name and its JSON text.
#[derive(Debug)]
pub struct ThemeDraft {
    pub file_stem: String,
    pub json_text: String,
}

impl Clone for ThemeDraft {
    fn clone(&self) -> (c: Self)
        ensures
            c.file_stem@ == self.file_stem@,
            c.json_text@ == self.json_text@,
    {
        ThemeDraft { file_stem: self.file_stem.clone(), json_text: self.json_text.clone() }
    }
}

/// The default theme's JSON text.
pub fn default_theme_json() -> (s: String)
    ensures
        s@ == DEFAULT_THEME_JSON@,
{
    DEFAULT_THEME_JSON.to_owned()
}

impl Default for ThemeDraft {
    fn default() -> (t: Self)
        ensures
            t.file_stem@ == "Adventure"@,
            t.json_text@ == DEFAULT_THEME_JSON@,
    {
        ThemeDraft { file_stem: String::from_str("Adventure"), json_text: default_theme_json() }
    }
}

/// A source image in the workspace: where it was loaded from, its pixels as
/// shown (turned `quarter_turns` times clockwise), and the crops drawn on it.
pub struct SourceImage {
    pub id: u64,
    pub path: String,
    pub image: RgbaBuffer,
    pub crops: Vec<CropRegion>,
    pub exif_orientation_applied: bool,
    pub quarter_turns: u8,
}

/// A saved project: the pack name, the id counter, and records of the
/// sources, sprites and themes.
#[derive(Debug)]
pub struct ProjectFile {
    pub version: u32,
    pub pack_name: String,
    pub next_id: u64,
    pub sources: Vec<SourceRecord>,
    pub sprites: Vec<SpriteRecord>,
    pub themes: Vec<ThemeDraft>,
}

/// A source image in a saved project: where it is and how it is cropped.
#[derive(Debug)]
pub struct SourceRecord {
    pub id: u64,
    pub path: String,
    pub crops: Vec<CropRegion>,
    pub exif_orientation_applied: bool,
    pub quarter_turns: u8,
}

/// A sprite in a saved project: its settings and where its images are stored.
#[derive(Debug)]
pub struct SpriteRecord {
    pub id: u64,
    pub source_id: u64,
    pub crop_id: u64,
    pub crop_bounds: Option<CropRegion>,
    pub original_file: String,
    pub working_file: String,
    pub name: String,
    pub file_stem: String,
    pub kind: AssetKind,
    pub category: String,
    pub draw_mode: DrawMode,
    pub radius: i32,
    pub offset_x: i32,
    pub offset_y: i32,
}

/// The number of undo steps a sprite keeps.
pub const MAX_UNDO_HISTORY: usize = 30;

/// The part of a sprite that editing changes and undo restores.
pub struct EditState {
    pub crop_bounds: CropRegion,
    pub original: RgbaModel,
    pub working: RgbaModel,
    pub offset_x: i32,
    pub offset_y: i32,
}

/// A saved edit state of a sprite.
pub struct SpriteEditSnapshot {
    crop_bounds: CropRegion,
    original: RgbaBuffer,
    working: RgbaBuffer,
    offset_x: i32,
    offset_y: i32,
}

impl View for SpriteEditSnapshot {
    type V = EditState;

    closed spec fn view(&self) -> EditState {
        EditState {
            crop_bounds: self.crop_bounds,
            original: self.original@,
            working: self.working@,
            offset_x: self.offset_x,
            offset_y: self.offset_y,
        }
    }
}

/// An extracted sprite: its pixels, its export settings and its edit history.
pub struct SpriteAsset {
    pub id: u64,
    pub source_id: u64,
    pub crop_id: u64,
    pub crop_bounds: CropRegion,
    pub original: RgbaBuffer,
    pub working: RgbaBuffer,
    pub name: String,
    pub file_stem: String,
    pub kind: AssetKind,
    pub category: String,
    pub draw_mode: DrawMode,
    pub radius: i32,
    pub offset_x: i32,
    pub offset_y: i32,
    pub texture_dirty: bool,
    pub undo: Vec<SpriteEditSnapshot>,
    pub redo: Vec<SpriteEditSnapshot>,
}

/// The states of a list of snapshots, oldest first.
pub open spec fn snapshot_states(s: Seq<SpriteEditSnapshot>) -> Seq<EditState> {
    s.map_values(|snap: SpriteEditSnapshot| snap@)
}

/// The undo list after `state` is added to `undo`: the oldest entry is dropped
/// when the list grows past `MAX_UNDO_HISTORY`.
pub open spec fn with_undo_entry(undo: Seq<EditState>, state: EditState) -> Seq<EditState> {
    let pushed = undo.push(state);
    if pushed.len() > MAX_UNDO_HISTORY {
        pushed.drop_first()
    } else {
        pushed
    }
}

impl SpriteAsset {
    pub open spec fn edit_state(self) -> EditState {
        EditState {
            crop_bounds: self.crop_bounds,
            original: self.original@,
            working: self.working@,
            offset_x: self.offset_x,
            offset_y: self.offset_y,
        }
    }

    pub open spec fn undo_states(self) -> Seq<EditState> {
        snapshot_states(self.undo@)
    }

    pub open spec fn redo_states(self) -> Seq<EditState> {
        snapshot_states(self.redo@)
    }

    /// Everything but the edit state and the history is equal.
    pub open spec fn same_settings(self, other: SpriteAsset) -> bool {
        &&& self.id == other.id
        &&& self.source_id == other.source_id
        &&& self.crop_id == other.crop_id
        &&& self.name@ == other.name@
        &&& self.file_stem@ == other.file_stem@
        &&& self.kind == other.kind
        &&& self.category@ == other.category@
        &&& self.draw_mode == other.draw_mode
        &&& self.radius == other.radius
    }

    /// `after` is `before` with its current state saved for undo.
    pub open spec fn pushed_undo(before: SpriteAsset, after: SpriteAsset) -> bool {
        &&& after.same_settings(before)
        &&& after.edit_state() == before.edit_state()
        &&& after.texture_dirty == before.texture_dirty
        &&& after.undo_states() == with_undo_entry(before.undo_states(), before.edit_state())
        &&& after.redo_states() == Seq::<EditState>::empty()
    }

    /// `after` is `before` after an undo that returned `changed`.
    pub open spec fn undone(before: SpriteAsset, after: SpriteAsset, changed: bool) -> bool {
        &&& after.same_settings(before)
        &&& changed == (before.undo_states().len() > 0)
        &&& if changed {
            &&& after.edit_state() == before.undo_states().last()
            &&& after.undo_states() == before.undo_states().drop_last()
            &&& after.redo_states() == before.redo_states().push(before.edit_state())
            &&& after.texture_dirty
        } else {
            &&& after.edit_state() == before.edit_state()
            &&& after.undo_states() == before.undo_states()
            &&& after.redo_states() == before.redo_states()
            &&& after.texture_dirty == before.texture_dirty
        }
    }

    /// `after` is `before` after a redo that returned `changed`.
    pub open spec fn redone(before: SpriteAsset, after: SpriteAsset, changed: bool) -> bool {
        &&& after.same_settings(before)
        &&& changed == (before.redo_states().len() > 0)
        &&& if changed {
            &&& after.edit_state() == before.redo_states().last()
            &&& after.redo_states() == before.redo_states().drop_last()
            &&& after.undo_states() == before.undo_states().push(before.edit_state())
            &&& after.texture_dirty
        } else {
            &&& after.edit_state() == before.edit_state()
            &&& after.undo_states() == before.undo_states()
            &&& after.redo_states() == before.redo_states()
            &&& after.texture_dirty == before.texture_dirty
        }
    }

    fn snapshot(&self) -> (snap: SpriteEditSnapshot)
        ensures
            snap@ == self.edit_state(),
    {
        SpriteEditSnapshot {
            crop_bounds: self.crop_bounds.clone(),
            original: self.original.clone(),
            working: self.working.clone(),
            offset_x: self.offset_x,
            offset_y: self.offset_y,
        }
    }

    fn restore_snapshot(&mut self, snapshot: SpriteEditSnapshot)
        ensures
            final(self).edit_state() == snapshot@,
            final(self).same_settings(*old(self)),
            final(self).undo == old(self).undo,
            final(self).redo == old(self).redo,
            final(self).texture_dirty == old(self).texture_dirty,
    {
        self.crop_bounds = snapshot.crop_bounds;
        self.original = snapshot.original;
        self.working = snapshot.working;
        self.offset_x = snapshot.offset_x;
        self.offset_y = snapshot.offset_y;
    }

    /// Saves the current state for undo, dropping the oldest saved state past
    /// `MAX_UNDO_HISTORY`, and forgets everything that could be redone.
    pub fn push_undo(&mut self)
        ensures
            Self::pushed_undo(*old(self), *final(self)),
    {
        let snap = self.snapshot();
        self.undo.push(snap);
        if self.undo.len() > MAX_UNDO_HISTORY {
            self.undo.remove(0);
        }
        self.redo.clear();
        proof {
            assert(self.undo_states() =~= with_undo_entry(old(self).undo_states(), old(self).edit_state()));
            assert(self.redo_states() =~= Seq::<EditState>::empty());
        }
    }

    /// Goes back to the most recently saved state; the current state can then
    /// be redone. Returns whether there was anything to undo.
    pub fn undo(&mut self) -> (changed: bool)
        ensures
            Self::undone(*old(self), *final(self), changed),
    {
        match self.undo.pop() {
            Some(previous) => {
                let current = self.snapshot();
                self.redo.push(current);
                self.restore_snapshot(previous);
                self.texture_dirty = true;
                proof {
                    assert(self.undo_states() =~= old(self).undo_states().drop_last());
                    assert(self.redo_states() =~= old(self).redo_states().push(old(self).edit_state()));
                }
                true
            },
            None => false,
        }
    }

    /// Returns to the state most recently left by `undo`; the current state can
    /// then be undone. Returns whether there was anything to redo.
    pub fn redo(&mut self) -> (changed: bool)
        ensures
            Self::redone(*old(self), *final(self), changed),
    {
        match self.redo.pop() {
            Some(next) => {
                let current = self.snapshot();
                self.undo.push(current);
                self.restore_snapshot(next);
                self.texture_dirty = true;
                proof {
                    assert(self.redo_states() =~= old(self).redo_states().drop_last());
                    assert(self.undo_states() =~= old(self).undo_states().push(old(self).edit_state()));
                }
                true
            },
            None => false,
        }
    }
}

/// Undo right after saving a state brings the sprite back to that state, even
/// when the sprite was edited in between (edits do not touch the history).
pub proof fn law_undo_returns_to_saved_state(s0: SpriteAsset, s1: SpriteAsset, s2: SpriteAsset, s3: SpriteAsset, changed: bool)
    requires
        SpriteAsset::pushed_undo(s0, s1),
        s2.undo_states() == s1.undo_states(),
        SpriteAsset::undone(s2, s3, changed),
    ensures
        changed,
        s3.edit_state() == s0.edit_state(),
        s0.undo_states().len() < MAX_UNDO_HISTORY ==> s3.undo_states() == s0.undo_states(),
{
    let pushed = s0.undo_states().push(s0.edit_state());
    if pushed.len() > MAX_UNDO_HISTORY {
        assert(pushed.drop_first().last() == pushed.last());
    } else {
        assert(pushed.drop_last() =~= s0.undo_states());
    }
}

/// A redo takes back the undo before it.
pub proof fn law_redo_reverts_undo(s0: SpriteAsset, s1: SpriteAsset, s2: SpriteAsset, changed: bool)
    requires
        SpriteAsset::undone(s0, s1, true),
        SpriteAsset::redone(s1, s2, changed),
    ensures
        changed,
        s2.edit_state() == s0.edit_state(),
        s2.undo_states() == s0.undo_states(),
        s2.redo_states() == s0.redo_states(),
{
    assert(s0.undo_states().drop_last().push(s0.undo_states().last()) =~= s0.undo_states());
    assert(s0.redo_states().push(s0.edit_state()).drop_last() =~= s0.redo_states());
}

/// An undo takes back the redo before it.
pub proof fn law_undo_reverts_redo(s0: SpriteAsset, s1: SpriteAsset, s2: SpriteAsset, changed: bool)
    requires
        SpriteAsset::redone(s0, s1, true),
        SpriteAsset::undone(s1, s2, changed),
    ensures
        changed,
        s2.edit_state() == s0.edit_state(),
        s2.undo_states() == s0.undo_states(),
        s2.redo_states() == s0.redo_states(),
{
    assert(s0.redo_states().drop_last().push(s0.redo_states().last()) =~= s0.redo_states());
    assert(s0.undo_states().push(s0.edit_state()).drop_last() =~= s0.undo_states());
}

/// Saving a state for undo never leaves more than `MAX_UNDO_HISTORY` saved
/// states behind, given no more than that before.
pub proof fn law_undo_history_is_bounded(s0: SpriteAsset, s1: SpriteAsset)
    requires
        SpriteAsset::pushed_undo(s0, s1),
        s0.undo_states().len() <= MAX_UNDO_HISTORY,
    ensures
        s1.undo_states().len() <= MAX_UNDO_HISTORY,
{
}

} // verus!
