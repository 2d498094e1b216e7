//! Sprites cut from source images: copying a crop, extracting a crop as a new
//! sprite, keeping a sprite's crop in step with its source, and turning a
//! source's crops and sprites with the source.

use vstd::prelude::*;
use vstd::string::*;

use crate::crop_geometry::{crop_inside, max_int, min_int, rotate_crop_clockwise, rotated_clockwise, sat_add_u32};
use crate::image_ops::{crop_bounds, crop_rgba, is_turned_clockwise, rotate_clockwise, sat_sub};
use crate::model::{AssetKind, CropRegion, DrawMode, SourceImage, SpriteAsset};
use crate::naming::{humanize, humanized, sanitize_file_stem, sanitized_file_stem};
use crate::pixels::{RgbaBuffer, RgbaModel};
use crate::text::{decimal, push_char, push_decimal};

verus! {

broadcast use vstd::string::group_string_axioms;

// ---------------------------------------------------------------------------
// Copying a crop
// ---------------------------------------------------------------------------

/// The copy of crop `c` under the id `id`: it has no sprite, and it lies 10
/// pixels further right and down, but no further than the right and bottom
/// edges of a `w` by `h` image allow.
pub open spec fn copied_crop(c: CropRegion, id: u64, w: int, h: int) -> CropRegion {
    CropRegion {
        id,
        x: min_int(sat_add_u32(c.x as int, 10), sat_sub(w, c.width as int)) as u32,
        y: min_int(sat_add_u32(c.y as int, 10), sat_sub(h, c.height as int)) as u32,
        sprite_id: None,
        ..c
    }
}

/// A copy of `original` under the id `new_id`, shifted as `copied_crop` says.
pub fn copy_crop(original: &CropRegion, new_id: u64, image_width: u32, image_height: u32) -> (copy:
    CropRegion)
    ensures
        copy == copied_crop(*original, new_id, image_width as int, image_height as int),
{
    CropRegion {
        id: new_id,
        x: original.x.saturating_add(10).min(image_width.saturating_sub(original.width)),
        y: original.y.saturating_add(10).min(image_height.saturating_sub(original.height)),
        width: original.width,
        height: original.height,
        sprite_id: None,
    }
}

/// The copy of a crop that lies inside its image lies inside the image too,
/// and has the same size.
pub proof fn law_copied_crop_stays_inside(c: CropRegion, id: u64, w: int, h: int)
    requires
        crop_inside(c, w, h),
    ensures
        crop_inside(copied_crop(c, id, w, h), w, h),
        copied_crop(c, id, w, h).width == c.width,
        copied_crop(c, id, w, h).height == c.height,
{
}

/// A copy goes under its new id, with no sprite, and lies ten pixels right
/// of and below the original wherever the image leaves room for that; where
/// it does not, it stops at the right or bottom edge, still right of and
/// below the original (for a crop inside the image).
pub proof fn law_copy_is_offset_by_ten(c: CropRegion, id: u64, w: int, h: int)
    requires
        crop_inside(c, w, h),
        w <= u32::MAX,
        h <= u32::MAX,
    ensures
        ({
            let d = copied_crop(c, id, w, h);
            &&& d.id == id
            &&& d.sprite_id is None
            &&& c.x + 10 + c.width <= w ==> d.x == c.x + 10
            &&& c.y + 10 + c.height <= h ==> d.y == c.y + 10
            &&& c.x + 10 + c.width > w ==> d.x + d.width == w && d.x >= c.x
            &&& c.y + 10 + c.height > h ==> d.y + d.height == h && d.y >= c.y
        }),
{
}

// ---------------------------------------------------------------------------
// Extracting a crop as a sprite
// ---------------------------------------------------------------------------

/// `out` holds the block of `image` that `crop_rgba` copies for the crop `c`.
pub open spec fn is_crop_of(image: RgbaModel, c: CropRegion, out: RgbaModel) -> bool {
    let (cx, cy, cw, ch) = crop_bounds(
        image.width as int,
        image.height as int,
        c.x as int,
        c.y as int,
        c.width as int,
        c.height as int,
    );
    &&& out.width == cw
    &&& out.height == ch
    &&& out.well_formed()
    &&& forall|i: int, j: int, k: int|
        0 <= i < cw && 0 <= j < ch && 0 <= k < 4 ==> #[trigger] out.ch(out.index_of(i, j), k)
            == image.ch(image.index_of(cx + i, cy + j), k)
}

/// A crop that lies inside its image is extracted whole: the sprite has the
/// crop's size, and its pixel `(i, j)` is the image's pixel at the crop's
/// origin plus `(i, j)`.
pub proof fn law_crop_inside_is_extracted_whole(image: RgbaModel, c: CropRegion, out: RgbaModel)
    requires
        is_crop_of(image, c, out),
        crop_inside(c, image.width as int, image.height as int),
        c.width >= 1,
        c.height >= 1,
    ensures
        out.width == c.width,
        out.height == c.height,
        forall|i: int, j: int, k: int|
            0 <= i < c.width && 0 <= j < c.height && 0 <= k < 4 ==> #[trigger] out.ch(out.index_of(i, j), k)
                == image.ch(image.index_of(c.x + i, c.y + j), k),
{
}

/// The display name of the sprite extracted as number `sequence` from a
/// source file named `stem`: the humanized stem, a space, and the number.
pub open spec fn extracted_name(stem: Seq<char>, sequence: nat) -> Seq<char> {
    humanized(stem) + seq![' '] + decimal(sequence)
}

/// The file name of that sprite: the stem, `_` and the number, sanitized.
pub open spec fn extracted_file_stem(stem: Seq<char>, sequence: nat) -> Seq<char> {
    sanitized_file_stem(stem + seq!['_'] + decimal(sequence))
}

/// The default radius of a sprite: half its larger side, at least one.
pub open spec fn default_radius(m: RgbaModel) -> int {
    max_int(max_int(m.width as int, m.height as int) / 2, 1)
}

/// The default radius is half the sprite's larger side, rounded down, and
/// at least one.
pub proof fn law_default_radius_is_half_the_larger_side(m: RgbaModel)
    ensures
        default_radius(m) >= 1,
        m.width >= 2 || m.height >= 2 ==> {
            let side = max_int(m.width as int, m.height as int);
            &&& 2 * default_radius(m) <= side < 2 * default_radius(m) + 2
            &&& side >= m.width && side >= m.height
        },
{
}

/// `s` is the sprite with id `id` extracted as number `sequence` from the
/// crop `crop` of the source `source_id`, whose image is `image` and whose
/// file is named `stem`: its pixels are the cropped block, unedited; it is a
/// symbol in `Uncategorized`, drawn normally, with the default radius, no
/// offset and no history.
pub open spec fn is_extracted_sprite(
    s: SpriteAsset,
    id: u64,
    source_id: u64,
    crop: CropRegion,
    image: RgbaModel,
    stem: Seq<char>,
    sequence: nat,
) -> bool {
    &&& s.id == id
    &&& s.source_id == source_id
    &&& s.crop_id == crop.id
    &&& s.crop_bounds == CropRegion { sprite_id: Some(id), ..crop }
    &&& is_crop_of(image, crop, s.original@)
    &&& s.working@ == s.original@
    &&& s.name@ == extracted_name(stem, sequence)
    &&& s.file_stem@ == extracted_file_stem(stem, sequence)
    &&& s.kind == AssetKind::Symbols
    &&& s.category@ == "Uncategorized"@
    &&& s.draw_mode == DrawMode::Normal
    &&& s.radius == default_radius(s.original@)
    &&& s.offset_x == 0
    &&& s.offset_y == 0
    &&& s.texture_dirty
    &&& s.undo@.len() == 0
    &&& s.redo@.len() == 0
}

/// Extracts the crop `crop` of the source `source_id`, whose image is `image`
/// and whose file is named `source_stem`, as the new sprite `sprite_id`,
/// numbered `sequence`.
pub fn extract_sprite(
    sprite_id: u64,
    source_id: u64,
    crop: &CropRegion,
    image: &RgbaBuffer,
    source_stem: &str,
    sequence: usize,
) -> (sprite: SpriteAsset)
    ensures
        is_extracted_sprite(sprite, sprite_id, source_id, *crop, image@, source_stem@, sequence as nat),
{
    let extracted = crop_rgba(image, crop.x, crop.y, crop.width, crop.height);

    let mut name = humanize(source_stem);
    push_char(&mut name, ' ');
    push_decimal(&mut name, sequence as u64);

    let mut raw_stem = String::from_str(source_stem);
    push_char(&mut raw_stem, '_');
    push_decimal(&mut raw_stem, sequence as u64);
    let file_stem = sanitize_file_stem(raw_stem.as_str());

    let (w, h) = extracted.dimensions();
    let radius = (w.max(h) / 2).max(1) as i32;

    let mut bounds = crop.clone();
    bounds.sprite_id = Some(sprite_id);
    let category = String::from_str("Uncategorized");
    proof {
        assert(name@ =~= extracted_name(source_stem@, sequence as nat));
        assert(raw_stem@ =~= source_stem@ + seq!['_'] + decimal(sequence as nat));
    }
    SpriteAsset {
        id: sprite_id,
        source_id,
        crop_id: crop.id,
        crop_bounds: bounds,
        original: extracted.clone(),
        working: extracted,
        name,
        file_stem,
        kind: AssetKind::Symbols,
        category,
        draw_mode: DrawMode::Normal,
        radius,
        offset_x: 0,
        offset_y: 0,
        texture_dirty: true,
        undo: Vec::new(),
        redo: Vec::new(),
    }
}

/// What extracting a crop of a source leads to.
pub enum CropExtraction {
    /// The source has no crop with that id.
    NoSuchCrop,
    /// The crop already has the sprite with this id; nothing is extracted.
    AlreadyExtracted(u64),
    /// The new sprite; the crop is now linked to it.
    Extracted(SpriteAsset),
}

/// `after` is `before` with crop `k` linked to the sprite `sprite_id`.
pub open spec fn crop_linked(before: SourceImage, after: SourceImage, k: int, sprite_id: u64) -> bool {
    &&& after.id == before.id
    &&& after.path@ == before.path@
    &&& after.image@ == before.image@
    &&& after.exif_orientation_applied == before.exif_orientation_applied
    &&& after.quarter_turns == before.quarter_turns
    &&& after.crops@ == before.crops@.update(k, CropRegion { sprite_id: Some(sprite_id), ..before.crops@[k] })
}

/// Extracts the crop `crop_id` of `source` as a new sprite numbered
/// `sequence`, taking its id from `next_id`, unless the source has no such
/// crop or the crop already has a sprite. `source_stem` is the name of the
/// source's file.
pub fn extract_crop(
    source: &mut SourceImage,
    crop_id: u64,
    next_id: &mut u64,
    source_stem: &str,
    sequence: usize,
) -> (r: CropExtraction)
    requires
        *old(next_id) < u64::MAX,
    ensures
        (forall|j: int| 0 <= j < old(source).crops@.len() ==> #[trigger] old(source).crops@[j].id != crop_id)
            ==> r is NoSuchCrop && *final(source) == *old(source) && *final(next_id) == *old(next_id),
        forall|k: int|
            is_first_with_id(old(source).crops@, crop_id, k) ==> match old(source).crops@[k].sprite_id {
                Some(existing) => {
                    &&& r == CropExtraction::AlreadyExtracted(existing)
                    &&& *final(source) == *old(source)
                    &&& *final(next_id) == *old(next_id)
                },
                None => {
                    &&& r matches CropExtraction::Extracted(s) && is_extracted_sprite(
                        s,
                        *old(next_id),
                        old(source).id,
                        old(source).crops@[k],
                        old(source).image@,
                        source_stem@,
                        sequence as nat,
                    )
                    &&& crop_linked(*old(source), *final(source), k, *old(next_id))
                    &&& *final(next_id) == *old(next_id) + 1
                },
            },
{
    let mut i: usize = 0;
    while i < source.crops.len()
        invariant
            i <= source.crops@.len(),
            *source == *old(source),
            *next_id == *old(next_id),
            *old(next_id) < u64::MAX,
            forall|j: int| 0 <= j < i ==> #[trigger] source.crops@[j].id != crop_id,
        decreases source.crops@.len() - i,
    {
        if source.crops[i].id == crop_id {
            proof {
                assert forall|k: int| is_first_with_id(old(source).crops@, crop_id, k) implies k == i by {
                    if k < i {
                        assert(old(source).crops@[k].id != crop_id);
                    }
                    if i < k {
                        assert(old(source).crops@[i as int].id != crop_id);
                    }
                }
            }
            match source.crops[i].sprite_id {
                Some(existing) => {
                    return CropExtraction::AlreadyExtracted(existing);
                },
                None => {
                    let sprite_id = *next_id;
                    *next_id = *next_id + 1;
                    let crop = source.crops[i].clone();
                    let sprite = extract_sprite(sprite_id, source.id, &crop, &source.image, source_stem, sequence);
                    let mut linked = crop;
                    linked.sprite_id = Some(sprite_id);
                    source.crops.set(i, linked);
                    return CropExtraction::Extracted(sprite);
                },
            }
        }
        i = i + 1;
    }
    proof {
        assert forall|k: int| !is_first_with_id(old(source).crops@, crop_id, k) by {
            if 0 <= k < old(source).crops@.len() {
                assert(old(source).crops@[k].id != crop_id);
            }
        }
    }
    CropExtraction::NoSuchCrop
}

// ---------------------------------------------------------------------------
// Keeping a sprite's crop in step with its source
// ---------------------------------------------------------------------------

/// Crop `k` is the first of `crops` with the id `id`.
pub open spec fn is_first_with_id(crops: Seq<CropRegion>, id: u64, k: int) -> bool {
    &&& 0 <= k < crops.len()
    &&& crops[k].id == id
    &&& forall|j: int| 0 <= j < k ==> #[trigger] crops[j].id != id
}

/// The crop bounds of `s` marked as the crop `s.crop_id` of the sprite `s.id`.
pub open spec fn linked_bounds(s: SpriteAsset) -> CropRegion {
    CropRegion { id: s.crop_id, sprite_id: Some(s.id), ..s.crop_bounds }
}

/// Marks the sprite's crop bounds with its crop id and sprite id, and writes
/// them over the first crop of `crops` with that id, if there is one.
pub fn sync_sprite_crop(sprite: &mut SpriteAsset, crops: &mut Vec<CropRegion>)
    ensures
        *final(sprite) == (SpriteAsset { crop_bounds: linked_bounds(*old(sprite)), ..*old(sprite) }),
        forall|k: int|
            is_first_with_id(old(crops)@, old(sprite).crop_id, k) ==> final(crops)@ == old(
                crops,
            )@.update(k, linked_bounds(*old(sprite))),
        (forall|j: int| 0 <= j < old(crops)@.len() ==> #[trigger] old(crops)@[j].id != old(sprite).crop_id)
            ==> final(crops)@ == old(crops)@,
{
    let mut bounds = sprite.crop_bounds.clone();
    bounds.id = sprite.crop_id;
    bounds.sprite_id = Some(sprite.id);
    let crop_id = sprite.crop_id;
    sprite.crop_bounds = bounds.clone();
    let mut i: usize = 0;
    while i < crops.len()
        invariant
            i <= crops@.len(),
            crops@ == old(crops)@,
            crop_id == old(sprite).crop_id,
            bounds == linked_bounds(*old(sprite)),
            *sprite == (SpriteAsset { crop_bounds: linked_bounds(*old(sprite)), ..*old(sprite) }),
            forall|j: int| 0 <= j < i ==> #[trigger] crops@[j].id != crop_id,
        decreases crops@.len() - i,
    {
        if crops[i].id == crop_id {
            crops.set(i, bounds);
            proof {
                assert forall|k: int| is_first_with_id(old(crops)@, crop_id, k) implies k == i by {
                    if k < i {
                        assert(old(crops)@[k].id != crop_id);
                    }
                    if i < k {
                        assert(old(crops)@[i as int].id != crop_id);
                    }
                }
            }
            return;
        }
        i = i + 1;
    }
    proof {
        assert forall|k: int| !is_first_with_id(old(crops)@, crop_id, k) by {
            if 0 <= k < old(crops)@.len() {
                assert(old(crops)@[k].id != crop_id);
            }
        }
    }
}

/// Unlinks the first crop of `crops` with the id `crop_id` from its sprite, so
/// that it can be extracted again.
pub fn unlink_crop(crops: &mut Vec<CropRegion>, crop_id: u64)
    ensures
        forall|k: int|
            is_first_with_id(old(crops)@, crop_id, k) ==> final(crops)@ == old(crops)@.update(
                k,
                CropRegion { sprite_id: None, ..old(crops)@[k] },
            ),
        (forall|j: int| 0 <= j < old(crops)@.len() ==> #[trigger] old(crops)@[j].id != crop_id)
            ==> final(crops)@ == old(crops)@,
{
    let mut i: usize = 0;
    while i < crops.len()
        invariant
            i <= crops@.len(),
            crops@ == old(crops)@,
            forall|j: int| 0 <= j < i ==> #[trigger] crops@[j].id != crop_id,
        decreases crops@.len() - i,
    {
        if crops[i].id == crop_id {
            let mut unlinked = crops[i].clone();
            unlinked.sprite_id = None;
            crops.set(i, unlinked);
            proof {
                assert forall|k: int| is_first_with_id(old(crops)@, crop_id, k) implies k == i by {
                    if k < i {
                        assert(old(crops)@[k].id != crop_id);
                    }
                    if i < k {
                        assert(old(crops)@[i as int].id != crop_id);
                    }
                }
            }
            return;
        }
        i = i + 1;
    }
    proof {
        assert forall|k: int| !is_first_with_id(old(crops)@, crop_id, k) by {
            if 0 <= k < old(crops)@.len() {
                assert(old(crops)@[k].id != crop_id);
            }
        }
    }
}

/// Removes the first crop of `crops` with the id `crop_id` and returns it; a
/// sprite extracted from it stays as it is.
pub fn remove_crop(crops: &mut Vec<CropRegion>, crop_id: u64) -> (removed: Option<CropRegion>)
    ensures
        forall|k: int|
            is_first_with_id(old(crops)@, crop_id, k) ==> removed == Some(old(crops)@[k])
                && final(crops)@ == old(crops)@.remove(k),
        (forall|j: int| 0 <= j < old(crops)@.len() ==> #[trigger] old(crops)@[j].id != crop_id)
            ==> removed is None && final(crops)@ == old(crops)@,
{
    let mut i: usize = 0;
    while i < crops.len()
        invariant
            i <= crops@.len(),
            crops@ == old(crops)@,
            forall|j: int| 0 <= j < i ==> #[trigger] crops@[j].id != crop_id,
        decreases crops@.len() - i,
    {
        if crops[i].id == crop_id {
            let removed = crops.remove(i);
            proof {
                assert forall|k: int| is_first_with_id(old(crops)@, crop_id, k) implies k == i by {
                    if k < i {
                        assert(old(crops)@[k].id != crop_id);
                    }
                    if i < k {
                        assert(old(crops)@[i as int].id != crop_id);
                    }
                }
            }
            return Some(removed);
        }
        i = i + 1;
    }
    proof {
        assert forall|k: int| !is_first_with_id(old(crops)@, crop_id, k) by {
            if 0 <= k < old(crops)@.len() {
                assert(old(crops)@[k].id != crop_id);
            }
        }
    }
    None
}

/// The ids of the crops that have no sprite yet, in order.
pub open spec fn unextracted_ids(crops: Seq<CropRegion>) -> Seq<u64>
    decreases crops.len(),
{
    if crops.len() == 0 {
        Seq::empty()
    } else {
        let before = unextracted_ids(crops.drop_last());
        if crops.last().sprite_id is None {
            before.push(crops.last().id)
        } else {
            before
        }
    }
}

/// The listed ids are exactly those of the crops without a sprite: each such
/// crop's id is listed, every listed id is that of such a crop, and there is
/// one entry per such crop, none for a crop that has a sprite.
pub proof fn law_unextracted_ids_are_the_crops_without_sprite(crops: Seq<CropRegion>)
    ensures
        unextracted_ids(crops).len() <= crops.len(),
        forall|k: int|
            0 <= k < crops.len() && (#[trigger] crops[k]).sprite_id is None ==> unextracted_ids(crops).contains(
                crops[k].id,
            ),
        forall|j: int|
            #![trigger unextracted_ids(crops)[j]]
            0 <= j < unextracted_ids(crops).len() ==> exists|k: int|
                0 <= k < crops.len() && (#[trigger] crops[k]).sprite_id is None && crops[k].id == unextracted_ids(
                    crops,
                )[j],
        (forall|k: int| 0 <= k < crops.len() ==> (#[trigger] crops[k]).sprite_id is Some) ==> unextracted_ids(
            crops,
        ).len() == 0,
    decreases crops.len(),
{
    if crops.len() > 0 {
        let d = crops.drop_last();
        law_unextracted_ids_are_the_crops_without_sprite(d);
        let ids = unextracted_ids(crops);
        let before = unextracted_ids(d);
        assert forall|k: int| 0 <= k < crops.len() && (#[trigger] crops[k]).sprite_id is None implies ids.contains(
            crops[k].id,
        ) by {
            if k < crops.len() - 1 {
                assert(d[k] == crops[k]);
                let j = choose|j: int| 0 <= j < before.len() && before[j] == d[k].id;
                assert(ids[j] == crops[k].id);
            } else {
                assert(ids[ids.len() - 1] == crops[k].id);
            }
        }
        assert forall|j: int| #![trigger ids[j]] 0 <= j < ids.len() implies exists|k: int|
            0 <= k < crops.len() && (#[trigger] crops[k]).sprite_id is None && crops[k].id == ids[j] by {
            if j < before.len() {
                assert(ids[j] == before[j]);
                let k = choose|k: int| 0 <= k < d.len() && (#[trigger] d[k]).sprite_id is None && d[k].id == before[j];
                assert(crops[k] == d[k]);
            } else {
                assert(crops[crops.len() - 1].id == ids[j]);
            }
        }
        if forall|k: int| 0 <= k < crops.len() ==> (#[trigger] crops[k]).sprite_id is Some {
            assert forall|k: int| 0 <= k < d.len() implies (#[trigger] d[k]).sprite_id is Some by {
                assert(d[k] == crops[k]);
            }
            assert(crops[crops.len() - 1].sprite_id is Some);
        }
    }
}

/// The ids of the crops that have no sprite yet, in order: those that
/// extracting every crop turns into sprites.
pub fn unextracted_crop_ids(crops: &Vec<CropRegion>) -> (ids: Vec<u64>)
    ensures
        ids@ == unextracted_ids(crops@),
{
    let mut ids: Vec<u64> = Vec::new();
    let mut i: usize = 0;
    while i < crops.len()
        invariant
            i <= crops@.len(),
            ids@ == unextracted_ids(crops@.take(i as int)),
        decreases crops@.len() - i,
    {
        proof {
            assert(crops@.take(i + 1).drop_last() =~= crops@.take(i as int));
        }
        if crops[i].sprite_id.is_none() {
            ids.push(crops[i].id);
        }
        i = i + 1;
    }
    proof {
        assert(crops@.take(i as int) =~= crops@);
    }
    ids
}

// ---------------------------------------------------------------------------
// Turning a source with its crops and sprites
// ---------------------------------------------------------------------------

/// Moves every crop with its source image as the image turns a quarter
/// clockwise; `old_image_height` is the height before the turn.
pub fn rotate_crops_clockwise(crops: &mut Vec<CropRegion>, old_image_height: u32)
    ensures
        final(crops)@.len() == old(crops)@.len(),
        forall|k: int|
            0 <= k < old(crops)@.len() ==> #[trigger] final(crops)@[k] == rotated_clockwise(
                old(crops)@[k],
                old_image_height as int,
            ),
{
    let mut i: usize = 0;
    while i < crops.len()
        invariant
            i <= crops@.len(),
            crops@.len() == old(crops)@.len(),
            forall|k: int|
                0 <= k < i ==> #[trigger] crops@[k] == rotated_clockwise(old(crops)@[k], old_image_height as int),
            forall|k: int| i <= k < crops@.len() ==> #[trigger] crops@[k] == old(crops)@[k],
        decreases crops@.len() - i,
    {
        let mut c = crops[i].clone();
        rotate_crop_clockwise(&mut c, old_image_height);
        crops.set(i, c);
        i = i + 1;
    }
}

/// Cutting a crop that lies inside an image and turning the cut-out a
/// quarter clockwise gives the cut-out of the turned image at the crop moved
/// with the turn.
pub proof fn law_turning_commutes_with_cropping(
    m: RgbaModel,
    c: CropRegion,
    cut: RgbaModel,
    turned: RgbaModel,
    turned_cut: RgbaModel,
)
    requires
        crop_inside(c, m.width as int, m.height as int),
        m.height <= u32::MAX,
        c.width >= 1,
        c.height >= 1,
        is_crop_of(m, c, cut),
        is_turned_clockwise(m, turned),
        is_turned_clockwise(cut, turned_cut),
    ensures
        is_crop_of(turned, rotated_clockwise(c, m.height as int), turned_cut),
{
    let hm = m.height as int;
    let rc = rotated_clockwise(c, hm);
    assert(rc.x == hm - c.y - c.height);
    assert forall|i: int, j: int, k: int|
        0 <= i < rc.width && 0 <= j < rc.height && 0 <= k < 4 implies #[trigger] turned_cut.ch(
            turned_cut.index_of(i, j),
            k,
        ) == turned.ch(turned.index_of(rc.x + i, rc.y + j), k) by {
        assert(turned_cut.ch(turned_cut.index_of(i, j), k) == cut.ch(cut.index_of(j, c.height - 1 - i), k));
        assert(cut.ch(cut.index_of(j, c.height - 1 - i), k) == m.ch(
            m.index_of(c.x + j, c.y + (c.height - 1 - i)),
            k,
        ));
        assert(turned.ch(turned.index_of(rc.x + i, rc.y + j), k) == m.ch(
            m.index_of(rc.y + j, hm - 1 - (rc.x + i)),
            k,
        ));
    }
}

/// A sprite cut from inside its source stays in step when the source turns:
/// after `rotate_source_clockwise`, its original image is still the cut-out
/// of the (turned) source at its (moved) crop bounds.
pub proof fn law_turned_sprite_stays_in_step(
    source_before: SourceImage,
    source_after: SourceImage,
    sprite_before: SpriteAsset,
    sprite_after: SpriteAsset,
)
    requires
        is_turned_source(source_before, source_after),
        is_turned_sprite(sprite_before, sprite_after, source_before.image@.height as int),
        source_before.image@.well_formed(),
        crop_inside(
            sprite_before.crop_bounds,
            source_before.image@.width as int,
            source_before.image@.height as int,
        ),
        sprite_before.crop_bounds.width >= 1,
        sprite_before.crop_bounds.height >= 1,
        is_crop_of(source_before.image@, sprite_before.crop_bounds, sprite_before.original@),
    ensures
        is_crop_of(source_after.image@, sprite_after.crop_bounds, sprite_after.original@),
{
    law_turning_commutes_with_cropping(
        source_before.image@,
        sprite_before.crop_bounds,
        sprite_before.original@,
        source_after.image@,
        sprite_after.original@,
    );
}

/// Two's-complement negation of an `i32`: `i32::MIN` has no positive
/// counterpart and stays `i32::MIN`.
pub open spec fn wrapping_neg(v: i32) -> i32 {
    if v == i32::MIN {
        i32::MIN
    } else {
        (-v) as i32
    }
}

/// `after` is `before` turned with its source a quarter clockwise, the
/// source being `old_source_height` high before the turn: the crop bounds
/// move as `rotated_clockwise` says, both images turn, the pivot offset turns
/// with them, and the edit history, which holds unturned states, is empty.
pub open spec fn is_turned_sprite(before: SpriteAsset, after: SpriteAsset, old_source_height: int) -> bool {
    &&& after.same_settings(before)
    &&& after.crop_bounds == rotated_clockwise(before.crop_bounds, old_source_height)
    &&& is_turned_clockwise(before.original@, after.original@)
    &&& is_turned_clockwise(before.working@, after.working@)
    &&& after.offset_x == before.offset_y
    &&& after.offset_y == wrapping_neg(before.offset_x)
    &&& after.texture_dirty
    &&& after.undo@.len() == 0
    &&& after.redo@.len() == 0
}

/// Turns a sprite with its source a quarter clockwise; see `is_turned_sprite`.
pub fn rotate_sprite_clockwise(sprite: &mut SpriteAsset, old_source_height: u32)
    ensures
        is_turned_sprite(*old(sprite), *final(sprite), old_source_height as int),
{
    rotate_crop_clockwise(&mut sprite.crop_bounds, old_source_height);
    sprite.original = rotate_clockwise(&sprite.original);
    sprite.working = rotate_clockwise(&sprite.working);
    let old_x = sprite.offset_x;
    sprite.offset_x = sprite.offset_y;
    sprite.offset_y = if old_x == i32::MIN {
        i32::MIN
    } else {
        -old_x
    };
    sprite.texture_dirty = true;
    sprite.undo.clear();
    sprite.redo.clear();
}

/// `after` is the source `before` turned a quarter clockwise: the image turns,
/// the turn count goes up by one modulo four, and every crop moves with the
/// image.
pub open spec fn is_turned_source(before: SourceImage, after: SourceImage) -> bool {
    &&& after.id == before.id
    &&& after.path@ == before.path@
    &&& after.exif_orientation_applied == before.exif_orientation_applied
    &&& after.quarter_turns == (before.quarter_turns + 1) % 4
    &&& is_turned_clockwise(before.image@, after.image@)
    &&& after.crops@.len() == before.crops@.len()
    &&& forall|k: int|
        0 <= k < before.crops@.len() ==> #[trigger] after.crops@[k] == rotated_clockwise(
            before.crops@[k],
            before.image@.height as int,
        )
}

/// Turns a source a quarter clockwise, and with it every sprite cut from it:
/// sprites of other sources stay as they are.
pub fn rotate_source_clockwise(source: &mut SourceImage, sprites: &mut Vec<SpriteAsset>)
    ensures
        is_turned_source(*old(source), *final(source)),
        final(sprites)@.len() == old(sprites)@.len(),
        forall|k: int|
            0 <= k < old(sprites)@.len() ==> if old(sprites)@[k].source_id == old(source).id {
                is_turned_sprite(
                    old(sprites)@[k],
                    #[trigger] final(sprites)@[k],
                    old(source).image@.height as int,
                )
            } else {
                final(sprites)@[k] == old(sprites)@[k]
            },
{
    let old_height = source.image.height();
    let turned = rotate_clockwise(&source.image);
    source.image = turned;
    source.quarter_turns = (source.quarter_turns % 4 + 1) % 4;
    rotate_crops_clockwise(&mut source.crops, old_height);
    let id = source.id;
    let mut i: usize = 0;
    while i < sprites.len()
        invariant
            i <= sprites@.len(),
            sprites@.len() == old(sprites)@.len(),
            id == old(source).id,
            old_height == old(source).image@.height,
            forall|k: int|
                0 <= k < i ==> if old(sprites)@[k].source_id == id {
                    is_turned_sprite(old(sprites)@[k], #[trigger] sprites@[k], old_height as int)
                } else {
                    sprites@[k] == old(sprites)@[k]
                },
            forall|k: int| i <= k < sprites@.len() ==> #[trigger] sprites@[k] == old(sprites)@[k],
        decreases sprites@.len() - i,
    {
        let mut sprite = sprites.remove(i);
        if sprite.source_id == id {
            rotate_sprite_clockwise(&mut sprite, old_height);
        }
        let ghost before = sprites@;
        sprites.insert(i, sprite);
        proof {
            assert forall|k: int| 0 <= k < sprites@.len() && k != i implies #[trigger] sprites@[k] == old(
                sprites,
            )@[k] || k < i by {
                if k > i {
                    assert(sprites@[k] == before[k - 1]);
                }
            }
        }
        i = i + 1;
    }
}

} // verus!
