//! Crop rectangles on source images: rotation with the image, keyboard
//! nudging, squaring, pivot offsets across re-framing, and re-framing a sprite
//! from its source while keeping its edits.

use vstd::prelude::*;

use crate::image_ops::{crop_bounds, crop_rgba, sat_sub};
use crate::model::CropRegion;
use crate::pixels::{lemma_index_injective, lemma_pixel_index, RgbaBuffer, RgbaModel};

verus! {

/// `a + b`, capped at `u32::MAX`.
pub open spec fn sat_add_u32(a: int, b: int) -> int {
    if a + b <= u32::MAX {
        a + b
    } else {
        u32::MAX as int
    }
}

pub open spec fn min_int(a: int, b: int) -> int {
    if a <= b {
        a
    } else {
        b
    }
}

pub open spec fn max_int(a: int, b: int) -> int {
    if a >= b {
        a
    } else {
        b
    }
}

/// The crop lies inside a `w` by `h` image.
pub open spec fn crop_inside(c: CropRegion, w: int, h: int) -> bool {
    c.x + c.width <= w && c.y + c.height <= h
}

/// The crop after its image turns a quarter clockwise; `h` is the image
/// height before the turn.
pub open spec fn rotated_clockwise(c: CropRegion, h: int) -> CropRegion {
    CropRegion {
        x: sat_sub(h, sat_add_u32(c.y as int, c.height as int)) as u32,
        y: c.x,
        width: c.height,
        height: c.width,
        ..c
    }
}

/// Moves a crop with its image when the image turns a quarter clockwise.
pub fn rotate_crop_clockwise(crop: &mut CropRegion, old_image_height: u32)
    ensures
        *final(crop) == rotated_clockwise(*old(crop), old_image_height as int),
{
    let old_x = crop.x;
    crop.x = old_image_height.saturating_sub(crop.y.saturating_add(crop.height));
    crop.y = old_x;
    let w = crop.width;
    crop.width = crop.height;
    crop.height = w;
}

/// A crop inside a `w` by `h` image stays inside the turned `h` by `w` image.
pub proof fn law_rotated_crop_stays_inside(c: CropRegion, w: int, h: int)
    requires
        crop_inside(c, w, h),
        h <= u32::MAX,
    ensures
        crop_inside(rotated_clockwise(c, h), h, w),
{
}

/// Four quarter turns bring a crop that lies inside its image back to where
/// it started; the heights passed are those of the image before each turn.
pub proof fn law_four_rotations_restore_crop(c: CropRegion, w: int, h: int)
    requires
        crop_inside(c, w, h),
        w <= u32::MAX,
        h <= u32::MAX,
    ensures
        rotated_clockwise(rotated_clockwise(rotated_clockwise(rotated_clockwise(c, h), w), h), w)
            == c,
{
    law_rotated_crop_stays_inside(c, w, h);
    let c1 = rotated_clockwise(c, h);
    law_rotated_crop_stays_inside(c1, h, w);
    let c2 = rotated_clockwise(c1, w);
    law_rotated_crop_stays_inside(c2, w, h);
}

/// The crop after one keyboard step. With `resize` the left and up keys
/// shrink it by a pixel (never below one) and the right and down keys grow
/// it by a pixel (never past the image edge); otherwise the keys move it by a
/// pixel without leaving the image.
pub open spec fn keyed_crop(
    c: CropRegion,
    w: int,
    h: int,
    resize: bool,
    left: bool,
    right: bool,
    up: bool,
    down: bool,
) -> CropRegion {
    if resize {
        let width1 = if left {
            max_int(sat_sub(c.width as int, 1), 1)
        } else {
            c.width as int
        };
        let width2 = if right {
            min_int(sat_add_u32(width1, 1), max_int(sat_sub(w, c.x as int), 1))
        } else {
            width1
        };
        let height1 = if up {
            max_int(sat_sub(c.height as int, 1), 1)
        } else {
            c.height as int
        };
        let height2 = if down {
            min_int(sat_add_u32(height1, 1), max_int(sat_sub(h, c.y as int), 1))
        } else {
            height1
        };
        CropRegion { width: width2 as u32, height: height2 as u32, ..c }
    } else {
        let x1 = if left {
            sat_sub(c.x as int, 1)
        } else {
            c.x as int
        };
        let x2 = if right {
            min_int(sat_add_u32(x1, 1), sat_sub(w, c.width as int))
        } else {
            x1
        };
        let y1 = if up {
            sat_sub(c.y as int, 1)
        } else {
            c.y as int
        };
        let y2 = if down {
            min_int(sat_add_u32(y1, 1), sat_sub(h, c.height as int))
        } else {
            y1
        };
        CropRegion { x: x2 as u32, y: y2 as u32, ..c }
    }
}

/// Moves or resizes a crop by one pixel in each direction whose key is down.
pub fn adjust_crop_with_keys(
    crop: &mut CropRegion,
    source_w: u32,
    source_h: u32,
    resize: bool,
    left: bool,
    right: bool,
    up: bool,
    down: bool,
)
    ensures
        *final(crop) == keyed_crop(
            *old(crop),
            source_w as int,
            source_h as int,
            resize,
            left,
            right,
            up,
            down,
        ),
{
    if resize {
        if left {
            crop.width = crop.width.saturating_sub(1).max(1);
        }
        if right {
            crop.width = crop.width.saturating_add(1).min(source_w.saturating_sub(crop.x).max(1));
        }
        if up {
            crop.height = crop.height.saturating_sub(1).max(1);
        }
        if down {
            crop.height = crop.height.saturating_add(1).min(source_h.saturating_sub(crop.y).max(1));
        }
    } else {
        if left {
            crop.x = crop.x.saturating_sub(1);
        }
        if right {
            crop.x = crop.x.saturating_add(1).min(source_w.saturating_sub(crop.width));
        }
        if up {
            crop.y = crop.y.saturating_sub(1);
        }
        if down {
            crop.y = crop.y.saturating_add(1).min(source_h.saturating_sub(crop.height));
        }
    }
}

/// Keyboard steps keep a crop that lies inside its image inside it, and
/// resizing keeps both sides at least one pixel.
pub proof fn law_keyed_crop_stays_inside(
    c: CropRegion,
    w: int,
    h: int,
    resize: bool,
    left: bool,
    right: bool,
    up: bool,
    down: bool,
)
    requires
        crop_inside(c, w, h),
        c.width >= 1,
        c.height >= 1,
        w <= u32::MAX,
        h <= u32::MAX,
    ensures
        crop_inside(keyed_crop(c, w, h, resize, left, right, up, down), w, h),
        keyed_crop(c, w, h, resize, left, right, up, down).width >= 1,
        keyed_crop(c, w, h, resize, left, right, up, down).height >= 1,
{
}

/// One keyboard step moves or resizes a crop inside its image by exactly one
/// pixel where there is room, and changes nothing else. Moving: left and up
/// take one off `x` and `y` (not below zero), right and down add one while
/// the crop stays inside; the size stays. Resizing: left and up take one off
/// the width and height (not below one), right and down add one while the
/// crop stays inside; the position stays. No key changes nothing, and
/// opposite keys together undo each other where there is room both ways.
pub proof fn law_key_step_is_one_pixel(c: CropRegion, w: int, h: int)
    requires
        crop_inside(c, w, h),
        c.width >= 1,
        c.height >= 1,
        w <= u32::MAX,
        h <= u32::MAX,
    ensures
        keyed_crop(c, w, h, false, true, false, false, false) == (CropRegion {
            x: if c.x >= 1 { (c.x - 1) as u32 } else { 0 },
            ..c
        }),
        keyed_crop(c, w, h, false, false, true, false, false) == (CropRegion {
            x: if c.x + c.width < w { (c.x + 1) as u32 } else { c.x },
            ..c
        }),
        keyed_crop(c, w, h, false, false, false, true, false) == (CropRegion {
            y: if c.y >= 1 { (c.y - 1) as u32 } else { 0 },
            ..c
        }),
        keyed_crop(c, w, h, false, false, false, false, true) == (CropRegion {
            y: if c.y + c.height < h { (c.y + 1) as u32 } else { c.y },
            ..c
        }),
        keyed_crop(c, w, h, true, true, false, false, false) == (CropRegion {
            width: if c.width >= 2 { (c.width - 1) as u32 } else { 1 },
            ..c
        }),
        keyed_crop(c, w, h, true, false, true, false, false) == (CropRegion {
            width: if c.x + c.width < w { (c.width + 1) as u32 } else { c.width },
            ..c
        }),
        keyed_crop(c, w, h, true, false, false, true, false) == (CropRegion {
            height: if c.height >= 2 { (c.height - 1) as u32 } else { 1 },
            ..c
        }),
        keyed_crop(c, w, h, true, false, false, false, true) == (CropRegion {
            height: if c.y + c.height < h { (c.height + 1) as u32 } else { c.height },
            ..c
        }),
        keyed_crop(c, w, h, false, false, false, false, false) == c,
        keyed_crop(c, w, h, true, false, false, false, false) == c,
        c.x >= 1 ==> keyed_crop(c, w, h, false, true, true, false, false) == c,
        c.y >= 1 ==> keyed_crop(c, w, h, false, false, false, true, true) == c,
        c.width >= 2 ==> keyed_crop(c, w, h, true, true, true, false, false) == c,
        c.height >= 2 ==> keyed_crop(c, w, h, true, false, false, true, true) == c,
{
}

/// The side of the square that `set_crop_square_side` makes: the requested
/// side, no longer than fits right of and below the crop's origin (but at
/// least one).
pub open spec fn square_side(c: CropRegion, requested: int, w: int, h: int) -> int {
    max_int(
        min_int(min_int(requested, max_int(sat_sub(w, c.x as int), 1)), max_int(sat_sub(h, c.y as int), 1)),
        1,
    )
}

/// Makes the crop a square with the requested side, shrunk to fit the image.
pub fn set_crop_square_side(crop: &mut CropRegion, requested_side: u32, image_width: u32, image_height: u32)
    ensures
        *final(crop) == (CropRegion {
            width: square_side(*old(crop), requested_side as int, image_width as int, image_height as int) as u32,
            height: square_side(*old(crop), requested_side as int, image_width as int, image_height as int) as u32,
            ..*old(crop)
        }),
{
    let side = requested_side.min(image_width.saturating_sub(crop.x).max(1)).min(
        image_height.saturating_sub(crop.y).max(1),
    ).max(1);
    crop.width = side;
    crop.height = side;
}

/// Makes the crop a square whose side is its longer side, shrunk to fit the
/// image.
pub fn reshape_crop_square(crop: &mut CropRegion, image_width: u32, image_height: u32)
    ensures
        *final(crop) == (CropRegion {
            width: square_side(
                *old(crop),
                max_int(old(crop).width as int, old(crop).height as int),
                image_width as int,
                image_height as int,
            ) as u32,
            height: square_side(
                *old(crop),
                max_int(old(crop).width as int, old(crop).height as int),
                image_width as int,
                image_height as int,
            ) as u32,
            ..*old(crop)
        }),
{
    let side = crop.width.max(crop.height);
    set_crop_square_side(crop, side, image_width, image_height);
}

/// After a keyboard resize of a square crop, squares it again on the side the
/// keys changed: its width when that differs from `old_width`, else its height.
pub fn square_after_key_resize(crop: &mut CropRegion, old_width: u32, image_width: u32, image_height: u32)
    ensures
        *final(crop) == (CropRegion {
            width: square_side(
                *old(crop),
                if old(crop).width != old_width {
                    old(crop).width as int
                } else {
                    old(crop).height as int
                },
                image_width as int,
                image_height as int,
            ) as u32,
            height: square_side(
                *old(crop),
                if old(crop).width != old_width {
                    old(crop).width as int
                } else {
                    old(crop).height as int
                },
                image_width as int,
                image_height as int,
            ) as u32,
            ..*old(crop)
        }),
{
    let side = if crop.width != old_width {
        crop.width
    } else {
        crop.height
    };
    set_crop_square_side(crop, side, image_width, image_height);
}

/// The crop with its origin moved left and up just enough that its current
/// size fits right of and below it (to zero when it cannot fit at all).
pub open spec fn clamped_origin(c: CropRegion, w: int, h: int) -> CropRegion {
    CropRegion {
        x: min_int(c.x as int, sat_sub(w, c.width as int)) as u32,
        y: min_int(c.y as int, sat_sub(h, c.height as int)) as u32,
        ..c
    }
}

/// Moves the crop's origin so that its size fits in the image, as
/// `clamped_origin` says; done before its values are edited.
pub fn clamp_crop_origin(crop: &mut CropRegion, image_width: u32, image_height: u32)
    ensures
        *final(crop) == clamped_origin(*old(crop), image_width as int, image_height as int),
{
    crop.x = crop.x.min(image_width.saturating_sub(crop.width));
    crop.y = crop.y.min(image_height.saturating_sub(crop.height));
}

/// The crop with its width and height cut to what fits right of and below
/// its origin, but at least one.
pub open spec fn fitted_size(c: CropRegion, w: int, h: int) -> CropRegion {
    CropRegion {
        width: max_int(min_int(c.width as int, sat_sub(w, c.x as int)), 1) as u32,
        height: max_int(min_int(c.height as int, sat_sub(h, c.y as int)), 1) as u32,
        ..c
    }
}

/// Cuts the crop's size to fit the image after its values were edited, as
/// `fitted_size` says.
pub fn fit_crop_size(crop: &mut CropRegion, image_width: u32, image_height: u32)
    ensures
        *final(crop) == fitted_size(*old(crop), image_width as int, image_height as int),
{
    crop.width = crop.width.min(image_width.saturating_sub(crop.x)).max(1);
    crop.height = crop.height.min(image_height.saturating_sub(crop.y)).max(1);
}

/// A crop whose origin lies inside the image lies inside it once its size is
/// fitted, and is at least one pixel wide and high.
pub proof fn law_fitted_crop_inside(c: CropRegion, w: int, h: int)
    requires
        c.x < w,
        c.y < h,
    ensures
        crop_inside(fitted_size(c, w, h), w, h),
        fitted_size(c, w, h).width >= 1,
        fitted_size(c, w, h).height >= 1,
{
}

/// The side a square crop asks for after its values were edited from
/// `old_width` by `old_height`: the edited width, else the edited height,
/// else the longer side.
pub open spec fn edited_square_request(c: CropRegion, old_width: int, old_height: int) -> int {
    if c.width != old_width {
        c.width as int
    } else if c.height != old_height {
        c.height as int
    } else {
        max_int(c.width as int, c.height as int)
    }
}

/// Squares a crop after its values were edited, on the side that was edited;
/// see `edited_square_request` and `square_side`.
pub fn square_after_edit(
    crop: &mut CropRegion,
    old_width: u32,
    old_height: u32,
    image_width: u32,
    image_height: u32,
)
    ensures
        *final(crop) == (CropRegion {
            width: square_side(
                *old(crop),
                edited_square_request(*old(crop), old_width as int, old_height as int),
                image_width as int,
                image_height as int,
            ) as u32,
            height: square_side(
                *old(crop),
                edited_square_request(*old(crop), old_width as int, old_height as int),
                image_width as int,
                image_height as int,
            ) as u32,
            ..*old(crop)
        }),
{
    let requested_side = if crop.width != old_width {
        crop.width
    } else if crop.height != old_height {
        crop.height
    } else {
        crop.width.max(crop.height)
    };
    set_crop_square_side(crop, requested_side, image_width, image_height);
}

/// A squared crop whose origin lies inside the image is a square inside the
/// image.
pub proof fn law_square_fits_image(c: CropRegion, requested: int, w: int, h: int)
    requires
        c.x < w,
        c.y < h,
        w <= u32::MAX,
        h <= u32::MAX,
        requested >= 0,
    ensures
        ({
            let side = square_side(c, requested, w, h);
            &&& 1 <= side
            &&& c.x + side <= w
            &&& c.y + side <= h
        }),
{
}

/// Clamping the origin before an edit only moves the crop left and up, never
/// changes its size, leaves a crop that lies inside the image where it is,
/// and brings a crop that is no larger than the image inside it.
pub proof fn law_clamped_origin_moves_back_inside(c: CropRegion, w: int, h: int)
    requires
        0 <= w <= u32::MAX,
        0 <= h <= u32::MAX,
    ensures
        ({
            let d = clamped_origin(c, w, h);
            &&& d.x <= c.x && d.y <= c.y
            &&& d.width == c.width && d.height == c.height && d.id == c.id
            &&& crop_inside(c, w, h) ==> d == c
            &&& c.width <= w && c.height <= h ==> crop_inside(d, w, h)
            &&& c.width <= w && c.x + c.width > w ==> d.x + d.width == w
            &&& c.height <= h && c.y + c.height > h ==> d.y + d.height == h
        }),
{
}

/// Fitting the size after an edit never moves the crop and never makes it
/// larger (beyond the one-pixel minimum); a crop of at least one pixel that
/// lies inside the image stays as it is, and a side that sticks out is cut at
/// the image edge.
pub proof fn law_fitted_size_only_cuts(c: CropRegion, w: int, h: int)
    requires
        0 <= w <= u32::MAX,
        0 <= h <= u32::MAX,
    ensures
        ({
            let d = fitted_size(c, w, h);
            &&& d.x == c.x && d.y == c.y && d.id == c.id
            &&& d.width <= c.width || d.width == 1
            &&& d.height <= c.height || d.height == 1
            &&& crop_inside(c, w, h) && c.width >= 1 && c.height >= 1 ==> d == c
            &&& c.x < w && c.x + c.width > w ==> d.x + d.width == w
            &&& c.y < h && c.y + c.height > h ==> d.y + d.height == h
        }),
{
}

/// A square gets the requested side whenever that side fits right of and
/// below the crop's origin; otherwise the largest side that fits (at least
/// one). It is never larger than requested, unless one pixel was requested
/// less.
pub proof fn law_square_side_is_the_request_where_it_fits(c: CropRegion, requested: int, w: int, h: int)
    requires
        c.x < w,
        c.y < h,
        w <= u32::MAX,
        h <= u32::MAX,
        requested >= 1,
    ensures
        ({
            let side = square_side(c, requested, w, h);
            &&& side <= requested
            &&& c.x + requested <= w && c.y + requested <= h ==> side == requested
            &&& side < requested ==> c.x + side == w || c.y + side == h
        }),
{
}

/// After an edit a square crop is squared on the side that was edited: a
/// changed width is the new side; else a changed height; with neither
/// changed, the longer side.
pub proof fn law_square_follows_the_edited_side(c: CropRegion, old_width: int, old_height: int)
    ensures
        c.width != old_width ==> edited_square_request(c, old_width, old_height) == c.width,
        c.width == old_width && c.height != old_height ==> edited_square_request(c, old_width, old_height)
            == c.height,
        c.width == old_width && c.height == old_height ==> edited_square_request(c, old_width, old_height)
            >= c.width && edited_square_request(c, old_width, old_height) >= c.height && (
        edited_square_request(c, old_width, old_height) == c.width || edited_square_request(
            c,
            old_width,
            old_height,
        ) == c.height),
{
}

/// `n / 2` rounded to the nearest integer, halves away from zero.
pub open spec fn half_rounded(n: int) -> int {
    if n >= 0 {
        (n + 1) / 2
    } else {
        -((-n + 1) / 2)
    }
}

/// `v` clamped to the range of `i32`.
pub open spec fn clamp_i32(v: int) -> int {
    if v < i32::MIN {
        i32::MIN as int
    } else if v > i32::MAX {
        i32::MAX as int
    } else {
        v
    }
}

/// The horizontal pivot offset after re-framing: the pivot, measured from the
/// centre of the old `old_width`-wide image, keeps its place in the source
/// when the new `new_width`-wide image starts `crop_x` pixels further right.
pub open spec fn reframed_offset_x(offset_x: int, old_width: int, crop_x: int, new_width: int) -> int {
    clamp_i32(half_rounded(old_width - new_width + 2 * (offset_x - crop_x)))
}

/// The vertical pivot offset after re-framing; offsets grow upwards.
pub open spec fn reframed_offset_y(offset_y: int, old_height: int, crop_y: int, new_height: int) -> int {
    clamp_i32(half_rounded(new_height - old_height + 2 * (offset_y + crop_y)))
}

fn half_rounded_i64(n: i64) -> (r: i64)
    requires
        -0x1_0000_0000_0000 <= n <= 0x1_0000_0000_0000,
    ensures
        r == half_rounded(n as int),
{
    if n >= 0 {
        (n + 1) / 2
    } else {
        -((-n + 1) / 2)
    }
}

fn clamp_to_i32(v: i64) -> (r: i32)
    ensures
        r == clamp_i32(v as int),
{
    if v < i32::MIN as i64 {
        i32::MIN
    } else if v > i32::MAX as i64 {
        i32::MAX
    } else {
        v as i32
    }
}

/// Keeps a sprite's pivot on the same source pixel when its image is
/// re-framed: the new image is `new_width` by `new_height` and its origin lies
/// at `(crop_x, crop_y)` in the coordinates of the old one.
pub fn adjust_offsets_after_sprite_reframe(
    offset_x: &mut i32,
    offset_y: &mut i32,
    old_width: u32,
    old_height: u32,
    crop_x: i32,
    crop_y: i32,
    new_width: u32,
    new_height: u32,
)
    ensures
        *final(offset_x) == reframed_offset_x(*old(offset_x) as int, old_width as int, crop_x as int, new_width as int),
        *final(offset_y) == reframed_offset_y(*old(offset_y) as int, old_height as int, crop_y as int, new_height as int),
{
    let dx: i64 = old_width as i64 - new_width as i64 + 2 * (*offset_x as i64 - crop_x as i64);
    let dy: i64 = new_height as i64 - old_height as i64 + 2 * (*offset_y as i64 + crop_y as i64);
    *offset_x = clamp_to_i32(half_rounded_i64(dx));
    *offset_y = clamp_to_i32(half_rounded_i64(dy));
}

/// `adjust_offsets_after_sprite_reframe` for a crop inside the old image,
/// whose origin is given as unsigned coordinates.
pub fn adjust_offsets_after_sprite_crop(
    offset_x: &mut i32,
    offset_y: &mut i32,
    old_width: u32,
    old_height: u32,
    crop_x: u32,
    crop_y: u32,
    new_width: u32,
    new_height: u32,
)
    ensures
        *final(offset_x) == reframed_offset_x(*old(offset_x) as int, old_width as int, (crop_x as i32) as int, new_width as int),
        *final(offset_y) == reframed_offset_y(*old(offset_y) as int, old_height as int, (crop_y as i32) as int, new_height as int),
{
    adjust_offsets_after_sprite_reframe(
        offset_x,
        offset_y,
        old_width,
        old_height,
        crop_x as i32,
        crop_y as i32,
        new_width,
        new_height,
    );
}

/// Re-framing keeps the pivot on the same source position: measured in the
/// old image, the pivot is at `old_width / 2 + offset_x` before and at
/// `crop_x + new_width / 2 + new_offset_x` after (twice these, to stay in
/// whole numbers), whenever the size change is even and the offset fits an
/// `i32`.
pub proof fn law_reframe_keeps_pivot_x(offset_x: int, old_width: int, crop_x: int, new_width: int)
    requires
        (old_width - new_width) % 2 == 0,
        i32::MIN <= offset_x + (old_width - new_width) / 2 - crop_x <= i32::MAX,
    ensures
        2 * crop_x + new_width + 2 * reframed_offset_x(offset_x, old_width, crop_x, new_width)
            == old_width + 2 * offset_x,
{
    let k = (old_width - new_width) / 2;
    assert(old_width - new_width == 2 * k);
    assert(half_rounded(2 * (k + offset_x - crop_x)) == k + offset_x - crop_x);
}

/// The vertical counterpart: the pivot sits `old_height / 2 - offset_y` from
/// the top of the old image before and `crop_y + new_height / 2 -
/// new_offset_y` after.
pub proof fn law_reframe_keeps_pivot_y(offset_y: int, old_height: int, crop_y: int, new_height: int)
    requires
        (new_height - old_height) % 2 == 0,
        i32::MIN <= (new_height - old_height) / 2 + offset_y + crop_y <= i32::MAX,
    ensures
        2 * crop_y + new_height - 2 * reframed_offset_y(offset_y, old_height, crop_y, new_height)
            == old_height - 2 * offset_y,
{
    let k = (new_height - old_height) / 2;
    assert(new_height - old_height == 2 * k);
    assert(half_rounded(2 * (k + offset_y + crop_y)) == k + offset_y + crop_y);
}

/// `v` clamped to `lo ..= hi`.
pub open spec fn clamp_int(v: int, lo: int, hi: int) -> int {
    if v < lo {
        lo
    } else if v > hi {
        hi
    } else {
        v
    }
}

fn clamp_i64(v: i64, lo: i64, hi: i64) -> (r: i64)
    requires
        lo <= hi,
    ensures
        r == clamp_int(v as int, lo as int, hi as int),
{
    if v < lo {
        lo
    } else if v > hi {
        hi
    } else {
        v
    }
}

/// The source bounds a sprite is cropped to when the rectangle from
/// `(local_x0, local_y0)` to `(local_x1, local_y1)`, in the sprite's own
/// pixels, is chosen: moved onto the source by the sprite's current bounds
/// and clamped so that it keeps at least one pixel inside the source.
pub open spec fn sprite_crop_bounds_for(
    old_bounds: CropRegion,
    local_x0: int,
    local_y0: int,
    local_x1: int,
    local_y1: int,
    w: int,
    h: int,
) -> CropRegion {
    let x0 = clamp_int(old_bounds.x + local_x0, 0, w - 1);
    let y0 = clamp_int(old_bounds.y + local_y0, 0, h - 1);
    let x1 = clamp_int(old_bounds.x + local_x1, x0 + 1, w);
    let y1 = clamp_int(old_bounds.y + local_y1, y0 + 1, h);
    CropRegion { x: x0 as u32, y: y0 as u32, width: (x1 - x0) as u32, height: (y1 - y0) as u32, ..old_bounds }
}

/// The new source bounds of a sprite cropped to the rectangle from
/// `(local_x0, local_y0)` to `(local_x1, local_y1)` of its own pixels; see
/// `sprite_crop_bounds_for`. The result lies inside the source and is at
/// least one pixel wide and high.
pub fn sprite_crop_bounds(
    old_bounds: &CropRegion,
    local_x0: i32,
    local_y0: i32,
    local_x1: i32,
    local_y1: i32,
    source_w: u32,
    source_h: u32,
) -> (b: CropRegion)
    requires
        source_w >= 1,
        source_h >= 1,
    ensures
        b == sprite_crop_bounds_for(
            *old_bounds,
            local_x0 as int,
            local_y0 as int,
            local_x1 as int,
            local_y1 as int,
            source_w as int,
            source_h as int,
        ),
        crop_inside(b, source_w as int, source_h as int),
        b.width >= 1,
        b.height >= 1,
{
    let w = source_w as i64;
    let h = source_h as i64;
    let x0 = clamp_i64(old_bounds.x as i64 + local_x0 as i64, 0, w - 1);
    let y0 = clamp_i64(old_bounds.y as i64 + local_y0 as i64, 0, h - 1);
    let x1 = clamp_i64(old_bounds.x as i64 + local_x1 as i64, x0 + 1, w);
    let y1 = clamp_i64(old_bounds.y as i64 + local_y1 as i64, y0 + 1, h);
    CropRegion {
        id: old_bounds.id,
        x: x0 as u32,
        y: y0 as u32,
        width: (x1 - x0) as u32,
        height: (y1 - y0) as u32,
        sprite_id: old_bounds.sprite_id,
    }
}

/// The part of the source covered both by the old sprite (its image of
/// `old_w` by `old_h` placed at the old crop's origin) and by the new crop:
/// `(left, top, right, bottom)`, right and bottom exclusive.
pub open spec fn reframe_overlap(old_bounds: CropRegion, old_w: int, old_h: int, new_bounds: CropRegion) -> (int, int, int, int) {
    (
        max_int(old_bounds.x as int, new_bounds.x as int),
        max_int(old_bounds.y as int, new_bounds.y as int),
        min_int(
            sat_add_u32(old_bounds.x as int, old_w),
            sat_add_u32(new_bounds.x as int, new_bounds.width as int),
        ),
        min_int(
            sat_add_u32(old_bounds.y as int, old_h),
            sat_add_u32(new_bounds.y as int, new_bounds.height as int),
        ),
    )
}

/// The overlap, shifted to the new crop's origin, lies within the block that
/// cropping the source at the new bounds yields.
pub open spec fn reframe_fits(source: RgbaModel, old_w: int, old_h: int, old_bounds: CropRegion, new_bounds: CropRegion) -> bool {
    let (left, top, right, bottom) = reframe_overlap(old_bounds, old_w, old_h, new_bounds);
    let (cx, cy, cw, ch) = crop_bounds(
        source.width as int,
        source.height as int,
        new_bounds.x as int,
        new_bounds.y as int,
        new_bounds.width as int,
        new_bounds.height as int,
    );
    left < right && top < bottom ==> right - new_bounds.x <= cw && bottom - new_bounds.y <= ch
}

/// New bounds that lie inside the source, at least one pixel wide and high,
/// always fit for re-framing, whatever the old frame was.
pub proof fn law_bounds_inside_fit_reframing(
    source: RgbaModel,
    old_w: int,
    old_h: int,
    old_bounds: CropRegion,
    new_bounds: CropRegion,
)
    requires
        crop_inside(new_bounds, source.width as int, source.height as int),
        new_bounds.width >= 1,
        new_bounds.height >= 1,
        source.width <= u32::MAX,
        source.height <= u32::MAX,
    ensures
        reframe_fits(source, old_w, old_h, old_bounds, new_bounds),
{
}

/// Re-frames a sprite to `new_bounds` of its source. Returns the new original
/// (the source cropped to the new bounds) and the new working image: the new
/// original with the old working image's pixels, edits included, put back
/// wherever the old and new frames overlap.
pub fn reframe_sprite_from_source(
    source: &RgbaBuffer,
    old_working: &RgbaBuffer,
    old_bounds: &CropRegion,
    new_bounds: &CropRegion,
) -> (r: (RgbaBuffer, RgbaBuffer))
    requires
        reframe_fits(source@, old_working@.width as int, old_working@.height as int, *old_bounds, *new_bounds),
    ensures
        ({
            let (cx, cy, cw, ch) = crop_bounds(
                source@.width as int,
                source@.height as int,
                new_bounds.x as int,
                new_bounds.y as int,
                new_bounds.width as int,
                new_bounds.height as int,
            );
            let (left, top, right, bottom) = reframe_overlap(
                *old_bounds,
                old_working@.width as int,
                old_working@.height as int,
                *new_bounds,
            );
            &&& r.0@.width == cw && r.0@.height == ch && r.0@.well_formed()
            &&& r.1@.width == cw && r.1@.height == ch && r.1@.well_formed()
            &&& forall|i: int, j: int, c: int|
                0 <= i < cw && 0 <= j < ch && 0 <= c < 4 ==> #[trigger] r.0@.ch(r.0@.index_of(i, j), c)
                    == source@.ch(source@.index_of(cx + i, cy + j), c)
            &&& forall|i: int, j: int, c: int|
                0 <= i < cw && 0 <= j < ch && 0 <= c < 4 ==> #[trigger] r.1@.ch(r.1@.index_of(i, j), c)
                    == if left <= new_bounds.x + i < right && top <= new_bounds.y + j < bottom {
                    old_working@.ch(
                        old_working@.index_of(new_bounds.x + i - old_bounds.x, new_bounds.y + j - old_bounds.y),
                        c,
                    )
                } else {
                    source@.ch(source@.index_of(cx + i, cy + j), c)
                }
        }),
{
    let original = crop_rgba(source, new_bounds.x, new_bounds.y, new_bounds.width, new_bounds.height);
    let mut working = original.clone();
    let ghost m = original@;
    let ghost ow = old_working@;
    old_working.check_well_formed();
    let overlap_left = old_bounds.x.max(new_bounds.x);
    let overlap_top = old_bounds.y.max(new_bounds.y);
    let overlap_right = old_bounds.x.saturating_add(old_working.width()).min(
        new_bounds.x.saturating_add(new_bounds.width),
    );
    let overlap_bottom = old_bounds.y.saturating_add(old_working.height()).min(
        new_bounds.y.saturating_add(new_bounds.height),
    );
    let ghost inside = |sx: int, sy: int|
        overlap_left <= sx < overlap_right && overlap_top <= sy < overlap_bottom;
    let mut source_y = overlap_top;
    while source_y < overlap_bottom
        invariant
            m == original@,
            ow == old_working@,
            ow.well_formed(),
            m.well_formed(),
            reframe_fits(source@, ow.width as int, ow.height as int, *old_bounds, *new_bounds),
            overlap_left == max_int(old_bounds.x as int, new_bounds.x as int),
            overlap_top == max_int(old_bounds.y as int, new_bounds.y as int),
            overlap_right == min_int(
                sat_add_u32(old_bounds.x as int, ow.width as int),
                sat_add_u32(new_bounds.x as int, new_bounds.width as int),
            ),
            overlap_bottom == min_int(
                sat_add_u32(old_bounds.y as int, ow.height as int),
                sat_add_u32(new_bounds.y as int, new_bounds.height as int),
            ),
            m.width == crop_bounds(
                source@.width as int,
                source@.height as int,
                new_bounds.x as int,
                new_bounds.y as int,
                new_bounds.width as int,
                new_bounds.height as int,
            ).2,
            m.height == crop_bounds(
                source@.width as int,
                source@.height as int,
                new_bounds.x as int,
                new_bounds.y as int,
                new_bounds.width as int,
                new_bounds.height as int,
            ).3,
            overlap_top <= source_y,
            source_y <= max_int(overlap_top as int, overlap_bottom as int),
            working@.same_shape(m),
            working@.well_formed(),
            forall|i: int, j: int, c: int|
                0 <= i < m.width && 0 <= j < m.height && 0 <= c < 4 ==> #[trigger] working@.ch(
                    m.index_of(i, j),
                    c,
                ) == if overlap_left <= new_bounds.x + i < overlap_right && overlap_top <= new_bounds.y
                    + j < source_y {
                    ow.ch(ow.index_of(new_bounds.x + i - old_bounds.x, new_bounds.y + j - old_bounds.y), c)
                } else {
                    m.ch(m.index_of(i, j), c)
                },
        decreases overlap_bottom - source_y,
    {
        let mut source_x = overlap_left;
        while source_x < overlap_right
            invariant
                m == original@,
                ow == old_working@,
                ow.well_formed(),
                m.well_formed(),
                reframe_fits(source@, ow.width as int, ow.height as int, *old_bounds, *new_bounds),
                overlap_left == max_int(old_bounds.x as int, new_bounds.x as int),
                overlap_top == max_int(old_bounds.y as int, new_bounds.y as int),
                overlap_right == min_int(
                    sat_add_u32(old_bounds.x as int, ow.width as int),
                    sat_add_u32(new_bounds.x as int, new_bounds.width as int),
                ),
                overlap_bottom == min_int(
                    sat_add_u32(old_bounds.y as int, ow.height as int),
                    sat_add_u32(new_bounds.y as int, new_bounds.height as int),
                ),
                m.width == crop_bounds(
                    source@.width as int,
                    source@.height as int,
                    new_bounds.x as int,
                    new_bounds.y as int,
                    new_bounds.width as int,
                    new_bounds.height as int,
                ).2,
                m.height == crop_bounds(
                    source@.width as int,
                    source@.height as int,
                    new_bounds.x as int,
                    new_bounds.y as int,
                    new_bounds.width as int,
                    new_bounds.height as int,
                ).3,
                overlap_top <= source_y < overlap_bottom,
                overlap_left <= source_x,
                source_x <= max_int(overlap_left as int, overlap_right as int),
                working@.same_shape(m),
                working@.well_formed(),
                forall|i: int, j: int, c: int|
                    0 <= i < m.width && 0 <= j < m.height && 0 <= c < 4 ==> #[trigger] working@.ch(
                        m.index_of(i, j),
                        c,
                    ) == if overlap_left <= new_bounds.x + i < overlap_right && (overlap_top <= new_bounds.y
                        + j < source_y || (new_bounds.y + j == source_y && new_bounds.x + i < source_x)) {
                        ow.ch(ow.index_of(new_bounds.x + i - old_bounds.x, new_bounds.y + j - old_bounds.y), c)
                    } else {
                        m.ch(m.index_of(i, j), c)
                    },
            decreases overlap_right - source_x,
        {
            let old_x = source_x - old_bounds.x;
            let old_y = source_y - old_bounds.y;
            let new_x = source_x - new_bounds.x;
            let new_y = source_y - new_bounds.y;
            let p = old_working.get_pixel(old_x, old_y);
            let ghost prev = working@;
            working.put_pixel(new_x, new_y, p);
            proof {
                assert forall|i: int, j: int, c: int|
                    0 <= i < m.width && 0 <= j < m.height && 0 <= c < 4 implies #[trigger] working@.ch(
                    m.index_of(i, j),
                    c,
                ) == if overlap_left <= new_bounds.x + i < overlap_right && (overlap_top <= new_bounds.y
                    + j < source_y || (new_bounds.y + j == source_y && new_bounds.x + i < source_x + 1)) {
                    ow.ch(ow.index_of(new_bounds.x + i - old_bounds.x, new_bounds.y + j - old_bounds.y), c)
                } else {
                    m.ch(m.index_of(i, j), c)
                } by {
                    lemma_pixel_index(m.width as int, m.height as int, i, j);
                    lemma_index_injective(m.width as int, i, j, new_x as int, new_y as int);
                    assert(prev.ch(m.index_of(i, j), c) == if overlap_left <= new_bounds.x + i < overlap_right
                        && (overlap_top <= new_bounds.y + j < source_y || (new_bounds.y + j == source_y
                        && new_bounds.x + i < source_x)) {
                        ow.ch(ow.index_of(new_bounds.x + i - old_bounds.x, new_bounds.y + j - old_bounds.y), c)
                    } else {
                        m.ch(m.index_of(i, j), c)
                    });
                }
            }
            source_x = source_x + 1;
        }
        proof {
            assert forall|i: int, j: int, c: int|
                0 <= i < m.width && 0 <= j < m.height && 0 <= c < 4 implies #[trigger] working@.ch(
                m.index_of(i, j),
                c,
            ) == if overlap_left <= new_bounds.x + i < overlap_right && overlap_top <= new_bounds.y + j
                < source_y + 1 {
                ow.ch(ow.index_of(new_bounds.x + i - old_bounds.x, new_bounds.y + j - old_bounds.y), c)
            } else {
                m.ch(m.index_of(i, j), c)
            } by {}
        }
        source_y = source_y + 1;
    }
    proof {
        let (cx, cy, cw, ch) = crop_bounds(
            source@.width as int,
            source@.height as int,
            new_bounds.x as int,
            new_bounds.y as int,
            new_bounds.width as int,
            new_bounds.height as int,
        );
        assert(original@.width == cw && original@.height == ch && original@.well_formed());
        assert(working@.width == cw && working@.height == ch && working@.well_formed());
        assert forall|i: int, j: int, c: int|
            0 <= i < cw && 0 <= j < ch && 0 <= c < 4 implies #[trigger] working@.ch(working@.index_of(i, j), c)
                == if overlap_left <= new_bounds.x + i < overlap_right && overlap_top <= new_bounds.y + j < overlap_bottom {
                ow.ch(ow.index_of(new_bounds.x + i - old_bounds.x, new_bounds.y + j - old_bounds.y), c)
            } else {
                source@.ch(source@.index_of(cx + i, cy + j), c)
            } by {
            assert(working@.ch(m.index_of(i, j), c) == if overlap_left <= new_bounds.x + i < overlap_right
                && overlap_top <= new_bounds.y + j < source_y {
                ow.ch(ow.index_of(new_bounds.x + i - old_bounds.x, new_bounds.y + j - old_bounds.y), c)
            } else {
                m.ch(m.index_of(i, j), c)
            });
            assert(m.ch(m.index_of(i, j), c) == source@.ch(source@.index_of(cx + i, cy + j), c));
            if overlap_top < overlap_bottom {
                assert(source_y == overlap_bottom);
            }
        }
    }
    (original, working)
}

} // verus!
