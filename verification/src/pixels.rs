//! An RGBA pixel buffer: `width * height` pixels stored row by row, four
//! bytes (red, green, blue, alpha) per pixel.

use vstd::prelude::*;

verus! {

/// What a buffer holds, as mathematical values.
pub struct RgbaModel {
    pub width: nat,
    pub height: nat,
    pub bytes: Seq<u8>,
}

impl RgbaModel {
    pub open spec fn pixel_count(self) -> nat {
        self.width * self.height
    }

    /// Index of the pixel at column `x`, row `y`.
    pub open spec fn index_of(self, x: int, y: int) -> int {
        y * self.width + x
    }

    /// Channel `c` (0 red, 1 green, 2 blue, 3 alpha) of pixel `i`.
    pub open spec fn ch(self, i: int, c: int) -> u8 {
        self.bytes[4 * i + c]
    }

    pub open spec fn alpha(self, i: int) -> u8 {
        self.ch(i, 3)
    }

    pub open spec fn well_formed(self) -> bool {
        &&& self.bytes.len() == 4 * (self.width * self.height)
        &&& self.width <= u32::MAX
        &&& self.height <= u32::MAX
    }

    pub open spec fn same_shape(self, other: RgbaModel) -> bool {
        self.width == other.width && self.height == other.height
    }

    /// The four bytes of pixel `i`.
    pub open spec fn pixel(self, i: int) -> Seq<u8> {
        self.bytes.subrange(4 * i, 4 * i + 4)
    }
}

/// `x < w` and `y < h` place the pixel index `y * w + x` below `w * h`.
pub proof fn lemma_pixel_index(w: int, h: int, x: int, y: int)
    requires
        0 <= x < w,
        0 <= y < h,
    ensures
        0 <= y * w + x < w * h,
        0 <= 4 * (y * w + x) + 3 < 4 * (w * h),
{
    assert(y * w + x < w * h) by (nonlinear_arith)
        requires
            0 <= x < w,
            0 <= y < h,
    ;
    assert(0 <= y * w) by (nonlinear_arith)
        requires
            0 <= y,
            0 <= w,
    ;
}

/// A pixel index below `w * h` is `y * w + x` for `y = i / w`, `x = i % w`.
pub proof fn lemma_index_split(w: int, h: int, i: int)
    requires
        0 < w,
        0 <= h,
        0 <= i < w * h,
    ensures
        0 <= i % w < w,
        0 <= i / w < h,
        i == (i / w) * w + i % w,
{
    assert(i == (i / w) * w + i % w) by (nonlinear_arith)
        requires
            0 < w,
    ;
    assert(0 <= i % w < w) by (nonlinear_arith)
        requires
            0 < w,
    ;
    assert(0 <= i / w) by (nonlinear_arith)
        requires
            0 < w,
            0 <= i,
    ;
    assert(i / w < h) by (nonlinear_arith)
        requires
            0 < w,
            0 <= i < w * h,
    ;
}

/// Distinct positions have distinct pixel indices.
pub proof fn lemma_index_injective(w: int, x1: int, y1: int, x2: int, y2: int)
    requires
        0 <= x1 < w,
        0 <= x2 < w,
        0 <= y1,
        0 <= y2,
    ensures
        (y1 * w + x1 == y2 * w + x2) <==> (x1 == x2 && y1 == y2),
{
    if y1 * w + x1 == y2 * w + x2 {
        vstd::arithmetic::div_mod::lemma_fundamental_div_mod_converse(y1 * w + x1, w, y1, x1);
        vstd::arithmetic::div_mod::lemma_fundamental_div_mod_converse(y2 * w + x2, w, y2, x2);
    }
}

/// An image held as plain bytes.
pub struct RgbaBuffer {
    width: u32,
    height: u32,
    data: Vec<u8>,
}

impl View for RgbaBuffer {
    type V = RgbaModel;

    closed spec fn view(&self) -> RgbaModel {
        RgbaModel { width: self.width as nat, height: self.height as nat, bytes: self.data@ }
    }
}

impl RgbaBuffer {
    #[verifier::type_invariant]
    spec fn inv(self) -> bool {
        self@.well_formed()
    }

    /// The view of every buffer is well formed.
    pub fn check_well_formed(&self) -> (ok: bool)
        ensures
            ok,
            self@.well_formed(),
    {
        proof {
            use_type_invariant(self);
            assert(self.data.len() == self.data@.len());
        }
        true
    }

    pub fn width(&self) -> (w: u32)
        ensures
            w == self@.width,
    {
        self.width
    }

    pub fn height(&self) -> (h: u32)
        ensures
            h == self@.height,
    {
        self.height
    }

    pub fn dimensions(&self) -> (d: (u32, u32))
        ensures
            d.0 == self@.width,
            d.1 == self@.height,
    {
        (self.width, self.height)
    }

    /// The number of pixels, `width * height`.
    pub fn pixel_count(&self) -> (n: usize)
        ensures
            n == self@.pixel_count(),
            4 * n == self@.bytes.len(),
            4 * n <= usize::MAX,
    {
        proof {
            use_type_invariant(self);
            assert(self.data.len() == self.data@.len());
        }
        self.data.len() / 4
    }

    /// A buffer of the given size in which every pixel is `pixel`.
    pub fn from_pixel(width: u32, height: u32, pixel: [u8; 4]) -> (img: RgbaBuffer)
        requires
            4 * (width * height) <= usize::MAX,
        ensures
            img@.width == width,
            img@.height == height,
            img@.well_formed(),
            forall|i: int, c: int|
                0 <= i < width * height && 0 <= c < 4 ==> #[trigger] img@.ch(i, c) == pixel[c],
    {
        proof {
            assert(0 <= (width as int) * (height as int)) by (nonlinear_arith);
        }
        let count: usize = (width as usize) * (height as usize);
        let mut data: Vec<u8> = Vec::new();
        let mut i: usize = 0;
        while i < count
            invariant
                count == width * height,
                4 * count <= usize::MAX,
                i <= count,
                data@.len() == 4 * i,
                forall|j: int, c: int|
                    0 <= j < i && 0 <= c < 4 ==> #[trigger] data@[4 * j + c] == pixel[c],
            decreases count - i,
        {
            data.push(pixel[0]);
            data.push(pixel[1]);
            data.push(pixel[2]);
            data.push(pixel[3]);
            i = i + 1;
        }
        RgbaBuffer { width, height, data }
    }

    /// A buffer of the given size in which every byte is zero.
    pub fn new(width: u32, height: u32) -> (img: RgbaBuffer)
        requires
            4 * (width * height) <= usize::MAX,
        ensures
            img@.width == width,
            img@.height == height,
            img@.well_formed(),
            forall|i: int, c: int|
                0 <= i < width * height && 0 <= c < 4 ==> #[trigger] img@.ch(i, c) == 0,
    {
        Self::from_pixel(width, height, [0u8, 0u8, 0u8, 0u8])
    }

    /// Takes `data` as the bytes of a `width` by `height` image; `None` when its
    /// length is not four bytes per pixel.
    pub fn from_raw(width: u32, height: u32, data: Vec<u8>) -> (img: Option<RgbaBuffer>)
        ensures
            img is Some <==> data@.len() == 4 * (width * height),
            img matches Some(b) ==> b@ == (RgbaModel {
                width: width as nat,
                height: height as nat,
                bytes: data@,
            }),
    {
        proof {
            assert(0 <= (width as int) * (height as int)) by (nonlinear_arith);
        }
        assert(data.len() == data@.len());
        let count: Option<usize> = (width as usize).checked_mul(height as usize);
        match count {
            None => None,
            Some(n) => {
                let bytes: Option<usize> = n.checked_mul(4);
                match bytes {
                    None => None,
                    Some(len) => {
                        if data.len() == len {
                            Some(RgbaBuffer { width, height, data })
                        } else {
                            None
                        }
                    },
                }
            },
        }
    }

    /// The bytes, row by row, four per pixel.
    pub fn as_raw(&self) -> (data: &Vec<u8>)
        ensures
            data@ == self@.bytes,
    {
        &self.data
    }

    pub fn into_raw(self) -> (data: Vec<u8>)
        ensures
            data@ == self@.bytes,
    {
        self.data
    }

    /// The four bytes of the pixel with index `i`.
    pub fn pixel_at(&self, i: usize) -> (p: [u8; 4])
        requires
            i < self@.pixel_count(),
        ensures
            forall|c: int| 0 <= c < 4 ==> #[trigger] p[c] == self@.ch(i as int, c),
    {
        proof {
            use_type_invariant(self);
            assert(self.data.len() == self.data@.len());
        }
        let b: usize = 4 * i;
        [self.data[b], self.data[b + 1], self.data[b + 2], self.data[b + 3]]
    }

    /// Channel `c` of the pixel with index `i`.
    pub fn channel_at(&self, i: usize, c: usize) -> (v: u8)
        requires
            i < self@.pixel_count(),
            c < 4,
        ensures
            v == self@.ch(i as int, c as int),
    {
        proof {
            use_type_invariant(self);
            assert(self.data.len() == self.data@.len());
        }
        self.data[4 * i + c]
    }

    /// Sets channel `c` of the pixel with index `i` to `value`.
    pub fn set_channel(&mut self, i: usize, c: usize, value: u8)
        requires
            i < old(self)@.pixel_count(),
            c < 4,
        ensures
            final(self)@ == (RgbaModel {
                bytes: old(self)@.bytes.update(4 * i + c, value),
                ..old(self)@
            }),
            final(self)@.well_formed(),
            final(self)@.bytes.len() == old(self)@.bytes.len(),
            forall|j: int, d: int|
                0 <= j < old(self)@.pixel_count() && 0 <= d < 4 ==> #[trigger] final(self)@.ch(j, d)
                    == if j == i && d == c {
                    value
                } else {
                    old(self)@.ch(j, d)
                },
    {
        proof {
            use_type_invariant(&*self);
            assert(self.data.len() == self.data@.len());
        }
        let b: usize = 4 * i + c;
        let mut taken = RgbaBuffer { width: 0, height: 0, data: Vec::new() };
        std::mem::swap(self, &mut taken);
        let RgbaBuffer { width, height, mut data } = taken;
        data.set(b, value);
        *self = RgbaBuffer { width, height, data };
    }

    /// Replaces the pixel with index `i` by `p`.
    pub fn set_pixel_at(&mut self, i: usize, p: [u8; 4])
        requires
            i < old(self)@.pixel_count(),
        ensures
            final(self)@.same_shape(old(self)@),
            final(self)@.bytes.len() == old(self)@.bytes.len(),
            forall|j: int, c: int|
                0 <= j < old(self)@.pixel_count() && 0 <= c < 4 ==> #[trigger] final(self)@.ch(j, c)
                    == if j == i {
                    p[c]
                } else {
                    old(self)@.ch(j, c)
                },
    {
        proof {
            use_type_invariant(&*self);
            assert(self.data.len() == self.data@.len());
        }
        self.set_channel(i, 0, p[0]);
        self.set_channel(i, 1, p[1]);
        self.set_channel(i, 2, p[2]);
        self.set_channel(i, 3, p[3]);
        proof {
            assert forall|j: int, c: int|
                0 <= j < old(self)@.pixel_count() && 0 <= c < 4 implies #[trigger] self@.ch(j, c)
                == if j == i {
                p[c]
            } else {
                old(self)@.ch(j, c)
            } by {
                if j != i {
                    assert(4 * j + c != 4 * i + 0);
                    assert(4 * j + c != 4 * i + 1);
                    assert(4 * j + c != 4 * i + 2);
                    assert(4 * j + c != 4 * i + 3);
                }
            }
        }
    }

    /// The index of the pixel at column `x`, row `y`.
    pub fn index_of(&self, x: u32, y: u32) -> (i: usize)
        requires
            x < self@.width,
            y < self@.height,
        ensures
            i == self@.index_of(x as int, y as int),
            i < self@.pixel_count(),
    {
        proof {
            use_type_invariant(self);
            assert(self.data.len() == self.data@.len());
            lemma_pixel_index(self.width as int, self.height as int, x as int, y as int);
            assert((y as int) * (self.width as int) <= (y as int) * (self.width as int) + (x as int));
        }
        (y as usize) * (self.width as usize) + (x as usize)
    }

    /// The pixel at column `x`, row `y`.
    pub fn get_pixel(&self, x: u32, y: u32) -> (p: [u8; 4])
        requires
            x < self@.width,
            y < self@.height,
        ensures
            forall|c: int|
                0 <= c < 4 ==> #[trigger] p[c] == self@.ch(self@.index_of(x as int, y as int), c),
    {
        let i = self.index_of(x, y);
        self.pixel_at(i)
    }

    /// Replaces the pixel at column `x`, row `y` by `p`.
    pub fn put_pixel(&mut self, x: u32, y: u32, p: [u8; 4])
        requires
            x < old(self)@.width,
            y < old(self)@.height,
        ensures
            final(self)@.same_shape(old(self)@),
            final(self)@.bytes.len() == old(self)@.bytes.len(),
            forall|j: int, c: int|
                0 <= j < old(self)@.pixel_count() && 0 <= c < 4 ==> #[trigger] final(self)@.ch(j, c)
                    == if j == old(self)@.index_of(x as int, y as int) {
                    p[c]
                } else {
                    old(self)@.ch(j, c)
                },
    {
        let i = self.index_of(x, y);
        self.set_pixel_at(i, p);
    }
}

impl Clone for RgbaBuffer {
    fn clone(&self) -> (c: Self)
        ensures
            c@ == self@,
    {
        proof {
            use_type_invariant(self);
            assert(self.data.len() == self.data@.len());
        }
        let data = self.data.clone();
        proof {
            assert(data@ =~= self.data@);
        }
        RgbaBuffer { width: self.width, height: self.height, data }
    }
}

} // verus!
