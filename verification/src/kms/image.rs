//! Pixel memory, and what is drawn on it without the compositing library.

use vstd::prelude::*;

use crate::backend::GcFunction;
use crate::kms::raster::Rectangle16;
use crate::wire;
use crate::wire::write_u32;

verus! {

/// How pixels are packed into the 32-bit words of an image.
#[derive(Clone, Copy, Debug, PartialEq, Eq, Structural)]
pub enum PixelFormat {
    /// One bit of coverage.
    A1,
    /// Eight bits of coverage.
    A8,
    /// Red, green and blue of eight bits each; the top byte is unused.
    X8R8G8B8,
    /// Alpha, red, green and blue of eight bits each.
    A8R8G8B8,
}

impl PixelFormat {
    pub open spec fn bits_per_pixel(self) -> int {
        match self {
            PixelFormat::A1 => 1,
            PixelFormat::A8 => 8,
            PixelFormat::X8R8G8B8 => 32,
            PixelFormat::A8R8G8B8 => 32,
        }
    }

    /// Words that a row of `width` pixels takes.
    pub open spec fn words(self, width: int) -> int {
        (width * self.bits_per_pixel() + 31) / 32
    }

    /// The format for pixmaps of `depth`.
    pub open spec fn for_depth(depth: u8) -> PixelFormat {
        if depth == 1 {
            PixelFormat::A1
        } else if depth == 8 {
            PixelFormat::A8
        } else if depth == 32 {
            PixelFormat::A8R8G8B8
        } else {
            PixelFormat::X8R8G8B8
        }
    }

    pub fn of_depth(depth: u8) -> (r: Self)
        ensures
            r == PixelFormat::for_depth(depth),
    {
        match depth {
            1 => PixelFormat::A1,
            8 => PixelFormat::A8,
            32 => PixelFormat::A8R8G8B8,
            _ => PixelFormat::X8R8G8B8,
        }
    }
}

/// Pixel memory in a layout that the compositing library can draw on.
#[derive(Debug)]
pub struct PixmanImage {
    pub format: PixelFormat,
    pub width: u16,
    pub height: u16,
    pub stride_words: u16,
    pub data: Vec<u32>,
}

/// [`PixmanImage`] with its memory as a sequence.
#[verifier::ext_equal]
pub struct ImageView {
    pub format: PixelFormat,
    pub width: u16,
    pub height: u16,
    pub stride_words: u16,
    pub data: Seq<u32>,
}

impl View for PixmanImage {
    type V = ImageView;

    open spec fn view(&self) -> ImageView {
        ImageView {
            format: self.format,
            width: self.width,
            height: self.height,
            stride_words: self.stride_words,
            data: self.data@,
        }
    }
}

impl ImageView {
    /// A blank image.
    pub open spec fn blank(format: PixelFormat, width: u16, height: u16) -> ImageView {
        ImageView {
            format,
            width,
            height,
            stride_words: format.words(width as int) as u16,
            data: Seq::new((format.words(width as int) * height) as nat, |i: int| 0u32),
        }
    }

    /// Whether each word is one pixel, row by row without gaps.
    pub open spec fn is_word_image(self) -> bool {
        &&& self.stride_words == self.width
        &&& self.data.len() == self.width * self.height
    }

    /// The word of the pixel at `(x, y)`.
    pub open spec fn index(self, x: int, y: int) -> int {
        y * self.stride_words + x
    }

    /// Whether there is a word for the pixel at `(x, y)`.
    pub open spec fn has(self, x: int, y: int) -> bool {
        &&& 0 <= x < self.width
        &&& 0 <= y < self.height
        &&& self.index(x, y) < self.data.len()
    }

    pub open spec fn pixel(self, x: int, y: int) -> u32 {
        self.data[self.index(x, y)]
    }

    /// The same image with other contents.
    pub open spec fn with_data(self, data: Seq<u32>) -> ImageView {
        ImageView { data, ..self }
    }
}

impl PixmanImage {
    /// Makes a blank image.
    pub fn new(format: PixelFormat, width: u16, height: u16) -> (r: Self)
        ensures
            r@ == ImageView::blank(format, width, height),
    {
        let stride_words: u16 = match format {
            PixelFormat::A1 => ((width as u32 + 31) / 32) as u16,
            PixelFormat::A8 => ((width as u32 + 3) / 4) as u16,
            PixelFormat::X8R8G8B8 => width,
            PixelFormat::A8R8G8B8 => width,
        };
        assert(stride_words == format.words(width as int));
        assert(stride_words * height <= 0xffff * 0xffff) by (nonlinear_arith)
            requires
                stride_words <= 0xffff,
                height <= 0xffff,
        ;
        let n: usize = stride_words as usize * height as usize;
        let mut data: Vec<u32> = Vec::new();
        let mut i: usize = 0;
        while i < n
            invariant
                i <= n,
                data@ == Seq::new(i as nat, |j: int| 0u32),
            decreases n - i,
        {
            data.push(0);
            i += 1;
            assert(data@ =~= Seq::new(i as nat, |j: int| 0u32));
        }
        let r = PixmanImage { format, width, height, stride_words, data };
        assert(r@ =~= ImageView::blank(format, width, height));
        r
    }

    pub fn width(&self) -> (r: usize)
        ensures
            r == self@.width,
    {
        self.width as usize
    }

    pub fn height(&self) -> (r: usize)
        ensures
            r == self@.height,
    {
        self.height as usize
    }

    /// Bytes from one row to the next.
    pub fn stride(&self) -> (r: usize)
        ensures
            r == 4 * self@.stride_words,
    {
        4 * self.stride_words as usize
    }

    fn is_word_image(&self) -> (r: bool)
        ensures
            r == self@.is_word_image(),
    {
        assert(self.width * self.height <= 0xffff * 0xffff) by (nonlinear_arith)
            requires
                self.width <= 0xffff,
                self.height <= 0xffff,
        ;
        self.stride_words == self.width && self.data.len() == self.width as usize
            * self.height as usize
    }
}

/// A blank image of a format of 32 bits has a word for each pixel.
pub proof fn lemma_blank_word_image(format: PixelFormat, width: u16, height: u16)
    requires
        format.bits_per_pixel() == 32,
    ensures
        ImageView::blank(format, width, height).is_word_image(),
{
    assert(0 <= width * height) by (nonlinear_arith)
        requires
            width >= 0,
            height >= 0,
    ;
}

/// The row and the column of a word.
pub proof fn lemma_word_of_pixel(w: int, h: int, x: int, y: int)
    requires
        0 <= x < w,
        0 <= y < h,
    ensures
        0 <= y * w + x < w * h,
        (y * w + x) / w == y,
        (y * w + x) % w == x,
{
    assert(0 <= y * w + x < w * h) by (nonlinear_arith)
        requires
            0 <= x < w,
            0 <= y < h,
    ;
    vstd::arithmetic::div_mod::lemma_fundamental_div_mod_converse(y * w + x, w, y, x);
}

proof fn lemma_pixel_of_word(w: int, h: int, i: int)
    requires
        0 <= i < w * h,
        w > 0,
    ensures
        0 <= i % w < w,
        0 <= i / w < h,
        i == (i / w) * w + i % w,
{
    vstd::arithmetic::div_mod::lemma_fundamental_div_mod(i, w);
    assert(0 <= i / w < h) by (nonlinear_arith)
        requires
            0 <= i < w * h,
            w > 0,
            i == w * (i / w) + i % w,
            0 <= i % w < w,
    ;
    assert(w * (i / w) == (i / w) * w) by (nonlinear_arith);
}

/// A colour of four 16-bit channels.
#[derive(Clone, Copy, Debug, PartialEq, Eq, Structural)]
pub struct Color {
    pub red: u16,
    pub green: u16,
    pub blue: u16,
    pub alpha: u16,
}

/// The opaque colour of a pixel value 0xRRGGBB.
pub open spec fn pixel_color(pixel: u32) -> Color {
    Color {
        red: (pixel / 65536 % 256 * 256) as u16,
        green: (pixel / 256 % 256 * 256) as u16,
        blue: (pixel % 256 * 256) as u16,
        alpha: 0xffff,
    }
}

pub fn color_from_u32(pixel: u32) -> (r: Color)
    ensures
        r == pixel_color(pixel),
{
    Color {
        red: (pixel / 65536 % 256 * 256) as u16,
        green: (pixel / 256 % 256 * 256) as u16,
        blue: (pixel % 256 * 256) as u16,
        alpha: 0xffff,
    }
}

/// Rectangles to fill with one colour, for the compositing library to do:
/// whatever was there is overwritten.
#[derive(Clone, Debug)]
pub struct SolidFill {
    pub color: Color,
    pub rects: Vec<Rectangle16>,
}

/// [`SolidFill`] with its rectangles as a sequence.
#[verifier::ext_equal]
pub struct SolidFillView {
    pub color: Color,
    pub rects: Seq<Rectangle16>,
}

impl View for SolidFill {
    type V = SolidFillView;

    open spec fn view(&self) -> SolidFillView {
        SolidFillView { color: self.color, rects: self.rects@ }
    }
}

/// How many rectangles of `rects` cover the pixel.
pub open spec fn times_covered(rects: Seq<Rectangle16>, x: int, y: int) -> nat
    decreases rects.len(),
{
    if rects.len() == 0 {
        0
    } else {
        times_covered(rects.drop_last(), x, y) + if rects.last().covers(x, y) {
            1nat
        } else {
            0nat
        }
    }
}

/// `data`, in rows of `w` words, with the bits of `mask` flipped where an odd
/// number of rectangles lie.
pub open spec fn flipped(data: Seq<u32>, w: int, rects: Seq<Rectangle16>, mask: u32) -> Seq<u32> {
    Seq::new(
        data.len(),
        |i: int|
            if times_covered(rects, i % w, i / w) % 2 == 1 {
                data[i] ^ mask
            } else {
                data[i]
            },
    )
}

/// What filling rectangles does to an image, and what it leaves to do. Xor
/// flips colour bits, once for each rectangle; every other function is taken
/// for Copy, which is the compositing library's to do.
pub open spec fn gc_filled(
    img: ImageView,
    function: GcFunction,
    foreground: u32,
    rects: Seq<Rectangle16>,
) -> (ImageView, Option<SolidFillView>) {
    if function == GcFunction::Xor {
        let data = if img.is_word_image() {
            flipped(img.data, img.width as int, rects, foreground & 0x00ff_ffff)
        } else {
            img.data
        };
        (img.with_data(data), None)
    } else {
        (img, Some(SolidFillView { color: pixel_color(foreground), rects }))
    }
}

/// Flips the bits of `mask` in one rectangle.
fn xor_rect(data: &mut Vec<u32>, w: u16, h: u16, r: Rectangle16, mask: u32)
    requires
        old(data)@.len() == w * h,
    ensures
        final(data)@ == Seq::new(
            old(data)@.len(),
            |i: int|
                if r.covers(i % (w as int), i / (w as int)) {
                    old(data)@[i] ^ mask
                } else {
                    old(data)@[i]
                },
        ),
{
    let x0: i32 = if r.x < 0 {
        0
    } else {
        r.x as i32
    };
    let y0: i32 = if r.y < 0 {
        0
    } else {
        r.y as i32
    };
    let right: i32 = r.x as i32 + r.width as i32;
    let bottom: i32 = r.y as i32 + r.height as i32;
    let x1: i32 = if right < w as i32 {
        right
    } else {
        w as i32
    };
    let y1: i32 = if bottom < h as i32 {
        bottom
    } else {
        h as i32
    };
    let ghost d0 = data@;
    let mut y: i32 = y0;
    while y < y1
        invariant
            y0 <= y,
            y <= y1 || y == y0,
            0 <= x0,
            0 <= y0,
            x1 <= w,
            y1 <= h,
            d0.len() == w * h,
            data@.len() == d0.len(),
            forall|i: int|
                0 <= i < d0.len() ==> #[trigger] data@[i] == (if x0 <= i % (w as int) < x1 && y0
                    <= i / (w as int) < y {
                    d0[i] ^ mask
                } else {
                    d0[i]
                }),
        decreases y1 - y,
    {
        let mut x: i32 = x0;
        while x < x1
            invariant
                x0 <= x,
                x <= x1 || x == x0,
                y0 <= y < y1,
                0 <= x0,
                0 <= y0,
                x1 <= w,
                y1 <= h,
                d0.len() == w * h,
                data@.len() == d0.len(),
                forall|i: int|
                    0 <= i < d0.len() ==> #[trigger] data@[i] == (if x0 <= i % (w as int) < x1
                        && y0 <= i / (w as int) < y || x0 <= i % (w as int) < x && i / (w as int)
                        == y {
                        d0[i] ^ mask
                    } else {
                        d0[i]
                    }),
            decreases x1 - x,
        {
            proof {
                lemma_word_of_pixel(w as int, h as int, x as int, y as int);
                assert(y * w + x <= 0xffff * 0xffff) by (nonlinear_arith)
                    requires
                        y * w + x < w * h,
                        w <= 0xffff,
                        h <= 0xffff,
                ;
                assert(0 <= y * w) by (nonlinear_arith)
                    requires
                        0 <= y,
                        0 <= w,
                ;
            }
            let at: usize = y as usize * w as usize + x as usize;
            let before: u32 = data[at];
            assert(before == d0[at as int]);
            data.set(at, before ^ mask);
            assert forall|i: int| 0 <= i < d0.len() implies #[trigger] data@[i] == (if x0 <= i % (
            w as int) < x1 && y0 <= i / (w as int) < y || x0 <= i % (w as int) < x + 1 && i / (
            w as int) == y {
                d0[i] ^ mask
            } else {
                d0[i]
            }) by {
                lemma_pixel_of_word(w as int, h as int, i);
            }
            x += 1;
        }
        y += 1;
    }
    assert(data@ =~= Seq::new(
        d0.len(),
        |i: int|
            if r.covers(i % (w as int), i / (w as int)) {
                d0[i] ^ mask
            } else {
                d0[i]
            },
    )) by {
        assert forall|i: int| 0 <= i < d0.len() implies #[trigger] data@[i] == (if r.covers(
            i % (w as int),
            i / (w as int),
        ) {
            d0[i] ^ mask
        } else {
            d0[i]
        }) by {
            assert(w > 0) by (nonlinear_arith)
                requires
                    0 <= i < w * h,
                    w >= 0,
            ;
            lemma_pixel_of_word(w as int, h as int, i);
        }
    }
}

/// Applies `function` with a solid source to the rectangles of `img`. What is
/// returned is left for the compositing library to fill.
pub fn fill_rects_with_gc_function(
    img: &mut PixmanImage,
    function: GcFunction,
    foreground_rgb: u32,
    rects: Vec<Rectangle16>,
) -> (r: Option<SolidFill>)
    ensures
        final(img)@ == gc_filled(old(img)@, function, foreground_rgb, rects@).0,
        match r {
            Some(fill) => gc_filled(old(img)@, function, foreground_rgb, rects@).1 == Some(fill@),
            None => gc_filled(old(img)@, function, foreground_rgb, rects@).1 is None,
        },
{
    if function != GcFunction::Xor {
        return Some(SolidFill { color: color_from_u32(foreground_rgb), rects });
    }
    if !img.is_word_image() {
        return None;
    }
    let mask: u32 = foreground_rgb & 0x00ff_ffff;
    let ghost d0 = img.data@;
    let w: u16 = img.width;
    let h: u16 = img.height;
    let n: usize = rects.len();
    assert(img.data@ =~= flipped(d0, w as int, rects@.take(0), mask));
    for k in 0..n
        invariant
            n == rects@.len(),
            w == img.width,
            h == img.height,
            d0.len() == w * h,
            img.data@ == flipped(d0, w as int, rects@.take(k as int), mask),
            img@ == old(img)@.with_data(img.data@),
    {
        let r = rects[k];
        let ghost before = img.data@;
        xor_rect(&mut img.data, w, h, r, mask);
        proof {
            assert(rects@.take(k + 1).drop_last() =~= rects@.take(k as int));
            assert forall|i: int| 0 <= i < d0.len() implies #[trigger] img.data@[i] == flipped(
                d0,
                w as int,
                rects@.take(k + 1),
                mask,
            )[i] by {
                lemma_xor_twice(d0[i], mask);
            }
            assert(img.data@ =~= flipped(d0, w as int, rects@.take(k + 1), mask));
        }
    }
    assert(rects@.take(n as int) =~= rects@);
    None
}

/// Flipping the same bits twice leaves them as they were.
pub proof fn lemma_xor_twice(a: u32, mask: u32)
    ensures
        (a ^ mask) ^ mask == a,
{
    assert((a ^ mask) ^ mask == a) by (bit_vector);
}

/// The pixel that four bytes of an uploaded image stand for: red, green, blue,
/// and alpha where the depth has one.
pub open spec fn uploaded_pixel(bytes: Seq<u8>, depth: u8, at: int) -> u32 {
    let alpha: int = if depth == 32 {
        bytes[at + 3] as int
    } else {
        0xff
    };
    (alpha * 0x100_0000 + bytes[at] * 0x1_0000 + bytes[at + 1] * 0x100 + bytes[at + 2]) as u32
}

/// An area to draw on, `width` by `height` pixels at `(x, y)`.
#[derive(Clone, Copy, Debug, PartialEq, Eq, Structural)]
pub struct Area {
    pub x: i16,
    pub y: i16,
    pub width: u16,
    pub height: u16,
}

impl Area {
    /// Whether the pixel of an image is in the area.
    pub open spec fn covers(self, x: int, y: int) -> bool {
        self.x <= x < self.x + self.width && self.y <= y < self.y + self.height
    }

    /// Where the four bytes for the pixel start in an upload for the area.
    pub open spec fn upload_offset(self, x: int, y: int) -> int {
        4 * ((y - self.y) * self.width + (x - self.x))
    }
}

/// The image after an upload of `bytes` for `area`. Pixels without bytes stay,
/// and so does everything at a depth other than 24 and 32.
pub open spec fn uploaded(img: ImageView, depth: u8, area: Area, bytes: Seq<u8>) -> ImageView {
    if (depth == 24 || depth == 32) && img.is_word_image() {
        let w = img.width as int;
        img.with_data(
            Seq::new(
                img.data.len(),
                |i: int|
                    {
                        let at = area.upload_offset(i % w, i / w);
                        if area.covers(i % w, i / w) && at + 3 < bytes.len() {
                            uploaded_pixel(bytes, depth, at)
                        } else {
                            img.data[i]
                        }
                    },
            ),
        )
    } else {
        img
    }
}

/// First position of an area along one side of an image.
spec fn side_start(start: i16) -> int {
    if start < 0 {
        0
    } else {
        start as int
    }
}

/// One past the last position of an area along one side of an image.
spec fn side_end(start: i16, len: u16, limit: u16) -> int {
    if start + len < 0 {
        0
    } else if start + len < limit {
        start + len
    } else {
        limit as int
    }
}

/// First and one past the last position of an area along one side of an image.
fn clip_side(start: i16, len: u16, limit: u16) -> (r: (u16, u16))
    ensures
        r.0 == side_start(start),
        r.1 == side_end(start, len, limit),
{
    let lo: u16 = if start < 0 {
        0
    } else {
        start as u16
    };
    let end: i32 = start as i32 + len as i32;
    let hi: u16 = if end < 0 {
        0
    } else if end < limit as i32 {
        end as u16
    } else {
        limit
    };
    (lo, hi)
}

/// Uploads pixels of four bytes each into an area of the image.
pub fn put_pixels(img: &mut PixmanImage, depth: u8, area: Area, bytes: &[u8])
    ensures
        final(img)@ == uploaded(old(img)@, depth, area, bytes@),
{
    if depth != 24 && depth != 32 || !img.is_word_image() {
        return ;
    }
    let w: u16 = img.width;
    let h: u16 = img.height;
    let ghost d0 = img.data@;
    let ghost goal = uploaded(img@, depth, area, bytes@).data;
    let (x0, x1): (u16, u16) = clip_side(area.x, area.width, w);
    let (y0, y1): (u16, u16) = clip_side(area.y, area.height, h);
    let mut y: u16 = y0;
    while y < y1
        invariant
            y0 <= y,
            y <= y1 || y == y0,
            x1 <= w,
            y1 <= h,
            x0 == side_start(area.x),
            x1 == side_end(area.x, area.width, w),
            y0 == side_start(area.y),
            y1 == side_end(area.y, area.height, h),
            depth == 24 || depth == 32,
            d0.len() == w * h,
            old(img)@.is_word_image(),
            old(img)@.width == w,
            d0 == old(img)@.data,
            goal == uploaded(old(img)@, depth, area, bytes@).data,
            img@ == old(img)@.with_data(img.data@),
            img.data@.len() == d0.len(),
            forall|i: int|
                0 <= i < d0.len() ==> #[trigger] img.data@[i] == (if i / (w as int) < y {
                    goal[i]
                } else {
                    d0[i]
                }) || !area.covers(i % (w as int), i / (w as int)) && img.data@[i] == d0[i],
        decreases y1 - y,
    {
        let mut x: u16 = x0;
        while x < x1
            invariant
                x0 <= x,
                x <= x1 || x == x0,
                y0 <= y < y1,
                x1 <= w,
                y1 <= h,
                x0 == side_start(area.x),
                x1 == side_end(area.x, area.width, w),
                y0 == side_start(area.y),
                y1 == side_end(area.y, area.height, h),
                depth == 24 || depth == 32,
                d0.len() == w * h,
                old(img)@.is_word_image(),
                old(img)@.width == w,
                d0 == old(img)@.data,
                goal == uploaded(old(img)@, depth, area, bytes@).data,
                img@ == old(img)@.with_data(img.data@),
                img.data@.len() == d0.len(),
                forall|i: int|
                    0 <= i < d0.len() ==> #[trigger] img.data@[i] == (if i / (w as int) < y || i
                        / (w as int) == y && i % (w as int) < x {
                        goal[i]
                    } else {
                        d0[i]
                    }) || !area.covers(i % (w as int), i / (w as int)) && img.data@[i] == d0[i],
            decreases x1 - x,
        {
            proof {
                lemma_word_of_pixel(w as int, h as int, x as int, y as int);
                assert(y * w + x <= 0xffff * 0xffff) by (nonlinear_arith)
                    requires
                        y * w + x < w * h,
                        w <= 0xffff,
                        h <= 0xffff,
                ;
                assert(0 <= y * w) by (nonlinear_arith)
                    requires
                        0 <= y,
                        0 <= w,
                ;
            }
            let row: u64 = (y as i32 - area.y as i32) as u64;
            let col: u64 = (x as i32 - area.x as i32) as u64;
            proof {
                assert(0 <= row * area.width <= 0xffff * 0xffff) by (nonlinear_arith)
                    requires
                        row <= 0xffff,
                        area.width <= 0xffff,
                ;
            }
            let from: u64 = 4 * (row * area.width as u64 + col);
            assert(from == area.upload_offset(x as int, y as int));
            let at: usize = y as usize * w as usize + x as usize;
            assert(area.covers(x as int, y as int));
            if from + 3 < bytes.len() as u64 {
                let from: usize = from as usize;
                let alpha: u32 = if depth == 32 {
                    bytes[from + 3] as u32
                } else {
                    0xff
                };
                let pixel: u32 = alpha * 0x100_0000 + bytes[from] as u32 * 0x1_0000
                    + bytes[from + 1] as u32 * 0x100 + bytes[from + 2] as u32;
                img.data.set(at, pixel);
                assert(goal[at as int] == pixel);
            } else {
                assert(goal[at as int] == d0[at as int]);
            }
            assert forall|i: int| 0 <= i < d0.len() implies #[trigger] img.data@[i] == (if i / (
            w as int) < y || i / (w as int) == y && i % (w as int) < x + 1 {
                goal[i]
            } else {
                d0[i]
            }) || !area.covers(i % (w as int), i / (w as int)) && img.data@[i] == d0[i] by {
                lemma_pixel_of_word(w as int, h as int, i);
            }
            x += 1;
        }
        assert forall|i: int| 0 <= i < d0.len() implies #[trigger] img.data@[i] == (if i / (
        w as int) < y + 1 {
            goal[i]
        } else {
            d0[i]
        }) || !area.covers(i % (w as int), i / (w as int)) && img.data@[i] == d0[i] by {
            assert(w > 0) by (nonlinear_arith)
                requires
                    0 <= i < w * h,
                    w >= 0,
            ;
            lemma_pixel_of_word(w as int, h as int, i);
        }
        y += 1;
    }
    assert forall|i: int| 0 <= i < d0.len() implies #[trigger] img.data@[i] == goal[i] by {
        assert(w > 0) by (nonlinear_arith)
            requires
                0 <= i < w * h,
                w >= 0,
        ;
        lemma_pixel_of_word(w as int, h as int, i);
    }
    assert(img.data@ =~= goal);
}

/// The image after a copy of pixels of `src`, from `(src_x, src_y)` on, into
/// `area`. Pixels that `src` does not have stay.
pub open spec fn copied(
    img: ImageView,
    area: Area,
    src: ImageView,
    src_x: int,
    src_y: int,
) -> ImageView {
    if img.is_word_image() {
        let w = img.width as int;
        img.with_data(
            Seq::new(
                img.data.len(),
                |i: int|
                    {
                        let sx = src_x + (i % w - area.x);
                        let sy = src_y + (i / w - area.y);
                        if area.covers(i % w, i / w) && src.has(sx, sy) {
                            src.pixel(sx, sy)
                        } else {
                            img.data[i]
                        }
                    },
            ),
        )
    } else {
        img
    }
}

impl PixmanImage {
    /// The pixel at `(x, y)`, if the image has it.
    pub fn read(&self, x: i32, y: i32) -> (r: Option<u32>)
        ensures
            match r {
                Some(pixel) => self@.has(x as int, y as int) && pixel == self@.pixel(
                    x as int,
                    y as int,
                ),
                None => !self@.has(x as int, y as int),
            },
    {
        if x < 0 || y < 0 || x >= self.width as i32 || y >= self.height as i32 {
            return None;
        }
        assert(0 <= y * self.stride_words <= 0xffff * 0xffff) by (nonlinear_arith)
            requires
                0 <= y <= 0xffff,
                0 <= self.stride_words <= 0xffff,
        ;
        let at: u64 = y as u64 * self.stride_words as u64 + x as u64;
        if at < self.data.len() as u64 {
            Some(self.data[at as usize])
        } else {
            None
        }
    }

    /// A copy of the image as it is now.
    pub fn snapshot(&self) -> (r: Self)
        ensures
            r@ == self@,
    {
        let data = self.data.clone();
        assert(data@ =~= self.data@);
        PixmanImage {
            format: self.format,
            width: self.width,
            height: self.height,
            stride_words: self.stride_words,
            data,
        }
    }
}

/// Copies pixels of `src` from `(src_x, src_y)` on into an area of the image.
pub fn copy_pixels(img: &mut PixmanImage, area: Area, src: &PixmanImage, src_x: i16, src_y: i16)
    ensures
        final(img)@ == copied(old(img)@, area, src@, src_x as int, src_y as int),
{
    if !img.is_word_image() {
        return ;
    }
    let w: u16 = img.width;
    let h: u16 = img.height;
    let ghost d0 = img.data@;
    let ghost goal = copied(
        img@,
        area,
        src@,
        src_x as int,
        src_y as int,
    ).data;
    let (x0, x1): (u16, u16) = clip_side(area.x, area.width, w);
    let (y0, y1): (u16, u16) = clip_side(area.y, area.height, h);
    let mut y: u16 = y0;
    while y < y1
        invariant
            y0 <= y,
            y <= y1 || y == y0,
            x1 <= w,
            y1 <= h,
            x0 == side_start(area.x),
            x1 == side_end(area.x, area.width, w),
            y0 == side_start(area.y),
            y1 == side_end(area.y, area.height, h),
            d0.len() == w * h,
            old(img)@.is_word_image(),
            old(img)@.width == w,
            d0 == old(img)@.data,
            goal == copied(
                old(img)@,
                area,
                src@,
                src_x as int,
                src_y as int,
            ).data,
            img@ == old(img)@.with_data(img.data@),
            img.data@.len() == d0.len(),
            forall|i: int|
                0 <= i < d0.len() ==> #[trigger] img.data@[i] == (if i / (w as int) < y {
                    goal[i]
                } else {
                    d0[i]
                }) || !area.covers(i % (w as int), i / (w as int)) && img.data@[i] == d0[i],
        decreases y1 - y,
    {
        let mut x: u16 = x0;
        while x < x1
            invariant
                x0 <= x,
                x <= x1 || x == x0,
                y0 <= y < y1,
                x1 <= w,
                y1 <= h,
                x0 == side_start(area.x),
                x1 == side_end(area.x, area.width, w),
                y0 == side_start(area.y),
                y1 == side_end(area.y, area.height, h),
                    d0.len() == w * h,
                old(img)@.is_word_image(),
                old(img)@.width == w,
                d0 == old(img)@.data,
                goal == copied(
                old(img)@,
                area,
                src@,
                src_x as int,
                src_y as int,
            ).data,
                img@ == old(img)@.with_data(img.data@),
                img.data@.len() == d0.len(),
                forall|i: int|
                    0 <= i < d0.len() ==> #[trigger] img.data@[i] == (if i / (w as int) < y || i
                        / (w as int) == y && i % (w as int) < x {
                        goal[i]
                    } else {
                        d0[i]
                    }) || !area.covers(i % (w as int), i / (w as int)) && img.data@[i] == d0[i],
            decreases x1 - x,
        {
            proof {
                lemma_word_of_pixel(w as int, h as int, x as int, y as int);
                assert(y * w + x <= 0xffff * 0xffff) by (nonlinear_arith)
                    requires
                        y * w + x < w * h,
                        w <= 0xffff,
                        h <= 0xffff,
                ;
                assert(0 <= y * w) by (nonlinear_arith)
                    requires
                        0 <= y,
                        0 <= w,
                ;
            }
            let at: usize = y as usize * w as usize + x as usize;
            assert(area.covers(x as int, y as int));
            let sx: i32 = src_x as i32 + (x as i32 - area.x as i32);
            let sy: i32 = src_y as i32 + (y as i32 - area.y as i32);
            match src.read(sx, sy) {
                Some(pixel) => {
                    img.data.set(at, pixel);
                    assert(goal[at as int] == pixel);
                },
                None => {
                    assert(goal[at as int] == d0[at as int]);
                },
            }
            assert forall|i: int| 0 <= i < d0.len() implies #[trigger] img.data@[i] == (if i / (
            w as int) < y || i / (w as int) == y && i % (w as int) < x + 1 {
                goal[i]
            } else {
                d0[i]
            }) || !area.covers(i % (w as int), i / (w as int)) && img.data@[i] == d0[i] by {
                lemma_pixel_of_word(w as int, h as int, i);
            }
            x += 1;
        }
        assert forall|i: int| 0 <= i < d0.len() implies #[trigger] img.data@[i] == (if i / (
        w as int) < y + 1 {
            goal[i]
        } else {
            d0[i]
        }) || !area.covers(i % (w as int), i / (w as int)) && img.data@[i] == d0[i] by {
            assert(w > 0) by (nonlinear_arith)
                requires
                    0 <= i < w * h,
                    w >= 0,
            ;
            lemma_pixel_of_word(w as int, h as int, i);
        }
        y += 1;
    }
    assert forall|i: int| 0 <= i < d0.len() implies #[trigger] img.data@[i] == goal[i] by {
        assert(w > 0) by (nonlinear_arith)
            requires
                0 <= i < w * h,
                w >= 0,
        ;
        lemma_pixel_of_word(w as int, h as int, i);
    }
    assert(img.data@ =~= goal);
}

/// The pixel at `(x, y)`, or 0 where the image has none.
pub open spec fn pixel_or_zero(img: ImageView, x: int, y: int) -> u32 {
    if img.has(x, y) {
        img.pixel(x, y)
    } else {
        0
    }
}

/// Byte `k` of the readback of an area: row by row, four bytes for each pixel,
/// the low one first.
pub open spec fn readback_byte(img: ImageView, area: Area, k: int) -> u8 {
    let w = area.width as int;
    let p = k / 4;
    wire::le32(pixel_or_zero(img, area.x + p % w, area.y + p / w) as int)[k % 4]
}

pub open spec fn readback(img: ImageView, area: Area) -> Seq<u8> {
    Seq::new(
        (4 * (area.height * area.width)) as nat,
        |k: int| readback_byte(img, area, k),
    )
}

/// Reads an area back, four bytes for each pixel. Pixels that the image does not
/// have read as 0.
pub fn get_pixels(img: &PixmanImage, area: Area) -> (out: Vec<u8>)
    ensures
        out@ == readback(img@, area),
{
    let mut out: Vec<u8> = Vec::new();
    let ghost all = readback(img@, area);
    let mut row: u16 = 0;
    assert(out@ =~= all.take(0));
    assert(0 * area.width == 0);
    while row < area.height
        invariant
            row <= area.height,
            all == readback(img@, area),
            out@ == all.take(4 * (row * area.width)),
        decreases area.height - row,
    {
        let mut col: u16 = 0;
        while col < area.width
            invariant
                row < area.height,
                col <= area.width,
                all == readback(img@, area),
                out@ == all.take(4 * (row * area.width + col)),
            decreases area.width - col,
        {
            let x: i32 = area.x as i32 + col as i32;
            let y: i32 = area.y as i32 + row as i32;
            let pixel: u32 = match img.read(x, y) {
                Some(pixel) => pixel,
                None => 0,
            };
            let ghost before = out@;
            write_u32(&mut out, pixel);
            proof {
                let p = row * area.width + col;
                lemma_word_of_pixel(
                    area.width as int,
                    area.height as int,
                    col as int,
                    row as int,
                );
                assert(area.width * area.height == area.height * area.width) by (nonlinear_arith);
                assert(all.len() == 4 * (area.height * area.width));
                assert forall|k: int| 4 * p <= k < 4 * p + 4 implies all[k] == wire::le32(
                    pixel as int,
                )[k - 4 * p] by {
                    assert(k / 4 == p && k % 4 == k - 4 * p);
                }
                assert(out@ =~= all.take(4 * (p + 1)));
            }
            col += 1;
        }
        assert((row + 1) * area.width == row * area.width + area.width) by (nonlinear_arith);
        row += 1;
    }
    assert(out@ =~= all);
    out
}

} // verus!
