//! What holds of drawing on pixel memory.

use vstd::prelude::*;

use crate::backend::GcFunction;
use crate::kms::image;
use crate::kms::image::{Area, ImageView, PixelFormat};
use crate::kms::raster;
use crate::kms::raster::Rectangle16;
use crate::wire;

verus! {

/// Drawing with Xor twice leaves the image as it was, whatever is drawn.
pub proof fn lemma_xor_drawing_undoes_itself(
    img: ImageView,
    foreground: u32,
    rects: Seq<Rectangle16>,
)
    ensures
        image::gc_filled(
            image::gc_filled(img, GcFunction::Xor, foreground, rects).0,
            GcFunction::Xor,
            foreground,
            rects,
        ).0 == img,
{
    let once = image::gc_filled(img, GcFunction::Xor, foreground, rects).0;
    let twice = image::gc_filled(once, GcFunction::Xor, foreground, rects).0;
    let mask = foreground & 0x00ff_ffff;
    if img.is_word_image() {
        assert forall|i: int| 0 <= i < img.data.len() implies #[trigger] twice.data[i]
            == img.data[i] by {
            image::lemma_xor_twice(img.data[i], mask);
        }
        assert(twice.data =~= img.data);
    }
    assert(twice =~= img);
}

/// Drawing with Xor changes no pixel outside the rectangles, and never the top
/// byte of a pixel.
pub proof fn lemma_xor_drawing_stays_inside(
    img: ImageView,
    foreground: u32,
    rects: Seq<Rectangle16>,
    x: int,
    y: int,
)
    requires
        img.is_word_image(),
        0 <= x < img.width,
        0 <= y < img.height,
    ensures
        ({
            let after = image::gc_filled(img, GcFunction::Xor, foreground, rects).0;
            &&& !raster::any_covers(rects, x, y) ==> after.pixel(x, y) == img.pixel(x, y)
            &&& after.pixel(x, y) & 0xff00_0000 == img.pixel(x, y) & 0xff00_0000
        }),
{
    let w = img.width as int;
    let h = img.height as int;
    image::lemma_word_of_pixel(w, h, x, y);
    let p = img.pixel(x, y);
    assert((p ^ (foreground & 0x00ff_ffff)) & 0xff00_0000 == p & 0xff00_0000) by (bit_vector);
    lemma_never_covered(rects, x, y);
}

proof fn lemma_never_covered(rects: Seq<Rectangle16>, x: int, y: int)
    ensures
        image::times_covered(rects, x, y) > 0 <==> raster::any_covers(rects, x, y),
    decreases rects.len(),
{
    if rects.len() > 0 {
        let t = rects.drop_last();
        lemma_never_covered(t, x, y);
        if raster::any_covers(t, x, y) {
            let i = choose|i: int| 0 <= i < t.len() && (#[trigger] t[i]).covers(x, y);
            assert(rects[i].covers(x, y));
        }
        if raster::any_covers(rects, x, y) && !rects.last().covers(x, y) {
            let i = choose|i: int| 0 <= i < rects.len() && (#[trigger] rects[i]).covers(x, y);
            assert(t[i].covers(x, y));
        }
        if rects.last().covers(x, y) {
            assert(rects[rects.len() - 1].covers(x, y));
        }
    }
}

/// A pixel that is uploaded into an image reads back with red and blue
/// exchanged, and opaque if its depth has no alpha: uploads name red first, and
/// readbacks name the low byte, blue, first.
pub proof fn lemma_upload_reads_back(
    img: ImageView,
    depth: u8,
    area: Area,
    bytes: Seq<u8>,
    col: int,
    row: int,
)
    requires
        img.is_word_image(),
        depth == 24 || depth == 32,
        0 <= col < area.width,
        0 <= row < area.height,
        0 <= area.x + col < img.width,
        0 <= area.y + row < img.height,
        bytes.len() >= 4 * (area.width * area.height),
    ensures
        ({
            let back = image::readback(image::uploaded(img, depth, area, bytes), area);
            let at = 4 * (row * area.width + col);
            &&& back[at] == bytes[at + 2]
            &&& back[at + 1] == bytes[at + 1]
            &&& back[at + 2] == bytes[at]
            &&& back[at + 3] == (if depth == 32 {
                bytes[at + 3]
            } else {
                0xff
            })
        }),
{
    let after = image::uploaded(img, depth, area, bytes);
    let x = area.x + col;
    let y = area.y + row;
    let w = img.width as int;
    let h = img.height as int;
    image::lemma_word_of_pixel(w, h, x, y);
    image::lemma_word_of_pixel(area.width as int, area.height as int, col, row);
    assert(area.width * area.height == area.height * area.width) by (nonlinear_arith);
    let p = row * area.width + col;
    let at = 4 * p;
    assert(area.upload_offset(x, y) == at);
    assert(after.has(x, y));
    let pixel = image::uploaded_pixel(bytes, depth, at);
    assert(after.pixel(x, y) == pixel);
    assert forall|k: int| at <= k < at + 4 implies #[trigger] image::readback(after, area)[k]
        == wire::le32(pixel as int)[k - at] by {
        assert(k / 4 == p && k % 4 == k - at);
        assert(area.x + p % (area.width as int) == x);
        assert(area.y + p / (area.width as int) == y);
    }
    let a: int = if depth == 32 {
        bytes[at + 3] as int
    } else {
        0xff
    };
    lemma_pixel_bytes(a, bytes[at] as int, bytes[at + 1] as int, bytes[at + 2] as int);
    assert(image::readback(after, area)[at] == bytes[at + 2]);
    assert(image::readback(after, area)[at + 1] == bytes[at + 1]);
    assert(image::readback(after, area)[at + 2] == bytes[at]);
    assert(image::readback(after, area)[at + 3] == a as u8);
}

proof fn lemma_pixel_bytes(a: int, r: int, g: int, b: int)
    requires
        0 <= a < 256,
        0 <= r < 256,
        0 <= g < 256,
        0 <= b < 256,
    ensures
        ({
            let p = a * 0x100_0000 + r * 0x1_0000 + g * 0x100 + b;
            &&& 0 <= p <= u32::MAX
            &&& p % 256 == b
            &&& p / 256 % 256 == g
            &&& p / 65536 % 256 == r
            &&& p / 16777216 % 256 == a
        }),
{
    let p = a * 0x100_0000 + r * 0x1_0000 + g * 0x100 + b;
    vstd::arithmetic::div_mod::lemma_fundamental_div_mod_converse(
        p,
        256,
        a * 0x1_0000 + r * 0x100 + g,
        b,
    );
    vstd::arithmetic::div_mod::lemma_fundamental_div_mod_converse(
        p,
        65536,
        a * 0x100 + r,
        g * 0x100 + b,
    );
    vstd::arithmetic::div_mod::lemma_fundamental_div_mod_converse(
        p,
        16777216,
        a,
        r * 0x1_0000 + g * 0x100 + b,
    );
    vstd::arithmetic::div_mod::lemma_fundamental_div_mod_converse(
        a * 0x1_0000 + r * 0x100 + g,
        256,
        a * 0x100 + r,
        g,
    );
    vstd::arithmetic::div_mod::lemma_fundamental_div_mod_converse(a * 0x100 + r, 256, a, r);
}

/// The four bytes of a word make it up.
proof fn lemma_bytes_make_up_the_word(v: u32)
    ensures
        v % 256 + 0x100 * (v / 256 % 256) + 0x1_0000 * (v / 65536 % 256) + 0x100_0000 * (v
            / 16777216 % 256) == v,
{
    assert(v % 256 + 0x100 * (v / 256 % 256) + 0x1_0000 * (v / 65536 % 256) + 0x100_0000 * (v
        / 16777216 % 256) == v) by (bit_vector);
}

/// A copied pixel is the pixel it was copied from; a copy of an area onto
/// itself changes nothing.
pub proof fn lemma_copy_carries_pixels_over(
    img: ImageView,
    area: Area,
    src: ImageView,
    src_x: int,
    src_y: int,
    col: int,
    row: int,
)
    requires
        img.is_word_image(),
        0 <= col < area.width,
        0 <= row < area.height,
        0 <= area.x + col < img.width,
        0 <= area.y + row < img.height,
        src.has(src_x + col, src_y + row),
    ensures
        image::copied(img, area, src, src_x, src_y).pixel(area.x + col, area.y + row)
            == src.pixel(src_x + col, src_y + row),
        image::copied(img, area, img, area.x as int, area.y as int) == img,
{
    let w = img.width as int;
    let h = img.height as int;
    image::lemma_word_of_pixel(w, h, area.x + col, area.y + row);
    let same = image::copied(img, area, img, area.x as int, area.y as int);
    assert forall|i: int| 0 <= i < img.data.len() implies #[trigger] same.data[i]
        == img.data[i] by {
        vstd::arithmetic::div_mod::lemma_fundamental_div_mod(i, w);
        assert(w * (i / w) == (i / w) * w) by (nonlinear_arith);
    }
    assert(same.data =~= img.data);
    assert(same =~= img);
}

/// The word that holds the pixel at `(x, y)` of an image of one word a pixel.
pub open spec fn word_at(img: ImageView, x: int, y: int) -> u32 {
    img.data[y * img.width + x]
}

/// An upload sets the pixels of its area that the image has and that there are bytes
/// for, four each and row by row: red first, then green and blue, and alpha where the
/// depth is 32. All other pixels stay, and so do all at a depth other than 24 and 32.
pub proof fn lemma_upload_sets_the_area(
    img: ImageView,
    depth: u8,
    area: Area,
    bytes: Seq<u8>,
    x: int,
    y: int,
)
    requires
        img.stride_words == img.width,
        img.data.len() == img.width * img.height,
        0 <= x < img.width,
        0 <= y < img.height,
    ensures
        ({
            let after = image::uploaded(img, depth, area, bytes);
            let at = 4 * ((y - area.y) * area.width + x - area.x);
            let is_set = (depth == 24 || depth == 32) && area.x <= x < area.x + area.width && area.y
                <= y < area.y + area.height && at + 4 <= bytes.len();
            &&& is_set && depth == 32 ==> word_at(after, x, y) == bytes[at + 2] + 0x100 * bytes[at
                + 1] + 0x1_0000 * bytes[at] + 0x100_0000 * bytes[at + 3]
            &&& is_set && depth == 24 ==> word_at(after, x, y) == bytes[at + 2] + 0x100 * bytes[at
                + 1] + 0x1_0000 * bytes[at] + 0xff00_0000
            &&& !is_set ==> word_at(after, x, y) == word_at(img, x, y)
            &&& after == img.with_data(after.data)
            &&& after.data.len() == img.data.len()
        }),
{
    let w = img.width as int;
    image::lemma_word_of_pixel(w, img.height as int, x, y);
}

/// A copy sets the pixels of its area that both images have to the pixels of the
/// source that lie as far from where the copy starts there. All others stay.
pub proof fn lemma_copy_sets_the_area(
    img: ImageView,
    area: Area,
    src: ImageView,
    src_x: int,
    src_y: int,
    x: int,
    y: int,
)
    requires
        img.stride_words == img.width,
        img.data.len() == img.width * img.height,
        src.stride_words == src.width,
        src.data.len() == src.width * src.height,
        0 <= x < img.width,
        0 <= y < img.height,
    ensures
        ({
            let after = image::copied(img, area, src, src_x, src_y);
            let sx = x - area.x + src_x;
            let sy = y - area.y + src_y;
            let is_set = area.x <= x < area.x + area.width && area.y <= y < area.y + area.height
                && 0 <= sx < src.width && 0 <= sy < src.height;
            &&& is_set ==> word_at(after, x, y) == word_at(src, sx, sy)
            &&& !is_set ==> word_at(after, x, y) == word_at(img, x, y)
            &&& after == img.with_data(after.data)
            &&& after.data.len() == img.data.len()
        }),
{
    let w = img.width as int;
    image::lemma_word_of_pixel(w, img.height as int, x, y);
    let sx = x - area.x + src_x;
    let sy = y - area.y + src_y;
    if 0 <= sx < src.width && 0 <= sy < src.height {
        image::lemma_word_of_pixel(src.width as int, src.height as int, sx, sy);
    }
}

/// A readback has four bytes for each pixel of its area, row by row and the low one
/// first. Pixels that the image does not have read as zeros.
pub proof fn lemma_readback_reads_the_area(img: ImageView, area: Area, col: int, row: int)
    requires
        img.stride_words == img.width,
        img.data.len() == img.width * img.height,
        0 <= col < area.width,
        0 <= row < area.height,
    ensures
        ({
            let back = image::readback(img, area);
            let at = 4 * (row * area.width + col);
            let (x, y) = (area.x + col, area.y + row);
            &&& back.len() == 4 * (area.width * area.height)
            &&& 0 <= at && at + 4 <= back.len()
            &&& 0 <= x < img.width && 0 <= y < img.height ==> word_at(img, x, y) == back[at] + 0x100
                * back[at + 1] + 0x1_0000 * back[at + 2] + 0x100_0000 * back[at + 3]
            &&& !(0 <= x < img.width && 0 <= y < img.height) ==> back[at] == 0 && back[at + 1] == 0
                && back[at + 2] == 0 && back[at + 3] == 0
        }),
{
    let back = image::readback(img, area);
    let aw = area.width as int;
    let ah = area.height as int;
    let (x, y) = (area.x + col, area.y + row);
    image::lemma_word_of_pixel(aw, ah, col, row);
    assert(aw * ah == ah * aw) by (nonlinear_arith);
    let p = row * aw + col;
    let at = 4 * p;
    if 0 <= x < img.width && 0 <= y < img.height {
        image::lemma_word_of_pixel(img.width as int, img.height as int, x, y);
    }
    let v = image::pixel_or_zero(img, x, y);
    assert forall|k: int| at <= k < at + 4 implies #[trigger] back[k] == wire::le32(v as int)[k
        - at] by {
        assert(k / 4 == p && k % 4 == k - at);
    }
    assert(back[at] == wire::le32(v as int)[0]);
    assert(back[at + 1] == wire::le32(v as int)[1]);
    assert(back[at + 2] == wire::le32(v as int)[2]);
    assert(back[at + 3] == wire::le32(v as int)[3]);
    lemma_bytes_make_up_the_word(v);
}

/// Filling with Xor flips, in a pixel that an odd number of rectangles cover, the
/// bits of the three low bytes of the foreground, and leaves every other pixel as it
/// was and nothing to do. Every other function leaves the image alone and all the
/// rectangles to be filled with the colour of the foreground.
pub proof fn lemma_fill_flips_or_is_left(
    img: ImageView,
    function: GcFunction,
    foreground: u32,
    rects: Seq<Rectangle16>,
    x: int,
    y: int,
)
    requires
        img.stride_words == img.width,
        img.data.len() == img.width * img.height,
        0 <= x < img.width,
        0 <= y < img.height,
    ensures
        ({
            let (after, left) = image::gc_filled(img, function, foreground, rects);
            let odd = rects.filter(|r: Rectangle16| r.covers(x, y)).len() % 2 == 1;
            &&& function == GcFunction::Xor ==> {
                &&& left is None
                &&& odd ==> word_at(after, x, y) == word_at(img, x, y) ^ (foreground & 0x00ff_ffff)
                &&& !odd ==> word_at(after, x, y) == word_at(img, x, y)
                &&& after == img.with_data(after.data)
            }
            &&& function != GcFunction::Xor ==> {
                &&& after == img
                &&& left is Some && left->0.rects == rects
                &&& left->0.color.red == foreground / 0x1_0000 % 0x100 * 0x100
                &&& left->0.color.green == foreground / 0x100 % 0x100 * 0x100
                &&& left->0.color.blue == foreground % 0x100 * 0x100
                &&& left->0.color.alpha == 0xffff
            }
        }),
{
    let w = img.width as int;
    image::lemma_word_of_pixel(w, img.height as int, x, y);
    lemma_times_covered_counts(rects, x, y);
}

proof fn lemma_times_covered_counts(rects: Seq<Rectangle16>, x: int, y: int)
    ensures
        image::times_covered(rects, x, y) == rects.filter(
            |r: Rectangle16| r.covers(x, y),
        ).len(),
    decreases rects.len(),
{
    reveal(Seq::filter);
    if rects.len() > 0 {
        lemma_times_covered_counts(rects.drop_last(), x, y);
    }
}

/// A rectangle covers the pixels from its upper left corner on, as many to the right
/// as it is wide and as many down as it is high.
pub proof fn lemma_rectangle_covers_its_pixels(r: Rectangle16, dx: int, dy: int)
    ensures
        r.covers(r.x + dx, r.y + dy) <==> 0 <= dx < r.width && 0 <= dy < r.height,
{
}

/// A blank image has rows of whole words: a word for each pixel, for four, or for
/// thirty-two, by its format; depths 1, 8 and 32 have formats of their own.
pub proof fn lemma_blank_image_has_rows_of_words(width: u16, height: u16, depth: u8)
    ensures
        ({
            let img = ImageView::blank(PixelFormat::for_depth(depth), width, height);
            let n: int = if depth == 1 {
                32
            } else if depth == 8 {
                4
            } else {
                1
            };
            &&& img.width == width && img.height == height
            &&& n * img.stride_words - n < width <= n * img.stride_words
            &&& img.data.len() == img.stride_words * height
            &&& forall|i: int| 0 <= i < img.data.len() ==> #[trigger] img.data[i] == 0
            &&& img.format == PixelFormat::A1 <==> depth == 1
            &&& img.format == PixelFormat::A8 <==> depth == 8
            &&& img.format == PixelFormat::A8R8G8B8 <==> depth == 32
        }),
{
    let f = PixelFormat::for_depth(depth);
    assert(0 <= f.words(width as int) * height) by (nonlinear_arith)
        requires
            f.words(width as int) >= 0,
            height >= 0,
    ;
}

/// Images that pack several pixels into a word are drawn on by the compositing library
/// alone: flipping, uploading and copying leave them as they are.
pub proof fn lemma_packed_images_are_left_alone(
    img: ImageView,
    foreground: u32,
    rects: Seq<Rectangle16>,
    depth: u8,
    area: Area,
    bytes: Seq<u8>,
    src: ImageView,
    src_x: int,
    src_y: int,
)
    requires
        img.stride_words != img.width || img.data.len() != img.width * img.height,
    ensures
        image::gc_filled(img, GcFunction::Xor, foreground, rects).0 == img,
        image::gc_filled(img, GcFunction::Xor, foreground, rects).1 is None,
        image::uploaded(img, depth, area, bytes) == img,
        image::copied(img, area, src, src_x, src_y) == img,
{
}

} // verus!
