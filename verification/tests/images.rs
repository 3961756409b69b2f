use yserver::backend::GcFunction;
use yserver::kms::image::{
    color_from_u32, copy_pixels, fill_rects_with_gc_function, get_pixels, put_pixels, Area, Color,
    PixelFormat, PixmanImage, SolidFill,
};
use yserver::kms::raster::Rectangle16;

/// Paints what is left to the compositing library, for images of whole words.
fn paint(img: &mut PixmanImage, fill: &SolidFill) {
    let c = fill.color;
    let pixel = (u32::from(c.alpha >> 8) << 24)
        | (u32::from(c.red >> 8) << 16)
        | (u32::from(c.green >> 8) << 8)
        | u32::from(c.blue >> 8);
    let words = img.stride() / 4;
    for r in &fill.rects {
        for y in r.y as i32..r.y as i32 + r.height as i32 {
            for x in r.x as i32..r.x as i32 + r.width as i32 {
                if x >= 0 && y >= 0 && x < img.width as i32 && y < img.height as i32 {
                    img.data[y as usize * words + x as usize] = pixel;
                }
            }
        }
    }
}

fn whole(img: &PixmanImage) -> Vec<Rectangle16> {
    vec![Rectangle16 { x: 0, y: 0, width: img.width, height: img.height }]
}

/// Fills an image with a 24-bit colour.
fn fill_image(img: &mut PixmanImage, pixel: u32) {
    let fill = SolidFill { color: color_from_u32(pixel), rects: whole(img) };
    paint(img, &fill);
}

fn read_pixel(img: &PixmanImage, x: i32, y: i32) -> u32 {
    img.read(x, y).unwrap()
}

fn area(x: i16, y: i16, width: u16, height: u16) -> Area {
    Area { x, y, width, height }
}

#[test]
fn fill_rects_copy_overwrites_destination() {
    let mut img = PixmanImage::new(PixelFormat::X8R8G8B8, 4, 4);
    fill_image(&mut img, 0x00ff_ffff); // white
    let rect = Rectangle16 { x: 0, y: 0, width: 4, height: 4 };
    let left = fill_rects_with_gc_function(&mut img, GcFunction::Copy, 0x00ff_00ff, vec![rect]);
    paint(&mut img, &left.unwrap());
    let pixel = read_pixel(&img, 1, 1);
    assert_eq!(pixel & 0x00ff_ffff, 0x00ff_00ff, "Copy should overwrite with magenta");
}

#[test]
fn poly_segment_xor_inverts_destination_pixels() {
    // Create a 16x16 image pre-filled with white (0x00FFFFFF).
    let mut img = PixmanImage::new(PixelFormat::X8R8G8B8, 16, 16);
    fill_image(&mut img, 0x00ff_ffff); // white

    // Draw a horizontal line at y=8 with magenta (0x00FF00FF) using XOR.
    let row: Vec<Rectangle16> =
        (0..16_i16).map(|x| Rectangle16 { x, y: 8, width: 1, height: 1 }).collect();
    let left = fill_rects_with_gc_function(&mut img, GcFunction::Xor, 0x00ff_00ff, row);
    assert!(left.is_none());

    // White (0xFFFFFF) XOR magenta (0xFF00FF) = green (0x00FF00).
    let pixel = read_pixel(&img, 8, 8);
    assert_eq!(
        pixel & 0x00ff_ffff,
        0x0000_ff00,
        "expected green (0x00FF00), got 0x{:08x}",
        pixel
    );

    // Pixels outside the drawn row must remain white.
    let untouched = read_pixel(&img, 8, 0);
    assert_eq!(
        untouched & 0x00ff_ffff,
        0x00ff_ffff,
        "pixel at (8,0) should be untouched white"
    );
}

#[test]
fn xor_twice_undoes_itself() {
    let mut img = PixmanImage::new(PixelFormat::A8R8G8B8, 5, 3);
    for (i, word) in img.data.iter_mut().enumerate() {
        *word = 0x8000_0000 + 0x0001_0203 * i as u32;
    }
    let before = img.data.clone();
    let rects = vec![
        Rectangle16 { x: -3, y: -3, width: 6, height: 5 },
        Rectangle16 { x: 2, y: 1, width: 100, height: 100 },
    ];
    fill_rects_with_gc_function(&mut img, GcFunction::Xor, 0xff12_3456, rects.clone());
    assert!(img.data != before);
    assert!(img.data.iter().zip(&before).all(|(a, b)| a >> 24 == b >> 24));
    fill_rects_with_gc_function(&mut img, GcFunction::Xor, 0xff12_3456, rects);
    assert_eq!(img.data, before);
}

#[test]
fn other_functions_are_left_as_copy() {
    let mut img = PixmanImage::new(PixelFormat::X8R8G8B8, 2, 2);
    let rects = whole(&img);
    for function in [GcFunction::Copy, GcFunction::Invert, GcFunction::SetAll, GcFunction::NoOp] {
        let left = fill_rects_with_gc_function(&mut img, function, 0x0012_3456, rects.clone());
        let left = left.unwrap();
        assert_eq!(left.color, Color { red: 0x1200, green: 0x3400, blue: 0x5600, alpha: 0xffff });
        assert_eq!(left.rects, rects);
        assert!(img.data.iter().all(|&w| w == 0));
    }
}

#[test]
fn colours_of_pixels() {
    assert_eq!(
        color_from_u32(0xab_ff01_7f),
        Color { red: 0xff00, green: 0x0100, blue: 0x7f00, alpha: 0xffff }
    );
}

#[test]
fn rows_are_padded_to_words() {
    let a1 = PixmanImage::new(PixelFormat::A1, 33, 2);
    assert_eq!((a1.width(), a1.height(), a1.stride(), a1.data.len()), (33, 2, 8, 4));
    let a8 = PixmanImage::new(PixelFormat::A8, 5, 3);
    assert_eq!((a8.stride(), a8.data.len()), (8, 6));
    let x = PixmanImage::new(PixelFormat::X8R8G8B8, 5, 3);
    assert_eq!((x.stride(), x.data.len()), (20, 15));
    assert_eq!(PixelFormat::of_depth(1), PixelFormat::A1);
    assert_eq!(PixelFormat::of_depth(8), PixelFormat::A8);
    assert_eq!(PixelFormat::of_depth(24), PixelFormat::X8R8G8B8);
    assert_eq!(PixelFormat::of_depth(32), PixelFormat::A8R8G8B8);
    assert_eq!(PixelFormat::of_depth(16), PixelFormat::X8R8G8B8);
}

#[test]
fn uploads_put_red_first() {
    let mut img = PixmanImage::new(PixelFormat::A8R8G8B8, 3, 3);
    put_pixels(&mut img, 24, area(1, 1, 1, 1), &[0x11, 0x22, 0x33, 0x44]);
    assert_eq!(read_pixel(&img, 1, 1), 0xff11_2233);
    put_pixels(&mut img, 32, area(2, 2, 1, 1), &[0x11, 0x22, 0x33, 0x44]);
    assert_eq!(read_pixel(&img, 2, 2), 0x4411_2233);
    assert_eq!(read_pixel(&img, 0, 0), 0);
    // Other depths are ignored.
    put_pixels(&mut img, 1, area(0, 0, 3, 3), &[0xff; 36]);
    put_pixels(&mut img, 8, area(0, 0, 3, 3), &[0xff; 36]);
    assert_eq!(read_pixel(&img, 0, 0), 0);
}

#[test]
fn uploads_are_clipped_and_may_be_short() {
    let mut img = PixmanImage::new(PixelFormat::X8R8G8B8, 2, 2);
    let bytes: Vec<u8> = (1..=36).collect();
    put_pixels(&mut img, 24, area(-1, -1, 3, 3), &bytes);
    // Row 1, columns 1 and 2 of the data; row 2 likewise.
    assert_eq!(img.data, [0xff11_1213, 0xff15_1617, 0xff1d_1e1f, 0xff21_2223]);
    let mut short = PixmanImage::new(PixelFormat::X8R8G8B8, 2, 2);
    put_pixels(&mut short, 24, area(0, 0, 2, 2), &bytes[..11]);
    assert_eq!(short.data, [0xff01_0203, 0xff05_0607, 0, 0]);
}

#[test]
fn an_upload_reads_back() {
    let mut img = PixmanImage::new(PixelFormat::A8R8G8B8, 4, 4);
    put_pixels(&mut img, 32, area(1, 0, 2, 1), &[1, 2, 3, 4, 5, 6, 7, 8]);
    assert_eq!(get_pixels(&img, area(1, 0, 2, 1)), [3, 2, 1, 4, 7, 6, 5, 8]);
}

#[test]
fn reading_outside_gives_zeros() {
    let mut img = PixmanImage::new(PixelFormat::A8R8G8B8, 1, 1);
    img.data[0] = 0x0403_0201;
    assert_eq!(get_pixels(&img, area(-1, 0, 3, 1)), [0, 0, 0, 0, 1, 2, 3, 4, 0, 0, 0, 0]);
    assert_eq!(get_pixels(&img, area(0, -1, 1, 2)), [0, 0, 0, 0, 1, 2, 3, 4]);
    assert_eq!(img.read(1, 0), None);
    assert_eq!(img.read(0, -1), None);
}

#[test]
fn copies_carry_pixels_over() {
    let mut src = PixmanImage::new(PixelFormat::X8R8G8B8, 3, 2);
    src.data = vec![1, 2, 3, 4, 5, 6];
    let mut dst = PixmanImage::new(PixelFormat::X8R8G8B8, 3, 3);
    dst.data = vec![90; 9];
    copy_pixels(&mut dst, area(1, 1, 5, 5), &src, 1, 0);
    assert_eq!(dst.data, [90, 90, 90, 90, 2, 3, 90, 5, 6]);
    let copy = dst.snapshot();
    assert_eq!(copy.data, dst.data);
    // What the source does not have is not copied.
    copy_pixels(&mut dst, area(0, 0, 2, 1), &src, -1, 0);
    assert_eq!(dst.data[..3], [90, 1, 90]);
}
