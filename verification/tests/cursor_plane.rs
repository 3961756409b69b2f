use yserver::kms::cursor_plane::{CursorImageError, CursorPlane, HW_CURSOR_H, HW_CURSOR_W};

const STRIDE: usize = 320;

fn buffer() -> Vec<u8> {
    vec![0x55; STRIDE * 64]
}

fn image(w: usize, h: usize) -> Vec<u8> {
    (0..w * h * 4).map(|i| (i % 251) as u8 + 1).collect()
}

#[test]
fn visibility_is_per_crtc() {
    let mut plane = CursorPlane::new(256);
    let crtc_a: u32 = 11;
    let crtc_b: u32 = 12;

    // Show on A only.
    plane.show(crtc_a);
    assert!(plane.is_visible_on(crtc_a));
    assert!(!plane.is_visible_on(crtc_b));

    // Show on B: A's state unchanged.
    plane.show(crtc_b);
    assert!(plane.is_visible_on(crtc_a));
    assert!(plane.is_visible_on(crtc_b));

    // Hide A.
    plane.detach(crtc_a);
    assert!(!plane.is_visible_on(crtc_a));
    assert!(plane.is_visible_on(crtc_b));
}

#[test]
fn visible_on_any_output() {
    let mut plane = CursorPlane::new(256);
    assert!(!plane.is_visible());
    plane.detach(3);
    assert!(!plane.is_visible());
    plane.show(4);
    assert!(plane.is_visible());
    plane.detach(4);
    assert!(!plane.is_visible());
    let mut known = plane.known_crtcs();
    known.sort_unstable();
    assert_eq!(known, [3, 4]);
}

#[test]
fn image_lands_in_the_corner() {
    assert_eq!((HW_CURSOR_W, HW_CURSOR_H), (64, 64));
    let plane = CursorPlane::new(STRIDE as u32);
    let mut bytes = buffer();
    let img = image(3, 2);
    assert_eq!(plane.load_image(&mut bytes, 3, 2, &img), Ok(()));
    assert_eq!(bytes[..12], img[..12]);
    assert_eq!(bytes[STRIDE..STRIDE + 12], img[12..24]);
    assert!(bytes[12..STRIDE].iter().all(|&b| b == 0));
    assert!(bytes[STRIDE + 12..].iter().all(|&b| b == 0));
}

#[test]
fn smaller_image_leaves_nothing_behind() {
    let plane = CursorPlane::new(STRIDE as u32);
    let mut bytes = buffer();
    assert_eq!(plane.load_image(&mut bytes, 64, 64, &image(64, 64)), Ok(()));
    assert!(bytes[63 * STRIDE + 255] != 0);
    assert_eq!(plane.load_image(&mut bytes, 1, 1, &image(1, 1)), Ok(()));
    assert!(bytes[4..].iter().all(|&b| b == 0));
}

#[test]
fn bad_images_are_refused() {
    let plane = CursorPlane::new(STRIDE as u32);
    let mut bytes = buffer();
    let before = bytes.clone();
    let img = image(65, 65);
    assert_eq!(plane.load_image(&mut bytes, 0, 5, &img), Err(CursorImageError::ZeroSized));
    assert_eq!(plane.load_image(&mut bytes, 5, 0, &img), Err(CursorImageError::ZeroSized));
    assert_eq!(plane.load_image(&mut bytes, 65, 1, &img), Err(CursorImageError::TooLarge));
    assert_eq!(plane.load_image(&mut bytes, 1, 65, &img), Err(CursorImageError::TooLarge));
    assert_eq!(plane.load_image(&mut bytes, 0, 65, &img), Err(CursorImageError::ZeroSized));
    assert_eq!(plane.load_image(&mut bytes, 4, 4, &img[..63]), Err(CursorImageError::TooShort));
    assert_eq!(bytes, before);
}

#[test]
fn same_version_is_not_written_again() {
    let mut plane = CursorPlane::new(STRIDE as u32);
    let mut bytes = buffer();
    assert_eq!(plane.uploaded_version(), None);
    assert_eq!(plane.upload_image(&mut bytes, 7, 2, 2, &image(2, 2)), Ok(()));
    assert_eq!(plane.uploaded_version(), Some(7));
    let after = bytes.clone();
    // Not even looked at.
    assert_eq!(plane.upload_image(&mut bytes, 7, 0, 0, &[]), Ok(()));
    assert_eq!(bytes, after);
    assert_eq!(plane.upload_image(&mut bytes, 8, 0, 0, &[]), Err(CursorImageError::ZeroSized));
    assert_eq!(plane.uploaded_version(), Some(7));
    plane.invalidate_uploaded_version();
    assert_eq!(plane.upload_image(&mut bytes, 7, 1, 1, &image(1, 1)), Ok(()));
    assert!(bytes != after);
}

#[test]
fn uploading_shows_nothing() {
    let mut plane = CursorPlane::new(STRIDE as u32);
    let mut bytes = buffer();
    plane.upload_image(&mut bytes, 1, 2, 2, &image(2, 2)).unwrap();
    assert!(!plane.is_visible());
    assert!(plane.known_crtcs().is_empty());
}
