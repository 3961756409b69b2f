//! The hardware cursor: one image in a buffer of the kernel, shown on each
//! output by itself.
//!
//! Uploading an image never shows it. That lets an output keep its software
//! cursor until it is ready, while another one already shows the plane.

use std::collections::HashMap;

use vstd::prelude::*;

use crate::maps::keys_of;

verus! {

/// Width of the plane: what every desktop GPU supports. Larger cursors are left
/// to software.
pub const HW_CURSOR_W: u32 = 64;

/// Height of the plane.
pub const HW_CURSOR_H: u32 = 64;

/// Why an image does not go into the plane.
#[derive(Clone, Copy, Debug, PartialEq, Eq, Structural)]
pub enum CursorImageError {
    ZeroSized,
    TooLarge,
    /// There are fewer bytes than width times height times four.
    TooShort,
}

/// The books of the plane. Outputs go by the raw number of their CRTC.
#[derive(Debug)]
pub struct CursorPlane {
    /// Bytes from one row of the buffer to the next.
    pub stride: u32,
    /// Whether the plane is shown, for each output that it was ever shown on or
    /// hidden from.
    pub visible: HashMap<u32, bool>,
    /// Version of the image in the buffer; `None` if the next upload has to
    /// write it whatever its version.
    pub uploaded_version: Option<u64>,
}

/// [`CursorPlane`] with its outputs as a mathematical map.
#[verifier::ext_equal]
pub struct CursorPlaneView {
    pub stride: u32,
    pub visible: Map<u32, bool>,
    pub uploaded_version: Option<u64>,
}

impl View for CursorPlane {
    type V = CursorPlaneView;

    open spec fn view(&self) -> CursorPlaneView {
        CursorPlaneView {
            stride: self.stride,
            visible: self.visible@,
            uploaded_version: self.uploaded_version,
        }
    }
}

/// Whether a buffer of `len` bytes holds the plane in rows of `stride` bytes.
pub open spec fn holds_plane(len: nat, stride: u32) -> bool {
    stride >= 4 * HW_CURSOR_W && len >= HW_CURSOR_H * stride
}

/// What is wrong with an image of this size and so many bytes.
pub open spec fn image_error(w: u32, h: u32, len: nat) -> Option<CursorImageError> {
    if w == 0 || h == 0 {
        Some(CursorImageError::ZeroSized)
    } else if w > HW_CURSOR_W || h > HW_CURSOR_H {
        Some(CursorImageError::TooLarge)
    } else if len < 4 * (w * h) {
        Some(CursorImageError::TooShort)
    } else {
        None
    }
}

/// A buffer of `len` bytes with the image in its upper left corner, and
/// transparent elsewhere.
pub open spec fn plane_with(len: nat, stride: u32, w: u32, h: u32, image: Seq<u8>) -> Seq<u8> {
    Seq::new(
        len,
        |i: int|
            {
                let row = i / (stride as int);
                let col = i % (stride as int);
                if row < h && col < 4 * w {
                    image[row * (4 * w) + col]
                } else {
                    0
                }
            },
    )
}

impl CursorPlaneView {
    pub open spec fn shows_on(self, crtc: u32) -> bool {
        self.visible.contains_key(crtc) && self.visible[crtc]
    }

    pub open spec fn with_output(self, crtc: u32, shown: bool) -> CursorPlaneView {
        CursorPlaneView { visible: self.visible.insert(crtc, shown), ..self }
    }
}

impl CursorPlane {
    /// The books of a fresh, blank plane with rows of `stride` bytes.
    pub fn new(stride: u32) -> (r: Self)
        ensures
            r@ == (CursorPlaneView { stride, visible: Map::empty(), uploaded_version: None }),
    {
        CursorPlane { stride, visible: HashMap::new(), uploaded_version: None }
    }

    /// Writes an image, four bytes for each pixel and without gaps, into the
    /// buffer of the plane. On an error the buffer stays as it was.
    pub fn load_image(
        &self,
        plane: &mut [u8],
        image_w: u32,
        image_h: u32,
        bgra_bytes: &[u8],
    ) -> (r: Result<(), CursorImageError>)
        requires
            holds_plane(old(plane)@.len(), self@.stride),
        ensures
            match r {
                Ok(_) => image_error(image_w, image_h, bgra_bytes@.len()) is None
                    && final(plane)@ == plane_with(
                    old(plane)@.len(),
                    self@.stride,
                    image_w,
                    image_h,
                    bgra_bytes@,
                ),
                Err(e) => image_error(image_w, image_h, bgra_bytes@.len()) == Some(e)
                    && final(plane)@ == old(plane)@,
            },
    {
        if image_w == 0 || image_h == 0 {
            return Err(CursorImageError::ZeroSized);
        }
        if image_w > HW_CURSOR_W || image_h > HW_CURSOR_H {
            return Err(CursorImageError::TooLarge);
        }
        assert(image_w * image_h <= 64 * 64) by (nonlinear_arith)
            requires
                image_w <= 64,
                image_h <= 64,
        ;
        if (bgra_bytes.len() as u64) < 4 * (image_w as u64 * image_h as u64) {
            return Err(CursorImageError::TooShort);
        }
        let stride: usize = self.stride as usize;
        let row_len: usize = 4 * image_w as usize;
        let h: usize = image_h as usize;
        let len: usize = plane.len();
        let ghost goal = plane_with(len as nat, self.stride, image_w, image_h, bgra_bytes@);
        let mut i: usize = 0;
        while i < len
            invariant
                i <= len,
                len == plane@.len(),
                len == old(plane)@.len(),
                stride == self.stride,
                stride >= 256,
                1 <= image_w <= 64,
                row_len == 4 * image_w,
                h == image_h,
                bgra_bytes@.len() >= 4 * (image_w * image_h),
                goal == plane_with(len as nat, self.stride, image_w, image_h, bgra_bytes@),
                forall|j: int| 0 <= j < i ==> plane@[j] == goal[j],
            decreases len - i,
        {
            let row: usize = i / stride;
            let col: usize = i % stride;
            let byte: u8 = if row < h && col < row_len {
                proof {
                    assert(row * row_len + col < 4 * (image_w * image_h)) by (nonlinear_arith)
                        requires
                            0 <= row <= image_h - 1,
                            0 <= col < row_len,
                            row_len == 4 * image_w,
                    ;
                    assert(0 <= row * row_len <= row * row_len + col) by (nonlinear_arith)
                        requires
                            0 <= row,
                            0 <= row_len,
                            0 <= col,
                    ;
                }
                let n: usize = bgra_bytes.len();
                assert(row * row_len + col < n);
                bgra_bytes[row * row_len + col]
            } else {
                0
            };
            plane[i] = byte;
            assert(goal[i as int] == byte);
            i += 1;
        }
        assert(plane@ =~= goal);
        Ok(())
    }

    /// Writes an image into the buffer unless this version of it is there
    /// already. Shows it nowhere.
    pub fn upload_image(
        &mut self,
        plane: &mut [u8],
        version: u64,
        image_w: u32,
        image_h: u32,
        bgra_bytes: &[u8],
    ) -> (r: Result<(), CursorImageError>)
        requires
            holds_plane(old(plane)@.len(), old(self)@.stride),
        ensures
            final(self)@.visible == old(self)@.visible,
            final(self)@.stride == old(self)@.stride,
            if old(self)@.uploaded_version == Some(version) {
                r is Ok && final(self)@ == old(self)@ && final(plane)@ == old(plane)@
            } else {
                match r {
                    Ok(_) => {
                        &&& image_error(image_w, image_h, bgra_bytes@.len()) is None
                        &&& final(self)@.uploaded_version == Some(version)
                        &&& final(plane)@ == plane_with(
                            old(plane)@.len(),
                            old(self)@.stride,
                            image_w,
                            image_h,
                            bgra_bytes@,
                        )
                    },
                    Err(e) => {
                        &&& image_error(image_w, image_h, bgra_bytes@.len()) == Some(e)
                        &&& final(self)@ == old(self)@
                        &&& final(plane)@ == old(plane)@
                    },
                }
            },
    {
        if let Some(uploaded) = self.uploaded_version {
            if uploaded == version {
                return Ok(());
            }
        }
        match self.load_image(plane, image_w, image_h, bgra_bytes) {
            Ok(_) => {
                self.uploaded_version = Some(version);
                Ok(())
            },
            Err(e) => Err(e),
        }
    }

    #[must_use]
    pub fn uploaded_version(&self) -> (r: Option<u64>)
        ensures
            r == self@.uploaded_version,
    {
        self.uploaded_version
    }

    /// Makes the next upload write its image whatever its version.
    pub fn invalidate_uploaded_version(&mut self)
        ensures
            final(self)@ == (CursorPlaneView { uploaded_version: None, ..old(self)@ }),
    {
        self.uploaded_version = None;
    }

    /// The plane was bound to an output.
    pub fn show(&mut self, crtc: u32)
        ensures
            final(self)@ == old(self)@.with_output(crtc, true),
    {
        broadcast use vstd::std_specs::hash::group_hash_axioms;

        self.visible.insert(crtc, true);
    }

    /// The plane was detached from an output.
    pub fn detach(&mut self, crtc: u32)
        ensures
            final(self)@ == old(self)@.with_output(crtc, false),
    {
        broadcast use vstd::std_specs::hash::group_hash_axioms;

        self.visible.insert(crtc, false);
    }

    /// Whether the plane is shown on an output.
    #[must_use]
    pub fn is_visible_on(&self, crtc: u32) -> (r: bool)
        ensures
            r == self@.shows_on(crtc),
    {
        broadcast use vstd::std_specs::hash::group_hash_axioms;

        match self.visible.get(&crtc) {
            Some(shown) => *shown,
            None => false,
        }
    }

    /// Whether the plane is shown on any output.
    #[must_use]
    pub fn is_visible(&self) -> (r: bool)
        ensures
            r == exists|crtc: u32| #[trigger] self@.shows_on(crtc),
    {
        let keys = keys_of(&self.visible);
        let n: usize = keys.len();
        for i in 0..n
            invariant
                n == keys@.len(),
                forall|k: u32| #[trigger] keys@.contains(k) <==> self@.visible.contains_key(k),
                forall|j: int| 0 <= j < i ==> !self@.shows_on(#[trigger] keys@[j]),
        {
            let crtc: u32 = keys[i];
            if self.is_visible_on(crtc) {
                return true;
            }
        }
        assert forall|crtc: u32| !#[trigger] self@.shows_on(crtc) by {
            if self@.shows_on(crtc) {
                assert(keys@.contains(crtc));
                let j = choose|j: int| 0 <= j < n && keys@[j] == crtc;
                assert(!self@.shows_on(keys@[j]));
            }
        }
        false
    }

    /// Every output that the plane was ever shown on or hidden from.
    pub fn known_crtcs(&self) -> (r: Vec<u32>)
        ensures
            r@.no_duplicates(),
            forall|crtc: u32| #[trigger] r@.contains(crtc) <==> self@.visible.contains_key(crtc),
    {
        keys_of(&self.visible)
    }
}

/// Showing or hiding the plane on one output changes nothing on any other.
pub proof fn lemma_visibility_is_per_output(
    plane: CursorPlaneView,
    crtc: u32,
    shown: bool,
    other: u32,
)
    ensures
        plane.with_output(crtc, shown).shows_on(crtc) == shown,
        other != crtc ==> plane.with_output(crtc, shown).shows_on(other) == plane.shows_on(other),
        plane.with_output(crtc, shown).uploaded_version == plane.uploaded_version,
{
}

/// The image that was loaded stands in the plane, and every other pixel is
/// transparent.
pub proof fn lemma_loaded_image_is_in_the_plane(
    len: nat,
    stride: u32,
    w: u32,
    h: u32,
    image: Seq<u8>,
    row: int,
    col: int,
)
    requires
        holds_plane(len, stride),
        image_error(w, h, image.len()) is None,
        0 <= row < HW_CURSOR_H,
        0 <= col < stride,
    ensures
        plane_with(len, stride, w, h, image)[row * stride + col] == (if row < h && col < 4 * w {
            image[row * (4 * w) + col]
        } else {
            0
        }),
{
    crate::kms::image::lemma_word_of_pixel(stride as int, HW_CURSOR_H as int, col, row);
    assert(stride * HW_CURSOR_H == HW_CURSOR_H * stride) by (nonlinear_arith);
}

/// An image is taken if it has between one and 64 pixels on each side and four bytes
/// for each. Of several faults an empty side is reported before one that is too long,
/// and that before missing bytes.
pub proof fn lemma_images_of_64_by_64_are_taken(w: u32, h: u32, len: nat)
    ensures
        image_error(w, h, len) is None <==> 1 <= w <= 64 && 1 <= h <= 64 && len >= 4 * (w * h),
        image_error(w, h, len) == Some(CursorImageError::ZeroSized) <==> w == 0 || h == 0,
        image_error(w, h, len) == Some(CursorImageError::TooLarge) <==> w > 0 && h > 0 && (w > 64
            || h > 64),
        image_error(w, h, len) == Some(CursorImageError::TooShort) <==> 1 <= w <= 64 && 1 <= h
            <= 64 && len < 4 * (w * h),
{
}

} // verus!
