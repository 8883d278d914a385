//! Captured frames and the region of the screen that is kept of them.
use crate::config::CaptureConfig;
use std::sync::Arc;
use vstd::prelude::*;

verus! {

/// A captured frame: rows of four-byte pixels in the order blue, green, red,
/// alpha. The bytes are shared between clones.
pub struct Frame {
    pub data: Arc<Vec<u8>>,
    pub width: u32,
    pub height: u32,
    pub stride: u32,
}

/// The contents of a frame.
#[verifier::ext_equal]
pub struct FrameView {
    pub bytes: Seq<u8>,
    pub width: int,
    pub height: int,
    pub stride: int,
}

impl View for Frame {
    type V = FrameView;

    open spec fn view(&self) -> FrameView {
        FrameView {
            bytes: self.data@,
            width: self.width as int,
            height: self.height as int,
            stride: self.stride as int,
        }
    }
}

impl Clone for Frame {
    fn clone(&self) -> (frame: Self)
        ensures
            frame == *self,
    {
        Frame {
            data: self.data.clone(),
            width: self.width,
            height: self.height,
            stride: self.stride,
        }
    }
}

impl FrameView {
    /// Where the bytes of a pixel start.
    pub open spec fn offset(self, x: int, y: int) -> int {
        y * self.stride + x * 4
    }

    /// Whether the frame has colour bytes for a pixel, at an offset that a
    /// 32-bit number can hold.
    pub open spec fn has_pixel(self, x: int, y: int) -> bool {
        0 <= self.offset(x, y) <= u32::MAX && self.offset(x, y) + 2 < self.bytes.len()
    }

    /// Red, green and blue of a pixel.
    pub open spec fn pixel(self, x: int, y: int) -> (u8, u8, u8) {
        (
            self.bytes[self.offset(x, y) + 2],
            self.bytes[self.offset(x, y) + 1],
            self.bytes[self.offset(x, y)],
        )
    }

    /// Whether every pixel within the given bounds has colour bytes.
    pub open spec fn full(self) -> bool {
        forall|x: int, y: int|
            0 <= x < self.width && 0 <= y < self.height ==> #[trigger] self.has_pixel(x, y)
    }

    /// Whether a region can be cut out of the frame: its bytes are there, and
    /// its size and their offsets can be held by 32-bit numbers.
    pub open spec fn covers(self, x: int, y: int, w: int, h: int) -> bool {
        &&& w * 4 <= u32::MAX
        &&& w * h * 4 <= u32::MAX
        &&& y + h <= u32::MAX
        &&& h > 0 ==> {
            &&& self.offset(x, y + h - 1) <= u32::MAX
            &&& self.offset(x, y + h - 1) + w * 4 <= self.bytes.len()
        }
    }

    /// The region of the frame with the given corner and size.
    pub open spec fn region(self, x: int, y: int, w: int, h: int) -> FrameView {
        FrameView {
            bytes: Seq::new(
                (w * h * 4) as nat,
                |k: int| self.bytes[self.offset(x, y + k / (w * 4)) + k % (w * 4)],
            ),
            width: w,
            height: h,
            stride: w * 4,
        }
    }
}

/// Row after row, the bytes of a region are those of its rows.
proof fn lemma_region_rows(w: int, r: int, j: int)
    requires
        w > 0,
        0 <= j < w * 4,
        0 <= r,
    ensures
        (r * (w * 4) + j) / (w * 4) == r,
        (r * (w * 4) + j) % (w * 4) == j,
{
    vstd::arithmetic::div_mod::lemma_fundamental_div_mod_converse(
        r * (w * 4) + j,
        w * 4,
        r,
        j,
    );
}

impl Frame {
    /// Red, green and blue of the pixel at `(x, y)`.
    pub fn pixel_rgb(&self, x: u32, y: u32) -> (rgb: (u8, u8, u8))
        requires
            self@.has_pixel(x as int, y as int),
        ensures
            rgb == self@.pixel(x as int, y as int),
    {
        assert(0 <= y * self.stride) by (nonlinear_arith);
        let offset = (y * self.stride + x * 4) as usize;
        assert(offset + 2 < self.data.len());
        let b = self.data[offset];
        let g = self.data[offset + 1];
        let r = self.data[offset + 2];
        (r, g, b)
    }

    /// Whether every pixel within the bounds has colour bytes.
    pub fn is_full(&self) -> (full: bool)
        ensures
            full == self@.full(),
    {
        if self.width == 0 || self.height == 0 {
            return true;
        }
        let last_x = self.width - 1;
        let last_y = self.height - 1;
        assert(0 <= last_y * self.stride <= 0xffff_ffff * 0xffff_ffff) by (nonlinear_arith)
            requires
                0 <= last_y <= 0xffff_ffff,
                0 <= self.stride <= 0xffff_ffff,
        ;
        let last = last_y as u128 * self.stride as u128 + last_x as u128 * 4;
        let full = last <= 0xffff_ffff && last + 2 < self.data.len() as u128;
        proof {
            assert(full == self@.has_pixel(last_x as int, last_y as int));
            assert forall|x: int, y: int|
                full && 0 <= x < self.width && 0 <= y < self.height implies #[trigger] self@.has_pixel(
                x,
                y,
            ) by {
                assert(0 <= y * self.stride <= last_y * self.stride) by (nonlinear_arith)
                    requires
                        0 <= y <= last_y,
                        0 <= self.stride,
                ;
            }
        }
        full
    }

    /// Whether a region can be cut out of the frame.
    pub fn covers(&self, x: u32, y: u32, w: u32, h: u32) -> (fits: bool)
        ensures
            fits == self@.covers(x as int, y as int, w as int, h as int),
    {
        let limit: u128 = 0xffff_ffff;
        assert(w * h <= 0xffff_ffff * 0xffff_ffff) by (nonlinear_arith)
            requires
                w <= 0xffff_ffff,
                h <= 0xffff_ffff,
        ;
        if w as u128 * 4 > limit || w as u128 * h as u128 * 4 > limit || y as u128 + h as u128 > limit {
            return false;
        }
        if h == 0 {
            return true;
        }
        let last = y as u128 + h as u128 - 1;
        assert(last * self.stride <= 0xffff_ffff * 0xffff_ffff) by (nonlinear_arith)
            requires
                last <= 0xffff_ffff,
                self.stride <= 0xffff_ffff,
        ;
        let start = last * self.stride as u128 + x as u128 * 4;
        start <= limit && start + w as u128 * 4 <= self.data.len() as u128
    }

    /// Extracts a region of the frame.
    pub fn crop(&self, x: u32, y: u32, w: u32, h: u32) -> (frame: Frame)
        requires
            self@.covers(x as int, y as int, w as int, h as int),
        ensures
            frame@ == self@.region(x as int, y as int, w as int, h as int),
    {
        let ghost goal = self@.region(x as int, y as int, w as int, h as int).bytes;
        let mut data: Vec<u8> = Vec::new();
        assert(0 * (w * 4) == 0) by (nonlinear_arith);
        for i in 0..h
            invariant
                self@.covers(x as int, y as int, w as int, h as int),
                goal == self@.region(x as int, y as int, w as int, h as int).bytes,
                data@.len() == i * (w * 4),
                i * (w * 4) <= w * h * 4,
                forall|k: int| 0 <= k < data@.len() ==> data@[k] == goal[k],
        {
            let row = y + i;
            proof {
                assert(row * self.stride <= (y + h - 1) * self.stride) by (nonlinear_arith)
                    requires
                        row <= y + h - 1,
                        0 <= self.stride,
                ;
                assert(0 <= row * self.stride) by (nonlinear_arith)
                    requires
                        0 <= row,
                        0 <= self.stride,
                ;
                assert((i + 1) * (w * 4) == i * (w * 4) + w * 4) by (nonlinear_arith);
                assert((i + 1) * (w * 4) <= w * h * 4) by (nonlinear_arith)
                    requires
                        i + 1 <= h,
                        0 <= w,
                ;
            }
            let src_start = (row * self.stride + x * 4) as usize;
            assert(src_start + w * 4 <= self.data.len());
            let src_end = src_start + (w * 4) as usize;
            let ghost before = data@;
            data.extend_from_slice(
                vstd::slice::slice_subrange(self.data.as_slice(), src_start, src_end),
            );
            proof {
                assert forall|k: int| 0 <= k < data@.len() implies data@[k] == goal[k] by {
                    if k >= before.len() {
                        let j = k - before.len();
                        lemma_region_rows(w as int, i as int, j);
                        assert(goal[k] == self.data@[src_start + j]);
                    }
                }
            }
        }
        proof {
            assert(h * (w * 4) == w * h * 4) by (nonlinear_arith);
            assert(data@ =~= goal);
        }
        Frame { data: Arc::new(data), width: w, height: h, stride: w * 4 }
    }
}

/// Cropping moves the origin: a pixel of the cropped frame is the pixel of the
/// whole frame at the same place relative to the corner of the region.
pub proof fn law_crop_moves_the_origin(
    frame: FrameView,
    x: int,
    y: int,
    w: int,
    h: int,
    i: int,
    j: int,
)
    requires
        0 <= x,
        0 <= y,
        0 <= frame.stride,
        frame.covers(x, y, w, h),
        0 <= i < w,
        0 <= j < h,
    ensures
        frame.region(x, y, w, h).has_pixel(i, j),
        frame.region(x, y, w, h).pixel(i, j) == frame.pixel(x + i, y + j),
{
    let region = frame.region(x, y, w, h);
    assert(region.offset(i, j) == j * (w * 4) + i * 4);
    assert(j * (w * 4) + i * 4 + 3 < w * h * 4) by (nonlinear_arith)
        requires
            0 <= i < w,
            0 <= j < h,
    ;
    assert(0 <= j * (w * 4)) by (nonlinear_arith)
        requires
            0 <= j,
            0 <= w,
    ;
    lemma_region_rows(w, j, i * 4);
    lemma_region_rows(w, j, i * 4 + 1);
    lemma_region_rows(w, j, i * 4 + 2);
}

/// A cropped frame has the colour bytes of all its pixels.
pub proof fn law_cropped_frame_is_full(frame: FrameView, x: int, y: int, w: int, h: int)
    requires
        0 <= x,
        0 <= y,
        0 <= frame.stride,
        frame.covers(x, y, w, h),
    ensures
        frame.region(x, y, w, h).full(),
{
    let region = frame.region(x, y, w, h);
    assert forall|i: int, j: int|
        0 <= i < region.width && 0 <= j < region.height implies #[trigger] region.has_pixel(i, j) by {
        law_crop_moves_the_origin(frame, x, y, w, h, i, j);
    }
}

// ---- choosing what to keep ----

/// Why no frame is available.
#[derive(Debug, Clone, Copy, PartialEq, Eq, Structural)]
pub enum CaptureError {
    /// The first capture timed out, so there is no earlier frame to fall back on.
    NoFrameYet,
}

impl CaptureError {
    /// The message shown to the user.
    pub fn message(&self) -> (text: &'static str)
        ensures
            text@ == "No frame captured yet (DXGI timeout on first capture)"@,
    {
        match self {
            CaptureError::NoFrameYet => "No frame captured yet (DXGI timeout on first capture)",
        }
    }
}

/// The region of the screen to keep, and the last frame kept of it.
pub struct ScreenCapture {
    pub region_x: u32,
    pub region_y: u32,
    pub region_w: u32,
    pub region_h: u32,
    pub last_frame: Option<Frame>,
    /// Whether the last grab brought a fresh frame.
    pub frame_is_new: bool,
}

pub open spec fn min_int(a: int, b: int) -> int {
    if a <= b {
        a
    } else {
        b
    }
}

/// The region of interest: corner, width and height.
pub struct Region {
    pub x: int,
    pub y: int,
    pub w: int,
    pub h: int,
}

impl Region {
    /// Whether the region is the whole screen of the given size.
    pub open spec fn is_screen(self, w: int, h: int) -> bool {
        self.x == 0 && self.y == 0 && self.w == w && self.h == h
    }

    /// The part of a screen frame that lies in the region.
    pub open spec fn of(self, screen: FrameView) -> FrameView {
        if self.is_screen(screen.width, screen.height) {
            screen
        } else {
            screen.region(
                self.x,
                self.y,
                min_int(self.w, screen.width - self.x),
                min_int(self.h, screen.height - self.y),
            )
        }
    }

    /// Whether that part can be taken: the region starts on the screen and the
    /// screen frame has its bytes.
    pub open spec fn fits(self, screen: FrameView) -> bool {
        self.is_screen(screen.width, screen.height) || {
            &&& self.x <= screen.width
            &&& self.y <= screen.height
            &&& screen.covers(
                self.x,
                self.y,
                min_int(self.w, screen.width - self.x),
                min_int(self.h, screen.height - self.y),
            )
        }
    }
}

/// A screen frame of packed rows.
pub open spec fn screen_frame(pixels: Seq<u8>, w: int, h: int) -> FrameView {
    FrameView { bytes: pixels, width: w, height: h, stride: w * 4 }
}

impl ScreenCapture {
    /// The region of interest.
    pub open spec fn region(self) -> Region {
        Region {
            x: self.region_x as int,
            y: self.region_y as int,
            w: self.region_w as int,
            h: self.region_h as int,
        }
    }

    /// The last frame that was kept.
    pub open spec fn kept(self) -> Option<FrameView> {
        match self.last_frame {
            Some(frame) => Some(frame@),
            None => None,
        }
    }

    /// Whether the pixels of a screen of the given size can be grabbed.
    pub open spec fn can_grab(self, pixels: Seq<u8>, w: int, h: int) -> bool {
        &&& w * 4 <= u32::MAX
        &&& h <= u32::MAX
        &&& self.region().fits(screen_frame(pixels, w, h))
    }

    /// A capturer for the configured region, without a frame yet.
    pub fn new(cfg: &CaptureConfig) -> (capture: Self)
        ensures
            capture.region() == (Region {
                x: cfg.x as int,
                y: cfg.y as int,
                w: cfg.width as int,
                h: cfg.height as int,
            }),
            capture.kept() == None::<FrameView>,
            !capture.frame_is_new,
    {
        ScreenCapture {
            region_x: cfg.x,
            region_y: cfg.y,
            region_w: cfg.width,
            region_h: cfg.height,
            last_frame: None,
            frame_is_new: false,
        }
    }

    /// Whether the pixels of a screen of the given size can be grabbed.
    pub fn accepts(&self, pixels: &Vec<u8>, w: usize, h: usize) -> (fits: bool)
        ensures
            fits == self.can_grab(pixels@, w as int, h as int),
    {
        if w > 0x3fff_ffff || h > 0xffff_ffff {
            return false;
        }
        let width = w as u32;
        let height = h as u32;
        if self.region_x == 0 && self.region_y == 0 && self.region_w == width && self.region_h
            == height {
            return true;
        }
        if self.region_x > width || self.region_y > height {
            return false;
        }
        let cut_w = lesser(self.region_w, width - self.region_x);
        let cut_h = lesser(self.region_h, height - self.region_y);
        let limit: u128 = 0xffff_ffff;
        assert(cut_w * cut_h <= 0xffff_ffff * 0xffff_ffff) by (nonlinear_arith)
            requires
                cut_w <= 0xffff_ffff,
                cut_h <= 0xffff_ffff,
        ;
        if cut_w as u128 * cut_h as u128 * 4 > limit || cut_w as u128 * 4 > limit {
            return false;
        }
        if cut_h == 0 {
            return true;
        }
        let last = self.region_y as u128 + cut_h as u128 - 1;
        let stride = width as u128 * 4;
        assert(last * stride <= 0xffff_ffff * 0xffff_ffff) by (nonlinear_arith)
            requires
                last <= 0xffff_ffff,
                stride <= 0xffff_ffff,
        ;
        let start = last * stride + self.region_x as u128 * 4;
        start <= limit && start + cut_w as u128 * 4 <= pixels.len() as u128
    }

    /// Takes the outcome of a capture: the pixels of the screen, or nothing if
    /// it timed out because the screen did not change. Fresh pixels are cut down
    /// to the region of interest and kept; a timeout falls back on the last
    /// frame.
    pub fn grab_frame(&mut self, captured: Option<(Vec<u8>, usize, usize)>) -> (grabbed: Result<
        Frame,
        CaptureError,
    >)
        requires
            captured matches Some((pixels, w, h)) ==> old(self).can_grab(
                pixels@,
                w as int,
                h as int,
            ),
        ensures
            final(self).region() == old(self).region(),
            final(self).frame_is_new == (captured is Some),
            match captured {
                Some((pixels, w, h)) => {
                    &&& grabbed matches Ok(frame) && frame@ == old(self).region().of(
                        screen_frame(pixels@, w as int, h as int),
                    ) && final(self).kept() == Some(frame@)
                },
                None => {
                    &&& final(self).kept() == old(self).kept()
                    &&& match old(self).kept() {
                        Some(last) => grabbed matches Ok(frame) && frame@ == last,
                        None => grabbed == Err::<Frame, CaptureError>(CaptureError::NoFrameYet),
                    }
                },
            },
    {
        match captured {
            Some((pixels, w, h)) => {
                let full_frame = Frame {
                    data: Arc::new(pixels),
                    width: w as u32,
                    height: h as u32,
                    stride: w as u32 * 4,
                };
                let frame = if self.region_x == 0 && self.region_y == 0 && self.region_w
                    == full_frame.width && self.region_h == full_frame.height {
                    full_frame
                } else {
                    full_frame.crop(
                        self.region_x,
                        self.region_y,
                        lesser(self.region_w, full_frame.width - self.region_x),
                        lesser(self.region_h, full_frame.height - self.region_y),
                    )
                };
                self.last_frame = Some(frame.clone());
                self.frame_is_new = true;
                Ok(frame)
            },
            None => {
                self.frame_is_new = false;
                match &self.last_frame {
                    Some(frame) => Ok(frame.clone()),
                    None => Err(CaptureError::NoFrameYet),
                }
            },
        }
    }
}

fn lesser(a: u32, b: u32) -> (m: u32)
    ensures
        m == min_int(a as int, b as int),
{
    if a <= b {
        a
    } else {
        b
    }
}

/// A pixel is read from its own four bytes, which hold blue, green, red and alpha in
/// this order, so many bytes into the frame as the rows above and the pixels to the
/// left take up.
pub proof fn law_pixel_reads_its_own_bytes(frame: FrameView, x: int, y: int)
    ensures
        ({
            let at = y * frame.stride + 4 * x;
            let (r, g, b) = frame.pixel(x, y);
            &&& b == frame.bytes[at]
            &&& g == frame.bytes[at + 1]
            &&& r == frame.bytes[at + 2]
        }),
{
}

/// What is kept of a screen is the part that lies in the region of interest, pixel by
/// pixel, be the region the whole screen, inside of it or reaching past its edge.
pub proof fn law_region_shows_its_part_of_the_screen(
    region: Region,
    screen: FrameView,
    i: int,
    j: int,
)
    requires
        0 <= region.x,
        0 <= region.y,
        0 <= region.w,
        0 <= region.h,
        0 <= screen.stride,
        region.fits(screen),
        0 <= i < region.of(screen).width,
        0 <= j < region.of(screen).height,
    ensures
        region.of(screen).pixel(i, j) == screen.pixel(region.x + i, region.y + j),
        region.of(screen).width == if region.x + region.w <= screen.width {
            region.w
        } else {
            screen.width - region.x
        },
        region.of(screen).height == if region.y + region.h <= screen.height {
            region.h
        } else {
            screen.height - region.y
        },
{
    if !region.is_screen(screen.width, screen.height) {
        law_crop_moves_the_origin(
            screen,
            region.x,
            region.y,
            min_int(region.w, screen.width - region.x),
            min_int(region.h, screen.height - region.y),
            i,
            j,
        );
    }
}

/// Cropping twice is cropping once, at the sum of the corners.
pub proof fn law_crops_compose(
    frame: FrameView,
    outer: Region,
    inner: Region,
    i: int,
    j: int,
)
    requires
        0 <= outer.x,
        0 <= outer.y,
        0 <= inner.x,
        0 <= inner.y,
        0 <= frame.stride,
        frame.covers(outer.x, outer.y, outer.w, outer.h),
        inner.x + inner.w <= outer.w,
        inner.y + inner.h <= outer.h,
        frame.region(outer.x, outer.y, outer.w, outer.h).covers(
            inner.x,
            inner.y,
            inner.w,
            inner.h,
        ),
        0 <= i < inner.w,
        0 <= j < inner.h,
    ensures
        frame.region(outer.x, outer.y, outer.w, outer.h).region(
            inner.x,
            inner.y,
            inner.w,
            inner.h,
        ).pixel(i, j) == frame.pixel(outer.x + inner.x + i, outer.y + inner.y + j),
{
    let cut = frame.region(outer.x, outer.y, outer.w, outer.h);
    law_crop_moves_the_origin(cut, inner.x, inner.y, inner.w, inner.h, i, j);
    law_crop_moves_the_origin(
        frame,
        outer.x,
        outer.y,
        outer.w,
        outer.h,
        inner.x + i,
        inner.y + j,
    );
}

} // verus!
