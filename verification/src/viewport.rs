//! Layout of the display surface: the magnification that fits an image to
//! the screen, the zoom steps, the window size and position that follow
//! from them, and the scroll offset that keeps the point under the pointer
//! in place while the magnification changes.
//!
//! Magnification is counted in hundredths (100 shows the image at its own
//! size). Lengths are whole pixels; where the exact value is a fraction the
//! result is the largest whole number below it.

use vstd::prelude::*;
use vstd::arithmetic::div_mod::*;
use crate::arith::{clamp_i64, clamp_int, floor_div, min_i64, min_int};

verus! {

/// Width that the window needs beside its content.
pub const MARGIN_X: i64 = 17;

/// Height that the window needs beside its content.
pub const MARGIN_Y: i64 = 40;

/// Height of the menu bar, counted to the window frame.
pub const MENU_HEIGHT: i64 = 20;

/// Smallest magnification: a tenth of the image's own size.
pub const MIN_MAGNIFY: u32 = 10;

/// Largest magnification: ten times the image's own size.
pub const MAX_MAGNIFY: u32 = 1000;

/// The magnification that shows one image pixel on one screen pixel.
pub const FULL_SIZE: u32 = 100;

/// One press of a zoom key, in the unit of zoom steps (thousandths).
pub const KEY_STEP: i32 = 1000;

/// A position or a size that the host reports, in pixels.
#[derive(Clone, Copy, Debug, PartialEq, Eq, Structural)]
pub struct Pixels {
    pub x: i32,
    pub y: i32,
}

/// A position or a size that the layout computes, in pixels.
#[derive(Clone, Copy, Debug, PartialEq, Eq, Structural)]
pub struct Vec2 {
    pub x: i64,
    pub y: i64,
}

/// The size of an image in its own pixels. A side of zero counts as one.
#[derive(Clone, Copy, Debug, PartialEq, Eq, Structural)]
pub struct ImageSize {
    pub width: u32,
    pub height: u32,
}

/// What the host knows about the window and the screen.
#[derive(Clone, Copy, Debug, PartialEq, Eq, Structural)]
pub struct HostMetrics {
    /// Size of the window with its frame.
    pub outer: Pixels,
    /// Size of the window's content.
    pub inner: Pixels,
    /// Size of the screen.
    pub monitor: Pixels,
}

/// The side of an image that the layout works with.
pub open spec fn side(n: u32) -> int {
    if n == 0 {
        1
    } else {
        n as int
    }
}

/// The magnification that the layout works with: the stored one, cut to
/// the range from `MIN_MAGNIFY` to `MAX_MAGNIFY`.
pub open spec fn effective_magnify(magnify: u32) -> int {
    clamp_int(magnify as int, MIN_MAGNIFY as int, MAX_MAGNIFY as int)
}

impl HostMetrics {
    /// Size of the window frame: what the window is larger than its content,
    /// and the menu bar.
    pub open spec fn frame(self) -> (int, int) {
        (self.outer.x - self.inner.x, self.outer.y - self.inner.y + MENU_HEIGHT)
    }

    /// The part of the screen that window content can cover.
    pub open spec fn usable(self) -> (int, int) {
        (self.monitor.x - self.frame().0, self.monitor.y - self.frame().1)
    }

    /// The part of the screen that the image can cover: the usable area
    /// without the margins.
    pub open spec fn room(self) -> (int, int) {
        (self.usable().0 - MARGIN_X, self.usable().1 - MARGIN_Y)
    }
}

/// Length of an image side of `pixels` pixels under `magnify`.
pub open spec fn scaled(pixels: int, magnify: int) -> int {
    (pixels * magnify) / 100
}

/// The magnification that fits the image into the room, before it is cut to
/// the allowed range. Below full size it is the largest multiple of 0.05
/// under which the image does not exceed the room; from full size on it is
/// the multiple of 0.5 nearest to the exact ratio, the upper one of two
/// equally near.
pub open spec fn raw_fit(room: (int, int), width: int, height: int) -> int {
    if room.0 < width || room.1 < height {
        5 * min_int((20 * room.0) / width, (20 * room.1) / height)
    } else {
        50 * min_int((4 * room.0 + width) / (2 * width), (4 * room.1 + height) / (2 * height))
    }
}

/// The magnification that fits an image to the screen.
pub open spec fn fit_magnify(host: HostMetrics, image: ImageSize) -> int {
    clamp_int(
        raw_fit(host.room(), side(image.width), side(image.height)),
        MIN_MAGNIFY as int,
        MAX_MAGNIFY as int,
    )
}

/// Size of the image under `magnify`.
pub open spec fn content_size(image: ImageSize, magnify: int) -> (int, int) {
    (scaled(side(image.width), magnify), scaled(side(image.height), magnify))
}

/// Size of the window's content: the image under `magnify`, as far as the
/// room allows, and the margins.
pub open spec fn window_size(host: HostMetrics, image: ImageSize, magnify: int) -> (int, int) {
    (
        min_int(content_size(image, magnify).0, host.room().0) + MARGIN_X,
        min_int(content_size(image, magnify).1, host.room().1) + MARGIN_Y,
    )
}

/// Position of the window: in the middle of the usable area, or at its top
/// left corner. Both lie a little to the left, the first a little higher.
pub open spec fn window_position(host: HostMetrics, image: ImageSize, magnify: int, center: bool) -> (
    int,
    int,
) {
    if center {
        let size = window_size(host, image, magnify);
        (
            (host.usable().0 - (size.0 - MARGIN_X)) / 2 - 8,
            (host.usable().1 - (size.1 - MARGIN_Y)) / 2 - 10,
        )
    } else {
        (-8, 0)
    }
}

/// How many times a zoom step counts: twice from full size on, four times
/// from four times full size on.
pub open spec fn step_weight(magnify: int) -> int {
    if magnify >= 400 {
        4
    } else if magnify >= 100 {
        2
    } else {
        1
    }
}

/// The magnification after a zoom of `step` thousandths of a step. A whole
/// step is 0.05 times its weight. The sum is cut to the allowed range and
/// rounded to the nearest hundredth, upwards from the middle.
pub open spec fn zoomed(magnify: int, step: int) -> int {
    (clamp_int(200 * magnify + step_weight(magnify) * step, 2_000, 200_000) + 100) / 200
}

/// The pointer that a zoom is anchored to: the given one, or the middle of
/// the view, cut to the image as it was shown before the zoom.
pub open spec fn anchor(pointer: Option<Pixels>, view: Pixels, shown: (int, int)) -> (int, int) {
    match pointer {
        Some(p) => (clamp_int(p.x as int, 0, shown.0), clamp_int(p.y as int, 0, shown.1)),
        None => (clamp_int(view.x / 2, 0, shown.0), clamp_int(view.y / 2, 0, shown.1)),
    }
}

/// The scroll offset after the magnification has changed from `before` to
/// `after`, along one axis: the image point that lay under the pointer
/// lies under it again.
pub open spec fn anchored(offset: int, pointer: int, before: int, after: int) -> int {
    ((offset + pointer) * after) / before - pointer
}

/// The scroll offset that is shown along one axis: `offset` where an image
/// side of `pixels` pixels under `magnify` exceeds `usable`, else zero.
pub open spec fn shown_offset(offset: int, pixels: int, magnify: int, usable: int) -> int {
    if pixels * magnify > 100 * usable {
        offset
    } else {
        0
    }
}


impl ImageSize {
    /// The two sides as the layout counts them.
    pub fn sides(&self) -> (r: (i64, i64))
        ensures
            r.0 == side(self.width),
            r.1 == side(self.height),
    {
        (
            if self.width == 0 {
                1
            } else {
                self.width as i64
            },
            if self.height == 0 {
                1
            } else {
                self.height as i64
            },
        )
    }
}

impl HostMetrics {
    /// Size of the window frame.
    pub fn frame_size(&self) -> (f: Vec2)
        ensures
            (f.x as int, f.y as int) == self.frame(),
    {
        Vec2 {
            x: self.outer.x as i64 - self.inner.x as i64,
            y: self.outer.y as i64 - self.inner.y as i64 + MENU_HEIGHT,
        }
    }

    /// The part of the screen that window content can cover.
    pub fn usable_area(&self) -> (u: Vec2)
        ensures
            (u.x as int, u.y as int) == self.usable(),
    {
        let f = self.frame_size();
        Vec2 { x: self.monitor.x as i64 - f.x, y: self.monitor.y as i64 - f.y }
    }

    /// The part of the screen that the image can cover.
    pub fn image_room(&self) -> (r: Vec2)
        ensures
            (r.x as int, r.y as int) == self.room(),
    {
        let u = self.usable_area();
        Vec2 { x: u.x - MARGIN_X, y: u.y - MARGIN_Y }
    }
}

/// The magnification in use: `magnify` cut to the allowed range.
pub fn sane_magnify(magnify: u32) -> (m: u32)
    ensures
        m == effective_magnify(magnify),
        MIN_MAGNIFY <= m <= MAX_MAGNIFY,
{
    if magnify < MIN_MAGNIFY {
        MIN_MAGNIFY
    } else if magnify > MAX_MAGNIFY {
        MAX_MAGNIFY
    } else {
        magnify
    }
}

/// The magnification that fits the image to the screen.
pub fn fit(host: &HostMetrics, image: &ImageSize) -> (m: u32)
    ensures
        m == fit_magnify(*host, *image),
        MIN_MAGNIFY <= m <= MAX_MAGNIFY,
{
    let (w, h) = image.sides();
    let room = host.image_room();
    let raw: i64 = if room.x < w || room.y < h {
        let qx = floor_div(20 * room.x, w);
        let qy = floor_div(20 * room.y, h);
        proof {
            lemma_quotient_bound(20 * room.x, w as int, 200_000_000_000);
            lemma_quotient_bound(20 * room.y, h as int, 200_000_000_000);
        }
        5 * min_i64(qx, qy)
    } else {
        let qx = floor_div(4 * room.x + w, 2 * w);
        let qy = floor_div(4 * room.y + h, 2 * h);
        proof {
            lemma_quotient_bound(4 * room.x + w, 2 * w, 200_000_000_000);
            lemma_quotient_bound(4 * room.y + h, 2 * h, 200_000_000_000);
        }
        50 * min_i64(qx, qy)
    };
    clamp_i64(raw, MIN_MAGNIFY as i64, MAX_MAGNIFY as i64) as u32
}

/// A quotient by a positive number is no farther from zero than the
/// dividend's bound.
proof fn lemma_quotient_bound(a: int, b: int, bound: int)
    requires
        0 < b,
        -bound <= a <= bound,
    ensures
        -bound <= a / b <= bound,
{
    lemma_fundamental_div_mod(a, b);
    lemma_mod_bound(a, b);
    assert(-bound <= a / b <= bound) by (nonlinear_arith)
        requires
            0 < b,
            -bound <= a <= bound,
            a == b * (a / b) + a % b,
            0 <= a % b < b,
    ;
}

/// Size of the image under `magnify`, cut to the allowed range.
pub fn content(image: &ImageSize, magnify: u32) -> (c: Vec2)
    ensures
        (c.x as int, c.y as int) == content_size(*image, effective_magnify(magnify)),
        0 <= c.x <= 42_949_672_950,
        0 <= c.y <= 42_949_672_950,
{
    let (w, h) = image.sides();
    let m: i64 = sane_magnify(magnify) as i64;
    assert(0 <= w * m <= 4_294_967_295_000 && 0 <= h * m <= 4_294_967_295_000)
        by (nonlinear_arith)
        requires
            0 < w <= 4_294_967_295,
            0 < h <= 4_294_967_295,
            10 <= m <= 1000,
    ;
    Vec2 { x: (w * m) / 100, y: (h * m) / 100 }
}

/// Size of the window's content for the image under `magnify`.
pub fn window_size_for(host: &HostMetrics, image: &ImageSize, magnify: u32) -> (s: Vec2)
    ensures
        (s.x as int, s.y as int) == window_size(*host, *image, effective_magnify(magnify)),
{
    let c = content(image, magnify);
    let room = host.image_room();
    Vec2 { x: min_i64(c.x, room.x) + MARGIN_X, y: min_i64(c.y, room.y) + MARGIN_Y }
}

/// Position of the window for the image under `magnify`.
pub fn window_position_for(host: &HostMetrics, image: &ImageSize, magnify: u32, center: bool) -> (p:
    Vec2)
    ensures
        (p.x as int, p.y as int) == window_position(
            *host,
            *image,
            effective_magnify(magnify),
            center,
        ),
{
    if center {
        let size = window_size_for(host, image, magnify);
        let usable = host.usable_area();
        Vec2 {
            x: (usable.x - (size.x - MARGIN_X)) / 2 - 8,
            y: (usable.y - (size.y - MARGIN_Y)) / 2 - 10,
        }
    } else {
        Vec2 { x: -8, y: 0 }
    }
}

/// The magnification after a zoom of `step` thousandths of a step.
pub fn zoom(magnify: u32, step: i32) -> (m: u32)
    ensures
        m == zoomed(effective_magnify(magnify), step as int),
        MIN_MAGNIFY <= m <= MAX_MAGNIFY,
{
    let current: i64 = sane_magnify(magnify) as i64;
    let weight: i64 = if current >= 400 {
        4
    } else if current >= 100 {
        2
    } else {
        1
    };
    let sum: i64 = 200 * current + weight * (step as i64);
    let cut: i64 = clamp_i64(sum, 2_000, 200_000);
    ((cut + 100) / 200) as u32
}

/// The point that a zoom is anchored to, for an image shown at `shown`.
fn anchor_point(pointer: Option<Pixels>, view: Pixels, shown: Vec2) -> (a: Vec2)
    requires
        0 <= shown.x,
        0 <= shown.y,
    ensures
        (a.x as int, a.y as int) == anchor(pointer, view, (shown.x as int, shown.y as int)),
        0 <= a.x <= shown.x,
        0 <= a.y <= shown.y,
{
    match pointer {
        Some(p) => Vec2 {
            x: clamp_i64(p.x as i64, 0, shown.x),
            y: clamp_i64(p.y as i64, 0, shown.y),
        },
        None => Vec2 {
            x: clamp_i64(floor_div(view.x as i64, 2), 0, shown.x),
            y: clamp_i64(floor_div(view.y as i64, 2), 0, shown.y),
        },
    }
}

/// The scroll offset along one axis after the magnification has changed
/// from `before` to `after`, both cut to the allowed range.
fn anchored_axis(offset: i32, pointer: i64, before: u32, after: u32) -> (o: i64)
    requires
        0 <= pointer <= 42_949_672_950,
    ensures
        o == anchored(
            offset as int,
            pointer as int,
            effective_magnify(before),
            effective_magnify(after),
        ),
{
    let b: i64 = sane_magnify(before) as i64;
    let a: i64 = sane_magnify(after) as i64;
    let sum: i64 = offset as i64 + pointer;
    proof {
        assert(-50_000_000_000_000 <= sum * a <= 50_000_000_000_000) by (nonlinear_arith)
            requires
                -2_147_483_648 <= sum <= 45_097_156_597,
                10 <= a <= 1000,
        ;
        lemma_quotient_bound(sum * a, b as int, 50_000_000_000_000);
    }
    floor_div(sum * a, b) - pointer
}

/// The scroll offset that keeps the anchor in place while the
/// magnification of `image` changes from `before` to `after`. The anchor is
/// `pointer`, or the middle of `view` where there is none, cut to the image
/// as it was shown under `shown_at`.
pub fn zoom_offset(
    offset: Pixels,
    pointer: Option<Pixels>,
    view: Pixels,
    image: &ImageSize,
    shown_at: u32,
    before: u32,
    after: u32,
) -> (o: Vec2)
    ensures
        ({
            let at = anchor(pointer, view, content_size(*image, effective_magnify(shown_at)));
            &&& o.x == anchored(
                offset.x as int,
                at.0,
                effective_magnify(before),
                effective_magnify(after),
            )
            &&& o.y == anchored(
                offset.y as int,
                at.1,
                effective_magnify(before),
                effective_magnify(after),
            )
        }),
{
    let shown = content(image, shown_at);
    let at = anchor_point(pointer, view, shown);
    Vec2 {
        x: anchored_axis(offset.x, at.x, before, after),
        y: anchored_axis(offset.y, at.y, before, after),
    }
}

/// The scroll offset that is shown: along each axis `offset` where the
/// image under `magnify` exceeds the usable area, else zero.
pub fn visible_offset(offset: Vec2, host: &HostMetrics, image: &ImageSize, magnify: u32) -> (o:
    Vec2)
    ensures
        o.x == shown_offset(
            offset.x as int,
            side(image.width),
            effective_magnify(magnify),
            host.usable().0,
        ),
        o.y == shown_offset(
            offset.y as int,
            side(image.height),
            effective_magnify(magnify),
            host.usable().1,
        ),
{
    let (w, h) = image.sides();
    let m: i64 = sane_magnify(magnify) as i64;
    let usable = host.usable_area();
    assert(0 <= w * m <= 4_294_967_295_000 && 0 <= h * m <= 4_294_967_295_000)
        by (nonlinear_arith)
        requires
            0 < w <= 4_294_967_295,
            0 < h <= 4_294_967_295,
            10 <= m <= 1000,
    ;
    Vec2 {
        x: if w * m > 100 * usable.x {
            offset.x
        } else {
            0
        },
        y: if h * m > 100 * usable.y {
            offset.y
        } else {
            0
        },
    }
}


/// Whether the image still has to be fitted to the screen.
#[derive(Clone, Copy, Debug, PartialEq, Eq, Structural)]
pub enum FitState {
    /// No layout pass has run yet.
    NeverFit,
    /// The next layout pass fits the image, once.
    FitPending,
    /// The image has been fitted; layout passes keep the magnification.
    Fitted,
}

/// The view of one image: how large it is shown, where it is scrolled to,
/// and what is known of the image and the host.
#[derive(Clone, Copy, Debug, PartialEq, Eq, Structural)]
pub struct ViewportState {
    /// Magnification in hundredths.
    pub magnify: u32,
    /// Scroll offset, as the host last reported it.
    pub offset: Pixels,
    /// Size of the image as it is shown, rotation included.
    pub image_size: ImageSize,
    /// Window and screen sizes, as of the last fit.
    pub host: HostMetrics,
    pub fit: FitState,
}

/// What one layout pass is given.
#[derive(Clone, Copy, Debug, PartialEq, Eq, Structural)]
pub struct FrameInput {
    /// Window and screen sizes now. Read only where the pass fits the image.
    pub host: HostMetrics,
    /// Whether the window goes to the middle of the screen.
    pub center: bool,
    /// Zoom request in thousandths of a step; zero for none.
    pub step: i32,
    /// Pointer position within the view, for a zoom by the wheel.
    pub pointer: Option<Pixels>,
    /// Size of the view that shows the image.
    pub view: Pixels,
}

/// What one layout pass asks of the host.
#[derive(Clone, Copy, Debug, PartialEq, Eq, Structural)]
pub struct FrameOutput {
    /// Magnification after the pass, in hundredths.
    pub magnify: u32,
    /// Size at which the image is drawn.
    pub content: Vec2,
    /// New size of the window's content, where it changes.
    pub window_size: Option<Vec2>,
    /// New position of the window, where it changes.
    pub window_position: Option<Vec2>,
    /// New scroll offset, where the magnification was changed by a zoom.
    pub scroll: Option<Vec2>,
    /// Whether the pass fitted the image or changed the magnification.
    pub relaid: bool,
}

impl ViewportState {
    /// Whether the next layout pass fits the image.
    pub open spec fn fitting(self) -> bool {
        self.fit != FitState::Fitted
    }

    /// The host sizes that a pass with `input` works with: those of the
    /// input where it fits the image, else those of the last fit.
    pub open spec fn host_in(self, input: FrameInput) -> HostMetrics {
        if self.fitting() {
            input.host
        } else {
            self.host
        }
    }

    /// The magnification that a zoom in a pass with `input` starts from.
    pub open spec fn magnify_before_zoom(self, input: FrameInput) -> int {
        if self.fitting() {
            fit_magnify(input.host, self.image_size)
        } else {
            effective_magnify(self.magnify)
        }
    }

    /// The magnification after a pass with `input`.
    pub open spec fn magnify_after(self, input: FrameInput) -> int {
        if input.step != 0 {
            zoomed(self.magnify_before_zoom(input), input.step as int)
        } else {
            self.magnify_before_zoom(input)
        }
    }

    /// Whether the zoom of a pass with `input` changes the magnification.
    pub open spec fn zooms(self, input: FrameInput) -> bool {
        self.magnify_after(input) != self.magnify_before_zoom(input)
    }

    /// The scroll offset that a zoom in a pass with `input` asks for.
    pub open spec fn scroll_after(self, input: FrameInput) -> (int, int) {
        let at = anchor(
            input.pointer,
            input.view,
            content_size(self.image_size, effective_magnify(self.magnify)),
        );
        let before = self.magnify_before_zoom(input);
        let after = self.magnify_after(input);
        let usable = self.host_in(input).usable();
        (
            shown_offset(
                anchored(self.offset.x as int, at.0, before, after),
                side(self.image_size.width),
                after,
                usable.0,
            ),
            shown_offset(
                anchored(self.offset.y as int, at.1, before, after),
                side(self.image_size.height),
                after,
                usable.1,
            ),
        )
    }

    /// The state before the first image: full size, nothing scrolled, an
    /// image of 800 by 600 pixels, never fitted.
    pub fn new() -> (s: ViewportState)
        ensures
            s.magnify == FULL_SIZE,
            s.offset == (Pixels { x: 0, y: 0 }),
            s.image_size == (ImageSize { width: 800, height: 600 }),
            s.host == (HostMetrics {
                outer: Pixels { x: 0, y: 0 },
                inner: Pixels { x: 0, y: 0 },
                monitor: Pixels { x: 0, y: 0 },
            }),
            s.fit == FitState::NeverFit,
    {
        let zero = Pixels { x: 0, y: 0 };
        ViewportState {
            magnify: FULL_SIZE,
            offset: zero,
            image_size: ImageSize { width: 800, height: 600 },
            host: HostMetrics { outer: zero, inner: zero, monitor: zero },
            fit: FitState::NeverFit,
        }
    }

    /// Whether the next layout pass fits the image, and so reads the host's
    /// sizes.
    pub fn needs_fit(&self) -> (b: bool)
        ensures
            b == self.fitting(),
    {
        match self.fit {
            FitState::Fitted => false,
            _ => true,
        }
    }

    /// Asks for a fit at the next layout pass.
    pub fn request_fit(&mut self)
        ensures
            final(self).fit == (if old(self).fit == FitState::NeverFit {
                FitState::NeverFit
            } else {
                FitState::FitPending
            }),
            final(self).fitting(),
            final(self).magnify == old(self).magnify,
            final(self).offset == old(self).offset,
            final(self).image_size == old(self).image_size,
            final(self).host == old(self).host,
    {
        match self.fit {
            FitState::NeverFit => {},
            _ => {
                self.fit = FitState::FitPending;
            },
        }
    }

    /// An image has been loaded. It is fitted at the next layout pass where
    /// fitting at opening is wanted and, for an image that is opened again,
    /// fitting again is wanted too.
    pub fn on_load(&mut self, reopen: bool, fit_open: bool, refit_reopen: bool)
        ensures
            final(self).fit == (if (refit_reopen || !reopen) && fit_open && old(self).fit
                == FitState::Fitted {
                FitState::FitPending
            } else {
                old(self).fit
            }),
            final(self).magnify == old(self).magnify,
            final(self).offset == old(self).offset,
            final(self).image_size == old(self).image_size,
            final(self).host == old(self).host,
    {
        if (refit_reopen || !reopen) && fit_open {
            self.request_fit();
        }
    }

    /// The host reports where the view is scrolled to.
    pub fn record_offset(&mut self, offset: Pixels)
        ensures
            *final(self) == (ViewportState { offset, ..*old(self) }),
    {
        self.offset = offset;
    }

    /// The image is shown at a new size, after a rotation or a change of the
    /// picture. With `refit` the next layout pass fits it; without, the
    /// magnification stays. Returns the scroll offset that still shows.
    pub fn set_image(&mut self, size: ImageSize, refit: bool) -> (shown: Vec2)
        ensures
            final(self).image_size == size,
            final(self).magnify == old(self).magnify,
            final(self).offset == old(self).offset,
            final(self).host == old(self).host,
            final(self).fit == (if refit && old(self).fit == FitState::Fitted {
                FitState::FitPending
            } else {
                old(self).fit
            }),
            shown.x == shown_offset(
                old(self).offset.x as int,
                side(size.width),
                effective_magnify(old(self).magnify),
                old(self).host.usable().0,
            ),
            shown.y == shown_offset(
                old(self).offset.y as int,
                side(size.height),
                effective_magnify(old(self).magnify),
                old(self).host.usable().1,
            ),
    {
        self.image_size = size;
        if refit {
            self.request_fit();
        }
        visible_offset(
            Vec2 { x: self.offset.x as i64, y: self.offset.y as i64 },
            &self.host,
            &self.image_size,
            self.magnify,
        )
    }

    /// One layout pass. Where a fit is due, the image is fitted to the
    /// screen as `input.host` describes it. Then the zoom request, if any,
    /// is applied. Where either changed the layout, the window gets a new
    /// size and position; where the zoom changed the magnification, the
    /// view gets the scroll offset that keeps the anchor in place.
    pub fn layout(&mut self, input: &FrameInput) -> (out: FrameOutput)
        ensures
            final(self).fit == FitState::Fitted,
            final(self).magnify == old(self).magnify_after(*input),
            MIN_MAGNIFY <= final(self).magnify <= MAX_MAGNIFY,
            final(self).host == old(self).host_in(*input),
            final(self).offset == old(self).offset,
            final(self).image_size == old(self).image_size,
            out.magnify == final(self).magnify,
            (out.content.x as int, out.content.y as int) == content_size(
                old(self).image_size,
                old(self).magnify_after(*input),
            ),
            out.relaid == (old(self).fitting() || old(self).zooms(*input)),
            out.window_size is Some == out.relaid,
            out.window_position is Some == out.relaid,
            out.window_size matches Some(s) ==> (s.x as int, s.y as int) == window_size(
                final(self).host,
                old(self).image_size,
                old(self).magnify_after(*input),
            ),
            out.window_position matches Some(p) ==> (p.x as int, p.y as int) == window_position(
                final(self).host,
                old(self).image_size,
                old(self).magnify_after(*input),
                input.center,
            ),
            out.scroll is Some == old(self).zooms(*input),
            out.scroll matches Some(o) ==> (o.x as int, o.y as int) == old(self).scroll_after(
                *input,
            ),
    {
        let shown_at: u32 = self.magnify;
        let fitting: bool = self.needs_fit();
        if fitting {
            self.host = input.host;
            self.magnify = fit(&self.host, &self.image_size);
        } else {
            self.magnify = sane_magnify(self.magnify);
        }
        let before: u32 = self.magnify;
        if input.step != 0 {
            self.magnify = zoom(before, input.step);
        }
        let zooms: bool = self.magnify != before;
        let relaid: bool = fitting || zooms;
        let window_size = if relaid {
            Some(window_size_for(&self.host, &self.image_size, self.magnify))
        } else {
            None
        };
        let window_position = if relaid {
            Some(window_position_for(&self.host, &self.image_size, self.magnify, input.center))
        } else {
            None
        };
        let scroll = if zooms {
            let moved = zoom_offset(
                self.offset,
                input.pointer,
                input.view,
                &self.image_size,
                shown_at,
                before,
                self.magnify,
            );
            Some(visible_offset(moved, &self.host, &self.image_size, self.magnify))
        } else {
            None
        };
        self.fit = FitState::Fitted;
        FrameOutput {
            magnify: self.magnify,
            content: content(&self.image_size, self.magnify),
            window_size,
            window_position,
            scroll,
            relaid,
        }
    }
}


/// Below full size the fit is the largest multiple of 0.05 under which the
/// image exceeds the room on neither axis: one step more and it would
/// exceed it on one of them.
pub proof fn lemma_fit_fills(room: (int, int), width: int, height: int)
    requires
        0 < width,
        0 < height,
        room.0 < width || room.1 < height,
    ensures
        width * raw_fit(room, width, height) <= 100 * room.0,
        height * raw_fit(room, width, height) <= 100 * room.1,
        width * (raw_fit(room, width, height) + 5) > 100 * room.0 || height * (raw_fit(
            room,
            width,
            height,
        ) + 5) > 100 * room.1,
        raw_fit(room, width, height) < 100,
        raw_fit(room, width, height) % 5 == 0,
{
    let qx = (20 * room.0) / width;
    let qy = (20 * room.1) / height;
    let q = min_int(qx, qy);
    lemma_fundamental_div_mod(20 * room.0, width);
    lemma_mod_bound(20 * room.0, width);
    lemma_fundamental_div_mod(20 * room.1, height);
    lemma_mod_bound(20 * room.1, height);
    assert(width * qx <= 20 * room.0 < width * (qx + 1)) by (nonlinear_arith)
        requires
            20 * room.0 == width * qx + (20 * room.0) % width,
            0 <= (20 * room.0) % width < width,
    ;
    assert(height * qy <= 20 * room.1 < height * (qy + 1)) by (nonlinear_arith)
        requires
            20 * room.1 == height * qy + (20 * room.1) % height,
            0 <= (20 * room.1) % height < height,
    ;
    assert(width * q <= width * qx && height * q <= height * qy) by (nonlinear_arith)
        requires
            q <= qx,
            q <= qy,
            0 < width,
            0 < height,
    ;
    assert(width * (5 * q) == 5 * (width * q) && height * (5 * q) == 5 * (height * q)
        && width * (5 * q + 5) == 5 * (width * (q + 1)) && height * (5 * q + 5) == 5 * (height * (q
        + 1))) by (nonlinear_arith);
    if room.0 < width {
        assert(qx < 20) by (nonlinear_arith)
            requires
                width * qx <= 20 * room.0,
                room.0 < width,
                0 < width,
        ;
    } else {
        assert(qy < 20) by (nonlinear_arith)
            requires
                height * qy <= 20 * room.1,
                room.1 < height,
                0 < height,
        ;
    }
}

/// From full size on the fit is the multiple of 0.5 nearest to the exact
/// ratio of room to image on the axis where that ratio is smaller: it is at
/// most a quarter above the ratio on both axes, and one step more would be
/// more than a quarter above it on one of them.
pub proof fn lemma_fit_is_nearest_half(room: (int, int), width: int, height: int)
    requires
        0 < width <= room.0,
        0 < height <= room.1,
    ensures
        width * raw_fit(room, width, height) <= 100 * room.0 + 25 * width,
        height * raw_fit(room, width, height) <= 100 * room.1 + 25 * height,
        width * (raw_fit(room, width, height) + 50) > 100 * room.0 + 25 * width || height * (
        raw_fit(room, width, height) + 50) > 100 * room.1 + 25 * height,
        raw_fit(room, width, height) >= 100,
        raw_fit(room, width, height) % 50 == 0,
{
    let qx = (4 * room.0 + width) / (2 * width);
    let qy = (4 * room.1 + height) / (2 * height);
    let q = min_int(qx, qy);
    lemma_fundamental_div_mod(4 * room.0 + width, 2 * width);
    lemma_mod_bound(4 * room.0 + width, 2 * width);
    lemma_fundamental_div_mod(4 * room.1 + height, 2 * height);
    lemma_mod_bound(4 * room.1 + height, 2 * height);
    assert(2 * width * qx <= 4 * room.0 + width < 2 * width * (qx + 1)) by (nonlinear_arith)
        requires
            4 * room.0 + width == (2 * width) * qx + (4 * room.0 + width) % (2 * width),
            0 <= (4 * room.0 + width) % (2 * width) < 2 * width,
    ;
    assert(2 * height * qy <= 4 * room.1 + height < 2 * height * (qy + 1)) by (nonlinear_arith)
        requires
            4 * room.1 + height == (2 * height) * qy + (4 * room.1 + height) % (2 * height),
            0 <= (4 * room.1 + height) % (2 * height) < 2 * height,
    ;
    assert(qx >= 2 && qy >= 2) by (nonlinear_arith)
        requires
            4 * room.0 + width < 2 * width * (qx + 1),
            4 * room.1 + height < 2 * height * (qy + 1),
            0 < width <= room.0,
            0 < height <= room.1,
    ;
    assert(width * q <= width * qx && height * q <= height * qy) by (nonlinear_arith)
        requires
            q <= qx,
            q <= qy,
            0 < width,
            0 < height,
    ;
    assert(width * (50 * q) == 25 * (2 * width * q) && height * (50 * q) == 25 * (2 * height * q)
        && width * (50 * q + 50) == 25 * (2 * width * (q + 1)) && height * (50 * q + 50) == 25 * (2
        * height * (q + 1)) && 2 * width * q == 2 * (width * q) && 2 * height * q == 2 * (height
        * q) && 2 * width * qx == 2 * (width * qx) && 2 * height * qy == 2 * (height * qy))
        by (nonlinear_arith);
}

/// A zoom leads to the hundredth nearest to the exact sum, cut to the
/// allowed range.
pub proof fn lemma_zoom_is_nearest(magnify: int, step: int)
    ensures
        ({
            let exact = clamp_int(200 * magnify + step_weight(magnify) * step, 2_000, 200_000);
            &&& 200 * zoomed(magnify, step) - 100 <= exact < 200 * zoomed(magnify, step) + 100
            &&& MIN_MAGNIFY <= zoomed(magnify, step) <= MAX_MAGNIFY
        }),
{
    let exact = clamp_int(200 * magnify + step_weight(magnify) * step, 2_000, 200_000);
    lemma_fundamental_div_mod(exact + 100, 200);
    lemma_mod_bound(exact + 100, 200);
}

/// A zoom keeps the anchor in place: the image point under the pointer
/// after the zoom is the one that was under it before, to within the one
/// pixel that rounding down can cost.
pub proof fn lemma_anchor_kept(offset: int, pointer: int, before: int, after: int)
    requires
        0 < before,
    ensures
        (anchored(offset, pointer, before, after) + pointer) * before <= (offset + pointer)
            * after,
        (offset + pointer) * after < (anchored(offset, pointer, before, after) + pointer + 1)
            * before,
{
    let n = (offset + pointer) * after;
    lemma_fundamental_div_mod(n, before);
    lemma_mod_bound(n, before);
    let q = n / before;
    assert(q * before <= n < (q + 1) * before) by (nonlinear_arith)
        requires
            n == before * q + n % before,
            0 <= n % before < before,
    ;
}

/// A zoom that leaves the magnification as it is leaves the scroll offset
/// as it is.
pub proof fn lemma_anchor_unmoved(offset: int, pointer: int, magnify: int)
    requires
        0 < magnify,
    ensures
        anchored(offset, pointer, magnify, magnify) == offset,
{
    lemma_div_multiples_vanish(offset + pointer, magnify);
    assert((offset + pointer) * magnify == magnify * (offset + pointer)) by (nonlinear_arith);
}

/// A whole zoom step changes the magnification by 0.05 times its weight,
/// as far as the allowed range goes.
pub proof fn lemma_whole_steps(magnify: int, steps: int)
    requires
        MIN_MAGNIFY <= magnify <= MAX_MAGNIFY,
    ensures
        zoomed(magnify, steps * KEY_STEP) == clamp_int(
            magnify + 5 * step_weight(magnify) * steps,
            MIN_MAGNIFY as int,
            MAX_MAGNIFY as int,
        ),
{
    let w = step_weight(magnify);
    let target = magnify + 5 * w * steps;
    assert(200 * magnify + w * (steps * 1000) == 200 * target) by (nonlinear_arith)
        requires
            target == magnify + 5 * w * steps,
    ;
    let cut = clamp_int(200 * target, 2_000, 200_000);
    let c = clamp_int(target, 10, 1000);
    assert(cut == 200 * c);
    assert((200 * c + 100) / 200 == c) by {
        lemma_fundamental_div_mod_converse(200 * c + 100, 200, c, 100);
    }
}

/// Once the image is fitted, a layout pass without a zoom request changes
/// nothing: the magnification stays and no new layout is asked for.
pub proof fn lemma_fit_is_one_shot(state: ViewportState, input: FrameInput)
    requires
        state.fit == FitState::Fitted,
        input.step == 0,
    ensures
        state.magnify_after(input) == effective_magnify(state.magnify),
        !state.zooms(input),
        !state.fitting(),
{
}

/// An image that exceeds the usable area on no axis is shown unscrolled.
pub proof fn lemma_fitting_image_is_unscrolled(offset: int, pixels: int, magnify: int, usable: int)
    requires
        pixels * magnify <= 100 * usable,
    ensures
        shown_offset(offset, pixels, magnify, usable) == 0,
{
}


/// The window never gets larger than the usable area of the screen, and
/// never larger than the image and the margins need.
pub proof fn lemma_window_within_screen(host: HostMetrics, image: ImageSize, magnify: int)
    ensures
        window_size(host, image, magnify).0 <= host.usable().0,
        window_size(host, image, magnify).1 <= host.usable().1,
        window_size(host, image, magnify).0 <= content_size(image, magnify).0 + MARGIN_X,
        window_size(host, image, magnify).1 <= content_size(image, magnify).1 + MARGIN_Y,
{
}

} // verus!
