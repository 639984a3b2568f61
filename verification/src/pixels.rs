//! The pixel buffer that the decoder hands over, and the table substitution
//! that corrects it in place.

use vstd::prelude::*;

verus! {

/// A decoded image: rows of pixels from the top, each pixel four samples
/// (red, green, blue, alpha). The samples live in an `image::RgbaImage`.
#[verifier::external_body]
pub struct PixelBuffer {
    inner: image::RgbaImage,
}

/// All samples that the buffer owns, in storage order.
pub uninterp spec fn buffer_samples(buf: PixelBuffer) -> Seq<u8>;

/// Width and height of the image in pixels.
pub uninterp spec fn buffer_dimensions(buf: PixelBuffer) -> (nat, nat);

/// `samples` with the four samples from `at` on replaced by `px`.
pub open spec fn written(samples: Seq<u8>, at: int, px: Seq<u8>) -> Seq<u8> {
    Seq::new(
        samples.len(),
        |k: int|
            if at <= k < at + 4 {
                px[k - at]
            } else {
                samples[k]
            },
    )
}

/// `samples` with the red, green and blue samples among the first `area`
/// looked up in their tables. Alpha samples, and samples past `area`, stay.
pub open spec fn corrected(samples: Seq<u8>, lut: [[u8; 256]; 3], area: int) -> Seq<u8> {
    Seq::new(
        samples.len(),
        |k: int|
            if 0 <= k < area && k % 4 != 3 {
                lut[k % 4][samples[k] as int]
            } else {
                samples[k]
            },
    )
}

/// `image::RgbaImage::from_raw`: the buffer takes the samples as they are,
/// provided they are enough for `width * height` pixels.
#[verifier::external_body]
fn raw_buffer(width: u32, height: u32, samples: Vec<u8>) -> (r: Option<PixelBuffer>)
    ensures
        r is Some <==> 4 * width * height <= samples.len(),
        r matches Some(buf) ==> buffer_samples(buf) == samples@ && buffer_dimensions(buf) == (
            width as nat,
            height as nat,
        ),
{
    match image::RgbaImage::from_raw(width, height, samples) {
        Some(inner) => Some(PixelBuffer { inner }),
        None => None,
    }
}

/// `image::RgbaImage::into_raw`: the samples, all of them.
#[verifier::external_body]
fn raw_samples(buf: PixelBuffer) -> (samples: Vec<u8>)
    ensures
        samples@ == buffer_samples(buf),
{
    buf.inner.into_raw()
}

/// `image::RgbaImage::dimensions`. A buffer holds at least the samples of
/// its pixels: `from_raw` makes no buffer of fewer.
#[verifier::external_body]
fn raw_dimensions(buf: &PixelBuffer) -> (d: (u32, u32))
    ensures
        d.0 as nat == buffer_dimensions(*buf).0,
        d.1 as nat == buffer_dimensions(*buf).1,
        4 * d.0 * d.1 <= buffer_samples(*buf).len(),
{
    buf.inner.dimensions()
}

/// `image::RgbaImage::get_pixel`: the four samples of the pixel in column
/// `x` of row `y`, which start at `4 * (y * width + x)`.
#[verifier::external_body]
fn raw_pixel(buf: &PixelBuffer, x: u32, y: u32) -> (px: [u8; 4])
    requires
        x < buffer_dimensions(*buf).0,
        y < buffer_dimensions(*buf).1,
    ensures
        forall|c: int|
            0 <= c < 4 ==> #[trigger] px@[c] == buffer_samples(*buf)[4 * (y * buffer_dimensions(
                *buf,
            ).0 + x) + c],
{
    buf.inner.get_pixel(x, y).0
}

/// `image::RgbaImage::put_pixel`: replaces the four samples of one pixel
/// and nothing else.
#[verifier::external_body]
fn set_raw_pixel(buf: &mut PixelBuffer, x: u32, y: u32, px: [u8; 4])
    requires
        x < buffer_dimensions(*old(buf)).0,
        y < buffer_dimensions(*old(buf)).1,
    ensures
        buffer_dimensions(*final(buf)) == buffer_dimensions(*old(buf)),
        buffer_samples(*final(buf)) == written(
            buffer_samples(*old(buf)),
            4 * (y * buffer_dimensions(*old(buf)).0 + x),
            px@,
        ),
{
    buf.inner.put_pixel(x, y, image::Rgba(px));
}

impl PixelBuffer {
    /// Width of the image in pixels.
    pub open spec fn width(self) -> nat {
        buffer_dimensions(self).0
    }

    /// Height of the image in pixels.
    pub open spec fn height(self) -> nat {
        buffer_dimensions(self).1
    }

    /// Number of samples that belong to pixels.
    pub open spec fn pixel_area(self) -> int {
        4 * (self.height() as int * self.width() as int)
    }

    /// A buffer of `width * height` pixels over `samples`, or nothing where
    /// the samples are too few.
    pub fn from_raw(width: u32, height: u32, samples: Vec<u8>) -> (r: Option<PixelBuffer>)
        ensures
            r is Some <==> 4 * width * height <= samples.len(),
            r matches Some(buf) ==> buffer_samples(buf) == samples@ && buf.width() == width
                && buf.height() == height,
    {
        raw_buffer(width, height, samples)
    }

    /// The samples of the buffer.
    pub fn into_raw(self) -> (samples: Vec<u8>)
        ensures
            samples@ == buffer_samples(self),
    {
        raw_samples(self)
    }

    /// Width and height in pixels.
    pub fn dimensions(&self) -> (d: (u32, u32))
        ensures
            d.0 as nat == self.width(),
            d.1 as nat == self.height(),
            self.pixel_area() <= buffer_samples(*self).len(),
    {
        let d = raw_dimensions(self);
        assert(4 * d.0 * d.1 == 4 * (d.1 * d.0)) by (nonlinear_arith);
        d
    }
}

/// Looks every red, green and blue sample of every pixel up in the table of
/// its channel and writes the result in its place. Alpha stays.
pub fn apply_lut(img: &mut PixelBuffer, lut: &[[u8; 256]; 3])
    ensures
        buffer_dimensions(*final(img)) == buffer_dimensions(*old(img)),
        buffer_samples(*final(img)) == corrected(
            buffer_samples(*old(img)),
            *lut,
            old(img).pixel_area(),
        ),
{
    let (width, height) = img.dimensions();
    let ghost before = buffer_samples(*img);
    let ghost w = width as int;
    assert(buffer_samples(*img) =~= corrected(before, *lut, 4 * (0 * w)));
    let mut y: u32 = 0;
    while y < height
        invariant
            y <= height,
            w == width,
            buffer_dimensions(*img) == (width as nat, height as nat),
            4 * (height * w) <= before.len(),
            buffer_samples(*img) == corrected(before, *lut, 4 * (y * w)),
        decreases height - y,
    {
        assert(4 * (y * w + w) <= 4 * (height * w) && y * w >= 0) by (nonlinear_arith)
            requires
                0 <= y < height,
                0 <= w,
        ;
        assert(buffer_samples(*img) =~= corrected(before, *lut, 4 * (y * w + 0)));
        let mut x: u32 = 0;
        while x < width
            invariant
                x <= width,
                y < height,
                w == width,
                0 <= y * w,
                buffer_dimensions(*img) == (width as nat, height as nat),
                4 * (y * w + w) <= before.len(),
                buffer_samples(*img) == corrected(before, *lut, 4 * (y * w + x)),
            decreases width - x,
        {
            let ghost at = 4 * (y * w + x);
            let ghost current = buffer_samples(*img);
            let px = raw_pixel(img, x, y);
            assert(px@[0] == before[at] && px@[1] == before[at + 1] && px@[2] == before[at + 2]
                && px@[3] == before[at + 3]);
            let out: [u8; 4] = [
                lut[0][px[0] as usize],
                lut[1][px[1] as usize],
                lut[2][px[2] as usize],
                px[3],
            ];
            set_raw_pixel(img, x, y, out);
            assert(buffer_samples(*img) =~= corrected(before, *lut, 4 * (y * w + (x + 1)))) by {
                assert(buffer_samples(*img) == written(current, at, out@));
                assert(at % 4 == 0);
                assert forall|k: int| 0 <= k < before.len() implies buffer_samples(*img)[k]
                    == corrected(before, *lut, at + 4)[k] by {
                    if at <= k < at + 4 {
                        assert(k % 4 == k - at);
                    }
                }
            }
            x += 1;
        }
        assert(y * w + w == (y + 1) * w) by (nonlinear_arith);
        y += 1;
    }
}


/// Tables that map every level to itself leave every sample as it is.
pub proof fn lemma_identity_correction(samples: Seq<u8>, lut: [[u8; 256]; 3], area: int)
    requires
        forall|channel: int, i: int|
            0 <= channel < 3 && 0 <= i < 256 ==> (#[trigger] lut[channel][i]) as int == i,
    ensures
        corrected(samples, lut, area) == samples,
{
    assert(corrected(samples, lut, area) =~= samples);
}

/// Tables that undo themselves, as those of the settings that only invert,
/// give the picture back when they are applied twice.
pub proof fn lemma_correction_undone(samples: Seq<u8>, lut: [[u8; 256]; 3], area: int)
    requires
        forall|channel: int, i: int|
            0 <= channel < 3 && 0 <= i < 256 ==> lut[channel][(#[trigger] lut[channel][i]) as int]
                as int == i,
    ensures
        corrected(corrected(samples, lut, area), lut, area) == samples,
{
    let once = corrected(samples, lut, area);
    assert forall|k: int| 0 <= k < samples.len() implies corrected(once, lut, area)[k]
        == samples[k] by {
        if 0 <= k < area && k % 4 != 3 {
            let level = samples[k] as int;
            assert(once[k] == lut[k % 4][level]);
            assert(lut[k % 4][lut[k % 4][level] as int] as int == level);
        }
    }
    assert(corrected(once, lut, area) =~= samples);
}

} // verus!
