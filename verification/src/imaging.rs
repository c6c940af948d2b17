//! Colour pictures, their resampling and their reduction to luminance.

use crate::raster::Raster;
use vstd::prelude::*;

verus! {

/// A picture of red, green, blue and alpha bytes, four per position, stored
/// row by row from the top left.
#[derive(Debug)]
pub struct ColorImage {
    pub width: u32,
    pub height: u32,
    pub rgba: Vec<u8>,
}

impl ColorImage {
    /// Four bytes are stored for each position of the picture.
    pub open spec fn wf(&self) -> bool {
        self.rgba@.len() == 4 * (self.width * self.height)
    }

    /// Makes a picture from its bytes, if there are exactly four per position.
    pub fn new(width: u32, height: u32, rgba: Vec<u8>) -> (r: Option<ColorImage>)
        ensures
            r is Some <==> rgba@.len() == 4 * (width * height),
            r matches Some(img) ==> img.wf() && img.width == width && img.height == height
                && img.rgba@ == rgba@,
    {
        assert(width * height <= 0xffff_ffff * 0xffff_ffff) by (nonlinear_arith)
            requires
                width <= 0xffff_ffff,
                height <= 0xffff_ffff,
        ;
        let expected: u128 = 4 * ((width as u128) * (height as u128));
        if rgba.len() as u128 == expected {
            Some(ColorImage { width, height, rgba })
        } else {
            None
        }
    }
}

/// A requested side of zero samples is treated as one sample.
pub open spec fn at_least_one(n: u32) -> int {
    if n == 0 {
        1
    } else {
        n as int
    }
}

/// Whether a picture `width` samples wide can be resampled to at most
/// `nwidth` by `nheight` samples: both the result and the intermediate
/// picture of `width` by `nheight` samples, at sixteen bytes a sample, have to
/// fit in one allocation.
pub open spec fn resample_fits(width: u32, nwidth: u32, nheight: u32) -> bool {
    &&& 16 * (width * at_least_one(nheight)) <= isize::MAX
    &&& 16 * (at_least_one(nwidth) * at_least_one(nheight)) <= isize::MAX
}

/// Luminance of a colour: the channels weighted 0.2126, 0.7152 and 0.0722,
/// the fraction cut off.
pub open spec fn luma_of(r: u8, g: u8, b: u8) -> int {
    (2126 * r + 7152 * g + 722 * b) / 10000
}

/// `image::Pixel::to_luma` on an `image::Rgba<u8>`: the luminance is the sum
/// of red, green and blue weighted 2126, 7152 and 722, divided by 10000 and
/// cut off to an integer; alpha plays no part.
#[verifier::external_body]
fn pixel_luma(r: u8, g: u8, b: u8, a: u8) -> (l: u8)
    ensures
        l == luma_of(r, g, b),
{
    image::Pixel::to_luma(&image::Rgba([r, g, b, a])).0[0]
}

/// The size that `image::DynamicImage::resize` gives a picture of `width` by
/// `height` samples when asked for `nwidth` by `nheight`: a function of these
/// four numbers alone, computed there in double precision.
pub uninterp spec fn resized_dimensions(width: u32, height: u32, nwidth: u32, nheight: u32) -> (
    u32,
    u32,
);

/// `image::DynamicImage::resize` with `FilterType::Lanczos3` on an 8-bit RGBA
/// picture: the picture scaled, keeping its aspect, to the largest size that
/// fits in `nwidth` by `nheight`, no side shorter than one sample. Nothing is
/// claimed of the samples' values.
#[verifier::external_body]
fn resize_lanczos3(src: &ColorImage, nwidth: u32, nheight: u32) -> (out: ColorImage)
    requires
        src.wf(),
        src.width > 0,
        src.height > 0,
        resample_fits(src.width, nwidth, nheight),
    ensures
        (out.width, out.height) == resized_dimensions(src.width, src.height, nwidth, nheight),
        out.wf(),
        1 <= out.width <= at_least_one(nwidth),
        1 <= out.height <= at_least_one(nheight),
{
    let pixels = image::RgbaImage::from_raw(src.width, src.height, src.rgba.clone()).unwrap();
    let resized = image::DynamicImage::ImageRgba8(pixels)
        .resize(nwidth, nheight, image::imageops::FilterType::Lanczos3)
        .into_rgba8();
    ColorImage { width: resized.width(), height: resized.height(), rgba: resized.into_raw() }
}

/// Resamples a picture to fit in `nwidth` by `nheight` samples with the
/// Lanczos filter, or returns `None` when the work would not fit in memory.
pub fn resample(src: &ColorImage, nwidth: u32, nheight: u32) -> (out: Option<ColorImage>)
    requires
        src.wf(),
        src.width > 0,
        src.height > 0,
    ensures
        out is Some <==> resample_fits(src.width, nwidth, nheight),
        out matches Some(img) ==> img.wf() && (img.width, img.height) == resized_dimensions(
            src.width,
            src.height,
            nwidth,
            nheight,
        ) && 1 <= img.width <= at_least_one(nwidth) && 1 <= img.height <= at_least_one(nheight),
{
    let w: u128 = if nwidth == 0 {
        1
    } else {
        nwidth as u128
    };
    let h: u128 = if nheight == 0 {
        1
    } else {
        nheight as u128
    };
    let limit: u128 = isize::MAX as u128;
    assert(src.width * h <= 0xffff_ffff * 0xffff_ffff && w * h <= 0xffff_ffff * 0xffff_ffff)
        by (nonlinear_arith)
        requires
            src.width <= 0xffff_ffff,
            w <= 0xffff_ffff,
            h <= 0xffff_ffff,
    ;
    if 16 * ((src.width as u128) * h) <= limit && 16 * (w * h) <= limit {
        Some(resize_lanczos3(src, nwidth, nheight))
    } else {
        None
    }
}

/// Reduces a picture to luminance, sample by sample.
pub fn to_grayscale_luma8(img: &ColorImage) -> (gray: Raster)
    requires
        img.wf(),
    ensures
        gray.wf(),
        gray.width == img.width,
        gray.height == img.height,
        forall|i: int|
            0 <= i < gray.data@.len() ==> #[trigger] gray.data@[i] == luma_of(
                img.rgba@[4 * i],
                img.rgba@[4 * i + 1],
                img.rgba@[4 * i + 2],
            ),
{
    let n: usize = img.rgba.len() / 4;
    let mut data: Vec<u8> = Vec::new();
    let mut i: usize = 0;
    while i < n
        invariant
            i <= n,
            4 * n == img.rgba@.len(),
            4 * n <= usize::MAX,
            data@.len() == i,
            forall|k: int|
                0 <= k < i ==> #[trigger] data@[k] == luma_of(
                    img.rgba@[4 * k],
                    img.rgba@[4 * k + 1],
                    img.rgba@[4 * k + 2],
                ),
        decreases n - i,
    {
        let l: u8 = pixel_luma(
            img.rgba[4 * i],
            img.rgba[4 * i + 1],
            img.rgba[4 * i + 2],
            img.rgba[4 * i + 3],
        );
        data.push(l);
        i = i + 1;
    }
    Raster { width: img.width, height: img.height, data }
}

} // verus!
