//! From a decoded picture to lines of Braille text.

use crate::braille::{line_of, render, rows_of};
use crate::geometry::{
    fit_dimensions, fitted, lemma_fitted_within_grid, TerminalGeometry, RESERVED_ROWS,
};
use crate::imaging::{
    at_least_one, resample, resample_fits, resized_dimensions, to_grayscale_luma8,
    ColorImage,
};
use crate::otsu::{histogram_of, is_otsu_threshold, otsu_threshold, MAX_PIXELS};
use crate::raster::Raster;
use vstd::prelude::*;

verus! {

/// Why a picture could not be rendered.
#[derive(Clone, Copy, Debug, PartialEq, Eq, Structural)]
pub enum RenderError {
    /// The terminal has no row left once the reserved rows are taken away.
    TerminalTooSmall,
    /// The fitted picture is larger than the resampler or the threshold
    /// search can handle.
    PictureTooLarge,
}

impl RenderError {
    /// What to tell the user.
    pub fn message(&self) -> (text: String)
        ensures
            *self == RenderError::TerminalTooSmall ==> text@ == "terminal has too few rows"@,
            *self == RenderError::PictureTooLarge ==> text@ == "picture is too large to render"@,
    {
        match self {
            RenderError::TerminalTooSmall => "terminal has too few rows".to_string(),
            RenderError::PictureTooLarge => "picture is too large to render".to_string(),
        }
    }
}

/// Whether the modifier given after the picture asks for inversion: only the
/// word `invert` itself does.
pub fn invert_requested(modifier: Option<&str>) -> (invert: bool)
    ensures
        invert == (modifier matches Some(word) && word@ == "invert"@),
{
    match modifier {
        None => false,
        Some(word) => {
            proof {
                reveal_strlit("invert");
            }
            if word.unicode_len() != 6 {
                return false;
            }
            let same: bool = word.get_char(0) == 'i' && word.get_char(1) == 'n' && word.get_char(2)
                == 'v' && word.get_char(3) == 'e' && word.get_char(4) == 'r' && word.get_char(5)
                == 't';
            proof {
                if same {
                    assert(word@ =~= "invert"@);
                }
            }
            same
        },
    }
}

/// A picture rendered as text, with the binarisation that led to it.
#[derive(Debug)]
pub struct Rendering {
    /// The luminance samples that were binarised.
    pub raster: Raster,
    /// The threshold the samples were compared with.
    pub threshold: u8,
    /// The lines of text, from top to bottom.
    pub lines: Vec<String>,
}

impl Rendering {
    /// The lines are the glyphs of the raster at the threshold.
    pub open spec fn shows(&self, invert: bool) -> bool {
        &&& self.lines@.len() == rows_of(&self.raster)
        &&& forall|i: int|
            0 <= i < self.lines@.len() ==> (#[trigger] self.lines@[i])@ == line_of(
                &self.raster,
                i,
                self.threshold,
                invert,
            )
    }
}

/// The target resolution of a picture on a terminal.
pub open spec fn target_of(img: &ColorImage, terminal: TerminalGeometry) -> (int, int) {
    fitted(img.width as int, img.height as int, terminal.grid_width(), terminal.grid_height())
}

/// The size of the picture once it is resampled to its target resolution.
pub open spec fn fitted_size(img: &ColorImage, terminal: TerminalGeometry) -> (u32, u32) {
    let t = target_of(img, terminal);
    resized_dimensions(img.width, img.height, t.0 as u32, t.1 as u32)
}

/// Whether the fitted picture is within what can be resampled and searched.
pub open spec fn workable(img: &ColorImage, terminal: TerminalGeometry) -> bool {
    let t = target_of(img, terminal);
    &&& resample_fits(img.width, t.0 as u32, t.1 as u32)
    &&& at_least_one(t.0 as u32) * at_least_one(t.1 as u32) <= MAX_PIXELS
}

/// Scales a picture to the resolution that fits the terminal.
pub fn fit_image(img: &ColorImage, terminal: TerminalGeometry) -> (r: Result<
    ColorImage,
    RenderError,
>)
    requires
        img.wf(),
        img.width > 0,
        img.height > 0,
    ensures
        !terminal.usable() <==> r == Err::<ColorImage, RenderError>(RenderError::TerminalTooSmall),
        terminal.usable() && !workable(img, terminal) <==> r == Err::<ColorImage, RenderError>(
            RenderError::PictureTooLarge,
        ),
        r matches Ok(out) ==> {
            &&& out.wf()
            &&& (out.width, out.height) == fitted_size(img, terminal)
            &&& 1 <= out.width <= at_least_one(target_of(img, terminal).0 as u32)
            &&& 1 <= out.height <= at_least_one(target_of(img, terminal).1 as u32)
            &&& out.width * out.height <= MAX_PIXELS
        },
{
    let (target_w, target_h) = match fit_dimensions(img.width, img.height, terminal) {
        Ok(target) => target,
        Err(_) => {
            return Err(RenderError::TerminalTooSmall);
        },
    };
    let w: u64 = if target_w == 0 {
        1
    } else {
        target_w as u64
    };
    let h: u64 = if target_h == 0 {
        1
    } else {
        target_h as u64
    };
    assert(w * h <= 0xffff_ffff * 0xffff_ffff) by (nonlinear_arith)
        requires
            w <= 0xffff_ffff,
            h <= 0xffff_ffff,
    ;
    if w * h > MAX_PIXELS {
        return Err(RenderError::PictureTooLarge);
    }
    match resample(img, target_w, target_h) {
        Some(out) => {
            assert(out.width * out.height <= w * h) by (nonlinear_arith)
                requires
                    0 <= out.width <= w,
                    0 <= out.height <= h,
            ;
            Ok(out)
        },
        None => Err(RenderError::PictureTooLarge),
    }
}

/// Binarises a raster at its Otsu threshold and renders it.
pub fn render_raster(raster: Raster, invert: bool) -> (out: Rendering)
    requires
        raster.wf(),
        raster.pixel_count() <= MAX_PIXELS,
    ensures
        out.raster == raster,
        is_otsu_threshold(histogram_of(raster.data@), out.threshold as int),
        out.shows(invert),
{
    let threshold: u8 = otsu_threshold(&raster);
    let lines: Vec<String> = render(&raster, threshold, invert);
    Rendering { raster, threshold, lines }
}

/// Renders a picture for a terminal: fitted to the terminal's grid, reduced
/// to luminance, binarised at its Otsu threshold and packed into Braille
/// glyphs.
pub fn render_image(img: &ColorImage, terminal: TerminalGeometry, invert: bool) -> (r: Result<
    Rendering,
    RenderError,
>)
    requires
        img.wf(),
        img.width > 0,
        img.height > 0,
    ensures
        !terminal.usable() <==> r matches Err(RenderError::TerminalTooSmall),
        terminal.usable() && !workable(img, terminal) <==> r matches Err(
            RenderError::PictureTooLarge,
        ),
        r matches Ok(out) ==> {
            &&& out.raster.wf()
            &&& (out.raster.width, out.raster.height) == fitted_size(img, terminal)
            &&& 1 <= out.raster.width <= at_least_one(target_of(img, terminal).0 as u32)
            &&& 1 <= out.raster.height <= at_least_one(target_of(img, terminal).1 as u32)
            &&& is_otsu_threshold(histogram_of(out.raster.data@), out.threshold as int)
            &&& out.shows(invert)
            &&& out.lines@.len() <= terminal.rows - RESERVED_ROWS
            &&& forall|i: int|
                0 <= i < out.lines@.len() && terminal.columns > 0 ==> (#[trigger] out.lines@[i])@.len()
                    <= terminal.columns
        },
{
    proof {
        if terminal.usable() {
            lemma_fitted_within_grid(
                img.width as int,
                img.height as int,
                terminal.grid_width(),
                terminal.grid_height(),
            );
        }
    }
    match fit_image(img, terminal) {
        Ok(fitted_img) => {
            let gray: Raster = to_grayscale_luma8(&fitted_img);
            Ok(render_raster(gray, invert))
        },
        Err(e) => Err(e),
    }
}

} // verus!
