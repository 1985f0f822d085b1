//! Font configuration.
//!
//! Glyphs come from the `noto-sans-mono-bitmap` crate, in the regular font
//! weight and a raster height of 20 pixels.
use vstd::prelude::*;

use noto_sans_mono_bitmap::{get_raster, FontWeight, RasterHeight};

verus! {

/// Height in pixels of every glyph raster, and so of a text line.
pub const RASTER_HEIGHT: usize = 20;

/// Width in pixels of every glyph raster.
pub const GLYPH_WIDTH: usize = 9;

/// The intensity rows of the glyph that the font holds for `c`, if it holds one:
/// what `get_raster(c, FontWeight::Regular, RasterHeight::Size20)` returns.
pub uninterp spec fn glyph_raster(c: char) -> Option<Seq<Seq<u8>>>;

/// `RasterHeight::Size20.val()`: the raster height of the font size in use.
///
/// Trusted: `val` returns the variant's discriminant, which the crate's source
/// sets to 20 for `Size20`.
#[verifier::external_body]
pub(crate) fn raster_height() -> (r: usize)
    ensures
        r == RASTER_HEIGHT,
{
    RasterHeight::Size20.val()
}

/// `get_raster(c, FontWeight::Regular, RasterHeight::Size20)`: the glyph of
/// `c`, as its width and its rows of pixel intensities.
///
/// Trusted: the result is the glyph that the crate holds for `c` (named by
/// `glyph_raster`); the crate's source builds each glyph with width
/// `RASTER_WIDTH` (9 for this size) and its data files hold 20 rows of 9
/// intensities for every glyph of this size and weight.
#[verifier::external_body]
pub(crate) fn glyph(c: char) -> (r: Option<(usize, &'static [&'static [u8]])>)
    ensures
        r is Some <==> glyph_raster(c) is Some,
        r matches Some(g) ==> {
            &&& g.0 == GLYPH_WIDTH
            &&& g.1@.len() == RASTER_HEIGHT
            &&& glyph_raster(c)->0.len() == RASTER_HEIGHT
            &&& forall|i: int|
                0 <= i < RASTER_HEIGHT ==> #[trigger] g.1@[i]@ == glyph_raster(c)->0[i]
                    && g.1@[i]@.len() == GLYPH_WIDTH
        },
{
    match get_raster(c, FontWeight::Regular, RasterHeight::Size20) {
        Some(g) => Some((g.width(), g.raster())),
        None => None,
    }
}

} // verus!
