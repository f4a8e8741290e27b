//! The frame store: every usable frame of an animation, fitted to the
//! terminal, resampled and rasterised once, in playing order.

use vstd::prelude::*;
use crate::braille::{rasterized, rgba_to_braille_colored, Cell, RasterizedFrame};
use crate::fit::{compute_scaled_dims, fit_dims};
use crate::raster::{placeholder_view, Raster, RasterView, RawFrame};
use crate::resample::{resample, resampled};

verus! {

/// Why no frame store could be made.
#[derive(Clone, Copy, Debug, PartialEq, Eq, Structural)]
pub enum StoreError {
    /// No frame of the input was usable.
    EmptyResult,
}

impl StoreError {
    /// The line that tells the user of the error.
    pub fn message(&self) -> (text: &'static str)
        ensures
            text@ == "No frames found or failed to decode GIF."@,
    {
        match self {
            StoreError::EmptyResult => "No frames found or failed to decode GIF.",
        }
    }
}

/// Pixels across that a terminal of `cols` columns can show: two per
/// column, after one column of border on each side.
pub open spec fn budget_width(cols: int) -> int {
    if cols > 2 {
        2 * (cols - 2)
    } else {
        0
    }
}

/// Pixels down that a terminal of `rows` rows can show: four per row,
/// after one row of border above and below.
pub open spec fn budget_height(rows: int) -> int {
    if rows > 2 {
        4 * (rows - 2)
    } else {
        0
    }
}

/// The pixel budget `(width, height)` of a terminal of `cols` by `rows`
/// characters.
pub fn pixel_budget(cols: u16, rows: u16) -> (budget: (u32, u32))
    ensures
        budget.0 == budget_width(cols as int),
        budget.1 == budget_height(rows as int),
{
    let inner_cols: u32 = (cols as u32).saturating_sub(2);
    let inner_rows: u32 = (rows as u32).saturating_sub(2);
    (inner_cols * 2, inner_rows * 4)
}

/// Whether `scaled` can be what `img` is rasterised from under a budget of
/// `max_w` by `max_h` pixels: `img` resampled to its fitted dimensions, or
/// the placeholder where the fit leaves nothing to show.
pub open spec fn fitted(img: RasterView, max_w: int, max_h: int, scaled: RasterView) -> bool {
    let (new_w, new_h) = fit_dims(img.width as int, img.height as int, max_w, max_h);
    if new_w > 0 && new_h > 0 {
        resampled(img, new_w, new_h, scaled)
    } else {
        scaled == placeholder_view()
    }
}

/// Whether `cells` can be the conversion of `img` under a budget of `max_w`
/// by `max_h` pixels: the rasterisation of a fitted raster.
pub open spec fn converts_to(
    img: RasterView,
    max_w: int,
    max_h: int,
    cells: Seq<Seq<Cell>>,
) -> bool {
    exists|scaled: RasterView|
        #[trigger] fitted(img, max_w, max_h, scaled) && cells == rasterized(scaled)
}

/// Fits a raster to the budget and resamples it; the placeholder where the
/// raster or the budget is empty.
pub fn fit_raster(img: &Raster, max_w: u32, max_h: u32) -> (scaled: Raster)
    ensures
        fitted(img@, max_w as int, max_h as int, scaled@),
        scaled@.wf(),
{
    let dims: (u32, u32) = compute_scaled_dims(img.width(), img.height(), max_w, max_h);
    if dims.0 > 0 && dims.1 > 0 {
        match resample(img, dims.0, dims.1) {
            Some(scaled) => scaled,
            None => Raster::placeholder(),
        }
    } else {
        Raster::placeholder()
    }
}

/// Converts one raster for a budget of `max_w` by `max_h` pixels: fit,
/// resample, rasterise.
pub fn convert_frame(img: &Raster, max_w: u32, max_h: u32) -> (frame: RasterizedFrame)
    ensures
        converts_to(img@, max_w as int, max_h as int, frame@),
{
    let scaled: Raster = fit_raster(img, max_w, max_h);
    rgba_to_braille_colored(&scaled)
}

/// The rasters of the usable frames among the first `n` of `frames`, in
/// their order.
pub open spec fn usable_rasters(frames: Seq<RawFrame>, n: nat) -> Seq<RasterView>
    decreases n,
{
    if n == 0 {
        Seq::empty()
    } else {
        let before = usable_rasters(frames, (n - 1) as nat);
        if frames[n - 1].usable() {
            before.push(frames[n - 1].raster())
        } else {
            before
        }
    }
}

/// Skipping frames never adds any: at most `n` of the first `n` are usable.
pub proof fn lemma_usable_rasters_len(frames: Seq<RawFrame>, n: nat)
    ensures
        usable_rasters(frames, n).len() <= n,
    decreases n,
{
    if n > 0 {
        lemma_usable_rasters_len(frames, (n - 1) as nat);
    }
}

/// The rasterised frames of an animation, at least one, in playing order.
pub struct FrameStore {
    frames: Vec<RasterizedFrame>,
}

impl View for FrameStore {
    type V = Seq<Seq<Seq<Cell>>>;

    closed spec fn view(&self) -> Seq<Seq<Seq<Cell>>> {
        Seq::new(self.frames@.len(), |i: int| self.frames@[i]@)
    }
}

impl FrameStore {
    #[verifier::type_invariant]
    spec fn inv(self) -> bool {
        self.frames@.len() >= 1
    }

    /// Number of frames; never zero.
    pub fn len(&self) -> (n: usize)
        ensures
            n == self@.len(),
            n >= 1,
    {
        proof {
            use_type_invariant(self);
        }
        self.frames.len()
    }

    /// Frame `index`; `None` past the last frame.
    pub fn frame(&self, index: usize) -> (frame: Option<&RasterizedFrame>)
        ensures
            index < self@.len() ==> frame.is_some() && frame.unwrap()@ == self@[index as int],
            index >= self@.len() ==> frame.is_none(),
    {
        if index < self.frames.len() {
            Some(&self.frames[index])
        } else {
            None
        }
    }
}

/// Builds the frame store for a terminal of `term_cols` by `term_rows`
/// characters. Frames whose buffer is too small for their dimensions are
/// skipped; every other frame is converted under the terminal's pixel
/// budget. Fails if no frame is left.
pub fn convert_frames(frames: &Vec<RawFrame>, term_cols: u16, term_rows: u16) -> (out: Result<
    FrameStore,
    StoreError,
>)
    ensures
        out.is_ok() <==> usable_rasters(frames@, frames@.len()).len() >= 1,
        out matches Ok(store) ==> {
            let sources = usable_rasters(frames@, frames@.len());
            &&& 1 <= store@.len() <= frames@.len()
            &&& store@.len() == sources.len()
            &&& forall|i: int|
                0 <= i < sources.len() ==> converts_to(
                    sources[i],
                    budget_width(term_cols as int),
                    budget_height(term_rows as int),
                    #[trigger] store@[i],
                )
        },
        out matches Err(e) ==> e == StoreError::EmptyResult,
{
    let budget: (u32, u32) = pixel_budget(term_cols, term_rows);
    let mut converted: Vec<RasterizedFrame> = Vec::new();
    let mut index: usize = 0;
    while index < frames.len()
        invariant
            index <= frames@.len(),
            budget.0 == budget_width(term_cols as int),
            budget.1 == budget_height(term_rows as int),
            converted@.len() == usable_rasters(frames@, index as nat).len(),
            forall|i: int|
                0 <= i < converted@.len() ==> converts_to(
                    usable_rasters(frames@, index as nat)[i],
                    budget.0 as int,
                    budget.1 as int,
                    (#[trigger] converted@[i])@,
                ),
        decreases frames@.len() - index,
    {
        match frames[index].to_raster() {
            Some(image) => {
                let frame: RasterizedFrame = convert_frame(&image, budget.0, budget.1);
                converted.push(frame);
            },
            None => {},
        }
        index = index + 1;
    }
    proof {
        lemma_usable_rasters_len(frames@, frames@.len());
    }
    if converted.len() == 0 {
        Err(StoreError::EmptyResult)
    } else {
        let store = FrameStore { frames: converted };
        assert(store@.len() == converted@.len());
        assert forall|i: int| 0 <= i < store@.len() implies #[trigger] store@[i]
            == converted@[i]@ by {}
        Ok(store)
    }
}

} // verus!
