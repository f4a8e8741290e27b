//! RGBA rasters: row-major pixels, four 8-bit samples each.

use vstd::prelude::*;

verus! {

/// One pixel: red, green, blue and alpha, 8 bits each.
#[derive(Clone, Copy, Debug, PartialEq, Eq, Structural)]
pub struct Rgba {
    pub red: u8,
    pub green: u8,
    pub blue: u8,
    pub alpha: u8,
}

/// The mathematical content of a raster: its dimensions and its samples,
/// row by row, pixel by pixel, in the order red, green, blue, alpha.
pub struct RasterView {
    pub width: nat,
    pub height: nat,
    pub pixels: Seq<u8>,
}

impl RasterView {
    /// The sample sequence holds exactly `width * height` pixels.
    pub open spec fn wf(self) -> bool {
        &&& self.width <= u32::MAX
        &&& self.height <= u32::MAX
        &&& self.pixels.len() == 4 * self.width * self.height
    }

    /// Whether `(x, y)` names a pixel of the raster.
    pub open spec fn contains(self, x: int, y: int) -> bool {
        0 <= x < self.width && 0 <= y < self.height
    }

    /// Where the first sample of pixel `(x, y)` stands in the sequence.
    pub open spec fn offset(self, x: int, y: int) -> int {
        4 * (y * self.width + x)
    }

    /// The pixel at `(x, y)`, for coordinates inside the raster.
    pub open spec fn pixel(self, x: int, y: int) -> Rgba {
        let base = self.offset(x, y);
        Rgba {
            red: self.pixels[base],
            green: self.pixels[base + 1],
            blue: self.pixels[base + 2],
            alpha: self.pixels[base + 3],
        }
    }

    /// All four samples of a pixel inside a well-formed raster lie inside
    /// the sample sequence.
    pub proof fn lemma_offset_in_range(self, x: int, y: int)
        requires
            self.wf(),
            self.contains(x, y),
        ensures
            0 <= self.offset(x, y),
            self.offset(x, y) + 4 <= self.pixels.len(),
    {
        let w = self.width as int;
        let h = self.height as int;
        assert(0 <= y * w + x && (y * w + x) + 1 <= w * h) by (nonlinear_arith)
            requires
                0 <= x < w,
                0 <= y < h,
        ;
        assert(4 * w * h == 4 * (w * h)) by (nonlinear_arith);
    }
}

/// A decoded frame as it arrives: claimed dimensions and a sample buffer
/// that may or may not be large enough for them.
pub struct RawFrame {
    pub width: u32,
    pub height: u32,
    pub pixels: Vec<u8>,
}

impl RawFrame {
    /// Whether the buffer holds at least `width * height` pixels.
    pub open spec fn usable(self) -> bool {
        4 * self.width * self.height <= self.pixels@.len()
    }

    /// The raster that a usable frame holds: the first `width * height`
    /// pixels of its buffer.
    pub open spec fn raster(self) -> RasterView {
        RasterView {
            width: self.width as nat,
            height: self.height as nat,
            pixels: self.pixels@.take(4 * self.width * self.height),
        }
    }

    /// Copies the frame into a raster; `None` where the buffer is too small
    /// for the dimensions.
    pub fn to_raster(&self) -> (out: Option<Raster>)
        ensures
            out.is_some() <==> self.usable(),
            out matches Some(raster) ==> raster@ == self.raster() && raster@.wf(),
    {
        let samples: Vec<u8> = self.pixels.clone();
        assert(samples@ =~= self.pixels@);
        Raster::from_raw(self.width, self.height, samples)
    }
}

/// An RGBA raster whose buffer holds exactly `width * height` pixels.
pub struct Raster {
    width: u32,
    height: u32,
    pixels: Vec<u8>,
}

impl View for Raster {
    type V = RasterView;

    closed spec fn view(&self) -> RasterView {
        RasterView {
            width: self.width as nat,
            height: self.height as nat,
            pixels: self.pixels@,
        }
    }
}

impl Raster {
    #[verifier::type_invariant]
    spec fn inv(self) -> bool {
        self.pixels@.len() == 4 * self.width * self.height
    }

    /// Takes the first `width * height` pixels of `pixels` as a raster.
    /// Fails when the buffer holds fewer samples than that.
    pub fn from_raw(width: u32, height: u32, pixels: Vec<u8>) -> (out: Option<Raster>)
        ensures
            out.is_some() <==> 4 * width * height <= pixels@.len(),
            out matches Some(raster) ==> raster@ == (RasterView {
                width: width as nat,
                height: height as nat,
                pixels: pixels@.take(4 * width * height),
            }),
            out matches Some(raster) ==> raster@.wf(),
    {
        assert(4 * width * height == 4 * (width * height) && 0 <= width * height <= 0xffff_ffff
            * 0xffff_ffff) by (nonlinear_arith)
            requires
                width <= 0xffff_ffff,
                height <= 0xffff_ffff,
        ;
        let needed: u128 = 4 * ((width as u128) * (height as u128));
        if needed > pixels.len() as u128 {
            return None;
        }
        let mut pixels = pixels;
        pixels.truncate(needed as usize);
        Some(Raster { width, height, pixels })
    }

    /// The one-pixel, fully transparent raster that stands in for an image
    /// that cannot be shown.
    pub fn placeholder() -> (out: Raster)
        ensures
            out@ == placeholder_view(),
            out@.wf(),
    {
        let mut pixels: Vec<u8> = Vec::with_capacity(4);
        pixels.push(0);
        pixels.push(0);
        pixels.push(0);
        pixels.push(0);
        assert(pixels@ =~= seq![0u8, 0u8, 0u8, 0u8]);
        Raster { width: 1, height: 1, pixels }
    }

    /// Width in pixels.
    pub fn width(&self) -> (w: u32)
        ensures
            w == self@.width,
            self@.wf(),
    {
        proof {
            use_type_invariant(self);
        }
        self.width
    }

    /// Height in pixels.
    pub fn height(&self) -> (h: u32)
        ensures
            h == self@.height,
            self@.wf(),
    {
        proof {
            use_type_invariant(self);
        }
        self.height
    }

    /// The sample buffer.
    pub fn as_raw(&self) -> (samples: &Vec<u8>)
        ensures
            samples@ == self@.pixels,
            self@.wf(),
    {
        proof {
            use_type_invariant(self);
        }
        &self.pixels
    }

    /// The pixel at `(x, y)`, or `None` outside the raster.
    pub fn get_pixel(&self, x: u32, y: u32) -> (p: Option<Rgba>)
        ensures
            self@.wf(),
            self@.contains(x as int, y as int) ==> p == Some(self@.pixel(x as int, y as int)),
            !self@.contains(x as int, y as int) ==> p.is_none(),
    {
        proof {
            use_type_invariant(self);
        }
        if x >= self.width || y >= self.height {
            return None;
        }
        proof {
            self@.lemma_offset_in_range(x as int, y as int);
            let w = self.width as int;
            let h = self.height as int;
            assert(0 <= (y as int) * w <= (y as int) * w + (x as int) < w * h) by (nonlinear_arith)
                requires
                    0 <= (x as int) < w,
                    0 <= (y as int) < h,
            ;
            assert(4 * w * h == 4 * (w * h)) by (nonlinear_arith);
            assert(self.pixels@.len() == self.pixels.len());
        }
        let base: usize = 4 * ((y as usize) * (self.width as usize) + (x as usize));
        Some(
            Rgba {
                red: self.pixels[base],
                green: self.pixels[base + 1],
                blue: self.pixels[base + 2],
                alpha: self.pixels[base + 3],
            },
        )
    }
}

/// The view of [`Raster::placeholder`]: one pixel, all samples zero.
pub open spec fn placeholder_view() -> RasterView {
    RasterView { width: 1, height: 1, pixels: seq![0u8, 0u8, 0u8, 0u8] }
}

} // verus!
