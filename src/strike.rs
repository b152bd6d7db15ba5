//! Strike rasters: how many times each pixel is struck in each ribbon colour.
use vstd::prelude::*;

use crate::error::RenderError;

verus! {

/// The number of strikes that should be used for each of the black and red
/// channels, respectively.
#[derive(Clone, Copy, Debug)]
pub struct Strike(pub [u8; 2]);

impl Strike {
    pub open spec fn black(self) -> u8 {
        self.0@[0]
    }

    pub open spec fn red(self) -> u8 {
        self.0@[1]
    }

    /// The count of channel `ch`: 0 for black, 1 for red.
    pub open spec fn channel(self, ch: int) -> u8 {
        self.0@[ch]
    }
}

/// A raster of strike pixels, stored row by row.
#[derive(Clone, Debug)]
pub struct StrikeImage {
    pub width: u32,
    pub height: u32,
    pub pixels: Vec<Strike>,
}

impl StrikeImage {
    pub open spec fn wf(self) -> bool {
        self.pixels@.len() == self.width as nat * self.height as nat
    }

    pub open spec fn pixel(self, x: int, y: int) -> Strike {
        self.pixels@[y * self.width + x]
    }

    /// An image of the given size with every pixel `pixel`.
    pub fn from_pixel(width: u32, height: u32, pixel: Strike) -> (r: Option<StrikeImage>)
        ensures
            (width as nat * height as nat <= usize::MAX) == r is Some,
            r matches Some(img) ==> img.wf() && img.width == width && img.height == height
                && forall|i: int| 0 <= i < img.pixels@.len() ==> img.pixels@[i] == pixel,
    {
        assert(width as nat * height as nat <= 0xffff_ffff_ffff_ffff) by (nonlinear_arith)
            requires width <= 0xffff_ffff, height <= 0xffff_ffff;
        let total: u64 = width as u64 * height as u64;
        if total > usize::MAX as u64 {
            return None;
        }
        let n = total as usize;
        let mut pixels: Vec<Strike> = Vec::new();
        let mut i: usize = 0;
        while i < n
            invariant
                i <= n,
                pixels@.len() == i,
                forall|j: int| 0 <= j < i ==> pixels@[j] == pixel,
            decreases n - i,
        {
            pixels.push(pixel);
            i = i + 1;
        }
        Some(StrikeImage { width, height, pixels })
    }

    pub fn get_pixel(&self, x: u32, y: u32) -> (r: Strike)
        requires
            self.wf(),
            x < self.width,
            y < self.height,
        ensures
            r == self.pixel(x as int, y as int),
    {
        proof {
            lemma_index_in_bounds(x as nat, y as nat, self.width as nat, self.height as nat);
        }
        // The vector's length is a `usize`, and the index lies below it.
        let len = self.pixels.len();
        assert((y as nat) * (self.width as nat) + (x as nat) < len);
        let row = y as usize * self.width as usize;
        let i = row + x as usize;
        self.pixels[i]
    }

    pub fn put_pixel(&mut self, x: u32, y: u32, pixel: Strike)
        requires
            old(self).wf(),
            x < old(self).width,
            y < old(self).height,
        ensures
            final(self).wf(),
            final(self).width == old(self).width,
            final(self).height == old(self).height,
            final(self).pixels@ == old(self).pixels@.update(y * old(self).width + x, pixel),
    {
        proof {
            lemma_index_in_bounds(x as nat, y as nat, self.width as nat, self.height as nat);
        }
        // The vector's length is a `usize`, and the index lies below it.
        let len = self.pixels.len();
        assert((y as nat) * (self.width as nat) + (x as nat) < len);
        let row = y as usize * self.width as usize;
        let i = row + x as usize;
        self.pixels.set(i, pixel);
    }
}

/// Row-major index of a pixel inside the raster.
pub proof fn lemma_index_in_bounds(x: nat, y: nat, w: nat, h: nat)
    requires
        x < w,
        y < h,
    ensures
        y * w + x < w * h,
        y * w <= w * h,
{
    assert(y * w + x < w * h) by (nonlinear_arith)
        requires x < w, y < h;
    assert(y * w <= w * h) by (nonlinear_arith)
        requires y < h;
}

/// A colour with 8-bit red, green and blue channels.
#[derive(Clone, Copy, Debug, PartialEq, Eq, Structural)]
pub struct Rgb {
    pub r: u8,
    pub g: u8,
    pub b: u8,
}

/// An RGB raster, stored row by row.
#[derive(Clone, Debug)]
pub struct RgbImage {
    pub width: u32,
    pub height: u32,
    pub pixels: Vec<Rgb>,
}

impl RgbImage {
    pub open spec fn wf(self) -> bool {
        self.pixels@.len() == self.width as nat * self.height as nat
    }
}

/// Relies on the image crate: `load_from_memory` guesses the format and
/// decodes the bytes, and `to_rgb8` converts the result to an RGB buffer
/// that holds three bytes for each of its width times height pixels. Which
/// pixels come out may depend on the machine (a JPEG decoder picks its
/// arithmetic by CPU), so nothing more is stated of them.
#[verifier::external_body]
fn load_rgb(data: &[u8]) -> (r: Option<RgbImage>)
    ensures
        r matches Some(img) ==> img.wf(),
{
    image::load_from_memory(data).ok().map(|decoded| {
        let rgb = decoded.to_rgb8();
        let (width, height) = rgb.dimensions();
        let pixels = rgb.pixels().map(|p| Rgb { r: p.0[0], g: p.0[1], b: p.0[2] }).collect();
        RgbImage { width, height, pixels }
    })
}

/// Decodes the bytes of an `image` code block.
pub fn decode_image(data: &[u8]) -> (r: Result<RgbImage, RenderError>)
    ensures
        r matches Ok(img) ==> img.wf(),
        r is Err ==> r == Err::<RgbImage, RenderError>(RenderError::ImageDecode),
{
    match load_rgb(data) {
        Some(img) => Ok(img),
        None => Err(RenderError::ImageDecode),
    }
}

pub open spec fn white() -> Rgb {
    Rgb { r: 255, g: 255, b: 255 }
}

pub open spec fn black() -> Rgb {
    Rgb { r: 0, g: 0, b: 0 }
}

pub open spec fn pure_red() -> Rgb {
    Rgb { r: 255, g: 0, b: 0 }
}

/// The palette and what each entry of it strikes: white strikes nothing,
/// black strikes the black ribbon once and, when enabled, red the red one.
pub open spec fn palette(bicolor: bool) -> Seq<(Rgb, (u8, u8))> {
    if bicolor {
        seq![(white(), (0u8, 0u8)), (black(), (1u8, 0u8)), (pure_red(), (0u8, 1u8))]
    } else {
        seq![(white(), (0u8, 0u8)), (black(), (1u8, 0u8))]
    }
}

/// Squared Euclidean distance between two colours.
pub open spec fn distance(a: Rgb, b: Rgb) -> int {
    (a.r - b.r) * (a.r - b.r) + (a.g - b.g) * (a.g - b.g) + (a.b - b.b) * (a.b - b.b)
}

/// Index of the palette entry nearest to `c`: the first of the nearest.
pub open spec fn is_nearest(colors: Seq<Rgb>, c: Rgb, i: int) -> bool {
    &&& 0 <= i < colors.len()
    &&& forall|j: int| 0 <= j < colors.len() ==> distance(colors[i], c) <= distance(#[trigger] colors[j], c)
    &&& forall|j: int| 0 <= j < i ==> distance(colors[i], c) < distance(#[trigger] colors[j], c)
}

/// `out` is a palette colour nearest to `c`, the first of the nearest.
pub open spec fn nearest_color(colors: Seq<Rgb>, c: Rgb, out: Rgb) -> bool {
    exists|i: int| is_nearest(colors, c, i) && out == colors[i]
}

/// The palette colours and the strike of each, in palette order.
pub struct StrikeColors {
    colors: Vec<Rgb>,
    strikes: Vec<Strike>,
}

impl StrikeColors {
    pub closed spec fn entries(&self) -> Seq<(Rgb, (u8, u8))> {
        Seq::new(self.colors@.len(), |i: int| (self.colors@[i], (self.strikes@[i].black(), self.strikes@[i].red())))
    }

    pub closed spec fn wf(&self) -> bool {
        self.colors@.len() == self.strikes@.len()
    }

    pub open spec fn colors(&self) -> Seq<Rgb> {
        self.entries().map_values(|e: (Rgb, (u8, u8))| e.0)
    }

    /// The palette of white and black, and red too when `bicolor` is set.
    pub fn new(bicolor: bool) -> (r: StrikeColors)
        ensures
            r.wf(),
            r.entries() == palette(bicolor),
    {
        let mut colors = vec![Rgb { r: 255, g: 255, b: 255 }, Rgb { r: 0, g: 0, b: 0 }];
        let mut strikes = vec![Strike([0, 0]), Strike([1, 0])];
        if bicolor {
            colors.push(Rgb { r: 255, g: 0, b: 0 });
            strikes.push(Strike([0, 1]));
        }
        let r = StrikeColors { colors, strikes };
        assert(r.entries() =~= palette(bicolor));
        r
    }

    /// The palette colour nearest to `color`.
    pub fn map_color(&self, color: Rgb) -> (r: Rgb)
        requires
            self.wf(),
            self.colors().len() > 0,
        ensures
            exists|i: int| is_nearest(self.colors(), color, i) && r == self.colors()[i],
    {
        proof {
            assert(self.colors() =~= self.colors@);
        }
        let mut best: usize = 0;
        let mut best_distance: i32 = color_distance(self.colors[0], color);
        let mut i: usize = 1;
        while i < self.colors.len()
            invariant
                self.colors() == self.colors@,
                1 <= i <= self.colors@.len(),
                best < i,
                best_distance == distance(self.colors@[best as int], color),
                forall|j: int| 0 <= j < i ==> best_distance <= distance(#[trigger] self.colors@[j], color),
                forall|j: int| 0 <= j < best ==> best_distance < distance(#[trigger] self.colors@[j], color),
            decreases self.colors@.len() - i,
        {
            let d = color_distance(self.colors[i], color);
            if d < best_distance {
                best = i;
                best_distance = d;
            }
            i = i + 1;
        }
        assert(is_nearest(self.colors(), color, best as int));
        self.colors[best]
    }

    /// Position of `color` in the palette, or 0 when it is not there.
    pub fn index_of(&self, color: Rgb) -> (r: usize)
        requires
            self.wf(),
        ensures
            (exists|i: int| 0 <= i < self.colors().len() && self.colors()[i] == color) ==> r
                < self.colors().len() && self.colors()[r as int] == color && forall|j: int|
                0 <= j < r ==> self.colors()[j] != color,
            !(exists|i: int| 0 <= i < self.colors().len() && self.colors()[i] == color) ==> r == 0,
    {
        proof {
            assert(self.colors() =~= self.colors@);
        }
        let mut i: usize = 0;
        while i < self.colors.len()
            invariant
                self.colors() == self.colors@,
                i <= self.colors@.len(),
                forall|j: int| 0 <= j < i ==> self.colors@[j] != color,
            decreases self.colors@.len() - i,
        {
            if self.colors[i] == color {
                return i;
            }
            i = i + 1;
        }
        0
    }

    /// The palette colour at `index`, if there is one.
    pub fn lookup(&self, index: usize) -> (r: Option<Rgb>)
        requires
            self.wf(),
        ensures
            index < self.colors().len() ==> r == Some(self.colors()[index as int]),
            index >= self.colors().len() ==> r is None,
    {
        proof {
            assert(self.colors() =~= self.colors@);
        }
        if index < self.colors.len() {
            Some(self.colors[index])
        } else {
            None
        }
    }

    /// The strike of a palette colour, or `None` for a colour outside it.
    pub fn strike_of(&self, color: Rgb) -> (r: Option<Strike>)
        requires
            self.wf(),
        ensures
            r is Some == (exists|i: int| 0 <= i < self.entries().len() && self.entries()[i].0 == color),
            r matches Some(s) ==> (exists|i: int|
                0 <= i < self.entries().len() && self.entries()[i].0 == color
                    && self.entries()[i].1 == (s.black(), s.red())),
    {
        let mut i: usize = 0;
        while i < self.colors.len()
            invariant
                self.wf(),
                i <= self.colors@.len(),
                forall|j: int| 0 <= j < i ==> self.colors@[j] != color,
            decreases self.colors@.len() - i,
        {
            if self.colors[i] == color {
                assert(self.entries()[i as int].0 == color);
                return Some(self.strikes[i]);
            }
            i = i + 1;
        }
        assert(forall|j: int| 0 <= j < self.entries().len() ==> self.entries()[j].0 == self.colors@[j]);
        None
    }

    /// Replaces each pixel by its nearest palette colour, without spreading
    /// the error to neighbours; for images too small to dither.
    pub fn map_nearest(&self, image: &RgbImage) -> (r: RgbImage)
        requires
            self.wf(),
            self.colors().len() > 0,
            image.wf(),
        ensures
            r.wf(),
            r.width == image.width,
            r.height == image.height,
            forall|k: int| 0 <= k < r.pixels@.len() ==> nearest_color(self.colors(), image.pixels@[k], #[trigger] r.pixels@[k]),
    {
        let mut pixels: Vec<Rgb> = Vec::new();
        let mut k: usize = 0;
        while k < image.pixels.len()
            invariant
                self.wf(),
                self.colors().len() > 0,
                k <= image.pixels@.len(),
                pixels@.len() == k,
                forall|j: int| 0 <= j < k ==> nearest_color(self.colors(), image.pixels@[j], #[trigger] pixels@[j]),
            decreases image.pixels@.len() - k,
        {
            let c = self.map_color(image.pixels[k]);
            assert(nearest_color(self.colors(), image.pixels@[k as int], c));
            pixels.push(c);
            k = k + 1;
        }
        RgbImage { width: image.width, height: image.height, pixels }
    }

    /// Turns an image whose every pixel is a palette colour, as dithering
    /// against this palette leaves it, into a strike raster.
    pub fn map_dithered(&self, image: &RgbImage) -> (r: Result<StrikeImage, RenderError>)
        requires
            self.wf(),
            image.wf(),
        ensures
            r is Ok == (forall|k: int| 0 <= k < image.pixels@.len() ==> in_palette(self.entries(), #[trigger] image.pixels@[k])),
            r matches Ok(img) ==> img.wf() && img.width == image.width && img.height == image.height
                && forall|k: int| 0 <= k < img.pixels@.len() ==> #[trigger] strike_matches(self.entries(), image.pixels@[k], img.pixels@[k]),
            r is Err ==> r == Err::<StrikeImage, RenderError>(RenderError::UnexpectedPixel),
    {
        let mut pixels: Vec<Strike> = Vec::new();
        let mut k: usize = 0;
        while k < image.pixels.len()
            invariant
                self.wf(),
                k <= image.pixels@.len(),
                pixels@.len() == k,
                forall|j: int| 0 <= j < k ==> in_palette(self.entries(), #[trigger] image.pixels@[j]),
                forall|j: int| 0 <= j < k ==> #[trigger] strike_matches(self.entries(), image.pixels@[j], pixels@[j]),
            decreases image.pixels@.len() - k,
        {
            match self.strike_of(image.pixels[k]) {
                Some(s) => {
                    pixels.push(s);
                },
                None => {
                    return Err(RenderError::UnexpectedPixel);
                },
            }
            k = k + 1;
        }
        Ok(StrikeImage { width: image.width, height: image.height, pixels })
    }
}

pub open spec fn in_palette(entries: Seq<(Rgb, (u8, u8))>, c: Rgb) -> bool {
    exists|i: int| 0 <= i < entries.len() && entries[i].0 == c
}

/// `s` is the strike that the palette gives colour `c`.
pub open spec fn strike_matches(entries: Seq<(Rgb, (u8, u8))>, c: Rgb, s: Strike) -> bool {
    exists|i: int| 0 <= i < entries.len() && entries[i].0 == c && entries[i].1 == (s.black(), s.red())
}

pub open spec fn palette_colors(bicolor: bool) -> Seq<Rgb> {
    palette(bicolor).map_values(|e: (Rgb, (u8, u8))| e.0)
}

/// Nearest-colour choices that fix how plain images quantize: white stays
/// white, pure red stays red when red is enabled, and pure red becomes
/// black, the nearer of white and black, when it is not.
pub proof fn lemma_nearest_palette_colors()
    ensures
        is_nearest(palette_colors(false), white(), 0) && palette_colors(false)[0] == white(),
        is_nearest(palette_colors(true), white(), 0),
        is_nearest(palette_colors(true), pure_red(), 2) && palette_colors(true)[2] == pure_red(),
        is_nearest(palette_colors(false), pure_red(), 1) && palette_colors(false)[1] == black(),
{
    assert(distance(white(), white()) == 0);
    assert(distance(black(), white()) == 195075) by (nonlinear_arith);
    assert(distance(pure_red(), white()) == 130050) by (nonlinear_arith);
    assert(distance(white(), pure_red()) == 130050) by (nonlinear_arith);
    assert(distance(black(), pure_red()) == 65025) by (nonlinear_arith);
    assert(distance(pure_red(), pure_red()) == 0);
}

/// Mapping an image of palette colours strikes nothing where it is white,
/// and only the red ribbon, once, where it is red (which only a palette
/// with red holds).
pub proof fn lemma_uniform_strikes(bicolor: bool, pixels: Seq<Rgb>, strikes: Seq<Strike>)
    requires
        pixels.len() == strikes.len(),
        forall|k: int| 0 <= k < pixels.len() ==> #[trigger] strike_matches(palette(bicolor), pixels[k], strikes[k]),
    ensures
        forall|k: int| 0 <= k < pixels.len() && pixels[k] == white() ==> (#[trigger] strikes[k]).black() == 0 && strikes[k].red() == 0,
        forall|k: int| 0 <= k < pixels.len() && pixels[k] == pure_red() ==> (#[trigger] strikes[k]).black() == 0 && strikes[k].red() == 1,
{
    assert forall|k: int| 0 <= k < pixels.len() && pixels[k] == pure_red() implies
        (#[trigger] strikes[k]).black() == 0 && strikes[k].red() == 1 by {
        assert(strike_matches(palette(bicolor), pixels[k], strikes[k]));
        let i = choose|i: int| 0 <= i < palette(bicolor).len() && palette(bicolor)[i].0 == pixels[k]
            && palette(bicolor)[i].1 == (strikes[k].black(), strikes[k].red());
        assert(i == 0 || i == 1 || i == 2);
        assert(white() != pure_red());
        assert(black() != pure_red());
    }
    assert forall|k: int| 0 <= k < pixels.len() && pixels[k] == white() implies
        (#[trigger] strikes[k]).black() == 0 && strikes[k].red() == 0 by {
        assert(strike_matches(palette(bicolor), pixels[k], strikes[k]));
        let i = choose|i: int| 0 <= i < palette(bicolor).len() && palette(bicolor)[i].0 == pixels[k]
            && palette(bicolor)[i].1 == (strikes[k].black(), strikes[k].red());
        assert(i == 0 || i == 1 || i == 2);
    }
}

fn color_distance(a: Rgb, b: Rgb) -> (r: i32)
    ensures
        r == distance(a, b),
{
    let dr = a.r as i32 - b.r as i32;
    let dg = a.g as i32 - b.g as i32;
    let db = a.b as i32 - b.b as i32;
    assert(dr * dr <= 65025 && dg * dg <= 65025 && db * db <= 65025) by (nonlinear_arith)
        requires -255 <= dr <= 255, -255 <= dg <= 255, -255 <= db <= 255;
    assert(dr * dr >= 0 && dg * dg >= 0 && db * db >= 0) by (nonlinear_arith);
    dr * dr + dg * dg + db * db
}

} // verus!
