//! Encoding of strike rasters as bit-image bands.
use vstd::arithmetic::div_mod::{lemma_div_denominator, lemma_fundamental_div_mod_converse};
use vstd::prelude::*;

use crate::format::{Format, Justification};
use crate::render::{bit_image_prologue, prologue, LineChar};
use crate::strike::{lemma_index_in_bounds, StrikeImage};

verus! {

/// Whether pixel row `y` of column `x` is struck in channel `ch`; rows
/// below the image are blank.
pub open spec fn pixel_bit(img: StrikeImage, ch: int, x: int, y: int) -> nat {
    if y < img.height && img.pixel(x, y).channel(ch) > 0 { 1 } else { 0 }
}

/// The first `k` rows from `y0` of column `x` read as a binary number, the
/// top row most significant.
pub open spec fn column_value(img: StrikeImage, ch: int, x: int, y0: int, k: nat) -> nat
    decreases k,
{
    if k == 0 {
        0
    } else {
        2 * column_value(img, ch, x, y0, (k - 1) as nat) + pixel_bit(img, ch, x, y0 + k - 1)
    }
}

/// The column byte of column `x` in band `band`, channel `ch`.
pub open spec fn band_byte(img: StrikeImage, ch: int, band: int, x: int) -> u8 {
    column_value(img, ch, x, 8 * band, 8) as u8
}

/// Number of 8-row bands that cover the image.
pub open spec fn band_count(img: StrikeImage) -> nat {
    ((img.height + 7) / 8) as nat
}

/// Line units of one channel of one band: the bit-image header, then one
/// byte per column, all in format `f`.
pub open spec fn channel_units(img: StrikeImage, ch: int, band: int, f: Format) -> Seq<LineChar> {
    prologue(img.width as nat).map_values(|b: u8| LineChar { ch: b, format: f })
        + Seq::new(img.width as nat, |x: int| LineChar { ch: band_byte(img, ch, band, x), format: f })
}

pub open spec fn band_has_red(img: StrikeImage, band: int) -> bool {
    exists|x: int, y: int|
        0 <= x < img.width && 8 * band <= y < 8 * band + 8 && y < img.height
            && #[trigger] img.pixel(x, y).red() > 0
}

/// The line that prints one band: its black channel, then its red channel
/// when the band has any red.
pub open spec fn band_line(img: StrikeImage, g: Format, band: int) -> Seq<LineChar> {
    channel_units(img, 0, band, Format { red: false, ..g }) + if band_has_red(img, band) {
        channel_units(img, 1, band, Format { red: true, ..g })
    } else {
        Seq::empty()
    }
}

/// The format graphics print under: unidirectional, centred, 16-dot line
/// feeds so that bands meet without gaps.
pub open spec fn graphics_format(f: Format) -> Format {
    Format { unidirectional: true, line_spacing: 16, justification: Justification::Center, ..f }
}

pub open spec fn pow2_of(k: nat) -> nat
    decreases k,
{
    if k == 0 { 1 } else { 2 * pow2_of((k - 1) as nat) }
}

proof fn lemma_column_value_bound(img: StrikeImage, ch: int, x: int, y0: int, k: nat)
    ensures
        column_value(img, ch, x, y0, k) < pow2_of(k),
    decreases k,
{
    if k > 0 {
        lemma_column_value_bound(img, ch, x, y0, (k - 1) as nat);
    }
}

proof fn lemma_pow2_positive(k: nat)
    ensures
        pow2_of(k) > 0,
    decreases k,
{
    if k > 0 {
        lemma_pow2_positive((k - 1) as nat);
    }
}

proof fn lemma_column_value_bit(img: StrikeImage, ch: int, x: int, y0: int, n: nat, k: nat)
    requires
        k < n,
    ensures
        (column_value(img, ch, x, y0, n) / pow2_of((n - 1 - k) as nat)) % 2 == pixel_bit(img, ch, x, y0 + k),
    decreases n,
{
    let cv = column_value(img, ch, x, y0, (n - 1) as nat);
    let bit = pixel_bit(img, ch, x, y0 + n - 1);
    let v = column_value(img, ch, x, y0, n);
    assert(v == 2 * cv + bit);
    if k == n - 1 {
        assert(pow2_of(0) == 1);
        lemma_fundamental_div_mod_converse(v as int, 2, cv as int, bit as int);
        assert(v / 1 == v);
    } else {
        let q = pow2_of((n - 2 - k) as nat);
        lemma_pow2_positive((n - 2 - k) as nat);
        assert(pow2_of((n - 1 - k) as nat) == 2 * q);
        lemma_fundamental_div_mod_converse(v as int, 2, cv as int, bit as int);
        lemma_div_denominator(v as int, 2, q as int);
        lemma_column_value_bit(img, ch, x, y0, (n - 1) as nat, k);
        assert(v as int / 2 == cv);
        assert((v as int / 2) / (q as int) == v as int / (2 * q as int));
        assert(v / pow2_of((n - 1 - k) as nat) == cv / q);
    }
}

/// Graphics bands: in band `band`, bit `7 - k` of the byte of column `x`
/// (the top row the most significant) is set exactly when row
/// `8 * band + k` lies inside the image and that pixel is struck in the
/// channel; rows below the image print blank.
pub proof fn lemma_band_byte_bits(img: StrikeImage, ch: int, band: int, x: int, k: nat)
    requires
        k < 8,
    ensures
        (band_byte(img, ch, band, x) as nat / pow2_of((7 - k) as nat)) % 2 == if 8 * band + k < img.height
            && img.pixel(x, 8 * band + k).channel(ch) > 0 {
            1nat
        } else {
            0nat
        },
{
    lemma_column_value_bit(img, ch, x, 8 * band, 8, k);
    lemma_column_value_bound(img, ch, x, 8 * band, 8);
    reveal_with_fuel(pow2_of, 9);
}

/// Computes one column byte of a band.
pub fn column_byte(img: &StrikeImage, ch: usize, band: u32, x: u32) -> (r: u8)
    requires
        img.wf(),
        ch < 2,
        x < img.width,
        band as nat * 8 < img.height as nat + 8,
    ensures
        r == band_byte(*img, ch as int, band as int, x as int),
{
    let mut v: u8 = 0;
    let mut k: u64 = 0;
    while k < 8
        invariant
            k <= 8,
            img.wf(),
            ch < 2,
            x < img.width,
            v as nat == column_value(*img, ch as int, x as int, 8 * band, k as nat),
            v < pow2_of(k as nat),
        decreases 8 - k,
    {
        let y: u64 = band as u64 * 8 + k;
        let bit: u8 = if y < img.height as u64 {
            let p = img.get_pixel(x, y as u32);
            if p.0[ch] > 0 { 1 } else { 0 }
        } else {
            0
        };
        proof {
            lemma_column_value_bound(*img, ch as int, x as int, 8 * band, (k + 1) as nat);
            reveal_with_fuel(pow2_of, 9);
            assert(pow2_of(8) == 256);
            if k + 1 < 8 {
                assert(pow2_of((k + 1) as nat) <= 128);
            }
        }
        v = v * 2 + bit;
        k = k + 1;
    }
    v
}

/// Whether any pixel of band `band` has a red strike.
pub fn has_red(img: &StrikeImage, band: u32) -> (r: bool)
    requires
        img.wf(),
        band as nat * 8 < img.height as nat + 8,
    ensures
        r == band_has_red(*img, band as int),
{
    let mut x: u32 = 0;
    while x < img.width
        invariant
            img.wf(),
            x <= img.width,
            forall|i: int, y: int|
                0 <= i < x && 8 * band <= y < 8 * band + 8 && y < img.height
                    ==> !(#[trigger] img.pixel(i, y).red() > 0),
        decreases img.width - x,
    {
        let mut k: u64 = 0;
        while k < 8
            invariant
                img.wf(),
                x < img.width,
                k <= 8,
                forall|i: int, y: int|
                    0 <= i < x && 8 * band <= y < 8 * band + 8 && y < img.height
                        ==> !(#[trigger] img.pixel(i, y).red() > 0),
                forall|y: int|
                    8 * band <= y < 8 * band + k && y < img.height
                        ==> !(#[trigger] img.pixel(x as int, y).red() > 0),
            decreases 8 - k,
        {
            let y: u64 = band as u64 * 8 + k;
            if y < img.height as u64 {
                let p = img.get_pixel(x, y as u32);
                if p.0[1] > 0 {
                    assert(img.pixel(x as int, y as int).red() > 0);
                    return true;
                }
            }
            k = k + 1;
        }
        x = x + 1;
    }
    false
}

/// Appends the units of one channel of one band.
pub fn push_channel_units(img: &StrikeImage, ch: usize, band: u32, f: Format, units: &mut Vec<LineChar>)
    requires
        img.wf(),
        ch < 2,
        img.width <= 0xffff,
        band as nat * 8 < img.height as nat + 8,
    ensures
        final(units)@ == old(units)@ + channel_units(*img, ch as int, band as int, f),
{
    let head = match bit_image_prologue(img.width as usize) {
        Ok(v) => v,
        Err(_) => Vec::new(),
    };
    let ghost start = units@;
    let mut i: usize = 0;
    while i < head.len()
        invariant
            i <= head@.len(),
            head@ == prologue(img.width as nat),
            units@ == start + head@.take(i as int).map_values(|b: u8| LineChar { ch: b, format: f }),
        decreases head@.len() - i,
    {
        units.push(LineChar { ch: head[i], format: f });
        i = i + 1;
        assert(units@ =~= start + head@.take(i as int).map_values(|b: u8| LineChar { ch: b, format: f }));
    }
    assert(head@.take(head@.len() as int) =~= head@);
    let ghost mid = units@;
    let mut x: u32 = 0;
    while x < img.width
        invariant
            img.wf(),
            ch < 2,
            x <= img.width,
            band as nat * 8 < img.height as nat + 8,
            units@ == mid + Seq::new(x as nat, |c: int| LineChar { ch: band_byte(*img, ch as int, band as int, c), format: f }),
        decreases img.width - x,
    {
        let b = column_byte(img, ch, band, x);
        units.push(LineChar { ch: b, format: f });
        x = x + 1;
        assert(units@ =~= mid + Seq::new(x as nat, |c: int| LineChar { ch: band_byte(*img, ch as int, band as int, c), format: f }));
    }
    assert(units@ =~= start + channel_units(*img, ch as int, band as int, f));
}

/// Builds the line of one band in graphics format `g`.
pub fn band_units(img: &StrikeImage, g: Format, band: u32) -> (r: Vec<LineChar>)
    requires
        img.wf(),
        img.width <= 0xffff,
        band as nat * 8 < img.height as nat + 8,
    ensures
        r@ == band_line(*img, g, band as int),
{
    let mut units: Vec<LineChar> = Vec::new();
    push_channel_units(img, 0, band, g.with_red(false), &mut units);
    if has_red(img, band) {
        push_channel_units(img, 1, band, g.with_red(true), &mut units);
    }
    assert(units@ =~= band_line(*img, g, band as int));
    units
}

} // verus!
