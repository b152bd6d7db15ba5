//! Code blocks drawn as graphics: text stencils, QR codes and barcodes.
use vstd::prelude::*;
use vstd::string::*;

use crate::codeblock::{is_whitespace, whitespace};
use crate::error::RenderError;
use crate::render::{image_state, RenderState, Renderer, LINE_PIXELS_IMAGE};
use crate::strike::{Strike, StrikeImage};

verus! {

/// Rows of a text stencil: `s` split at each line feed.
pub open spec fn stencil_rows(s: Seq<char>) -> Seq<Seq<char>>
    decreases s.len(),
{
    if s.len() == 0 {
        seq![Seq::<char>::empty()]
    } else {
        let rows = stencil_rows(s.drop_last());
        if s.last() == '\n' {
            rows.push(Seq::empty())
        } else {
            rows.update(rows.len() - 1, rows.last().push(s.last()))
        }
    }
}

/// Length of the longest row.
pub open spec fn widest(rows: Seq<Seq<char>>) -> nat
    decreases rows.len(),
{
    if rows.len() == 0 {
        0
    } else {
        let w = widest(rows.drop_last());
        if rows.last().len() > w { rows.last().len() } else { w }
    }
}

/// Black strike counts of one stencil row padded to `width` pixels: every
/// character but white space is struck.
pub open spec fn stencil_row(row: Seq<char>, width: nat) -> Seq<u8> {
    Seq::new(width, |x: int| if x < row.len() && !whitespace(row[x]) { 1u8 } else { 0u8 })
}

/// Black strike counts of a stencil, row after row.
pub open spec fn stencil_counts(rows: Seq<Seq<char>>, width: nat) -> Seq<u8>
    decreases rows.len(),
{
    if rows.len() == 0 {
        Seq::empty()
    } else {
        stencil_counts(rows.drop_last(), width) + stencil_row(rows.last(), width)
    }
}

/// Pixels with the given black counts and no red.
pub open spec fn black_pixels(pixels: Seq<Strike>, counts: Seq<u8>) -> bool {
    &&& pixels.len() == counts.len()
    &&& forall|k: int| 0 <= k < pixels.len() ==> (#[trigger] pixels[k]).black() == counts[k] && pixels[k].red() == 0
}

proof fn lemma_stencil_rows_nonempty(s: Seq<char>)
    ensures
        stencil_rows(s).len() >= 1,
    decreases s.len(),
{
    if s.len() > 0 {
        lemma_stencil_rows_nonempty(s.drop_last());
    }
}

proof fn lemma_widest_bound(rows: Seq<Seq<char>>, s: Seq<char>)
    requires
        rows == stencil_rows(s),
    ensures
        widest(rows) <= s.len(),
        rows.len() <= s.len() + 1,
    decreases s.len(),
{
    lemma_stencil_rows_nonempty(s);
    if s.len() == 0 {
        assert(rows.drop_last() =~= Seq::<Seq<char>>::empty());
    } else {
        let prev = stencil_rows(s.drop_last());
        lemma_widest_bound(prev, s.drop_last());
        lemma_stencil_rows_nonempty(s.drop_last());
        if s.last() != '\n' {
            assert(rows.drop_last() =~= prev.drop_last());
            assert(rows.last() == prev.last().push(s.last()));
            lemma_row_len_bound(prev, s.drop_last());
            assert(widest(rows) == if rows.last().len() > widest(rows.drop_last()) {
                rows.last().len()
            } else {
                widest(rows.drop_last())
            });
        } else {
            assert(rows.drop_last() =~= prev);
            assert(rows.last() == Seq::<char>::empty());
        }
    }
}

proof fn lemma_row_len_bound(rows: Seq<Seq<char>>, s: Seq<char>)
    requires
        rows == stencil_rows(s),
    ensures
        rows.last().len() <= s.len(),
        widest(rows.drop_last()) <= s.len(),
    decreases s.len(),
{
    lemma_stencil_rows_nonempty(s);
    if s.len() > 0 {
        let prev = stencil_rows(s.drop_last());
        lemma_row_len_bound(prev, s.drop_last());
        lemma_stencil_rows_nonempty(s.drop_last());
        if s.last() != '\n' {
            assert(rows.drop_last() =~= prev.drop_last());
        } else {
            assert(rows.drop_last() =~= prev);
            lemma_widest_bound(prev, s.drop_last());
        }
    }
}

/// The stencil image of a `bitmap` code block: one row per line, as wide
/// as the longest line, a black pixel for each character but a space.
pub fn bitmap_image(contents: &str) -> (r: Result<StrikeImage, RenderError>)
    ensures
        ({
            let rows = stencil_rows(contents@);
            let w = widest(rows);
            let fits = w <= u32::MAX && rows.len() <= u32::MAX && w * rows.len() <= usize::MAX;
            &&& fits == r is Ok
            &&& r matches Ok(img) ==> img.wf() && img.width == w && img.height == rows.len()
                && black_pixels(img.pixels@, stencil_counts(rows, w))
            &&& r is Err ==> r == Err::<StrikeImage, RenderError>(RenderError::BadPixelData)
        }),
{
    let n = contents.unicode_len();
    let mut rows: Vec<Vec<char>> = Vec::new();
    let mut cur: Vec<char> = Vec::new();
    let mut i: usize = 0;
    while i < n
        invariant
            n == contents@.len(),
            i <= n,
            rows@.map_values(|r: Vec<char>| r@).push(cur@) == stencil_rows(contents@.take(i as int)),
        decreases n - i,
    {
        let c = contents.get_char(i);
        let ghost prev = rows@.map_values(|r: Vec<char>| r@).push(cur@);
        proof {
            assert(contents@.take(i + 1).drop_last() =~= contents@.take(i as int));
        }
        if c == '\n' {
            let mut done: Vec<char> = Vec::new();
            done.append(&mut cur);
            rows.push(done);
            assert(rows@.map_values(|r: Vec<char>| r@).push(cur@) =~= prev.push(Seq::empty()));
        } else {
            cur.push(c);
            assert(rows@.map_values(|r: Vec<char>| r@).push(cur@) =~= prev.update(
                prev.len() - 1,
                prev.last().push(c),
            ));
        }
        i = i + 1;
    }
    assert(contents@.take(n as int) =~= contents@);
    rows.push(cur);
    let ghost srows = stencil_rows(contents@);
    assert(rows@.map_values(|r: Vec<char>| r@) =~= srows);
    proof {
        lemma_widest_bound(srows, contents@);
    }
    let mut width: usize = 0;
    let mut y: usize = 0;
    while y < rows.len()
        invariant
            rows@.map_values(|r: Vec<char>| r@) == srows,
            y <= rows@.len(),
            width == widest(srows.take(y as int)),
            widest(srows) <= n,
        decreases rows@.len() - y,
    {
        proof {
            assert(srows.take(y + 1).drop_last() =~= srows.take(y as int));
            lemma_widest_prefix(srows, (y + 1) as nat);
        }
        if rows[y].len() > width {
            width = rows[y].len();
        }
        y = y + 1;
    }
    assert(srows.take(rows@.len() as int) =~= srows);
    let height = rows.len();
    if width > u32::MAX as usize || height > u32::MAX as usize {
        return Err(RenderError::BadPixelData);
    }
    assert((width as u64) * (height as u64) <= 0xffff_ffff_ffff_ffff) by (nonlinear_arith)
        requires width <= 0xffff_ffff, height <= 0xffff_ffff;
    if (width as u64) * (height as u64) > usize::MAX as u64 {
        proof {
            assert(width * height == (width as u64) * (height as u64));
        }
        return Err(RenderError::BadPixelData);
    }
    let mut pixels: Vec<Strike> = Vec::new();
    let mut y: usize = 0;
    while y < height
        invariant
            rows@.map_values(|r: Vec<char>| r@) == srows,
            height == rows@.len(),
            y <= height,
            black_pixels(pixels@, stencil_counts(srows.take(y as int), width as nat)),
        decreases height - y,
    {
        let row = &rows[y];
        let ghost before = pixels@;
        let mut x: usize = 0;
        while x < width
            invariant
                rows@.map_values(|r: Vec<char>| r@) == srows,
                row@ == srows[y as int],
                y < height,
                height == rows@.len(),
                x <= width,
                black_pixels(pixels@, stencil_counts(srows.take(y as int), width as nat) + stencil_row(
                    srows[y as int],
                    width as nat,
                ).take(x as int)),
            decreases width - x,
        {
            let on = x < row.len() && !is_whitespace(row[x]);
            pixels.push(if on { Strike([1, 0]) } else { Strike([0, 0]) });
            x = x + 1;
            assert(stencil_counts(srows.take(y as int), width as nat) + stencil_row(srows[y as int], width as nat).take(x as int)
                =~= (stencil_counts(srows.take(y as int), width as nat) + stencil_row(srows[y as int], width as nat).take(x - 1)).push(
                if on { 1u8 } else { 0u8 }));
        }
        proof {
            assert(srows.take(y + 1).drop_last() =~= srows.take(y as int));
            assert(stencil_row(srows[y as int], width as nat).take(width as int) =~= stencil_row(srows[y as int], width as nat));
        }
        y = y + 1;
    }
    assert(srows.take(height as int) =~= srows);
    proof {
        lemma_counts_len(srows, width as nat);
    }
    Ok(StrikeImage { width: width as u32, height: height as u32, pixels })
}

proof fn lemma_widest_prefix(rows: Seq<Seq<char>>, k: nat)
    requires
        0 < k <= rows.len(),
    ensures
        widest(rows.take(k as int)) == if rows[k - 1].len() > widest(rows.take(k - 1)) {
            rows[k - 1].len()
        } else {
            widest(rows.take(k - 1))
        },
        widest(rows.take(k as int)) <= widest(rows),
    decreases rows.len(),
{
    assert(rows.take(k as int).drop_last() =~= rows.take(k - 1));
    if k < rows.len() {
        assert(rows.drop_last().take(k as int) =~= rows.take(k as int));
        assert(rows.drop_last().take(k - 1) =~= rows.take(k - 1));
        lemma_widest_prefix(rows.drop_last(), k);
    } else {
        assert(rows.take(k as int) =~= rows);
    }
}

proof fn lemma_counts_len(rows: Seq<Seq<char>>, width: nat)
    ensures
        stencil_counts(rows, width).len() == width * rows.len(),
    decreases rows.len(),
{
    if rows.len() > 0 {
        lemma_counts_len(rows.drop_last(), width);
        assert(width * rows.len() == width * (rows.len() - 1) + width) by (nonlinear_arith);
    }
}

/// What printing a `bitmap` block leaves: nothing changed on an error, and
/// the stencil image printed whenever it fits the graphics line.
pub open spec fn bitmap_written(st: RenderState, post: RenderState, contents: Seq<char>, r: Result<(), RenderError>) -> bool {
    let rows = stencil_rows(contents);
    let w = widest(rows);
    &&& post.wf()
    &&& r is Err ==> post == st
    &&& !(w <= u32::MAX && rows.len() <= u32::MAX && w * rows.len() <= usize::MAX) ==> r == Err::<(), RenderError>(
        RenderError::BadPixelData,
    )
    &&& (w <= u32::MAX && rows.len() <= u32::MAX && w * rows.len() <= usize::MAX) ==> raster_written(
        st,
        post,
        r,
        w,
        rows.len(),
        stencil_counts(rows, w),
    )
}

/// What printing a raster of `w` by `h` pixels with the given black counts
/// leaves, as `Renderer::write_image` does it: an error for an image wider
/// than the graphics line or without pixels, else the image printed.
pub open spec fn raster_written(st: RenderState, post: RenderState, r: Result<(), RenderError>, w: nat, h: nat, counts: Seq<u8>) -> bool {
    &&& w > LINE_PIXELS_IMAGE ==> r == Err::<(), RenderError>(RenderError::ImageTooWide(w as u32)) && post == st
    &&& w <= LINE_PIXELS_IMAGE && (w == 0 || h == 0) ==> r == Err::<(), RenderError>(RenderError::EmptyImage)
        && post == st
    &&& 0 < w <= LINE_PIXELS_IMAGE && h > 0 ==> r is Ok && exists|img: StrikeImage|
        img.wf() && img.width == w && img.height == h && black_pixels(img.pixels@, counts) && post == image_state(st, img)
}

/// Prints the text of a `bitmap` code block as a stencil image.
pub fn write_bitmap(renderer: &mut Renderer, contents: &str) -> (r: Result<(), RenderError>)
    requires
        old(renderer)@.wf(),
    ensures
        bitmap_written(old(renderer)@, final(renderer)@, contents@, r),
{
    match bitmap_image(contents) {
        Ok(image) => {
            let r = renderer.write_image(&image);
            proof {
                lemma_stencil_rows_nonempty(contents@);
                if r is Ok {
                    assert(image.wf() && image.width == widest(stencil_rows(contents@)) && image.height
                        == stencil_rows(contents@).len() && black_pixels(
                        image.pixels@,
                        stencil_counts(stencil_rows(contents@), widest(stencil_rows(contents@))),
                    ) && renderer@ == image_state(old(renderer)@, image));
                }
            }
            r
        },
        Err(e) => Err(e),
    }
}

/// Text of a QR code at error correction level L, drawn with `module`
/// characters per module side, `dark` and `light` for the two module
/// colours, rows separated by line feeds; `None` where the data does not fit
/// a QR code.
pub uninterp spec fn qr_text(data: Seq<u8>, module: u32, dark: char, light: char) -> Option<Seq<char>>;

/// Relies on the qrcode crate: `QrCode::with_error_correction_level` at
/// level L builds the symbol, or fails when the data does not fit one, and
/// its string renderer draws it with the given module size and characters.
#[verifier::external_body]
fn render_qr(data: &[u8], module: u32, dark: char, light: char) -> (r: Option<String>)
    ensures
        r is None == qr_text(data@, module, dark, light) is None,
        r matches Some(t) ==> qr_text(data@, module, dark, light) == Some(t@),
{
    match qrcode::QrCode::with_error_correction_level(data, qrcode::EcLevel::L) {
        Ok(code) => Some(code.render().module_dimensions(module, module).dark_color(dark).light_color(light).build()),
        Err(_) => None,
    }
}

/// Bar pattern of a Code 128 barcode, one byte per module, non-zero for a
/// bar; `None` where the data cannot be encoded.
pub uninterp spec fn code128_bars(data: Seq<char>) -> Option<Seq<u8>>;

/// Longest data handed to the barcode encoder: its checksum is summed in an
/// `i32`, which longer data could overflow.
pub const CODE128_MAX_CHARS: usize = 512;

/// Relies on barcoders: `Code128::new` parses the data, its first character
/// choosing the character set, or fails, and `encode` gives the modules.
/// Within `CODE128_MAX_CHARS` characters the checksum sum (at most 105 per
/// unit times the unit's position) stays far below `i32::MAX`.
#[verifier::external_body]
fn encode_code128(data: &str) -> (r: Option<Vec<u8>>)
    requires
        data@.len() <= CODE128_MAX_CHARS,
    ensures
        r is None == code128_bars(data@) is None,
        r matches Some(v) ==> code128_bars(data@) == Some(v@),
{
    match barcoders::sym::code128::Code128::new(data) {
        Ok(code) => Some(code.encode()),
        Err(_) => None,
    }
}

pub open spec fn count_newlines(s: Seq<char>) -> nat
    decreases s.len(),
{
    if s.len() == 0 {
        0
    } else {
        count_newlines(s.drop_last()) + if s.last() == '\n' { 1nat } else { 0nat }
    }
}

pub open spec fn strip_newlines(s: Seq<char>) -> Seq<char>
    decreases s.len(),
{
    if s.len() == 0 {
        s
    } else if s.last() == '\n' {
        strip_newlines(s.drop_last())
    } else {
        strip_newlines(s.drop_last()).push(s.last())
    }
}

/// Height of a rendered QR code: one row more than it has line feeds.
pub open spec fn qr_height(t: Seq<char>) -> nat {
    count_newlines(t) + 1
}

pub open spec fn qr_width(t: Seq<char>) -> nat {
    strip_newlines(t).len() / qr_height(t)
}

/// Black counts of a rendered QR code: its characters without the line
/// feeds, row after row, each `#` struck.
pub open spec fn qr_counts(t: Seq<char>) -> Seq<u8> {
    Seq::new(qr_width(t) * qr_height(t), |k: int| if strip_newlines(t)[k] == '#' { 1u8 } else { 0u8 })
}

/// The strike image of a QR code rendered as text.
pub fn qr_image(text: &str) -> (r: Result<StrikeImage, RenderError>)
    ensures
        (qr_width(text@) <= u32::MAX && qr_height(text@) <= u32::MAX) == r is Ok,
        r matches Ok(img) ==> img.wf() && img.width == qr_width(text@) && img.height == qr_height(text@)
            && black_pixels(img.pixels@, qr_counts(text@)),
        r is Err ==> r == Err::<StrikeImage, RenderError>(RenderError::BadPixelData),
{
    let n = text.unicode_len();
    let mut cells: Vec<char> = Vec::new();
    let mut lines: usize = 0;
    let mut i: usize = 0;
    while i < n
        invariant
            n == text@.len(),
            i <= n,
            cells@ == strip_newlines(text@.take(i as int)),
            lines == count_newlines(text@.take(i as int)),
            lines <= i,
        decreases n - i,
    {
        let c = text.get_char(i);
        proof {
            assert(text@.take(i + 1).drop_last() =~= text@.take(i as int));
        }
        if c == '\n' {
            lines = lines + 1;
        } else {
            cells.push(c);
        }
        i = i + 1;
    }
    assert(text@.take(n as int) =~= text@);
    if lines >= u32::MAX as usize {
        return Err(RenderError::BadPixelData);
    }
    let height: usize = lines + 1;
    let width: usize = cells.len() / height;
    if width > u32::MAX as usize {
        return Err(RenderError::BadPixelData);
    }
    let ghost len = cells@.len() as int;
    assert(width * height <= len) by (nonlinear_arith)
        requires width as int == len / (height as int), height > 0, len >= 0;
    let total: usize = width * height;
    let mut pixels: Vec<Strike> = Vec::new();
    let mut k: usize = 0;
    while k < total
        invariant
            total <= cells@.len(),
            k <= total,
            cells@ == strip_newlines(text@),
            total == qr_width(text@) * qr_height(text@),
            black_pixels(pixels@, qr_counts(text@).take(k as int)),
        decreases total - k,
    {
        let on = cells[k] == '#';
        pixels.push(if on { Strike([1, 0]) } else { Strike([0, 0]) });
        k = k + 1;
    }
    assert(qr_counts(text@).take(total as int) =~= qr_counts(text@));
    Ok(StrikeImage { width: width as u32, height: height as u32, pixels })
}

/// Black counts of a barcode drawn `height` rows tall: the bar row repeated.
pub open spec fn barcode_counts(bars: Seq<u8>, height: nat) -> Seq<u8>
    decreases height,
{
    if height == 0 {
        Seq::empty()
    } else {
        barcode_counts(bars, (height - 1) as nat) + bars.map_values(|b: u8| if b > 0 { 1u8 } else { 0u8 })
    }
}

/// Rows of a printed barcode.
pub const BARCODE_HEIGHT: u32 = 24;

/// The strike image of a barcode: one column per module, every row alike.
pub fn barcode_image(bars: &Vec<u8>) -> (r: Result<StrikeImage, RenderError>)
    ensures
        (bars@.len() <= u32::MAX && bars@.len() * 24 <= usize::MAX) == r is Ok,
        r matches Ok(img) ==> img.wf() && img.width == bars@.len() && img.height == BARCODE_HEIGHT
            && black_pixels(img.pixels@, barcode_counts(bars@, 24)),
        r is Err ==> r == Err::<StrikeImage, RenderError>(RenderError::BadPixelData),
{
    let w = bars.len();
    if w > u32::MAX as usize || w as u64 * 24 > usize::MAX as u64 {
        return Err(RenderError::BadPixelData);
    }
    let mut pixels: Vec<Strike> = Vec::new();
    let mut y: u32 = 0;
    while y < BARCODE_HEIGHT
        invariant
            w == bars@.len(),
            w * 24 <= usize::MAX,
            y <= 24,
            black_pixels(pixels@, barcode_counts(bars@, y as nat)),
            pixels@.len() == w * y,
        decreases 24 - y,
    {
        let ghost before = pixels@;
        let mut x: usize = 0;
        while x < w
            invariant
                w == bars@.len(),
                x <= w,
                y < 24,
                black_pixels(pixels@, barcode_counts(bars@, y as nat) + bars@.map_values(
                    |b: u8| if b > 0 { 1u8 } else { 0u8 },
                ).take(x as int)),
            decreases w - x,
        {
            let on = bars[x] > 0;
            pixels.push(if on { Strike([1, 0]) } else { Strike([0, 0]) });
            x = x + 1;
            assert(barcode_counts(bars@, y as nat) + bars@.map_values(|b: u8| if b > 0 { 1u8 } else { 0u8 }).take(x as int)
                =~= (barcode_counts(bars@, y as nat) + bars@.map_values(|b: u8| if b > 0 { 1u8 } else { 0u8 }).take(x - 1)).push(
                if on { 1u8 } else { 0u8 }));
        }
        assert(bars@.map_values(|b: u8| if b > 0 { 1u8 } else { 0u8 }).take(w as int) =~= bars@.map_values(
            |b: u8| if b > 0 { 1u8 } else { 0u8 },
        ));
        assert(w * (y + 1) == w * y + w) by (nonlinear_arith);
        y = y + 1;
    }
    Ok(StrikeImage { width: w as u32, height: BARCODE_HEIGHT, pixels })
}

/// What printing a QR code of `data` leaves: nothing changed on an error,
/// an error when the data does not fit a QR code, and the code printed
/// whenever it fits the graphics line.
pub open spec fn qrcode_written(st: RenderState, post: RenderState, data: Seq<u8>, r: Result<(), RenderError>) -> bool {
    &&& post.wf()
    &&& r is Err ==> post == st
    &&& match qr_text(data, 2, '#', ' ') {
        None => r == Err::<(), RenderError>(RenderError::QrCode),
        Some(t) => {
            &&& !(qr_width(t) <= u32::MAX && qr_height(t) <= u32::MAX) ==> r == Err::<(), RenderError>(
                RenderError::BadPixelData,
            )
            &&& (qr_width(t) <= u32::MAX && qr_height(t) <= u32::MAX) ==> raster_written(
                st,
                post,
                r,
                qr_width(t),
                qr_height(t),
                qr_counts(t),
            )
        },
    }
}

/// Prints a QR code of `data`, two dots per module side.
pub fn write_qrcode(renderer: &mut Renderer, data: &[u8]) -> (r: Result<(), RenderError>)
    requires
        old(renderer)@.wf(),
    ensures
        qrcode_written(old(renderer)@, final(renderer)@, data@, r),
{
    let text = match render_qr(data, 2, '#', ' ') {
        Some(t) => t,
        None => {
            return Err(RenderError::QrCode);
        },
    };
    match qr_image(text.as_str()) {
        Ok(image) => {
            let r = renderer.write_image(&image);
            proof {
                if r is Ok {
                    assert(image.wf() && image.width == qr_width(text@) && image.height == qr_height(text@)
                        && black_pixels(image.pixels@, qr_counts(text@))
                        && renderer@ == image_state(old(renderer)@, image));
                }
            }
            r
        },
        Err(e) => Err(e),
    }
}

/// What printing a Code 128 barcode of `contents` in character set B
/// leaves: nothing changed on an error, an error when the encoder refuses
/// the data, and the barcode printed whenever it fits the graphics line.
pub open spec fn code128_written(st: RenderState, post: RenderState, contents: Seq<char>, r: Result<(), RenderError>) -> bool {
    &&& post.wf()
    &&& r is Err ==> post == st
    &&& contents.len() + 1 > CODE128_MAX_CHARS ==> r == Err::<(), RenderError>(RenderError::BarcodeTooLong)
    &&& contents.len() + 1 <= CODE128_MAX_CHARS ==> match code128_bars(seq!['\u{0181}'] + contents) {
        None => r == Err::<(), RenderError>(RenderError::Barcode),
        Some(bars) => {
            &&& !(bars.len() <= u32::MAX && bars.len() * 24 <= usize::MAX) ==> r == Err::<(), RenderError>(
                RenderError::BadPixelData,
            )
            &&& (bars.len() <= u32::MAX && bars.len() * 24 <= usize::MAX) ==> raster_written(
                st,
                post,
                r,
                bars.len(),
                BARCODE_HEIGHT as nat,
                barcode_counts(bars, 24),
            )
        },
    }
}

/// Prints the text of a `code128` code block as a Code 128 barcode in
/// character set B.
pub fn write_code128(renderer: &mut Renderer, contents: &str) -> (r: Result<(), RenderError>)
    requires
        old(renderer)@.wf(),
    ensures
        code128_written(old(renderer)@, final(renderer)@, contents@, r),
{
    if contents.unicode_len() >= CODE128_MAX_CHARS {
        return Err(RenderError::BarcodeTooLong);
    }
    let data = "\u{0181}".to_owned().concat(contents);
    proof {
        reveal_strlit("\u{0181}");
        assert(data@ =~= seq!['\u{0181}'] + contents@);
    }
    let bars = match encode_code128(data.as_str()) {
        Some(b) => b,
        None => {
            return Err(RenderError::Barcode);
        },
    };
    match barcode_image(&bars) {
        Ok(image) => {
            let r = renderer.write_image(&image);
            proof {
                if r is Ok {
                    assert(image.wf() && image.width == bars@.len() && image.height == BARCODE_HEIGHT
                        && black_pixels(image.pixels@, barcode_counts(bars@, 24))
                        && renderer@ == image_state(old(renderer)@, image));
                }
            }
            r
        },
        Err(e) => Err(e),
    }
}

} // verus!
