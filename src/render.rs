//! Line layout and the multi-pass line encoder.
use encoding::types::Encoding;
use vstd::prelude::*;

use crate::error::RenderError;
use crate::format::{Format, FormatFlags, Justification, INDENT_LIMIT};
use crate::graphics::{band_count, band_line, band_units, graphics_format};
use crate::strike::StrikeImage;

verus! {

/// Pixel budget of one line of text.
pub const LINE_PIXELS_TEXT: usize = 320;

/// Widest image, in pixels, that one graphics line can hold.
pub const LINE_PIXELS_IMAGE: usize = 200;

/// Column byte that draws the strike-out rule through the middle of a cell.
pub const STRIKE_COLUMN: u8 = 0x08;

/// One byte of a line with the format it was written under.
#[derive(Clone, Copy, Debug, PartialEq, Eq, Structural)]
pub struct LineChar {
    pub ch: u8,
    pub format: Format,
}

/// One physical pass over a printed line: the units of one ribbon colour,
/// either as text or as strike-out rules.
#[derive(Clone, Copy, Debug, PartialEq, Eq, Structural)]
pub struct LinePass {
    pub red: bool,
    pub strikethrough: bool,
}

impl LinePass {
    /// Whether a unit in this format takes part in the pass.
    pub open spec fn is_active(self, f: Format) -> bool {
        f.red == self.red && (!self.strikethrough || f.strikethrough)
    }

    /// The format programmed into the printer for a unit in format `f`:
    /// an inactive unit keeps neither its colour nor its underline.
    pub open spec fn masked(self, f: Format, active: bool) -> Format {
        if active {
            f
        } else {
            Format { red: self.red, flags: FormatFlags { bits: f.flags.bits & 0x7f }, ..f }
        }
    }

    /// The bytes sent for one unit.
    pub open spec fn unit_bytes(self, ch: u8, f: Format, active: bool) -> Seq<u8> {
        if !active {
            seq![0x20u8]
        } else if self.strikethrough {
            strike_run(f.overstrike_width())
        } else {
            seq![ch]
        }
    }

    pub fn active(&self, f: &Format) -> (r: bool)
        ensures
            r == self.is_active(*f),
    {
        f.red == self.red && (!self.strikethrough || f.strikethrough)
    }

    pub fn format_map(&self, f: &Format, active: bool) -> (r: Format)
        ensures
            r == self.masked(*f, active),
    {
        if active {
            *f
        } else {
            Format { red: self.red, flags: FormatFlags { bits: f.flags.bits & 0x7f }, ..*f }
        }
    }

    pub fn char_map(&self, ch: u8, f: &Format, active: bool) -> (r: Vec<u8>)
        ensures
            r@ == self.unit_bytes(ch, *f, active),
    {
        if self.strikethrough {
            strikethrough_char_map(ch, f, active)
        } else if active {
            vec![ch]
        } else {
            vec![0x20u8]
        }
    }
}

/// The passes of a line in the order they are printed: black, black
/// strike-out, red, red strike-out.
pub open spec fn pass_table() -> Seq<LinePass> {
    seq![
        LinePass { red: false, strikethrough: false },
        LinePass { red: false, strikethrough: true },
        LinePass { red: true, strikethrough: false },
        LinePass { red: true, strikethrough: true },
    ]
}

pub fn line_passes() -> (r: [LinePass; 4])
    ensures
        r@ == pass_table(),
{
    let r = [
        LinePass { red: false, strikethrough: false },
        LinePass { red: false, strikethrough: true },
        LinePass { red: true, strikethrough: false },
        LinePass { red: true, strikethrough: true },
    ];
    assert(r@ =~= pass_table());
    r
}

/// Header of a bit-image command for `width` columns: mode 0, then the
/// width as two little-endian bytes.
pub open spec fn prologue(width: nat) -> Seq<u8> {
    seq![0x1bu8, 0x2au8, 0u8, (width % 256) as u8, (width / 256) as u8]
}

/// A bit image of `width` columns that each draw the strike-out rule.
pub open spec fn strike_run(width: nat) -> Seq<u8> {
    prologue(width) + Seq::new(width, |i: int| STRIKE_COLUMN)
}

/// The command sequence that programs format `f`: style flags, line
/// spacing, colour, unidirectional mode and justification.
pub open spec fn program_bytes(f: Format) -> Seq<u8> {
    seq![
        0x1bu8, 0x21u8, f.flags.bits,
        0x1bu8, 0x33u8, f.line_spacing,
        0x1bu8, 0x72u8, if f.red { 1u8 } else { 0u8 },
        0x1bu8, 0x55u8, if f.unidirectional { 1u8 } else { 0u8 },
        0x1bu8, 0x61u8, f.justification.code(),
    ]
}

pub open spec fn line_active(p: LinePass, line: Seq<LineChar>) -> bool {
    exists|i: int| 0 <= i < line.len() && p.is_active(#[trigger] line[i].format)
}

/// Bytes of unit `i` in pass `p`: the printer is reprogrammed first when
/// the unit's format differs from that of the unit before it.
pub open spec fn unit_out(p: LinePass, line: Seq<LineChar>, i: int) -> Seq<u8> {
    let f = line[i].format;
    let active = p.is_active(f);
    (if i > 0 && f != line[i - 1].format {
        program_bytes(p.masked(f, active))
    } else {
        Seq::empty()
    }) + p.unit_bytes(line[i].ch, f, active)
}

pub open spec fn units_out(p: LinePass, line: Seq<LineChar>, n: nat) -> Seq<u8>
    decreases n,
{
    if n == 0 {
        Seq::empty()
    } else {
        units_out(p, line, (n - 1) as nat) + unit_out(p, line, n - 1)
    }
}

/// Everything pass `p` sends for a line: nothing when no unit is active in
/// it, else the first unit's format, the units, and a carriage return.
pub open spec fn pass_out(p: LinePass, line: Seq<LineChar>) -> Seq<u8> {
    if line_active(p, line) {
        program_bytes(p.masked(line[0].format, p.is_active(line[0].format)))
            + units_out(p, line, line.len()) + seq![0x0du8]
    } else {
        Seq::empty()
    }
}

pub open spec fn passes_out(line: Seq<LineChar>, k: nat) -> Seq<u8>
    decreases k,
{
    if k == 0 {
        Seq::empty()
    } else {
        passes_out(line, (k - 1) as nat) + pass_out(pass_table()[k - 1], line)
    }
}

/// The bytes that print one line: each pass that has an active unit, then
/// one line feed.
pub open spec fn encode_line(line: Seq<LineChar>) -> Seq<u8> {
    passes_out(line, 4) + seq![0x0au8]
}

/// Bytes of a bit-image header, or an error when the width does not fit the
/// command's 16-bit field.
pub fn bit_image_prologue(width: usize) -> (r: Result<Vec<u8>, RenderError>)
    ensures
        width <= 0xffff ==> r is Ok && r.unwrap()@ == prologue(width as nat),
        width > 0xffff ==> r == Err::<Vec<u8>, RenderError>(RenderError::BitImageTooWide(width)),
{
    if width > 0xffff {
        return Err(RenderError::BitImageTooWide(width));
    }
    let lo = (width % 256) as u8;
    let hi = (width / 256) as u8;
    let r = vec![0x1bu8, 0x2au8, 0u8, lo, hi];
    assert(r@ =~= prologue(width as nat));
    Ok(r)
}

/// Bytes sent for a unit in a strike-out pass: a run of rule columns as
/// wide as the character when the unit is active, else a blank.
pub fn strikethrough_char_map(ch: u8, format: &Format, active: bool) -> (r: Vec<u8>)
    ensures
        r@ == (if active { strike_run(format.overstrike_width()) } else { seq![0x20u8] }),
{
    if active {
        let char_width = format.char_overstrike_width();
        let mut ret = match bit_image_prologue(char_width) {
            Ok(v) => v,
            Err(_) => Vec::new(),
        };
        let ghost head = ret@;
        let mut i: usize = 0;
        while i < char_width
            invariant
                i <= char_width,
                head == prologue(char_width as nat),
                ret@ == head + Seq::new(i as nat, |j: int| STRIKE_COLUMN),
            decreases char_width - i,
        {
            ret.push(STRIKE_COLUMN);
            i = i + 1;
            assert(ret@ =~= head + Seq::new(i as nat, |j: int| STRIKE_COLUMN));
        }
        ret
    } else {
        let r = vec![0x20u8];
        assert(r@ =~= seq![0x20u8]);
        r
    }
}

/// Appends the command sequence that programs `format`.
pub fn set_printer_format(out: &mut Vec<u8>, format: &Format)
    ensures
        final(out)@ == old(out)@ + program_bytes(*format),
{
    let mut cmd = vec![
        0x1bu8, 0x21u8, format.flags.bits,
        0x1bu8, 0x33u8, format.line_spacing,
        0x1bu8, 0x72u8, if format.red { 1u8 } else { 0u8 },
        0x1bu8, 0x55u8, if format.unidirectional { 1u8 } else { 0u8 },
        0x1bu8, 0x61u8, format.justification.to_byte(),
    ];
    assert(cmd@ =~= program_bytes(*format));
    out.append(&mut cmd);
}

pub fn active_for_line(pass: &LinePass, line: &Vec<LineChar>) -> (r: bool)
    ensures
        r == line_active(*pass, line@),
{
    let mut i: usize = 0;
    while i < line.len()
        invariant
            i <= line@.len(),
            forall|j: int| 0 <= j < i ==> !pass.is_active(#[trigger] line@[j].format),
        decreases line@.len() - i,
    {
        if pass.active(&line[i].format) {
            return true;
        }
        i = i + 1;
    }
    false
}

/// Appends what one pass sends for `line`.
#[verifier::rlimit(40)]
pub fn encode_pass(pass: &LinePass, line: &Vec<LineChar>, out: &mut Vec<u8>)
    ensures
        final(out)@ == old(out)@ + pass_out(*pass, line@),
{
    if !active_for_line(pass, line) {
        assert(old(out)@ + pass_out(*pass, line@) =~= old(out)@);
        return;
    }
    let ghost start = out@;
    let mut format = line[0].format;
    let mut active = pass.active(&format);
    set_printer_format(out, &pass.format_map(&format, active));
    let ghost head = out@;
    let mut i: usize = 0;
    while i < line.len()
        invariant
            0 < line@.len(),
            i <= line@.len(),
            head == start + program_bytes(pass.masked(line@[0].format, pass.is_active(line@[0].format))),
            out@ == head + units_out(*pass, line@, i as nat),
            i == 0 ==> format == line@[0].format,
            i > 0 ==> format == line@[i - 1].format,
            active == pass.is_active(format),
        decreases line@.len() - i,
    {
        let lc = line[i];
        let ghost before = out@;
        if format != lc.format {
            format = lc.format;
            active = pass.active(&format);
            set_printer_format(out, &pass.format_map(&format, active));
        }
        let mut bytes = pass.char_map(lc.ch, &format, active);
        out.append(&mut bytes);
        assert(out@ =~= before + unit_out(*pass, line@, i as int));
        i = i + 1;
        assert(out@ =~= head + units_out(*pass, line@, i as nat));
    }
    out.push(0x0du8);
    assert(out@ =~= start + pass_out(*pass, line@));
}

/// Appends the bytes that print `line`.
pub fn encode_line_into(line: &Vec<LineChar>, out: &mut Vec<u8>)
    ensures
        final(out)@ == old(out)@ + encode_line(line@),
{
    let passes = line_passes();
    let ghost start = out@;
    let mut k: usize = 0;
    while k < 4
        invariant
            k <= 4,
            passes@ == pass_table(),
            out@ == start + passes_out(line@, k as nat),
        decreases 4 - k,
    {
        encode_pass(&passes[k], line, out);
        k = k + 1;
        assert(out@ =~= start + passes_out(line@, k as nat));
    }
    out.push(0x0au8);
    assert(out@ =~= start + encode_line(line@));
}

/// Abstract state of a renderer.
#[verifier::ext_equal]
pub struct RenderState {
    /// Bytes spooled for the printer and not yet handed out.
    pub out: Seq<u8>,
    /// Format of text written now.
    pub format: Format,
    /// Formats to return to, the most recent last.
    pub stack: Seq<Format>,
    /// Units of the line being laid out.
    pub line: Seq<LineChar>,
    /// Pixel width of `line`.
    pub line_width: nat,
    /// Units of the word not yet committed to the line.
    pub word: Seq<LineChar>,
    /// Whether `word` holds a byte other than a space.
    pub word_has_letters: bool,
}

pub open spec fn width_of(units: Seq<LineChar>) -> nat
    decreases units.len(),
{
    if units.len() == 0 {
        0
    } else {
        width_of(units.drop_last()) + units.last().format.bounding_width()
    }
}

/// Largest width a pending line reaches: a full text line, or one unit
/// after the widest indent.
pub open spec fn width_bound() -> nat {
    (INDENT_LIMIT as nat + 1) * 20 + LINE_PIXELS_TEXT as nat
}

impl RenderState {
    pub open spec fn wf(self) -> bool {
        &&& self.format.wf()
        &&& forall|i: int| 0 <= i < self.stack.len() ==> (#[trigger] self.stack[i]).wf()
        &&& forall|i: int| 0 <= i < self.word.len() ==> (#[trigger] self.word[i]).format.wf()
        &&& self.line_width == width_of(self.line)
        &&& self.line_width <= width_bound()
    }
}

/// Prints the pending line and starts an empty one.
pub open spec fn spool(st: RenderState) -> RenderState {
    RenderState { out: st.out + encode_line(st.line), line: Seq::empty(), line_width: 0, ..st }
}

pub open spec fn indent_units(f: Format) -> Seq<LineChar> {
    Seq::new(f.indent as nat, |i: int| LineChar { ch: 0x20u8, format: f })
}

/// Appends one unit to the line, breaking the line first when the unit
/// would overflow it, and indenting a line that the unit starts.
pub open spec fn push_unit(st: RenderState, lc: LineChar) -> RenderState {
    let cw = lc.format.bounding_width();
    let st1 = if st.line_width + cw > LINE_PIXELS_TEXT { spool(st) } else { st };
    let st2 = if st1.line_width == 0 {
        RenderState {
            line: st1.line + indent_units(lc.format),
            line_width: (lc.format.indent * cw) as nat,
            ..st1
        }
    } else {
        st1
    };
    RenderState { line: st2.line.push(lc), line_width: st2.line_width + cw, ..st2 }
}

pub open spec fn push_units(st: RenderState, units: Seq<LineChar>) -> RenderState
    decreases units.len(),
{
    if units.len() == 0 {
        st
    } else {
        push_unit(push_units(st, units.drop_last()), units.last())
    }
}

/// The units that are not spaces.
pub open spec fn drop_spaces(units: Seq<LineChar>) -> Seq<LineChar>
    decreases units.len(),
{
    if units.len() == 0 {
        units
    } else if units.last().ch == 0x20 {
        drop_spaces(units.drop_last())
    } else {
        drop_spaces(units.drop_last()).push(units.last())
    }
}

/// Moves the pending word onto the line. A word that fits a line but not
/// the rest of this one goes to a new line, without its spaces.
pub open spec fn commit_word(st: RenderState) -> RenderState {
    let width = width_of(st.word);
    let soft = width <= LINE_PIXELS_TEXT && st.line_width + width > LINE_PIXELS_TEXT;
    let st1 = if soft { spool(st) } else { st };
    let units = if soft { drop_spaces(st.word) } else { st.word };
    RenderState { word: Seq::empty(), word_has_letters: false, ..push_units(st1, units) }
}

/// The byte stored for an input byte: controls other than tab, and bytes
/// past `~`, print as `?`.
pub open spec fn printable(b: u8) -> u8 {
    if (b < 0x20 || b > 0x7e) && b != 0x09 { 0x3f } else { b }
}

/// Takes one byte of text.
pub open spec fn step(st: RenderState, b: u8) -> RenderState {
    let st1 = if st.word_has_letters && (b == 0x0a || b == 0x20) { commit_word(st) } else { st };
    if b == 0x0a {
        spool(st1)
    } else {
        let c = printable(b);
        RenderState {
            word: st1.word.push(LineChar { ch: c, format: st1.format }),
            word_has_letters: st1.word_has_letters || c != 0x20,
            ..st1
        }
    }
}

pub open spec fn steps(st: RenderState, bytes: Seq<u8>) -> RenderState
    decreases bytes.len(),
{
    if bytes.len() == 0 {
        st
    } else {
        step(steps(st, bytes.drop_last()), bytes.last())
    }
}

/// The byte for each character of `s`: the character itself where it is
/// ASCII, else `?`.
pub open spec fn ascii_of(s: Seq<char>) -> Seq<u8> {
    Seq::new(s.len(), |i: int| if (s[i] as u32) < 0x80 { s[i] as u8 } else { 0x3fu8 })
}

pub open spec fn initial_state() -> RenderState {
    RenderState {
        out: seq![0x1bu8, 0x40u8],
        format: Format::initial(),
        stack: Seq::empty(),
        line: Seq::empty(),
        line_width: 0,
        word: Seq::empty(),
        word_has_letters: false,
    }
}

/// Encodes text as ASCII.
///
/// Relies on the `encoding` crate's ASCII encoding with the `Replace` trap:
/// each character below U+0080 becomes its own byte, and each other
/// character becomes one `?`. With that trap the encoding never fails.
#[verifier::external_body]
fn encode_ascii(contents: &str) -> (r: Vec<u8>)
    ensures
        r@ == ascii_of(contents@),
{
    match encoding::all::ASCII.encode(contents, encoding::types::EncoderTrap::Replace) {
        Ok(bytes) => bytes,
        Err(_) => Vec::new(),
    }
}

/// Lays text out into lines and spools the printer commands for them.
pub struct Renderer {
    buf: Vec<u8>,
    format: Format,
    stack: Vec<Format>,
    line: Vec<LineChar>,
    line_width: usize,
    word: Vec<LineChar>,
    word_has_letters: bool,
}

impl View for Renderer {
    type V = RenderState;

    closed spec fn view(&self) -> RenderState {
        RenderState {
            out: self.buf@,
            format: self.format,
            stack: self.stack@,
            line: self.line@,
            line_width: self.line_width as nat,
            word: self.word@,
            word_has_letters: self.word_has_letters,
        }
    }
}

impl Renderer {
    /// A renderer whose output starts with the printer reset command.
    pub fn new() -> (r: Renderer)
        ensures
            r@ == initial_state(),
            r@.wf(),
    {
        let r = Renderer {
            buf: vec![0x1bu8, 0x40u8],
            format: Format::new(),
            stack: Vec::new(),
            line: Vec::new(),
            line_width: 0,
            word: Vec::new(),
            word_has_letters: false,
        };
        assert(r@.out =~= seq![0x1bu8, 0x40u8]);
        assert(r@ =~= initial_state());
        r
    }

    pub fn format(&self) -> (r: Format)
        ensures
            r == self@.format,
    {
        self.format
    }

    /// Number of formats that `restore_format` can return to.
    pub fn saved_formats(&self) -> (r: usize)
        ensures
            r == self@.stack.len(),
    {
        self.stack.len()
    }

    /// Makes `format` current, keeping the current one to return to.
    pub fn set_format(&mut self, format: Format)
        requires
            old(self)@.wf(),
            format.wf(),
        ensures
            final(self)@ == pushed(old(self)@, format),
            final(self)@.wf(),
    {
        self.stack.push(self.format);
        self.format = format;
        assert(self@ =~= pushed(old(self)@, format));
    }

    /// Returns to the format that was current before the last `set_format`.
    pub fn restore_format(&mut self)
        requires
            old(self)@.wf(),
            old(self)@.stack.len() > 0,
        ensures
            final(self)@ == popped(old(self)@),
            final(self)@.wf(),
    {
        let f = self.stack.pop();
        match f {
            Some(f) => {
                self.format = f;
            },
            None => {},
        }
        assert(self@ =~= popped(old(self)@));
    }

    /// Prints the pending line, in as many passes as its colours and
    /// strike-outs need, and starts an empty one.
    pub fn spool_line(&mut self)
        ensures
            final(self)@ == spool(old(self)@),
    {
        encode_line_into(&self.line, &mut self.buf);
        self.line.clear();
        self.line_width = 0;
        assert(self@ =~= spool(old(self)@));
    }

    /// Writes text in the current format. Complete words go onto the line,
    /// which is printed at each line break and whenever a word overflows it.
    pub fn write(&mut self, contents: &str)
        requires
            old(self)@.wf(),
        ensures
            final(self)@ == steps(old(self)@, ascii_of(contents@)),
            final(self)@.wf(),
            final(self)@.format == old(self)@.format,
            final(self)@.stack == old(self)@.stack,
    {
        proof {
            lemma_steps_keep_formats(self@, ascii_of(contents@));
        }
        let bytes = encode_ascii(contents);
        let ghost start = self@;
        let mut i: usize = 0;
        while i < bytes.len()
            invariant
                i <= bytes@.len(),
                self@.wf(),
                self@ == steps(start, bytes@.take(i as int)),
            decreases bytes@.len() - i,
        {
            let b = bytes[i];
            proof {
                assert(bytes@.take(i + 1).drop_last() =~= bytes@.take(i as int));
            }
            if self.word_has_letters && (b == 0x0a || b == 0x20) {
                self.write_word();
            }
            if b == 0x0a {
                self.spool_line();
            } else {
                let c = if (b < 0x20 || b > 0x7e) && b != 0x09 { 0x3fu8 } else { b };
                self.word.push(LineChar { ch: c, format: self.format });
                if c != 0x20 {
                    self.word_has_letters = true;
                }
            }
            i = i + 1;
        }
        assert(bytes@.take(bytes@.len() as int) =~= bytes@);
    }

    /// Commits the pending word to the line.
    pub fn write_word(&mut self)
        requires
            old(self)@.wf(),
        ensures
            final(self)@ == commit_word(old(self)@),
            final(self)@.wf(),
    {
        let ghost word = self.word@;
        let mut width: usize = 0;
        let mut i: usize = 0;
        while i < self.word.len()
            invariant
                i <= word.len(),
                self.word@ == word,
                width_of(word.take(i as int)) <= LINE_PIXELS_TEXT ==> width == width_of(word.take(i as int)),
                width_of(word.take(i as int)) > LINE_PIXELS_TEXT ==> width > LINE_PIXELS_TEXT,
                width <= LINE_PIXELS_TEXT + 20,
            decreases word.len() - i,
        {
            proof {
                assert(word.take(i + 1).drop_last() =~= word.take(i as int));
            }
            if width <= LINE_PIXELS_TEXT {
                width = width + self.word[i].format.char_bounding_width();
            }
            i = i + 1;
        }
        assert(word.take(word.len() as int) =~= word);
        let soft = width <= LINE_PIXELS_TEXT && self.line_width + width > LINE_PIXELS_TEXT;
        if soft {
            self.spool_line();
        }
        let ghost st1 = self@;
        let ghost units = if soft { drop_spaces(word) } else { word };
        let mut j: usize = 0;
        while j < self.word.len()
            invariant
                j <= word.len(),
                self.word@ == word,
                self@.wf(),
                forall|k: int| 0 <= k < word.len() ==> (#[trigger] word[k]).format.wf(),
                self@ == push_units(st1, if soft { drop_spaces(word.take(j as int)) } else { word.take(j as int) }),
            decreases word.len() - j,
        {
            let lc = self.word[j];
            proof {
                assert(word.take(j + 1).drop_last() =~= word.take(j as int));
            }
            let ghost pre = if soft { drop_spaces(word.take(j as int)) } else { word.take(j as int) };
            proof {
                assert(word.take(j + 1).last() == lc);
                assert(pre.push(lc).drop_last() =~= pre);
            }
            if !(soft && lc.ch == 0x20) {
                self.push_unit(lc);
                assert(self@ == push_units(st1, pre.push(lc)));
            }
            j = j + 1;
        }
        assert(word.take(word.len() as int) =~= word);
        self.word.clear();
        self.word_has_letters = false;
        assert(self@ =~= commit_word(old(self)@));
    }

    /// Appends one unit to the line.
    fn push_unit(&mut self, lc: LineChar)
        requires
            old(self)@.wf(),
            lc.format.wf(),
        ensures
            final(self)@ == push_unit(old(self)@, lc),
            final(self)@.wf(),
    {
        let cw = lc.format.char_bounding_width();
        if self.line_width + cw > LINE_PIXELS_TEXT {
            self.spool_line();
        }
        let ghost st1 = self@;
        if self.line_width == 0 {
            proof {
                lemma_width_zero_iff_empty(self.line@);
            }
            let n = lc.format.indent;
            let mut k: usize = 0;
            while k < n
                invariant
                    k <= n,
                    n == lc.format.indent,
                    n <= INDENT_LIMIT,
                    8 <= cw <= 20,
                    cw == lc.format.bounding_width(),
                    self.line@ == Seq::new(k as nat, |i: int| LineChar { ch: 0x20u8, format: lc.format }),
                    width_of(self.line@) == k * cw,
                    self.buf@ == st1.out,
                    self.word@ == st1.word,
                    self.format == st1.format,
                    self.stack@ == st1.stack,
                    self.word_has_letters == st1.word_has_letters,
                decreases n - k,
            {
                let ghost prev = self.line@;
                self.line.push(LineChar { ch: 0x20u8, format: lc.format });
                proof {
                    assert(self.line@.drop_last() =~= prev);
                    assert((k + 1) * cw == k * cw + cw) by (nonlinear_arith);
                }
                k = k + 1;
                assert(self.line@ =~= Seq::new(k as nat, |i: int| LineChar { ch: 0x20u8, format: lc.format }));
            }
            assert(n * cw <= INDENT_LIMIT * 20) by (nonlinear_arith)
                requires n <= INDENT_LIMIT, cw <= 20;
            self.line_width = n * cw;
            assert(self.line@ =~= st1.line + indent_units(lc.format));
        }
        let ghost prev = self.line@;
        self.line.push(lc);
        self.line_width = self.line_width + cw;
        proof {
            assert(self.line@.drop_last() =~= prev);
        }
        assert(self@ =~= push_unit(old(self)@, lc));
    }

    /// Prints an image as bit-image bands of 8 rows, each on a line of its
    /// own, under the graphics format; the pending line is printed first.
    pub fn write_image(&mut self, image: &StrikeImage) -> (r: Result<(), RenderError>)
        requires
            old(self)@.wf(),
            image.wf(),
        ensures
            final(self)@.wf(),
            image.width > LINE_PIXELS_IMAGE ==> r == Err::<(), RenderError>(
                RenderError::ImageTooWide(image.width),
            ) && final(self)@ == old(self)@,
            image.width <= LINE_PIXELS_IMAGE && (image.width == 0 || image.height == 0) ==> r
                == Err::<(), RenderError>(RenderError::EmptyImage) && final(self)@ == old(self)@,
            0 < image.width <= LINE_PIXELS_IMAGE && image.height > 0 ==> r is Ok && final(self)@
                == image_state(old(self)@, *image),
    {
        if image.width as usize > LINE_PIXELS_IMAGE {
            return Err(RenderError::ImageTooWide(image.width));
        }
        if image.width == 0 || image.height == 0 {
            return Err(RenderError::EmptyImage);
        }
        proof {
            lemma_width_zero_iff_empty(self.line@);
        }
        if self.line_width > 0 {
            self.spool_line();
        }
        let ghost st1 = self@;
        assert(st1.line =~= Seq::<LineChar>::empty());
        assert(st1 == (if old(self)@.line.len() > 0 { spool(old(self)@) } else { old(self)@ }));
        let g = self.format.with_unidirectional(true).with_line_spacing(16).with_justification(
            Justification::Center,
        );
        assert(g == graphics_format(st1.format));
        self.set_format(g);
        let nb: u32 = ((image.height as u64 + 7) / 8) as u32;
        let mut band: u32 = 0;
        while band < nb
            invariant
                image.wf(),
                0 < image.width <= LINE_PIXELS_IMAGE,
                nb == band_count(*image),
                band <= nb,
                g == graphics_format(st1.format),
                st1.line == Seq::<LineChar>::empty(),
                st1.line_width == 0,
                st1 == (if old(self)@.line.len() > 0 { spool(old(self)@) } else { old(self)@ }),
                self@.wf(),
                self@ == (RenderState {
                    out: st1.out + bands_out(*image, g, band as nat),
                    format: g,
                    stack: st1.stack.push(st1.format),
                    ..st1
                }),
            decreases nb - band,
        {
            let units = band_units(image, g, band);
            let ghost before = self@;
            assert(units@ == band_line(*image, g, band as int));
            self.line = units;
            self.spool_line();
            assert(self.line@ =~= st1.line);
            assert(self@.stack == before.stack);
            assert(self@.word == before.word);
            assert(self@.format == before.format);
            assert(self@.line_width == width_of(self@.line));
            assert(self.buf@ == before.out + encode_line(band_line(*image, g, band as int)));
            assert(bands_out(*image, g, band as nat + 1) == bands_out(*image, g, band as nat)
                + encode_line(band_line(*image, g, band as int)));
            band = band + 1;
            assert(self@ =~= (RenderState {
                out: st1.out + bands_out(*image, g, band as nat),
                format: g,
                stack: st1.stack.push(st1.format),
                ..st1
            }));
        }
        self.restore_format();
        assert(self@ =~= image_state(old(self)@, *image));
        Ok(())
    }

    /// Prints the pending line, if any, then feeds the paper and makes a
    /// partial cut.
    pub fn cut(&mut self)
        requires
            old(self)@.wf(),
        ensures
            final(self)@ == cut_state(old(self)@),
            final(self)@.wf(),
    {
        if self.line_width > 0 {
            self.spool_line();
        }
        proof {
            lemma_width_zero_iff_empty(old(self)@.line);
        }
        let mut cmd = vec![0x1du8, 0x56u8, 0x42u8, 0x50u8];
        self.buf.append(&mut cmd);
        assert(self@ =~= cut_state(old(self)@));
    }

    /// Hands out the spooled bytes and forgets them.
    pub fn print(&mut self) -> (r: Vec<u8>)
        ensures
            r@ == old(self)@.out,
            final(self)@ == (RenderState { out: Seq::empty(), ..old(self)@ }),
    {
        let mut r = Vec::new();
        r.append(&mut self.buf);
        assert(self@ =~= (RenderState { out: Seq::empty(), ..old(self)@ }));
        r
    }
}

/// The bytes that print the first `n` bands of an image.
pub open spec fn bands_out(img: StrikeImage, g: Format, n: nat) -> Seq<u8>
    decreases n,
{
    if n == 0 {
        Seq::empty()
    } else {
        bands_out(img, g, (n - 1) as nat) + encode_line(band_line(img, g, n - 1))
    }
}

/// What `write_image` leaves: the pending line printed, then one printed
/// line per band of the image.
pub open spec fn image_state(st: RenderState, img: StrikeImage) -> RenderState {
    let st1 = if st.line.len() > 0 { spool(st) } else { st };
    RenderState {
        out: st1.out + bands_out(img, graphics_format(st.format), band_count(img)),
        ..st1
    }
}

pub open spec fn pushed(st: RenderState, f: Format) -> RenderState {
    RenderState { format: f, stack: st.stack.push(st.format), ..st }
}

pub open spec fn popped(st: RenderState) -> RenderState {
    RenderState { format: st.stack.last(), stack: st.stack.drop_last(), ..st }
}

/// What `cut` leaves: the pending line printed, then the cut command.
pub open spec fn cut_state(st: RenderState) -> RenderState {
    let st1 = if st.line.len() > 0 { spool(st) } else { st };
    RenderState { out: st1.out + seq![0x1du8, 0x56u8, 0x42u8, 0x50u8], ..st1 }
}

pub proof fn lemma_width_zero_iff_empty(units: Seq<LineChar>)
    ensures
        (width_of(units) == 0) == (units.len() == 0),
    decreases units.len(),
{
    if units.len() > 0 {
        lemma_width_zero_iff_empty(units.drop_last());
    }
}

/// Setting a format and then restoring it leaves the renderer as it was.
pub proof fn lemma_set_then_restore(st: RenderState, f: Format)
    ensures
        popped(pushed(st, f)) == st,
{
    assert(pushed(st, f).stack.drop_last() =~= st.stack);
}

/// Writing text changes neither the current format nor the saved ones.
pub proof fn lemma_steps_keep_formats(st: RenderState, bytes: Seq<u8>)
    ensures
        steps(st, bytes).format == st.format,
        steps(st, bytes).stack == st.stack,
    decreases bytes.len(),
{
    if bytes.len() > 0 {
        lemma_steps_keep_formats(st, bytes.drop_last());
        let s0 = steps(st, bytes.drop_last());
        if s0.word_has_letters && (bytes.last() == 0x0a || bytes.last() == 0x20) {
            let width = width_of(s0.word);
            let soft = width <= LINE_PIXELS_TEXT && s0.line_width + width > LINE_PIXELS_TEXT;
            let s1 = if soft { spool(s0) } else { s0 };
            lemma_push_units_keep(s1, if soft { drop_spaces(s0.word) } else { s0.word });
        }
    }
}

proof fn lemma_push_units_keep(st: RenderState, units: Seq<LineChar>)
    ensures
        push_units(st, units).format == st.format,
        push_units(st, units).stack == st.stack,
    decreases units.len(),
{
    if units.len() > 0 {
        lemma_push_units_keep(st, units.drop_last());
    }
}

/// A format in which an indented line start still fits the text budget.
pub open spec fn indent_fits(f: Format) -> bool {
    (f.indent + 1) * f.bounding_width() <= LINE_PIXELS_TEXT
}

pub open spec fn all_fit(units: Seq<LineChar>) -> bool
    decreases units.len(),
{
    units.len() == 0 || (all_fit(units.drop_last()) && indent_fits(units.last().format))
}

proof fn lemma_drop_spaces_fit(units: Seq<LineChar>)
    requires
        all_fit(units),
    ensures
        all_fit(drop_spaces(units)),
    decreases units.len(),
{
    if units.len() > 0 {
        lemma_drop_spaces_fit(units.drop_last());
        let d = drop_spaces(units.drop_last());
        assert(d.push(units.last()).drop_last() =~= d);
    }
}

proof fn lemma_push_units_budget(st: RenderState, units: Seq<LineChar>)
    requires
        st.line_width <= LINE_PIXELS_TEXT,
        all_fit(units),
    ensures
        push_units(st, units).line_width <= LINE_PIXELS_TEXT,
        push_units(st, units).format == st.format,
        push_units(st, units).word == st.word,
    decreases units.len(),
{
    if units.len() > 0 {
        lemma_push_units_budget(st, units.drop_last());
        let f = units.last().format;
        assert(f.indent * f.bounding_width() + f.bounding_width() == (f.indent + 1) * f.bounding_width())
            by (nonlinear_arith);
    }
}

proof fn lemma_steps_budget(st: RenderState, bytes: Seq<u8>)
    requires
        st.line_width <= LINE_PIXELS_TEXT,
        all_fit(st.word),
        indent_fits(st.format),
    ensures
        steps(st, bytes).line_width <= LINE_PIXELS_TEXT,
        all_fit(steps(st, bytes).word),
        steps(st, bytes).format == st.format,
    decreases bytes.len(),
{
    if bytes.len() > 0 {
        lemma_steps_budget(st, bytes.drop_last());
        let s0 = steps(st, bytes.drop_last());
        let b = bytes.last();
        if s0.word_has_letters && (b == 0x0a || b == 0x20) {
            lemma_drop_spaces_fit(s0.word);
            let width = width_of(s0.word);
            let soft = width <= LINE_PIXELS_TEXT && s0.line_width + width > LINE_PIXELS_TEXT;
            let s1 = if soft { spool(s0) } else { s0 };
            lemma_push_units_budget(s1, if soft { drop_spaces(s0.word) } else { s0.word });
        }
        let s1 = if s0.word_has_letters && (b == 0x0a || b == 0x20) { commit_word(s0) } else { s0 };
        assert(s1.format == st.format);
        assert(all_fit(Seq::<LineChar>::empty()));
        assert(all_fit(s1.word));
        if b != 0x0a {
            let w = s1.word.push(LineChar { ch: printable(b), format: s1.format });
            assert(w.drop_last() =~= s1.word);
            assert(all_fit(w));
            assert(steps(st, bytes).word == w);
        } else {
            assert(steps(st, bytes).word == s1.word);
        }
    }
}

/// Writing text in a format whose indented line start fits the text budget
/// leaves the pending line, from which lines are printed, no wider than the
/// budget: a word that does not fit goes to a new line, and a word wider
/// than a whole line is broken where the line is full.
pub proof fn lemma_line_within_budget(st: RenderState, contents: Seq<char>)
    requires
        st.wf(),
        st.line_width <= LINE_PIXELS_TEXT,
        all_fit(st.word),
        indent_fits(st.format),
    ensures
        steps(st, ascii_of(contents)).line_width <= LINE_PIXELS_TEXT,
{
    lemma_steps_budget(st, ascii_of(contents));
}

/// A pass sends bytes for a line exactly when some unit of the line is
/// active in it: a line of plain black text is printed in the black pass
/// alone, and in general only the passes that the line's colours and
/// strike-outs need are printed.
pub proof fn lemma_passes_needed(line: Seq<LineChar>, k: int)
    requires
        0 <= k < 4,
    ensures
        (pass_out(pass_table()[k], line).len() > 0) == (exists|i: int|
            0 <= i < line.len() && line[i].format.red == pass_table()[k].red && (!pass_table()[k].strikethrough
                || line[i].format.strikethrough)),
{
    let p = pass_table()[k];
    if line_active(p, line) {
        let i = choose|i: int| 0 <= i < line.len() && p.is_active(#[trigger] line[i].format);
        assert(line[i].format.red == p.red);
    }
}

/// A non-empty line of black text without strike-outs is printed in one
/// pass: the black pass, then the line feed.
pub proof fn lemma_plain_line_one_pass(line: Seq<LineChar>)
    requires
        line.len() > 0,
        forall|i: int| 0 <= i < line.len() ==> !(#[trigger] line[i].format).red && !line[i].format.strikethrough,
    ensures
        encode_line(line) == pass_out(pass_table()[0], line) + seq![0x0au8],
        pass_out(pass_table()[0], line).len() > 0,
{
    let p0 = pass_table()[0];
    assert(p0.is_active(line[0].format));
    assert(line_active(p0, line));
    let p1 = pass_table()[1];
    let p2 = pass_table()[2];
    let p3 = pass_table()[3];
    assert(!line_active(p1, line));
    assert(!line_active(p2, line));
    assert(!line_active(p3, line));
    reveal_with_fuel(passes_out, 5);
    assert(passes_out(line, 4) =~= pass_out(p0, line));
}

/// Settings that one format command programs: style flags, line spacing,
/// colour, unidirectional mode and justification.
pub open spec fn settings_of(f: Format) -> (u8, u8, bool, bool, Justification) {
    (f.flags.bits, f.line_spacing, f.red, f.unidirectional, f.justification)
}

pub open spec fn justification_of(b: u8) -> Option<Justification> {
    if b == 0 {
        Some(Justification::Left)
    } else if b == 1 {
        Some(Justification::Center)
    } else if b == 2 {
        Some(Justification::Right)
    } else {
        None
    }
}

/// Reads one format command from the start of `bytes`.
pub open spec fn parse_program(bytes: Seq<u8>) -> Option<(u8, u8, bool, bool, Justification)> {
    if bytes.len() >= 15 && bytes[0] == 0x1b && bytes[1] == 0x21 && bytes[3] == 0x1b && bytes[4] == 0x33
        && bytes[6] == 0x1b && bytes[7] == 0x72 && bytes[8] <= 1 && bytes[9] == 0x1b && bytes[10] == 0x55
        && bytes[11] <= 1 && bytes[12] == 0x1b && bytes[13] == 0x61 && justification_of(bytes[14]) is Some {
        Some((bytes[2], bytes[5], bytes[8] == 1, bytes[11] == 1, justification_of(bytes[14]).unwrap()))
    } else {
        None
    }
}

/// Reads consecutive format commands until the bytes run out, or `None`
/// where something else stands.
pub open spec fn parse_programs(bytes: Seq<u8>) -> Option<Seq<(u8, u8, bool, bool, Justification)>>
    decreases bytes.len(),
{
    if bytes.len() == 0 {
        Some(Seq::empty())
    } else {
        match parse_program(bytes) {
            None => None,
            Some(s) => match parse_programs(bytes.skip(15)) {
                None => None,
                Some(rest) => Some(seq![s] + rest),
            },
        }
    }
}

/// The commands that program each format of `fs` in turn.
pub open spec fn programs(fs: Seq<Format>) -> Seq<u8>
    decreases fs.len(),
{
    if fs.len() == 0 {
        Seq::empty()
    } else {
        program_bytes(fs[0]) + programs(fs.drop_first())
    }
}

/// Reading back the format commands sent for a sequence of formats gives
/// the settings of each, in the order they were sent.
pub proof fn lemma_programs_round_trip(fs: Seq<Format>)
    ensures
        parse_programs(programs(fs)) == Some(fs.map_values(|f: Format| settings_of(f))),
    decreases fs.len(),
{
    if fs.len() == 0 {
        assert(fs.map_values(|f: Format| settings_of(f)) =~= Seq::empty());
    } else {
        let f = fs[0];
        let b = programs(fs);
        lemma_programs_round_trip(fs.drop_first());
        assert(b.skip(15) =~= programs(fs.drop_first()));
        assert(parse_program(b) == Some(settings_of(f))) by {
            assert(b[8] == if f.red { 1u8 } else { 0u8 });
            assert(b[11] == if f.unidirectional { 1u8 } else { 0u8 });
            assert(b[14] == f.justification.code());
        }
        assert(fs.map_values(|f: Format| settings_of(f)) =~= seq![settings_of(f)] + fs.drop_first().map_values(
            |f: Format| settings_of(f),
        ));
    }
}

/// A call on a renderer as it touches the current format and the saved
/// ones: `set_format`, `restore_format`, or any other call, which keeps both.
pub enum FormatOp {
    SetFormat(Format),
    RestoreFormat,
    Other,
}

/// Net number of formats saved by a run of calls.
pub open spec fn op_depth(ops: Seq<FormatOp>) -> int
    decreases ops.len(),
{
    if ops.len() == 0 {
        0
    } else {
        op_depth(ops.drop_last()) + match ops.last() {
            FormatOp::SetFormat(_) => 1int,
            FormatOp::RestoreFormat => -1int,
            FormatOp::Other => 0int,
        }
    }
}

/// No prefix of the run restores more formats than it saved.
pub open spec fn never_unwinds(ops: Seq<FormatOp>) -> bool
    decreases ops.len(),
{
    ops.len() == 0 || (never_unwinds(ops.drop_last()) && op_depth(ops) >= 0)
}

/// Current format and saved formats after a run of calls.
pub open spec fn run_formats(st: RenderState, ops: Seq<FormatOp>) -> RenderState
    decreases ops.len(),
{
    if ops.len() == 0 {
        st
    } else {
        let prev = run_formats(st, ops.drop_last());
        match ops.last() {
            FormatOp::SetFormat(g) => pushed(prev, g),
            FormatOp::RestoreFormat => popped(prev),
            FormatOp::Other => prev,
        }
    }
}

proof fn lemma_run_formats_shape(st: RenderState, ops: Seq<FormatOp>)
    requires
        never_unwinds(ops),
    ensures
        ({
            let post = run_formats(st, ops);
            &&& post.stack.len() == st.stack.len() + op_depth(ops)
            &&& post.stack.take(st.stack.len() as int) == st.stack
            &&& op_depth(ops) == 0 ==> post.format == st.format
            &&& op_depth(ops) > 0 ==> post.stack[st.stack.len() as int] == st.format
        }),
    decreases ops.len(),
{
    if ops.len() > 0 {
        lemma_run_formats_shape(st, ops.drop_last());
        let prev = run_formats(st, ops.drop_last());
        let n = st.stack.len() as int;
        match ops.last() {
            FormatOp::SetFormat(g) => {
                assert(prev.stack.push(prev.format).take(n) =~= prev.stack.take(n));
            },
            FormatOp::RestoreFormat => {
                assert(prev.stack.drop_last().take(n) =~= prev.stack.take(n));
            },
            FormatOp::Other => {},
        }
    }
}

/// Stack restoration: a run of calls on a renderer in which every
/// `set_format` is matched by a later `restore_format`, and the calls
/// between (`write`, `write_image`, `cut`, `print`) keep the format and the
/// saved formats, leaves both as they were before the run.
pub proof fn lemma_balanced_run_restores(st: RenderState, ops: Seq<FormatOp>)
    requires
        never_unwinds(ops),
        op_depth(ops) == 0,
    ensures
        run_formats(st, ops).format == st.format,
        run_formats(st, ops).stack == st.stack,
{
    lemma_run_formats_shape(st, ops);
    assert(run_formats(st, ops).stack =~= run_formats(st, ops).stack.take(st.stack.len() as int));
}

/// The calls other than `set_format` and `restore_format` keep the current
/// format and the saved ones.
pub proof fn lemma_other_calls_keep_formats(st: RenderState, text: Seq<char>, img: StrikeImage)
    ensures
        steps(st, ascii_of(text)).format == st.format && steps(st, ascii_of(text)).stack == st.stack,
        image_state(st, img).format == st.format && image_state(st, img).stack == st.stack,
        cut_state(st).format == st.format && cut_state(st).stack == st.stack,
{
    lemma_steps_keep_formats(st, ascii_of(text));
}

pub open spec fn max_nat(a: nat, b: nat) -> nat {
    if a >= b { a } else { b }
}

/// Width of the line that `push_unit` prints before placing `lc`, or 0
/// when it prints none.
pub open spec fn unit_printed_width(st: RenderState, lc: LineChar) -> nat {
    if st.line_width + lc.format.bounding_width() > LINE_PIXELS_TEXT { st.line_width } else { 0 }
}

/// Widest line printed while pushing `units`.
pub open spec fn units_printed_width(st: RenderState, units: Seq<LineChar>) -> nat
    decreases units.len(),
{
    if units.len() == 0 {
        0
    } else {
        max_nat(
            units_printed_width(st, units.drop_last()),
            unit_printed_width(push_units(st, units.drop_last()), units.last()),
        )
    }
}

/// Widest line printed while committing the pending word.
pub open spec fn commit_printed_width(st: RenderState) -> nat {
    let width = width_of(st.word);
    let soft = width <= LINE_PIXELS_TEXT && st.line_width + width > LINE_PIXELS_TEXT;
    let st1 = if soft { spool(st) } else { st };
    let units = if soft { drop_spaces(st.word) } else { st.word };
    max_nat(if soft { st.line_width } else { 0 }, units_printed_width(st1, units))
}

/// Widest line printed while taking one byte.
pub open spec fn step_printed_width(st: RenderState, b: u8) -> nat {
    let commits = st.word_has_letters && (b == 0x0a || b == 0x20);
    let st1 = if commits { commit_word(st) } else { st };
    let c = if commits { commit_printed_width(st) } else { 0 };
    if b == 0x0a { max_nat(c, st1.line_width) } else { c }
}

/// Widest line printed while taking `bytes`.
pub open spec fn steps_printed_width(st: RenderState, bytes: Seq<u8>) -> nat
    decreases bytes.len(),
{
    if bytes.len() == 0 {
        0
    } else {
        max_nat(
            steps_printed_width(st, bytes.drop_last()),
            step_printed_width(steps(st, bytes.drop_last()), bytes.last()),
        )
    }
}

proof fn lemma_units_printed_budget(st: RenderState, units: Seq<LineChar>)
    requires
        st.line_width <= LINE_PIXELS_TEXT,
        all_fit(units),
    ensures
        units_printed_width(st, units) <= LINE_PIXELS_TEXT,
    decreases units.len(),
{
    if units.len() > 0 {
        lemma_units_printed_budget(st, units.drop_last());
        lemma_push_units_budget(st, units.drop_last());
    }
}

proof fn lemma_steps_printed_budget(st: RenderState, bytes: Seq<u8>)
    requires
        st.line_width <= LINE_PIXELS_TEXT,
        all_fit(st.word),
        indent_fits(st.format),
    ensures
        steps_printed_width(st, bytes) <= LINE_PIXELS_TEXT,
    decreases bytes.len(),
{
    if bytes.len() > 0 {
        lemma_steps_printed_budget(st, bytes.drop_last());
        lemma_steps_budget(st, bytes.drop_last());
        let s0 = steps(st, bytes.drop_last());
        let b = bytes.last();
        if s0.word_has_letters && (b == 0x0a || b == 0x20) {
            lemma_drop_spaces_fit(s0.word);
            let width = width_of(s0.word);
            let soft = width <= LINE_PIXELS_TEXT && s0.line_width + width > LINE_PIXELS_TEXT;
            let s1 = if soft { spool(s0) } else { s0 };
            lemma_units_printed_budget(s1, if soft { drop_spaces(s0.word) } else { s0.word });
            lemma_push_units_budget(s1, if soft { drop_spaces(s0.word) } else { s0.word });
        }
    }
}

/// Every line printed while writing text in a format whose indented line
/// start fits the text budget is at most 320 pixels wide, as counted by
/// the widths of the lines at the moments they are printed.
pub proof fn lemma_printed_lines_within_budget(st: RenderState, contents: Seq<char>)
    requires
        st.line_width <= LINE_PIXELS_TEXT,
        all_fit(st.word),
        indent_fits(st.format),
    ensures
        steps_printed_width(st, ascii_of(contents)) <= LINE_PIXELS_TEXT,
{
    lemma_steps_printed_budget(st, ascii_of(contents));
}

/// Reads the printer commands in `bytes`: each format command gives its
/// settings, a bit image is skipped with its columns, and any other byte is
/// skipped alone.
pub open spec fn read_commands(bytes: Seq<u8>) -> Seq<(u8, u8, bool, bool, Justification)>
    decreases bytes.len(),
{
    if bytes.len() == 0 {
        Seq::empty()
    } else if parse_program(bytes) is Some {
        seq![parse_program(bytes).unwrap()] + read_commands(bytes.skip(15))
    } else if bytes.len() >= 5 && bytes[0] == 0x1b && bytes[1] == 0x2a && 5 + bytes[3] + 256 * bytes[4]
        <= bytes.len() {
        read_commands(bytes.skip(5 + bytes[3] + 256 * bytes[4]))
    } else {
        read_commands(bytes.skip(1))
    }
}

/// A unit that holds a character of text: a tab or a printable byte.
pub open spec fn text_unit(lc: LineChar) -> bool {
    lc.ch == 0x09 || (0x20 <= lc.ch && lc.ch <= 0x7e)
}

/// Settings that pass `p` programs at units 1 to `n - 1` of `line`: one
/// for each unit whose format differs from the unit before it.
pub open spec fn unit_commands(p: LinePass, line: Seq<LineChar>, n: nat) -> Seq<(u8, u8, bool, bool, Justification)>
    decreases n,
{
    if n == 0 {
        Seq::empty()
    } else {
        let i = n - 1;
        let f = line[i].format;
        unit_commands(p, line, (n - 1) as nat) + if i > 0 && f != line[i - 1].format {
            seq![settings_of(p.masked(f, p.is_active(f)))]
        } else {
            Seq::empty()
        }
    }
}

/// Settings that pass `p` programs for `line`, in order.
pub open spec fn pass_commands(p: LinePass, line: Seq<LineChar>) -> Seq<(u8, u8, bool, bool, Justification)> {
    if line_active(p, line) {
        seq![settings_of(p.masked(line[0].format, p.is_active(line[0].format)))] + unit_commands(
            p,
            line,
            line.len(),
        )
    } else {
        Seq::empty()
    }
}

pub open spec fn line_commands(line: Seq<LineChar>, k: nat) -> Seq<(u8, u8, bool, bool, Justification)>
    decreases k,
{
    if k == 0 {
        Seq::empty()
    } else {
        line_commands(line, (k - 1) as nat) + pass_commands(pass_table()[k - 1], line)
    }
}

proof fn lemma_read_plain(b: u8, rest: Seq<u8>)
    requires
        b != 0x1b,
    ensures
        read_commands(seq![b] + rest) == read_commands(rest),
{
    assert((seq![b] + rest).skip(1) =~= rest);
}

proof fn lemma_read_program(f: Format, rest: Seq<u8>)
    ensures
        read_commands(program_bytes(f) + rest) == seq![settings_of(f)] + read_commands(rest),
{
    let b = program_bytes(f) + rest;
    assert(b.skip(15) =~= rest);
    assert(b[8] == if f.red { 1u8 } else { 0u8 });
    assert(b[11] == if f.unidirectional { 1u8 } else { 0u8 });
    assert(b[14] == f.justification.code());
    assert(parse_program(b) == Some(settings_of(f)));
}

proof fn lemma_read_strike(w: nat, rest: Seq<u8>)
    requires
        w < 256,
    ensures
        read_commands(strike_run(w) + rest) == read_commands(rest),
{
    let b = strike_run(w) + rest;
    assert(b[3] == w as u8 && b[4] == 0);
    assert(b.skip(5 + w as int) =~= rest);
}

proof fn lemma_read_unit(p: LinePass, line: Seq<LineChar>, i: int, rest: Seq<u8>)
    requires
        0 <= i < line.len(),
        text_unit(line[i]),
    ensures
        read_commands(unit_out(p, line, i) + rest) == (if i > 0 && line[i].format != line[i - 1].format {
            seq![settings_of(p.masked(line[i].format, p.is_active(line[i].format)))]
        } else {
            Seq::empty()
        }) + read_commands(rest),
{
    let f = line[i].format;
    let active = p.is_active(f);
    let ub = p.unit_bytes(line[i].ch, f, active);
    if !active {
        lemma_read_plain(0x20, rest);
    } else if p.strikethrough {
        lemma_read_strike(f.overstrike_width(), rest);
    } else {
        lemma_read_plain(line[i].ch, rest);
    }
    assert(read_commands(ub + rest) == read_commands(rest)) by {
        if !active {
            assert(ub =~= seq![0x20u8]);
        } else if !p.strikethrough {
            assert(ub =~= seq![line[i].ch]);
        }
    }
    if i > 0 && f != line[i - 1].format {
        let g = p.masked(f, active);
        assert(unit_out(p, line, i) + rest =~= program_bytes(g) + (ub + rest));
        lemma_read_program(g, ub + rest);
    } else {
        assert(unit_out(p, line, i) + rest =~= ub + rest);
        assert(Seq::<(u8, u8, bool, bool, Justification)>::empty() + read_commands(rest) =~= read_commands(rest));
    }
}

proof fn lemma_read_units(p: LinePass, line: Seq<LineChar>, n: nat, rest: Seq<u8>)
    requires
        n <= line.len(),
        forall|i: int| 0 <= i < line.len() ==> text_unit(#[trigger] line[i]),
    ensures
        read_commands(units_out(p, line, n) + rest) == unit_commands(p, line, n) + read_commands(rest),
    decreases n,
{
    if n == 0 {
        assert(units_out(p, line, n) + rest =~= rest);
        assert(unit_commands(p, line, n) + read_commands(rest) =~= read_commands(rest));
    } else {
        let i = n - 1;
        let u = unit_out(p, line, i);
        assert(units_out(p, line, n) + rest =~= units_out(p, line, (n - 1) as nat) + (u + rest));
        lemma_read_units(p, line, (n - 1) as nat, u + rest);
        lemma_read_unit(p, line, i, rest);
        assert(unit_commands(p, line, n) + read_commands(rest) =~= unit_commands(p, line, (n - 1) as nat) + (
        if i > 0 && line[i].format != line[i - 1].format {
            seq![settings_of(p.masked(line[i].format, p.is_active(line[i].format)))]
        } else {
            Seq::empty()
        } + read_commands(rest)));
    }
}

proof fn lemma_read_pass(p: LinePass, line: Seq<LineChar>, rest: Seq<u8>)
    requires
        forall|i: int| 0 <= i < line.len() ==> text_unit(#[trigger] line[i]),
    ensures
        read_commands(pass_out(p, line) + rest) == pass_commands(p, line) + read_commands(rest),
{
    if line_active(p, line) {
        let g = p.masked(line[0].format, p.is_active(line[0].format));
        let u = units_out(p, line, line.len());
        assert(pass_out(p, line) + rest =~= program_bytes(g) + (u + (seq![0x0du8] + rest)));
        lemma_read_program(g, u + (seq![0x0du8] + rest));
        lemma_read_units(p, line, line.len(), seq![0x0du8] + rest);
        lemma_read_plain(0x0d, rest);
        assert(pass_commands(p, line) + read_commands(rest) =~= seq![settings_of(g)] + (unit_commands(
            p,
            line,
            line.len(),
        ) + read_commands(rest)));
    } else {
        assert(pass_out(p, line) + rest =~= rest);
        assert(pass_commands(p, line) + read_commands(rest) =~= read_commands(rest));
    }
}

proof fn lemma_read_passes(line: Seq<LineChar>, k: nat, rest: Seq<u8>)
    requires
        k <= 4,
        forall|i: int| 0 <= i < line.len() ==> text_unit(#[trigger] line[i]),
    ensures
        read_commands(passes_out(line, k) + rest) == line_commands(line, k) + read_commands(rest),
    decreases k,
{
    if k == 0 {
        assert(passes_out(line, k) + rest =~= rest);
        assert(line_commands(line, k) + read_commands(rest) =~= read_commands(rest));
    } else {
        let p = pass_table()[k - 1];
        assert(passes_out(line, k) + rest =~= passes_out(line, (k - 1) as nat) + (pass_out(p, line) + rest));
        lemma_read_passes(line, (k - 1) as nat, pass_out(p, line) + rest);
        lemma_read_pass(p, line, rest);
        assert(line_commands(line, k) + read_commands(rest) =~= line_commands(line, (k - 1) as nat) + (
        pass_commands(p, line) + read_commands(rest)));
    }
}

/// Reading back a printed line of text by the command grammar gives, pass
/// after pass, the settings programmed at the start of each pass that runs
/// and at each unit whose format differs from the one before it, in the
/// order they were sent.
pub proof fn lemma_line_commands_round_trip(line: Seq<LineChar>)
    requires
        forall|i: int| 0 <= i < line.len() ==> text_unit(#[trigger] line[i]),
    ensures
        read_commands(encode_line(line)) == line_commands(line, 4),
{
    lemma_read_passes(line, 4, seq![0x0au8]);
    lemma_read_plain(0x0a, Seq::empty());
    assert(seq![0x0au8] + Seq::<u8>::empty() =~= seq![0x0au8]);
    assert(read_commands(Seq::<u8>::empty()) =~= Seq::empty());
    assert(line_commands(line, 4) + Seq::<(u8, u8, bool, bool, Justification)>::empty() =~= line_commands(line, 4));
}

} // verus!
