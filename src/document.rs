//! The document driver: turns structural document events into formats,
//! text and graphics on a renderer.
use vstd::prelude::*;
use vstd::string::*;

use crate::codeblock::{config_from, payload_of, CodeBlockConfig};
use crate::error::RenderError;
use crate::format::{Format, FormatFlags, Justification, INDENT_LIMIT};
use crate::render::{ascii_of, cut_state, popped, pushed, steps, RenderState, Renderer};
use crate::strike::StrikeImage;

verus! {

/// One structural event of a document, in reading order.
pub enum DocEvent {
    /// A heading of level 1 to 6 begins.
    StartHeading(u8),
    EndHeading,
    StartBlockQuote,
    EndBlockQuote,
    /// A code block begins, with its info string.
    StartCodeBlock(String),
    EndCodeBlock,
    /// A list begins, numbered from the given number or bulleted.
    StartList(Option<u64>),
    EndList,
    StartItem,
    EndItem,
    StartEmphasis,
    EndEmphasis,
    StartStrong,
    EndStrong,
    StartStrikethrough,
    EndStrikethrough,
    EndParagraph,
    Text(String),
    /// Inline code.
    Code(String),
    SoftBreak,
    HardBreak,
    /// A thematic break, printed as a paper cut.
    Rule,
}

/// Abstract state of a document being printed.
pub struct DocState {
    pub render: RenderState,
    pub code_block: Option<CodeBlockConfig>,
    pub lists: Seq<Option<u64>>,
}

/// The format of a heading of `level`, derived from `f`.
pub open spec fn heading_format(f: Format, level: u8) -> Format {
    if level == 1 {
        Format { unidirectional: true, flags: FormatFlags { bits: f.flags.bits | 0xb8 }, ..f }
    } else if level == 2 {
        Format { unidirectional: true, flags: FormatFlags { bits: f.flags.bits | 0x38 }, ..f }
    } else if level == 3 {
        Format { flags: FormatFlags { bits: (f.flags.bits | 0x88) & !0x01u8 }, ..f }
    } else if level == 4 {
        Format { flags: FormatFlags { bits: (f.flags.bits | 0x08) & !0x01u8 }, ..f }
    } else if level == 5 {
        Format { flags: FormatFlags { bits: f.flags.bits | 0x88 }, ..f }
    } else {
        Format { flags: FormatFlags { bits: f.flags.bits | 0x08 }, ..f }
    }
}

pub open spec fn centered(f: Format) -> Format {
    Format { justification: Justification::Center, ..f }
}

pub open spec fn digit_char(d: nat) -> char {
    if d == 0 { '0' } else if d == 1 { '1' } else if d == 2 { '2' } else if d == 3 { '3' } else if d == 4 {
        '4'
    } else if d == 5 { '5' } else if d == 6 { '6' } else if d == 7 { '7' } else if d == 8 { '8' } else { '9' }
}

/// Decimal digits of `n`.
pub open spec fn decimal(n: nat) -> Seq<char>
    decreases n,
{
    if n < 10 { seq![digit_char(n)] } else { decimal(n / 10).push(digit_char(n % 10)) }
}

/// The marker that starts a list item: its number right-aligned in two
/// columns and a full stop, or a dash for a bulleted list.
pub open spec fn marker_of(item: Option<u64>) -> Seq<char> {
    match item {
        Some(n) => (if n < 10 { seq![' '] } else { Seq::empty() }) + decimal(n as nat) + seq!['.', ' '],
        None => seq![' ', ' ', '-', ' '],
    }
}

pub open spec fn with_indent(f: Format, n: nat) -> Format {
    Format { indent: (f.indent + n) as usize, ..f }
}

pub open spec fn write_text(st: RenderState, text: Seq<char>) -> RenderState {
    steps(st, ascii_of(text))
}

fn digit_str(d: u64) -> (r: &'static str)
    requires
        d < 10,
    ensures
        r@ == seq![digit_char(d as nat)],
{
    proof {
        reveal_strlit("0");
        reveal_strlit("1");
        reveal_strlit("2");
        reveal_strlit("3");
        reveal_strlit("4");
        reveal_strlit("5");
        reveal_strlit("6");
        reveal_strlit("7");
        reveal_strlit("8");
        reveal_strlit("9");
    }
    if d == 0 {
        "0"
    } else if d == 1 {
        "1"
    } else if d == 2 {
        "2"
    } else if d == 3 {
        "3"
    } else if d == 4 {
        "4"
    } else if d == 5 {
        "5"
    } else if d == 6 {
        "6"
    } else if d == 7 {
        "7"
    } else if d == 8 {
        "8"
    } else {
        "9"
    }
}

fn decimal_string(n: u64) -> (r: String)
    ensures
        r@ == decimal(n as nat),
    decreases n,
{
    if n < 10 {
        digit_str(n).to_owned()
    } else {
        let head = decimal_string(n / 10);
        head.concat(digit_str(n % 10))
    }
}

/// The marker of a list item.
pub fn list_marker(item: Option<u64>) -> (r: String)
    ensures
        r@ == marker_of(item),
{
    proof {
        reveal_strlit(" ");
        reveal_strlit(". ");
        reveal_strlit("  - ");
    }
    match item {
        Some(n) => {
            let lead = if n < 10 { " ".to_owned() } else { String::new() };
            let digits = decimal_string(n);
            let r = lead.concat(digits.as_str()).concat(". ");
            assert(r@ =~= marker_of(item));
            r
        },
        None => "  - ".to_owned(),
    }
}

/// Prints a document from its events.
pub struct Document {
    renderer: Renderer,
    code_block: Option<CodeBlockConfig>,
    lists: Vec<Option<u64>>,
}

impl View for Document {
    type V = DocState;

    closed spec fn view(&self) -> DocState {
        DocState { render: self.renderer@, code_block: self.code_block, lists: self.lists@ }
    }
}

impl Document {
    pub fn new() -> (r: Document)
        ensures
            r@.render.wf(),
            r@.render == crate::render::initial_state(),
            r@.code_block is None,
            r@.lists.len() == 0,
    {
        Document { renderer: Renderer::new(), code_block: None, lists: Vec::new() }
    }

    /// Prints an image block's strike raster, once it has been decoded and
    /// dithered.
    pub fn write_image(&mut self, image: &StrikeImage) -> (r: Result<(), RenderError>)
        requires
            old(self)@.render.wf(),
            image.wf(),
        ensures
            final(self)@.render.wf(),
            final(self)@.code_block == old(self)@.code_block,
            final(self)@.lists == old(self)@.lists,
            image.width > 200 ==> r is Err && final(self)@.render == old(self)@.render,
            (image.width == 0 || image.height == 0) ==> r is Err && final(self)@.render == old(self)@.render,
            0 < image.width <= 200 && image.height > 0 ==> r is Ok && final(self)@.render
                == crate::render::image_state(old(self)@.render, *image),
    {
        self.renderer.write_image(image)
    }

    /// Cuts the paper after the last line and hands out the bytes to send.
    pub fn finish(&mut self) -> (r: Vec<u8>)
        requires
            old(self)@.render.wf(),
        ensures
            r@ == cut_state(old(self)@.render).out,
            final(self)@.render.out.len() == 0,
            final(self)@.render.wf(),
    {
        self.renderer.cut();
        self.renderer.print()
    }

    fn restore(&mut self) -> (r: Result<(), RenderError>)
        requires
            old(self)@.render.wf(),
        ensures
            final(self)@.render.wf(),
            final(self)@.code_block == old(self)@.code_block,
            final(self)@.lists == old(self)@.lists,
            old(self)@.render.stack.len() > 0 ==> r is Ok && final(self)@.render == popped(old(self)@.render),
            old(self)@.render.stack.len() == 0 ==> r == Err::<(), RenderError>(RenderError::Unbalanced)
                && final(self)@ == old(self)@,
    {
        if self.renderer.saved_formats() == 0 {
            return Err(RenderError::Unbalanced);
        }
        self.renderer.restore_format();
        Ok(())
    }

    /// Handles one event. For text in an image block it hands back the
    /// image bytes and whether red is enabled, which the caller decodes,
    /// dithers and passes to `write_image`.
    #[verifier::spinoff_prover]
    #[verifier::rlimit(60)]
    pub fn handle(&mut self, event: DocEvent) -> (r: Result<Option<(Vec<u8>, bool)>, RenderError>)
        requires
            old(self)@.render.wf(),
        ensures
            final(self)@.render.wf(),
            handled(old(self)@, event, final(self)@, r),
    {
        let ghost st = self.renderer@;
        match event {
            DocEvent::StartHeading(level) => {
                let c = self.renderer.format().with_justification(Justification::Center);
                self.renderer.set_format(c);
                let f = self.renderer.format();
                let h = if level == 1 {
                    f.with_unidirectional(true).with_flags(FormatFlags { bits: 0xb8 })
                } else if level == 2 {
                    f.with_unidirectional(true).with_flags(FormatFlags { bits: 0x38 })
                } else if level == 3 {
                    f.with_flags(FormatFlags { bits: 0x88 }).without_flags(FormatFlags::narrow())
                } else if level == 4 {
                    f.with_flags(FormatFlags::emphasized()).without_flags(FormatFlags::narrow())
                } else if level == 5 {
                    f.with_flags(FormatFlags { bits: 0x88 })
                } else {
                    f.with_flags(FormatFlags::emphasized())
                };
                self.renderer.set_format(h);
                Ok(None)
            },
            DocEvent::EndHeading => {
                if self.renderer.saved_formats() < 2 {
                    return Err(RenderError::Unbalanced);
                }
                self.renderer.restore_format();
                self.renderer.write("\n\n");
                self.renderer.restore_format();
                Ok(None)
            },
            DocEvent::StartBlockQuote => {
                let f = self.renderer.format();
                if f.indent > INDENT_LIMIT - 4 {
                    return Err(RenderError::IndentTooDeep);
                }
                self.renderer.set_format(f.with_added_indent(4));
                Ok(None)
            },
            DocEvent::EndBlockQuote | DocEvent::EndEmphasis | DocEvent::EndStrong
            | DocEvent::EndStrikethrough => {
                match self.restore() {
                    Ok(()) => Ok(None),
                    Err(e) => Err(e),
                }
            },
            DocEvent::StartCodeBlock(info) => {
                if self.code_block.is_some() {
                    return Err(RenderError::Unbalanced);
                }
                match CodeBlockConfig::from_info(info.as_str()) {
                    Ok(c) => {
                        self.code_block = Some(c);
                        Ok(None)
                    },
                    Err(e) => Err(e),
                }
            },
            DocEvent::EndCodeBlock => {
                if self.code_block.is_none() {
                    return Err(RenderError::Unbalanced);
                }
                self.code_block = None;
                Ok(None)
            },
            DocEvent::StartList(first) => {
                self.lists.push(first);
                Ok(None)
            },
            DocEvent::EndList => {
                if self.lists.len() == 0 {
                    return Err(RenderError::Unbalanced);
                }
                self.lists.pop();
                self.renderer.write("\n");
                Ok(None)
            },
            DocEvent::StartItem => {
                let n = self.lists.len();
                if n == 0 {
                    return Err(RenderError::Unbalanced);
                }
                let item = self.lists[n - 1];
                let next = match item {
                    Some(k) => {
                        if k == u64::MAX {
                            return Err(RenderError::ListNumberOverflow);
                        }
                        Some(k + 1)
                    },
                    None => None,
                };
                let marker = list_marker(item);
                let width = marker.as_str().unicode_len();
                let f = self.renderer.format();
                if width > INDENT_LIMIT || f.indent > INDENT_LIMIT - width {
                    return Err(RenderError::IndentTooDeep);
                }
                self.lists.set(n - 1, next);
                self.renderer.write(marker.as_str());
                self.renderer.set_format(f.with_added_indent(width));
                Ok(None)
            },
            DocEvent::EndItem => {
                match self.restore() {
                    Ok(()) => {
                        self.renderer.write("\n");
                        Ok(None)
                    },
                    Err(e) => Err(e),
                }
            },
            DocEvent::StartEmphasis => {
                let f = self.renderer.format().with_flags(FormatFlags::underline());
                self.renderer.set_format(f);
                Ok(None)
            },
            DocEvent::StartStrong => {
                let f = self.renderer.format().with_flags(FormatFlags::emphasized());
                self.renderer.set_format(f);
                Ok(None)
            },
            DocEvent::StartStrikethrough => {
                let f = self.renderer.format().with_strikethrough(true);
                self.renderer.set_format(f);
                Ok(None)
            },
            DocEvent::EndParagraph | DocEvent::HardBreak => {
                self.renderer.write("\n\n");
                Ok(None)
            },
            DocEvent::Text(contents) => {
                match &self.code_block {
                    None => {
                        self.renderer.write(contents.as_str());
                        Ok(None)
                    },
                    Some(block) => {
                        match block.image_payload(contents.as_str()) {
                            Err(e) => Err(e),
                            Ok(Some(p)) => Ok(Some(p)),
                            Ok(None) => match block.render(&mut self.renderer, contents.as_str()) {
                                Ok(()) => Ok(None),
                                Err(e) => Err(e),
                            },
                        }
                    },
                }
            },
            DocEvent::Code(contents) => {
                let f = self.renderer.format().with_red(true);
                self.renderer.set_format(f);
                self.renderer.write(contents.as_str());
                self.renderer.restore_format();
                Ok(None)
            },
            DocEvent::SoftBreak => {
                self.renderer.write(" ");
                Ok(None)
            },
            DocEvent::Rule => {
                self.renderer.cut();
                Ok(None)
            },
        }
    }
}

/// What handling `event` in state `st` leaves (`post`) and reports (`r`).
/// An error leaves the document as it was, but for the text of a code block
/// whose printing failed partway, as that block's printing allows.
pub open spec fn handled(st: DocState, event: DocEvent, post: DocState, r: Result<Option<(Vec<u8>, bool)>, RenderError>) -> bool {
    let rs = st.render;
    let same = post.code_block == st.code_block && post.lists == st.lists;
    match event {
        DocEvent::StartHeading(level) => r is Ok && r->Ok_0 is None && same && post.render == pushed(
            pushed(rs, centered(rs.format)),
            heading_format(centered(rs.format), level),
        ),
        DocEvent::EndHeading => if rs.stack.len() >= 2 {
            r is Ok && r->Ok_0 is None && same && post.render == popped(write_text(popped(rs), "\n\n"@))
        } else {
            r == Err::<Option<(Vec<u8>, bool)>, RenderError>(RenderError::Unbalanced) && post == st
        },
        DocEvent::StartBlockQuote => if rs.format.indent + 4 <= INDENT_LIMIT {
            r is Ok && r->Ok_0 is None && same && post.render == pushed(rs, with_indent(rs.format, 4))
        } else {
            r == Err::<Option<(Vec<u8>, bool)>, RenderError>(RenderError::IndentTooDeep) && post == st
        },
        DocEvent::EndBlockQuote | DocEvent::EndEmphasis | DocEvent::EndStrong | DocEvent::EndStrikethrough =>
            if rs.stack.len() > 0 {
            r is Ok && r->Ok_0 is None && same && post.render == popped(rs)
        } else {
            r == Err::<Option<(Vec<u8>, bool)>, RenderError>(RenderError::Unbalanced) && post == st
        },
        DocEvent::StartCodeBlock(info) => if st.code_block is Some {
            r == Err::<Option<(Vec<u8>, bool)>, RenderError>(RenderError::Unbalanced) && post == st
        } else {
            post.render == rs && post.lists == st.lists && exists|c: Result<CodeBlockConfig, RenderError>|
                config_from(info@, c) && match c {
                    Ok(cfg) => r is Ok && r->Ok_0 is None && post.code_block == Some(cfg),
                    Err(e) => r == Err::<Option<(Vec<u8>, bool)>, RenderError>(e) && post.code_block is None,
                }
        },
        DocEvent::EndCodeBlock => if st.code_block is Some {
            r is Ok && r->Ok_0 is None && post.render == rs && post.lists == st.lists && post.code_block is None
        } else {
            r == Err::<Option<(Vec<u8>, bool)>, RenderError>(RenderError::Unbalanced) && post == st
        },
        DocEvent::StartList(first) => r is Ok && r->Ok_0 is None && post.render == rs && post.code_block
            == st.code_block && post.lists == st.lists.push(first),
        DocEvent::EndList => if st.lists.len() > 0 {
            r is Ok && r->Ok_0 is None && post.code_block == st.code_block && post.lists == st.lists.drop_last()
                && post.render == write_text(rs, "\n"@)
        } else {
            r == Err::<Option<(Vec<u8>, bool)>, RenderError>(RenderError::Unbalanced) && post == st
        },
        DocEvent::StartItem => if st.lists.len() == 0 {
            r == Err::<Option<(Vec<u8>, bool)>, RenderError>(RenderError::Unbalanced) && post == st
        } else if st.lists.last() == Some(u64::MAX) {
            r == Err::<Option<(Vec<u8>, bool)>, RenderError>(RenderError::ListNumberOverflow) && post == st
        } else if rs.format.indent + marker_of(st.lists.last()).len() > INDENT_LIMIT {
            r == Err::<Option<(Vec<u8>, bool)>, RenderError>(RenderError::IndentTooDeep) && post == st
        } else {
            let item = st.lists.last();
            r is Ok && r->Ok_0 is None && post.code_block == st.code_block && post.lists == st.lists.update(
                st.lists.len() - 1,
                match item {
                    Some(k) => Some((k + 1) as u64),
                    None => None,
                },
            ) && post.render == pushed(
                write_text(rs, marker_of(item)),
                with_indent(rs.format, marker_of(item).len()),
            )
        },
        DocEvent::EndItem => if rs.stack.len() > 0 {
            r is Ok && r->Ok_0 is None && same && post.render == write_text(popped(rs), "\n"@)
        } else {
            r == Err::<Option<(Vec<u8>, bool)>, RenderError>(RenderError::Unbalanced) && post == st
        },
        DocEvent::StartEmphasis => r is Ok && r->Ok_0 is None && same && post.render == pushed(
            rs,
            Format { flags: FormatFlags { bits: rs.format.flags.bits | 0x80 }, ..rs.format },
        ),
        DocEvent::StartStrong => r is Ok && r->Ok_0 is None && same && post.render == pushed(
            rs,
            Format { flags: FormatFlags { bits: rs.format.flags.bits | 0x08 }, ..rs.format },
        ),
        DocEvent::StartStrikethrough => r is Ok && r->Ok_0 is None && same && post.render == pushed(
            rs,
            Format { strikethrough: true, ..rs.format },
        ),
        DocEvent::EndParagraph | DocEvent::HardBreak => r is Ok && r->Ok_0 is None && same && post.render
            == write_text(rs, "\n\n"@),
        DocEvent::Text(contents) => same && match st.code_block {
            None => r is Ok && r->Ok_0 is None && post.render == write_text(rs, contents@),
            Some(block) => match block {
                CodeBlockConfig::Image { base64, bicolor } => post.render == rs && match payload_of(contents@, base64) {
                    None => r == Err::<Option<(Vec<u8>, bool)>, RenderError>(RenderError::Base64),
                    Some(p) => r matches Ok(Some((v, b))) && v@ == p && b == bicolor,
                },
                _ => exists|rr: Result<(), RenderError>|
                    block.rendered(rs, post.render, contents@, rr) && match rr {
                        Ok(()) => r is Ok && r->Ok_0 is None,
                        Err(e) => r == Err::<Option<(Vec<u8>, bool)>, RenderError>(e),
                    },
            },
        },
        DocEvent::Code(contents) => r is Ok && r->Ok_0 is None && same && post.render == popped(
            write_text(pushed(rs, Format { red: true, ..rs.format }), contents@),
        ),
        DocEvent::SoftBreak => r is Ok && r->Ok_0 is None && same && post.render == write_text(rs, " "@),
        DocEvent::Rule => r is Ok && r->Ok_0 is None && same && post.render == cut_state(rs),
    }
}

} // verus!
