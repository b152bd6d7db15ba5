//! Immutable text and graphics styling snapshots.
use vstd::prelude::*;

verus! {

/// Largest accumulated indent, in character cells, that a renderer lays
/// text out under. A line starts with that many space units, so the bound
/// keeps a line's units and its pixel width within `usize`.
pub const INDENT_LIMIT: usize = 0x0100_0000;

/// Print-mode bits sent with the style command.
#[derive(Clone, Copy, Debug, PartialEq, Eq, Structural)]
pub struct FormatFlags {
    pub bits: u8,
}

impl FormatFlags {
    pub fn empty() -> (r: FormatFlags)
        ensures
            r.bits == 0,
    {
        FormatFlags { bits: 0 }
    }

    pub fn narrow() -> (r: FormatFlags)
        ensures
            r.bits == 0x01,
    {
        FormatFlags { bits: 0x01 }
    }

    pub fn emphasized() -> (r: FormatFlags)
        ensures
            r.bits == 0x08,
    {
        FormatFlags { bits: 0x08 }
    }

    pub fn double_height() -> (r: FormatFlags)
        ensures
            r.bits == 0x10,
    {
        FormatFlags { bits: 0x10 }
    }

    pub fn double_width() -> (r: FormatFlags)
        ensures
            r.bits == 0x20,
    {
        FormatFlags { bits: 0x20 }
    }

    pub fn underline() -> (r: FormatFlags)
        ensures
            r.bits == 0x80,
    {
        FormatFlags { bits: 0x80 }
    }

    /// The flags set in either operand.
    pub fn union(self, other: FormatFlags) -> (r: FormatFlags)
        ensures
            r.bits == self.bits | other.bits,
    {
        FormatFlags { bits: self.bits | other.bits }
    }

    pub open spec fn has(self, bit: u8) -> bool {
        self.bits & bit != 0
    }

    pub open spec fn is_narrow(self) -> bool {
        self.has(0x01)
    }

    pub open spec fn is_double_width(self) -> bool {
        self.has(0x20)
    }
}

#[derive(Clone, Copy, Debug, PartialEq, Eq, Structural)]
pub enum Justification {
    Left,
    Center,
    Right,
}

impl Justification {
    /// The parameter byte of the justification command.
    pub open spec fn code(self) -> u8 {
        match self {
            Justification::Left => 0,
            Justification::Center => 1,
            Justification::Right => 2,
        }
    }

    pub fn to_byte(self) -> (r: u8)
        ensures
            r == self.code(),
    {
        match self {
            Justification::Left => 0,
            Justification::Center => 1,
            Justification::Right => 2,
        }
    }
}

/// One styling snapshot. Deriving a format builds a new value; the receiver
/// is taken by shared reference and never changes.
#[derive(Clone, Copy, Debug, PartialEq, Eq, Structural)]
pub struct Format {
    pub flags: FormatFlags,
    pub line_spacing: u8,
    pub indent: usize,
    pub red: bool,
    pub unidirectional: bool,
    pub strikethrough: bool,
    pub justification: Justification,
}

impl Format {
    /// A format that a renderer can lay lines out under.
    pub open spec fn wf(self) -> bool {
        self.indent <= INDENT_LIMIT
    }

    /// Pixel width of one character cell.
    pub open spec fn bounding_width(self) -> nat {
        let base: nat = if self.flags.is_narrow() { 8 } else { 10 };
        if self.flags.is_double_width() { 2 * base } else { base }
    }

    /// Pixel width of the rule drawn over one character cell to strike it out.
    pub open spec fn overstrike_width(self) -> nat {
        let base: nat = if self.flags.is_narrow() { 5 } else { 6 };
        if self.flags.is_double_width() { 2 * base } else { base }
    }

    pub open spec fn initial() -> Format {
        Format {
            flags: FormatFlags { bits: 0x01 },
            line_spacing: 24,
            indent: 0,
            red: false,
            unidirectional: false,
            strikethrough: false,
            justification: Justification::Left,
        }
    }

    /// Narrow black text, left-justified, bidirectional, 24-dot line feeds.
    pub fn new() -> (r: Format)
        ensures
            r == Format::initial(),
            r.wf(),
    {
        Format {
            flags: FormatFlags { bits: 0x01 },
            line_spacing: 24,
            indent: 0,
            red: false,
            unidirectional: false,
            strikethrough: false,
            justification: Justification::Left,
        }
    }

    pub fn with_flags(&self, flags: FormatFlags) -> (r: Format)
        ensures
            r == (Format { flags: FormatFlags { bits: self.flags.bits | flags.bits }, ..*self }),
    {
        Format { flags: FormatFlags { bits: self.flags.bits | flags.bits }, ..*self }
    }

    pub fn without_flags(&self, flags: FormatFlags) -> (r: Format)
        ensures
            r == (Format { flags: FormatFlags { bits: self.flags.bits & !flags.bits }, ..*self }),
    {
        Format { flags: FormatFlags { bits: self.flags.bits & !flags.bits }, ..*self }
    }

    pub fn with_line_spacing(&self, spacing: u8) -> (r: Format)
        ensures
            r == (Format { line_spacing: spacing, ..*self }),
    {
        Format { line_spacing: spacing, ..*self }
    }

    pub fn with_added_indent(&self, indent: usize) -> (r: Format)
        requires
            self.indent + indent <= usize::MAX,
        ensures
            r == (Format { indent: (self.indent + indent) as usize, ..*self }),
    {
        Format { indent: self.indent + indent, ..*self }
    }

    pub fn with_red(&self, red: bool) -> (r: Format)
        ensures
            r == (Format { red, ..*self }),
    {
        Format { red, ..*self }
    }

    pub fn with_unidirectional(&self, unidirectional: bool) -> (r: Format)
        ensures
            r == (Format { unidirectional, ..*self }),
    {
        Format { unidirectional, ..*self }
    }

    pub fn with_strikethrough(&self, strikethrough: bool) -> (r: Format)
        ensures
            r == (Format { strikethrough, ..*self }),
    {
        Format { strikethrough, ..*self }
    }

    pub fn with_justification(&self, justification: Justification) -> (r: Format)
        ensures
            r == (Format { justification, ..*self }),
    {
        Format { justification, ..*self }
    }

    pub fn char_bounding_width(&self) -> (r: usize)
        ensures
            r == self.bounding_width(),
            8 <= r <= 20,
    {
        let mut width: usize = if self.flags.bits & 0x01 != 0 { 8 } else { 10 };
        if self.flags.bits & 0x20 != 0 {
            width = width * 2;
        }
        width
    }

    pub fn char_overstrike_width(&self) -> (r: usize)
        ensures
            r == self.overstrike_width(),
            5 <= r <= 12,
    {
        let mut width: usize = if self.flags.bits & 0x01 != 0 { 5 } else { 6 };
        if self.flags.bits & 0x20 != 0 {
            width = width * 2;
        }
        width
    }
}

} // verus!
