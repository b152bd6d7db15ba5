//! Code block info strings: the language token and its options.
use base64::Engine;
use vstd::prelude::*;
use vstd::string::*;
use vstd::utf8::encode_utf8;

use crate::error::RenderError;
use crate::format::{Format, FormatFlags};
use crate::images::{bitmap_written, code128_written, qrcode_written, write_bitmap, write_code128, write_qrcode};
use crate::render::{ascii_of, popped, pushed, steps, RenderState, Renderer};

verus! {

/// Whether a character has Unicode's White_Space property, the property
/// that `char::is_whitespace` tests.
pub open spec fn whitespace(c: char) -> bool {
    let u = c as u32;
    (0x09 <= u && u <= 0x0d) || u == 0x20 || u == 0x85 || u == 0xa0 || u == 0x1680 || (0x2000 <= u && u
        <= 0x200a) || u == 0x2028 || u == 0x2029 || u == 0x202f || u == 0x205f || u == 0x3000
}

pub fn is_whitespace(c: char) -> (r: bool)
    ensures
        r == whitespace(c),
{
    let u = c as u32;
    (0x09 <= u && u <= 0x0d) || u == 0x20 || u == 0x85 || u == 0xa0 || u == 0x1680 || (0x2000 <= u && u
        <= 0x200a) || u == 0x2028 || u == 0x2029 || u == 0x202f || u == 0x205f || u == 0x3000
}

/// Words of `s` so far, and whether the last of them is still open.
pub open spec fn split_words(s: Seq<char>) -> (Seq<Seq<char>>, bool)
    decreases s.len(),
{
    if s.len() == 0 {
        (Seq::empty(), false)
    } else {
        let (words, open) = split_words(s.drop_last());
        let c = s.last();
        if whitespace(c) {
            (words, false)
        } else if open {
            (words.update(words.len() - 1, words.last().push(c)), true)
        } else {
            (words.push(seq![c]), true)
        }
    }
}

/// The maximal runs of non-white-space characters of `s`, in order.
pub open spec fn words_of(s: Seq<char>) -> Seq<Seq<char>> {
    split_words(s).0
}

pub open spec fn string_views(v: Seq<String>) -> Seq<Seq<char>> {
    v.map_values(|w: String| w@)
}

/// A code block's info string, split into its language and its options.
#[derive(Debug, PartialEq, Eq)]
pub struct FormatInfo {
    pub language: String,
    pub options: Vec<String>,
}

/// The format that one `text` option asks for, or `None` for an option that
/// `text` does not accept.
pub open spec fn option_format(f: Format, o: Seq<char>) -> Option<Format> {
    if o == "black"@ {
        Some(Format { red: false, ..f })
    } else if o == "bold"@ {
        Some(Format { flags: FormatFlags { bits: f.flags.bits | 0x08 }, ..f })
    } else if o == "doubleheight"@ {
        Some(Format { flags: FormatFlags { bits: f.flags.bits | 0x10 }, ..f })
    } else if o == "doublewidth"@ {
        Some(Format { flags: FormatFlags { bits: f.flags.bits | 0x20 }, ..f })
    } else if o == "strikethrough"@ {
        Some(Format { strikethrough: true, ..f })
    } else if o == "underline"@ {
        Some(Format { flags: FormatFlags { bits: f.flags.bits | 0x80 }, ..f })
    } else if o == "wide"@ {
        Some(Format { flags: FormatFlags { bits: f.flags.bits & !0x01u8 }, ..f })
    } else {
        None
    }
}

/// The format that a list of `text` options makes of `f`, applied in
/// order, or the first option that `text` does not accept.
pub open spec fn options_format(f: Format, opts: Seq<Seq<char>>) -> Result<Format, Seq<char>>
    decreases opts.len(),
{
    if opts.len() == 0 {
        Ok(f)
    } else {
        match options_format(f, opts.drop_last()) {
            Err(o) => Err(o),
            Ok(g) => match option_format(g, opts.last()) {
                Some(h) => Ok(h),
                None => Err(opts.last()),
            },
        }
    }
}

/// Once an option is refused, options after it change nothing.
pub proof fn lemma_unknown_stays(f: Format, opts: Seq<Seq<char>>, k: nat)
    requires
        k <= opts.len(),
        options_format(f, opts.take(k as int)) is Err,
    ensures
        options_format(f, opts) == options_format(f, opts.take(k as int)),
    decreases opts.len() - k,
{
    if k < opts.len() {
        assert(opts.take((k + 1) as int).drop_last() =~= opts.take(k as int));
        lemma_unknown_stays(f, opts, k + 1);
    } else {
        assert(opts.take(k as int) =~= opts);
    }
}

impl FormatInfo {
    /// Splits an info string at white space: the first word is the
    /// language, the rest are options.
    pub fn parse(info: &str) -> (r: FormatInfo)
        ensures
            words_of(info@).len() == 0 ==> r.language@ == Seq::<char>::empty()
                && r.options@.len() == 0,
            words_of(info@).len() > 0 ==> r.language@ == words_of(info@)[0]
                && string_views(r.options@) == words_of(info@).drop_first(),
    {
        let n = info.unicode_len();
        let mut words: Vec<String> = Vec::new();
        let mut open = false;
        let mut start: usize = 0;
        let mut i: usize = 0;
        while i < n
            invariant
                n == info@.len(),
                i <= n,
                start <= i,
                open == split_words(info@.take(i as int)).1,
                string_views(words@) + (if open { seq![info@.subrange(start as int, i as int)] } else {
                    Seq::empty()
                }) == split_words(info@.take(i as int)).0,
            decreases n - i,
        {
            let c = info.get_char(i);
            proof {
                assert(info@.take(i + 1).drop_last() =~= info@.take(i as int));
            }
            let ghost prev = split_words(info@.take(i as int));
            if is_whitespace(c) {
                if open {
                    let w = info.substring_char(start, i).to_owned();
                    words.push(w);
                    assert(string_views(words@) =~= prev.0);
                }
                open = false;
            } else if open {
                assert(info@.subrange(start as int, i + 1) =~= info@.subrange(start as int, i as int).push(c));
                assert(string_views(words@) + seq![info@.subrange(start as int, i + 1)] =~= prev.0.update(
                    prev.0.len() - 1,
                    prev.0.last().push(c),
                ));
            } else {
                start = i;
                open = true;
                assert(info@.subrange(start as int, i + 1) =~= seq![c]);
                assert(string_views(words@) + seq![info@.subrange(start as int, i + 1)] =~= prev.0.push(seq![c]));
            }
            i = i + 1;
        }
        assert(info@.take(n as int) =~= info@);
        if open {
            let w = info.substring_char(start, n).to_owned();
            words.push(w);
        }
        assert(string_views(words@) =~= words_of(info@));
        if words.len() == 0 {
            return FormatInfo { language: String::new(), options: Vec::new() };
        }
        let language = words[0].clone();
        let mut options: Vec<String> = Vec::new();
        let mut j: usize = 1;
        while j < words.len()
            invariant
                1 <= j <= words@.len(),
                string_views(options@) =~= string_views(words@).subrange(1, j as int),
            decreases words@.len() - j,
        {
            let ghost prev = options@;
            options.push(words[j].clone());
            assert(string_views(options@) =~= string_views(prev).push(words@[j as int]@));
            assert(string_views(words@).subrange(1, j + 1) =~= string_views(words@).subrange(1, j as int).push(words@[j as int]@));
            j = j + 1;
        }
        assert(string_views(words@).subrange(1, j as int) =~= string_views(words@).drop_first());
        FormatInfo { language, options }
    }

    /// The format a `text` code block prints in: `format` changed by each
    /// option in turn.
    pub fn text_format(&self, format: Format) -> (r: Result<Format, RenderError>)
        ensures
            self.language@ != "text"@ ==> r == Err::<Format, RenderError>(RenderError::NotText),
            self.language@ == "text"@ ==> match options_format(format, string_views(self.options@)) {
                Ok(g) => r == Ok::<Format, RenderError>(g),
                Err(o) => r matches Err(RenderError::UnknownOption(s)) && s@ == o,
            },
    {
        if !(self.language == "text".to_owned()) {
            return Err(RenderError::NotText);
        }
        let mut f = format;
        let mut i: usize = 0;
        while i < self.options.len()
            invariant
                i <= self.options@.len(),
                self.language@ == "text"@,
                options_format(format, string_views(self.options@).take(i as int)) == Ok::<Format, Seq<char>>(f),
            decreases self.options@.len() - i,
        {
            let o = &self.options[i];
            proof {
                assert(string_views(self.options@).take(i + 1).drop_last() =~= string_views(self.options@).take(i as int));
                assert(string_views(self.options@).take(i + 1).last() == o@);
            }
            if *o == "black".to_owned() {
                f = f.with_red(false);
            } else if *o == "bold".to_owned() {
                f = f.with_flags(FormatFlags::emphasized());
            } else if *o == "doubleheight".to_owned() {
                f = f.with_flags(FormatFlags::double_height());
            } else if *o == "doublewidth".to_owned() {
                f = f.with_flags(FormatFlags::double_width());
            } else if *o == "strikethrough".to_owned() {
                f = f.with_strikethrough(true);
            } else if *o == "underline".to_owned() {
                f = f.with_flags(FormatFlags::underline());
            } else if *o == "wide".to_owned() {
                f = f.without_flags(FormatFlags::narrow());
            } else {
                proof {
                    lemma_unknown_stays(format, string_views(self.options@), (i + 1) as nat);
                }
                return Err(RenderError::UnknownOption(o.clone()));
            }
            i = i + 1;
        }
        assert(string_views(self.options@).take(i as int) =~= string_views(self.options@));
        Ok(f)
    }
}

/// Options of `text` only change flags, colour and strike-out; the indent
/// stays.
pub proof fn lemma_options_keep_indent(f: Format, opts: Seq<Seq<char>>)
    ensures
        options_format(f, opts) matches Ok(g) ==> g.indent == f.indent,
        options_format(f, opts) is Ok == options_format(Format::initial(), opts) is Ok,
        options_format(f, opts) matches Err(o) ==> options_format(Format::initial(), opts) == Err::<Format, Seq<char>>(o),
    decreases opts.len(),
{
    if opts.len() > 0 {
        lemma_options_keep_indent(f, opts.drop_last());
    }
}

/// Bytes that a base64 text decodes to, `None` where it is not valid base64.
pub uninterp spec fn base64_decoded(data: Seq<u8>) -> Option<Seq<u8>>;

/// Relies on base64's standard engine: `decode` gives the decoded bytes of
/// padded standard-alphabet base64, or an error for anything else.
#[verifier::external_body]
fn decode_base64(data: &[u8]) -> (r: Option<Vec<u8>>)
    ensures
        r is None == base64_decoded(data@) is None,
        r matches Some(v) ==> base64_decoded(data@) == Some(v@),
{
    base64::engine::general_purpose::STANDARD.decode(data).ok()
}

/// The bytes without carriage returns and line feeds.
pub open spec fn without_line_breaks(data: Seq<u8>) -> Seq<u8>
    decreases data.len(),
{
    if data.len() == 0 {
        data
    } else if data.last() == 0x0d || data.last() == 0x0a {
        without_line_breaks(data.drop_last())
    } else {
        without_line_breaks(data.drop_last()).push(data.last())
    }
}

/// The payload of a code block: its text as UTF-8, or with `base64` the
/// bytes that its text decodes to once line breaks are taken out.
pub open spec fn payload_of(contents: Seq<char>, base64: bool) -> Option<Seq<u8>> {
    if base64 {
        base64_decoded(without_line_breaks(encode_utf8(contents)))
    } else {
        Some(encode_utf8(contents))
    }
}

/// Reads the payload of a code block.
pub fn block_payload(contents: &str, base64: bool) -> (r: Result<Vec<u8>, RenderError>)
    ensures
        payload_of(contents@, base64) is None ==> r == Err::<Vec<u8>, RenderError>(RenderError::Base64),
        payload_of(contents@, base64) matches Some(p) ==> r matches Ok(v) && v@ == p,
{
    let bytes = contents.as_bytes_vec();
    if !base64 {
        return Ok(bytes);
    }
    let mut kept: Vec<u8> = Vec::new();
    let mut i: usize = 0;
    while i < bytes.len()
        invariant
            i <= bytes@.len(),
            bytes@ == contents.spec_bytes(),
            kept@ == without_line_breaks(bytes@.take(i as int)),
        decreases bytes@.len() - i,
    {
        proof {
            assert(bytes@.take(i + 1).drop_last() =~= bytes@.take(i as int));
        }
        let b = bytes[i];
        if b != 0x0d && b != 0x0a {
            kept.push(b);
        }
        i = i + 1;
    }
    assert(bytes@.take(bytes@.len() as int) =~= bytes@);
    match decode_base64(kept.as_slice()) {
        Some(v) => Ok(v),
        None => Err(RenderError::Base64),
    }
}

/// The first option that is neither `a` nor `b`.
pub open spec fn first_unknown(opts: Seq<Seq<char>>, a: Seq<char>, b: Seq<char>) -> Option<Seq<char>>
    decreases opts.len(),
{
    if opts.len() == 0 {
        None
    } else {
        match first_unknown(opts.drop_last(), a, b) {
            Some(o) => Some(o),
            None => if opts.last() != a && opts.last() != b { Some(opts.last()) } else { None },
        }
    }
}

/// Checks that every option is `a` or `b`, and tells which of the two are
/// present.
fn flag_options(options: &Vec<String>, a: &str, b: &str) -> (r: Result<(bool, bool), RenderError>)
    ensures
        first_unknown(string_views(options@), a@, b@) matches Some(o) ==> r matches Err(RenderError::UnknownOption(s)) && s@ == o,
        first_unknown(string_views(options@), a@, b@) is None ==> r == Ok::<(bool, bool), RenderError>(
            (string_views(options@).contains(a@), string_views(options@).contains(b@)),
        ),
{
    let a_owned = a.to_owned();
    let b_owned = b.to_owned();
    let mut has_a = false;
    let mut has_b = false;
    let mut i: usize = 0;
    while i < options.len()
        invariant
            a_owned@ == a@,
            b_owned@ == b@,
            i <= options@.len(),
            first_unknown(string_views(options@).take(i as int), a@, b@) is None,
            has_a == string_views(options@).take(i as int).contains(a@),
            has_b == string_views(options@).take(i as int).contains(b@),
        decreases options@.len() - i,
    {
        let ghost pre = string_views(options@).take(i as int);
        proof {
            assert(string_views(options@).take(i + 1).drop_last() =~= pre);
            assert(string_views(options@).take(i + 1) =~= pre.push(options@[i as int]@));
        }
        let o = &options[i];
        let is_a = *o == a_owned;
        let is_b = *o == b_owned;
        if !is_a && !is_b {
            proof {
                lemma_first_unknown_stays(string_views(options@), a@, b@, (i + 1) as nat);
            }
            return Err(RenderError::UnknownOption(o.clone()));
        }
        proof {
            assert(pre.push(o@).contains(a@) == (pre.contains(a@) || o@ == a@)) by {
                if o@ == a@ {
                    assert(pre.push(o@)[pre.len() as int] == a@);
                }
                if pre.push(o@).contains(a@) && o@ != a@ {
                    let k = choose|k: int| 0 <= k < pre.push(o@).len() && pre.push(o@)[k] == a@;
                    assert(pre[k] == a@);
                }
            }
            assert(pre.push(o@).contains(b@) == (pre.contains(b@) || o@ == b@)) by {
                if o@ == b@ {
                    assert(pre.push(o@)[pre.len() as int] == b@);
                }
                if pre.push(o@).contains(b@) && o@ != b@ {
                    let k = choose|k: int| 0 <= k < pre.push(o@).len() && pre.push(o@)[k] == b@;
                    assert(pre[k] == b@);
                }
            }
        }
        has_a = has_a || is_a;
        has_b = has_b || is_b;
        i = i + 1;
    }
    assert(string_views(options@).take(i as int) =~= string_views(options@));
    Ok((has_a, has_b))
}

/// Once an option is refused, options after it change nothing.
proof fn lemma_first_unknown_stays(opts: Seq<Seq<char>>, a: Seq<char>, b: Seq<char>, k: nat)
    requires
        k <= opts.len(),
        first_unknown(opts.take(k as int), a, b) is Some,
    ensures
        first_unknown(opts, a, b) == first_unknown(opts.take(k as int), a, b),
    decreases opts.len() - k,
{
    if k < opts.len() {
        assert(opts.take((k + 1) as int).drop_last() =~= opts.take(k as int));
        lemma_first_unknown_stays(opts, a, b, k + 1);
    } else {
        assert(opts.take(k as int) =~= opts);
    }
}

/// How one code block is printed, with its options checked.
pub enum CodeBlockConfig {
    /// A block without a language or with one that is not recognised:
    /// emphasized red text.
    Plain,
    /// Text in the surrounding format changed by the block's options.
    Text(FormatInfo),
    /// A stencil of the text, a pixel per character. `bold` is accepted;
    /// a bit image has one bit per dot, so it prints the same either way.
    Bitmap { bold: bool },
    /// A raster image, its bytes optionally in base64, dithered to black and
    /// white, or to black, white and red with `bicolor`.
    Image { base64: bool, bicolor: bool },
    /// A QR code of the text, or of the bytes it holds in base64. `bold`
    /// is accepted and, as for bitmaps, prints the same.
    QrCode { base64: bool, bold: bool },
    /// A Code 128 barcode of the text. `bold` is accepted and, as for
    /// bitmaps, prints the same.
    Code128 { bold: bool },
}

/// What reading the info string `info` gives: a configuration for the
/// language with its options checked, or the first option it refuses.
pub open spec fn config_from(info: Seq<char>, r: Result<CodeBlockConfig, RenderError>) -> bool {
    let lang = info_language(info);
    let opts = info_options(info);
    &&& lang == "text"@ ==> match options_format(Format::initial(), opts) {
        Ok(_) => r matches Ok(CodeBlockConfig::Text(fi)) && fi.language@ == lang && string_views(fi.options@) == opts,
        Err(o) => r matches Err(RenderError::UnknownOption(s)) && s@ == o,
    }
    &&& lang == "bitmap"@ ==> match first_unknown(opts, "bold"@, "bold"@) {
        None => r == Ok::<CodeBlockConfig, RenderError>(CodeBlockConfig::Bitmap { bold: opts.contains("bold"@) }),
        Some(o) => r matches Err(RenderError::UnknownOption(s)) && s@ == o,
    }
    &&& lang == "image"@ ==> match first_unknown(opts, "base64"@, "bicolor"@) {
        None => r == Ok::<CodeBlockConfig, RenderError>(
            CodeBlockConfig::Image { base64: opts.contains("base64"@), bicolor: opts.contains("bicolor"@) },
        ),
        Some(o) => r matches Err(RenderError::UnknownOption(s)) && s@ == o,
    }
    &&& lang == "qrcode"@ ==> match first_unknown(opts, "base64"@, "bold"@) {
        None => r == Ok::<CodeBlockConfig, RenderError>(
            CodeBlockConfig::QrCode { base64: opts.contains("base64"@), bold: opts.contains("bold"@) },
        ),
        Some(o) => r matches Err(RenderError::UnknownOption(s)) && s@ == o,
    }
    &&& lang == "code128"@ ==> match first_unknown(opts, "bold"@, "bold"@) {
        None => r == Ok::<CodeBlockConfig, RenderError>(CodeBlockConfig::Code128 { bold: opts.contains("bold"@) }),
        Some(o) => r matches Err(RenderError::UnknownOption(s)) && s@ == o,
    }
    &&& (lang != "text"@ && lang != "bitmap"@ && lang != "image"@ && lang != "qrcode"@ && lang != "code128"@)
        ==> r == Ok::<CodeBlockConfig, RenderError>(CodeBlockConfig::Plain)
}

/// The language of an info string and its options.
pub open spec fn info_language(info: Seq<char>) -> Seq<char> {
    if words_of(info).len() > 0 { words_of(info)[0] } else { Seq::empty() }
}

pub open spec fn info_options(info: Seq<char>) -> Seq<Seq<char>> {
    if words_of(info).len() > 0 { words_of(info).drop_first() } else { Seq::empty() }
}

/// Emphasized red: the format of a block printed as plain code.
pub open spec fn plain_format(f: Format) -> Format {
    Format { red: true, flags: FormatFlags { bits: f.flags.bits | 0x08 }, ..f }
}

/// Text written in format `g` on top of the current format, which is then
/// restored.
pub open spec fn text_written(st: RenderState, g: Format, contents: Seq<char>) -> RenderState {
    popped(steps(pushed(st, g), ascii_of(contents)))
}

impl CodeBlockConfig {
    /// What printing the text `contents` of this block leaves: the renderer
    /// `st` becomes `post`, and the block reports `r`.
    pub open spec fn rendered(&self, st: RenderState, post: RenderState, contents: Seq<char>, r: Result<(), RenderError>) -> bool {
        &&& post.wf()
        &&& r is Err ==> post == st
        &&& self matches CodeBlockConfig::Plain ==> r is Ok && post == text_written(st, plain_format(st.format), contents)
        &&& self matches CodeBlockConfig::Text(fi) ==> match fi.language@ == "text"@ {
            false => r == Err::<(), RenderError>(RenderError::NotText),
            true => match options_format(st.format, string_views(fi.options@)) {
                Ok(g) => r is Ok && post == text_written(st, g, contents),
                Err(_) => r is Err,
            },
        }
        &&& self matches CodeBlockConfig::Bitmap { .. } ==> bitmap_written(st, post, contents, r)
        &&& self matches CodeBlockConfig::QrCode { base64, .. } ==> match payload_of(contents, *base64) {
            None => r == Err::<(), RenderError>(RenderError::Base64),
            Some(p) => qrcode_written(st, post, p, r),
        }
        &&& self matches CodeBlockConfig::Code128 { .. } ==> code128_written(st, post, contents, r)
        &&& self matches CodeBlockConfig::Image { .. } ==> r is Ok && post == st
    }

    /// Reads a code block's info string and checks the options of its
    /// language.
    pub fn from_info(info: &str) -> (r: Result<CodeBlockConfig, RenderError>)
        ensures
            config_from(info@, r),
    {
        let fi = FormatInfo::parse(info);
        proof {
            reveal_strlit("text");
            reveal_strlit("bitmap");
            reveal_strlit("image");
            reveal_strlit("qrcode");
            reveal_strlit("code128");
            assert("bitmap"@[0] == 'b' && "qrcode"@[0] == 'q');
            assert("bitmap"@ != "qrcode"@);
            assert(fi.language@ == info_language(info@));
            assert(string_views(fi.options@) == info_options(info@)) by {
                if words_of(info@).len() == 0 {
                    assert(string_views(fi.options@) =~= Seq::<Seq<char>>::empty());
                }
            }
        }
        if fi.language == "text".to_owned() {
            match fi.text_format(Format::new()) {
                Ok(_) => Ok(CodeBlockConfig::Text(fi)),
                Err(e) => Err(e),
            }
        } else if fi.language == "bitmap".to_owned() {
            assert(info_language(info@) == "bitmap"@);
            match flag_options(&fi.options, "bold", "bold") {
                Ok((bold, _)) => Ok(CodeBlockConfig::Bitmap { bold }),
                Err(e) => Err(e),
            }
        } else if fi.language == "image".to_owned() {
            assert(info_language(info@) == "image"@);
            match flag_options(&fi.options, "base64", "bicolor") {
                Ok((base64, bicolor)) => Ok(CodeBlockConfig::Image { base64, bicolor }),
                Err(e) => Err(e),
            }
        } else if fi.language == "qrcode".to_owned() {
            assert(info_language(info@) == "qrcode"@);
            match flag_options(&fi.options, "base64", "bold") {
                Ok((base64, bold)) => Ok(CodeBlockConfig::QrCode { base64, bold }),
                Err(e) => Err(e),
            }
        } else if fi.language == "code128".to_owned() {
            assert(info_language(info@) == "code128"@);
            match flag_options(&fi.options, "bold", "bold") {
                Ok((bold, _)) => Ok(CodeBlockConfig::Code128 { bold }),
                Err(e) => Err(e),
            }
        } else {
            Ok(CodeBlockConfig::Plain)
        }
    }

    /// Prints the text of the block. An image block prints nothing here:
    /// its bytes, from `image_payload`, need decoding and dithering first.
    pub fn render(&self, renderer: &mut Renderer, contents: &str) -> (r: Result<(), RenderError>)
        requires
            old(renderer)@.wf(),
        ensures
            self.rendered(old(renderer)@, final(renderer)@, contents@, r),
    {
        match self {
            CodeBlockConfig::Plain => {
                let f = renderer.format();
                renderer.set_format(f.with_red(true).with_flags(FormatFlags::emphasized()));
                renderer.write(contents);
                renderer.restore_format();
                Ok(())
            },
            CodeBlockConfig::Text(fi) => {
                let f = renderer.format();
                proof {
                    lemma_options_keep_indent(f, string_views(fi.options@));
                }
                match fi.text_format(f) {
                    Ok(g) => {
                        renderer.set_format(g);
                        renderer.write(contents);
                        renderer.restore_format();
                        Ok(())
                    },
                    Err(e) => Err(e),
                }
            },
            CodeBlockConfig::Bitmap { .. } => write_bitmap(renderer, contents),
            CodeBlockConfig::QrCode { base64, .. } => {
                match block_payload(contents, *base64) {
                    Ok(data) => write_qrcode(renderer, data.as_slice()),
                    Err(e) => Err(e),
                }
            },
            CodeBlockConfig::Code128 { .. } => write_code128(renderer, contents),
            CodeBlockConfig::Image { .. } => Ok(()),
        }
    }

    /// For an image block, the image bytes and whether red is enabled.
    pub fn image_payload(&self, contents: &str) -> (r: Result<Option<(Vec<u8>, bool)>, RenderError>)
        ensures
            !(self is Image) ==> r matches Ok(None),
            self matches CodeBlockConfig::Image { base64, bicolor } ==> match payload_of(contents@, *base64) {
                None => r == Err::<Option<(Vec<u8>, bool)>, RenderError>(RenderError::Base64),
                Some(p) => r matches Ok(Some((v, b))) && v@ == p && b == *bicolor,
            },
    {
        match self {
            CodeBlockConfig::Image { base64, bicolor } => match block_payload(contents, *base64) {
                Ok(data) => Ok(Some((data, *bicolor))),
                Err(e) => Err(e),
            },
            _ => Ok(None),
        }
    }
}

} // verus!
