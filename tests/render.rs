use mdprint::{bit_image_prologue, strikethrough_char_map, Format, FormatFlags, Justification, RenderError, Renderer, Strike, StrikeImage};

const RESET: [u8; 2] = [0x1b, 0x40];

fn program(flags: u8, spacing: u8, red: u8, uni: u8, just: u8) -> Vec<u8> {
    vec![0x1b, 0x21, flags, 0x1b, 0x33, spacing, 0x1b, 0x72, red, 0x1b, 0x55, uni, 0x1b, 0x61, just]
}

fn default_program() -> Vec<u8> {
    program(0x01, 24, 0, 0, 0)
}

fn printed(r: &mut Renderer) -> Vec<u8> {
    let out = r.print();
    assert_eq!(&out[..2], &RESET);
    out[2..].to_vec()
}

#[test]
fn new_renderer_resets_printer() {
    let mut r = Renderer::new();
    assert_eq!(r.print(), RESET.to_vec());
    assert_eq!(r.print(), Vec::<u8>::new());
}

#[test]
fn short_line_one_black_pass() {
    let mut r = Renderer::new();
    r.write("ab\n");
    let mut expected = default_program();
    expected.extend_from_slice(b"ab\r\n");
    assert_eq!(printed(&mut r), expected);
}

#[test]
fn empty_line_is_one_newline() {
    let mut r = Renderer::new();
    r.write("\n");
    assert_eq!(printed(&mut r), b"\n".to_vec());
}

#[test]
fn word_waits_for_break() {
    let mut r = Renderer::new();
    r.write("ab");
    assert_eq!(printed(&mut r), Vec::<u8>::new());
    r.write(" ");
    let mut expected = Vec::new();
    r.write("\n");
    expected.extend(default_program());
    expected.extend_from_slice(b"ab\r\n");
    assert_eq!(r.print(), expected);
}

#[test]
fn non_ascii_and_controls_become_question_marks() {
    let mut r = Renderer::new();
    r.write("é\u{1}\tx\n");
    let mut expected = default_program();
    expected.extend_from_slice(b"??\tx\r\n");
    assert_eq!(printed(&mut r), expected);
}

#[test]
fn soft_wrap_drops_leading_space() {
    let mut r = Renderer::new();
    let first = "a".repeat(30);
    let second = "b".repeat(15);
    r.write(&format!("{} {}\n", first, second));
    let mut expected = default_program();
    expected.extend_from_slice(first.as_bytes());
    expected.extend_from_slice(b"\r\n");
    expected.extend(default_program());
    expected.extend_from_slice(second.as_bytes());
    expected.extend_from_slice(b"\r\n");
    assert_eq!(printed(&mut r), expected);
}

#[test]
fn overlong_word_breaks_mid_word() {
    let mut r = Renderer::new();
    let word = "x".repeat(41);
    r.write(&format!("{}\n", word));
    let mut expected = default_program();
    expected.extend_from_slice("x".repeat(40).as_bytes());
    expected.extend_from_slice(b"\r\n");
    expected.extend(default_program());
    expected.extend_from_slice(b"x\r\n");
    assert_eq!(printed(&mut r), expected);
}

#[test]
fn line_never_exceeds_budget() {
    let mut r = Renderer::new();
    r.set_format(Format::new().without_flags(FormatFlags::narrow()));
    let text = "lorem ipsum dolor sit amet consectetur adipiscing elit sed do eiusmod tempor\n";
    r.write(text);
    let out = printed(&mut r);
    for line in out.split(|b| *b == b'\n').filter(|l| !l.is_empty()) {
        let body = &line[15..line.len() - 1];
        assert!(body.len() * 10 <= 320, "line of {} cells", body.len());
    }
}

#[test]
fn indent_applies_at_line_start() {
    let mut r = Renderer::new();
    r.set_format(Format::new().with_added_indent(2));
    r.write("hi\n");
    let mut expected = default_program();
    expected.extend_from_slice(b"  hi\r\n");
    assert_eq!(printed(&mut r), expected);
}

#[test]
fn set_and_restore_format() {
    let mut r = Renderer::new();
    let before = r.format();
    r.set_format(before.with_red(true));
    assert!(r.format().red);
    r.set_format(r.format().with_added_indent(4));
    r.restore_format();
    r.restore_format();
    assert_eq!(r.format(), before);
}

#[test]
fn derivation_leaves_source_unchanged() {
    let f = Format::new();
    let copy = f;
    let g = f.with_red(true).with_line_spacing(16).with_justification(Justification::Right);
    assert_eq!(f, copy);
    assert!(g.red);
    assert_eq!(g.line_spacing, 16);
    assert_eq!(g.justification, Justification::Right);
    assert_eq!(g.indent, f.indent);
}

#[test]
fn red_line_prints_red_pass_only() {
    let mut r = Renderer::new();
    r.set_format(Format::new().with_red(true));
    r.write("ab\n");
    let mut expected = program(0x01, 24, 1, 0, 0);
    expected.extend_from_slice(b"ab\r\n");
    assert_eq!(printed(&mut r), expected);
}

#[test]
fn mixed_line_with_strikethrough_passes() {
    let mut r = Renderer::new();
    r.write("a ");
    r.set_format(Format::new().with_red(true).with_strikethrough(true));
    r.write("b\n");
    let out = printed(&mut r);
    let black_red = program(0x01, 24, 1, 0, 0);
    let mut expected = Vec::new();
    // black pass: the red unit is blanked under a black, non-underlined format
    expected.extend(default_program());
    expected.extend_from_slice(b"a ");
    expected.extend(program(0x01, 24, 0, 0, 0));
    expected.extend_from_slice(b" \r");
    // red pass
    expected.extend(program(0x01, 24, 1, 0, 0));
    expected.extend_from_slice(b"  ");
    expected.extend(black_red.clone());
    expected.extend_from_slice(b"b\r");
    // red strike-out pass
    expected.extend(program(0x01, 24, 1, 0, 0));
    expected.extend_from_slice(b"  ");
    expected.extend(black_red);
    expected.extend_from_slice(&[0x1b, 0x2a, 0, 5, 0, 8, 8, 8, 8, 8]);
    expected.extend_from_slice(b"\r\n");
    assert_eq!(out, expected);
}

#[test]
fn cut_flushes_line_and_cuts() {
    let mut r = Renderer::new();
    r.cut();
    assert_eq!(printed(&mut r), vec![0x1d, 0x56, 0x42, 0x50]);
}

#[test]
fn prologue_bytes_and_limit() {
    assert_eq!(bit_image_prologue(300).unwrap(), vec![0x1b, 0x2a, 0, 0x2c, 0x01]);
    assert_eq!(bit_image_prologue(70000), Err(RenderError::BitImageTooWide(70000)));
}

#[test]
fn strikethrough_map_widths() {
    assert_eq!(strikethrough_char_map(b'x', &Format::new(), true), vec![0x1b, 0x2a, 0, 5, 0, 8, 8, 8, 8, 8]);
    let wide = Format::new().without_flags(FormatFlags::narrow()).with_flags(FormatFlags::double_width());
    let out = strikethrough_char_map(b'x', &wide, true);
    assert_eq!(out.len(), 5 + 12);
    assert_eq!(strikethrough_char_map(b'x', &wide, false), vec![b' ']);
}

fn image(width: u32, height: u32, f: impl Fn(u32, u32) -> Strike) -> StrikeImage {
    let mut img = StrikeImage::from_pixel(width, height, Strike([0, 0])).unwrap();
    for y in 0..height {
        for x in 0..width {
            img.put_pixel(x, y, f(x, y));
        }
    }
    img
}

#[test]
fn image_bands_padded_blank() {
    let mut r = Renderer::new();
    let img = image(200, 9, |_, _| Strike([1, 0]));
    r.write_image(&img).unwrap();
    let out = printed(&mut r);
    let band_program = program(0x01, 16, 0, 1, 1);
    let mut expected = Vec::new();
    for byte in [0xffu8, 0x80] {
        expected.extend(band_program.clone());
        expected.extend_from_slice(&[0x1b, 0x2a, 0, 200, 0]);
        expected.extend(std::iter::repeat(byte).take(200));
        expected.extend_from_slice(b"\r\n");
    }
    assert_eq!(out, expected);
    assert_eq!(r.format(), Format::new());
}

#[test]
fn image_red_channel_band() {
    let mut r = Renderer::new();
    let img = image(2, 1, |x, _| if x == 0 { Strike([0, 1]) } else { Strike([1, 0]) });
    r.write_image(&img).unwrap();
    let out = printed(&mut r);
    // black pass, then red pass; the red units are blanks in the black pass
    assert_eq!(&out[..15], &program(0x01, 16, 0, 1, 1)[..]);
    assert_eq!(&out[15..22], &[0x1b, 0x2a, 0, 2, 0, 0x00, 0x80]);
    assert_eq!(&out[22..37], &program(0x01, 16, 0, 1, 1)[..]);
    assert_eq!(&out[37..44], &[b' '; 7]);
    assert_eq!(out[44], b'\r');
    assert_eq!(&out[out.len() - 9..], &[0x1b, 0x2a, 0, 2, 0, 0x80, 0x00, b'\r', b'\n']);
}

#[test]
fn image_errors() {
    let mut r = Renderer::new();
    let wide = image(201, 1, |_, _| Strike([1, 0]));
    assert_eq!(r.write_image(&wide), Err(RenderError::ImageTooWide(201)));
    let empty = image(0, 4, |_, _| Strike([1, 0]));
    assert_eq!(r.write_image(&empty), Err(RenderError::EmptyImage));
    assert_eq!(printed(&mut r), Vec::<u8>::new());
}

#[test]
fn format_commands_read_back_in_order() {
    let mut r = Renderer::new();
    r.write("a ");
    r.set_format(r.format().with_flags(FormatFlags::emphasized()).with_line_spacing(30));
    r.write("b ");
    r.set_format(r.format().with_justification(Justification::Right).with_unidirectional(true));
    r.write("c\n");
    let out = printed(&mut r);
    let mut tuples = Vec::new();
    let mut i = 0;
    while i + 15 <= out.len() {
        if out[i] == 0x1b && out[i + 1] == 0x21 {
            tuples.push((out[i + 2], out[i + 5], out[i + 8], out[i + 11], out[i + 14]));
            i += 15;
        } else {
            i += 1;
        }
    }
    assert_eq!(tuples, vec![(0x01, 24, 0, 0, 0), (0x09, 30, 0, 0, 0), (0x09, 30, 0, 1, 2)]);
}

#[test]
fn nested_formats_restore_in_order() {
    let mut r = Renderer::new();
    let base = r.format();
    r.set_format(base.with_red(true));
    r.write("a ");
    r.set_format(r.format().with_strikethrough(true));
    r.write("b\n");
    r.cut();
    r.restore_format();
    assert!(r.format().red && !r.format().strikethrough);
    r.set_format(Format::new().with_added_indent(8));
    r.restore_format();
    r.restore_format();
    assert_eq!(r.format(), base);
    assert_eq!(r.saved_formats(), 0);
}

#[test]
fn flush_word_and_line_explicitly() {
    let mut r = Renderer::new();
    r.write("ab");
    r.write_word();
    r.spool_line();
    let mut expected = default_program();
    expected.extend_from_slice(b"ab\r\n");
    assert_eq!(printed(&mut r), expected);
    r.spool_line();
    assert_eq!(r.print(), b"\n".to_vec());
}
