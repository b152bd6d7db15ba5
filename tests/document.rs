use mdprint::document::list_marker;
use mdprint::{decode_image, DocEvent, Document, Format, RenderError, Rgb};

fn program(flags: u8, spacing: u8, red: u8, uni: u8, just: u8) -> Vec<u8> {
    vec![0x1b, 0x21, flags, 0x1b, 0x33, spacing, 0x1b, 0x72, red, 0x1b, 0x55, uni, 0x1b, 0x61, just]
}

const CUT: [u8; 4] = [0x1d, 0x56, 0x42, 0x50];

fn run(events: Vec<DocEvent>) -> Vec<u8> {
    let mut d = Document::new();
    for e in events {
        assert!(d.handle(e).unwrap().is_none());
    }
    d.finish()
}

#[test]
fn markers() {
    assert_eq!(list_marker(Some(1)), " 1. ");
    assert_eq!(list_marker(Some(10)), "10. ");
    assert_eq!(list_marker(Some(123)), "123. ");
    assert_eq!(list_marker(None), "  - ");
}

#[test]
fn paragraph_then_cut() {
    let out = run(vec![DocEvent::Text("hi".into()), DocEvent::EndParagraph]);
    let mut expected = vec![0x1b, 0x40];
    expected.extend(program(0x01, 24, 0, 0, 0));
    expected.extend_from_slice(b"hi\r\n\n");
    expected.extend_from_slice(&CUT);
    assert_eq!(out, expected);
}

#[test]
fn heading_level_one_format() {
    let out = run(vec![DocEvent::StartHeading(1), DocEvent::Text("T".into()), DocEvent::EndHeading]);
    let mut expected = vec![0x1b, 0x40];
    expected.extend(program(0x01 | 0xb8, 24, 0, 1, 1));
    expected.extend_from_slice(b"T\r\n\n");
    expected.extend_from_slice(&CUT);
    assert_eq!(out, expected);
}

#[test]
fn numbered_list_items() {
    let out = run(vec![
        DocEvent::StartList(Some(9)),
        DocEvent::StartItem,
        DocEvent::Text("a".into()),
        DocEvent::EndItem,
        DocEvent::StartItem,
        DocEvent::Text("b".into()),
        DocEvent::EndItem,
        DocEvent::EndList,
    ]);
    let has = |needle: &[u8]| out.windows(needle.len()).any(|w| w == needle);
    assert!(has(b" 9. "));
    assert!(has(b"10. "));
    assert!(!has(b"11. "));
    let mut item = program(0x01, 24, 0, 0, 0);
    item.extend_from_slice(b"a\r\n");
    assert!(has(&item));
}

#[test]
fn blockquote_indents() {
    let out = run(vec![
        DocEvent::StartBlockQuote,
        DocEvent::Text("q".into()),
        DocEvent::EndParagraph,
        DocEvent::EndBlockQuote,
    ]);
    let mut expected = vec![0x1b, 0x40];
    expected.extend(program(0x01, 24, 0, 0, 0));
    expected.extend_from_slice(b"    q\r\n\n");
    expected.extend_from_slice(&CUT);
    assert_eq!(out, expected);
}

#[test]
fn inline_code_is_red() {
    let out = run(vec![DocEvent::Code("x".into()), DocEvent::EndParagraph]);
    let mut expected = vec![0x1b, 0x40];
    expected.extend(program(0x01, 24, 1, 0, 0));
    expected.extend_from_slice(b"x\r\n\n");
    expected.extend_from_slice(&CUT);
    assert_eq!(out, expected);
}

#[test]
fn unbalanced_events_are_errors() {
    let mut d = Document::new();
    assert_eq!(d.handle(DocEvent::EndEmphasis).unwrap_err(), RenderError::Unbalanced);
    assert_eq!(d.handle(DocEvent::EndHeading).unwrap_err(), RenderError::Unbalanced);
    assert_eq!(d.handle(DocEvent::StartItem).unwrap_err(), RenderError::Unbalanced);
    assert_eq!(d.handle(DocEvent::EndCodeBlock).unwrap_err(), RenderError::Unbalanced);
    d.handle(DocEvent::StartCodeBlock("text".into())).unwrap();
    assert_eq!(d.handle(DocEvent::StartCodeBlock("text".into())).unwrap_err(), RenderError::Unbalanced);
}

#[test]
fn code_block_option_error() {
    let mut d = Document::new();
    assert_eq!(
        d.handle(DocEvent::StartCodeBlock("text bold blah".into())).unwrap_err(),
        RenderError::UnknownOption("blah".into())
    );
}

#[test]
fn image_block_hands_back_payload() {
    let mut d = Document::new();
    d.handle(DocEvent::StartCodeBlock("image base64".into())).unwrap();
    let (data, bicolor) = d.handle(DocEvent::Text("aGk=\n".into())).unwrap().unwrap();
    assert_eq!(data, b"hi".to_vec());
    assert!(!bicolor);
}

#[test]
fn text_block_uses_options() {
    let out = run(vec![
        DocEvent::StartCodeBlock("text bold".into()),
        DocEvent::Text("z\n".into()),
        DocEvent::EndCodeBlock,
    ]);
    let mut expected = vec![0x1b, 0x40];
    expected.extend(program(0x09, 24, 0, 0, 0));
    expected.extend_from_slice(b"z\r\n");
    expected.extend_from_slice(&CUT);
    assert_eq!(out, expected);
    let _ = Format::new();
}

fn png(width: u32, height: u32, pixels: &[[u8; 3]]) -> Vec<u8> {
    let img = image::RgbImage::from_fn(width, height, |x, y| image::Rgb(pixels[(y * width + x) as usize]));
    let mut out = std::io::Cursor::new(Vec::new());
    img.write_to(&mut out, image::ImageOutputFormat::Png).unwrap();
    out.into_inner()
}

#[test]
fn decodes_png() {
    let bytes = png(2, 1, &[[255, 0, 0], [0, 0, 0]]);
    let img = decode_image(&bytes).unwrap();
    assert_eq!((img.width, img.height), (2, 1));
    assert_eq!(img.pixels, vec![Rgb { r: 255, g: 0, b: 0 }, Rgb { r: 0, g: 0, b: 0 }]);
    assert!(matches!(decode_image(b"not an image"), Err(RenderError::ImageDecode)));
}
