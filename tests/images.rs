use mdprint::codeblock::CodeBlockConfig;
use mdprint::{barcode_image, bitmap_image, qr_image, write_bitmap, write_code128, write_qrcode, RenderError, Renderer};

#[test]
fn bitmap_stencil_pixels() {
    let img = bitmap_image("# #\n#").unwrap();
    assert_eq!((img.width, img.height), (3, 2));
    let blacks: Vec<u8> = img.pixels.iter().map(|s| s.0[0]).collect();
    assert_eq!(blacks, vec![1, 0, 1, 1, 0, 0]);
    assert!(img.pixels.iter().all(|s| s.0[1] == 0));
}

#[test]
fn bitmap_prints_one_band() {
    let mut r = Renderer::new();
    write_bitmap(&mut r, "##\n #").unwrap();
    let out = r.print();
    assert_eq!(&out[2 + 15..2 + 15 + 7], &[0x1b, 0x2a, 0, 2, 0, 0x80, 0xc0]);
}

#[test]
fn bitmap_empty_is_an_error() {
    let mut r = Renderer::new();
    assert_eq!(write_bitmap(&mut r, ""), Err(RenderError::EmptyImage));
}

#[test]
fn qr_text_to_image() {
    let img = qr_image("# \n #").unwrap();
    assert_eq!((img.width, img.height), (2, 2));
    let blacks: Vec<u8> = img.pixels.iter().map(|s| s.0[0]).collect();
    assert_eq!(blacks, vec![1, 0, 0, 1]);
}

#[test]
fn barcode_rows_repeat() {
    let img = barcode_image(&vec![1, 0, 1]).unwrap();
    assert_eq!((img.width, img.height), (3, 24));
    assert_eq!(img.pixels.len(), 72);
    for row in img.pixels.chunks(3) {
        let blacks: Vec<u8> = row.iter().map(|s| s.0[0]).collect();
        assert_eq!(blacks, vec![1, 0, 1]);
    }
}

#[test]
fn qrcode_prints_graphics() {
    let mut r = Renderer::new();
    write_qrcode(&mut r, b"hello").unwrap();
    let out = r.print();
    // A version 1 code with its quiet zone is 29 modules, two dots each.
    let width = 58u8;
    assert_eq!(&out[2 + 15..2 + 20], &[0x1b, 0x2a, 0, width, 0]);
    assert_eq!(out.iter().filter(|b| **b == b'\n').count() >= 8, true);
}

#[test]
fn code128_prints_graphics() {
    let mut r = Renderer::new();
    write_code128(&mut r, "ABC").unwrap();
    let out = r.print();
    assert_eq!(&out[2 + 15..2 + 17], &[0x1b, 0x2a]);
    // 24 rows make three bands
    assert_eq!(out.iter().filter(|b| **b == b'\n').count(), 3);
}

#[test]
fn code128_rejects_non_ascii() {
    let mut r = Renderer::new();
    assert_eq!(write_code128(&mut r, "é"), Err(RenderError::Barcode));
}

#[test]
fn config_from_info() {
    assert!(matches!(CodeBlockConfig::from_info(""), Ok(CodeBlockConfig::Plain)));
    assert!(matches!(CodeBlockConfig::from_info("rust"), Ok(CodeBlockConfig::Plain)));
    assert!(matches!(CodeBlockConfig::from_info("bitmap bold"), Ok(CodeBlockConfig::Bitmap { bold: true })));
    assert!(matches!(
        CodeBlockConfig::from_info("image bicolor"),
        Ok(CodeBlockConfig::Image { base64: false, bicolor: true })
    ));
    assert!(matches!(
        CodeBlockConfig::from_info("qrcode base64"),
        Ok(CodeBlockConfig::QrCode { base64: true, bold: false })
    ));
    assert!(matches!(CodeBlockConfig::from_info("code128"), Ok(CodeBlockConfig::Code128 { bold: false })));
    assert!(matches!(CodeBlockConfig::from_info("text black bold"), Ok(CodeBlockConfig::Text(_))));
    match CodeBlockConfig::from_info("text bold blah") {
        Err(RenderError::UnknownOption(o)) => assert_eq!(o, "blah"),
        _ => panic!("expected an unknown option"),
    }
    match CodeBlockConfig::from_info("image base64 bold") {
        Err(RenderError::UnknownOption(o)) => assert_eq!(o, "bold"),
        _ => panic!("expected an unknown option"),
    }
}

#[test]
fn plain_block_is_red_emphasized() {
    let mut r = Renderer::new();
    let cfg = CodeBlockConfig::from_info("").unwrap();
    cfg.render(&mut r, "x\n").unwrap();
    let out = r.print();
    assert_eq!(&out[2..17], &[0x1b, 0x21, 0x09, 0x1b, 0x33, 24, 0x1b, 0x72, 1, 0x1b, 0x55, 0, 0x1b, 0x61, 0]);
    assert!(!r.format().red);
}

#[test]
fn qrcode_base64_payload() {
    let cfg = CodeBlockConfig::from_info("qrcode base64").unwrap();
    let mut r = Renderer::new();
    assert_eq!(cfg.render(&mut r, "!!!!"), Err(RenderError::Base64));
    let mut plain = Renderer::new();
    write_qrcode(&mut plain, b"hello").unwrap();
    cfg.render(&mut r, "aGVs\nbG8=").unwrap();
    assert_eq!(r.print(), plain.print());
}

#[test]
fn image_payload_base64() {
    let cfg = CodeBlockConfig::from_info("image base64 bicolor").unwrap();
    let (data, bicolor) = cfg.image_payload("aGVs\r\nbG8=").unwrap().unwrap();
    assert_eq!(data, b"hello".to_vec());
    assert!(bicolor);
    let plain = CodeBlockConfig::from_info("image").unwrap();
    let (data, bicolor) = plain.image_payload("raw").unwrap().unwrap();
    assert_eq!(data, b"raw".to_vec());
    assert!(!bicolor);
}

#[test]
fn bitmap_white_space_is_blank() {
    let img = bitmap_image("#\t#\r").unwrap();
    let blacks: Vec<u8> = img.pixels.iter().map(|s| s.0[0]).collect();
    assert_eq!(blacks, vec![1, 0, 1, 0]);
}

#[test]
fn bitmap_too_wide_is_an_error() {
    let mut r = Renderer::new();
    let wide = "#".repeat(201);
    assert_eq!(write_bitmap(&mut r, &wide), Err(RenderError::ImageTooWide(201)));
    assert_eq!(r.print(), vec![0x1b, 0x40]);
}

#[test]
fn code128_too_wide_is_an_error() {
    let mut r = Renderer::new();
    let payload = "A".repeat(20);
    assert!(matches!(write_code128(&mut r, &payload), Err(RenderError::ImageTooWide(_))));
    assert_eq!(r.print(), vec![0x1b, 0x40]);
}

#[test]
fn code128_too_long_is_refused() {
    let mut r = Renderer::new();
    let payload = "~".repeat(6760);
    assert_eq!(write_code128(&mut r, &payload), Err(RenderError::BarcodeTooLong));
}

#[test]
fn qrcode_too_wide_is_an_error() {
    let mut r = Renderer::new();
    let payload = vec![b'x'; 1500];
    assert!(matches!(write_qrcode(&mut r, &payload), Err(RenderError::ImageTooWide(_))));
    assert_eq!(r.print(), vec![0x1b, 0x40]);
}
