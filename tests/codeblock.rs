use mdprint::{Format, FormatFlags, FormatInfo, RenderError};

#[test]
fn format_info_parse() {
    let tests = [
        (
            "",
            FormatInfo {
                language: "".into(),
                options: vec![],
            },
        ),
        (
            "foo",
            FormatInfo {
                language: "foo".into(),
                options: vec![],
            },
        ),
        (
            "  text\t",
            FormatInfo {
                language: "text".into(),
                options: vec![],
            },
        ),
        (
            " text  black  bold ",
            FormatInfo {
                language: "text".into(),
                options: vec!["black".into(), "bold".into()],
            },
        ),
    ];
    for (info, expected) in tests {
        assert_eq!(FormatInfo::parse(info), expected);
    }
}

#[test]
fn format_info_text_format() {
    let base = Format::new().with_red(true);

    let error = ["text bold blah", "foo bold"];
    for info in error {
        FormatInfo::parse(info).text_format(base.clone()).unwrap_err();
    }

    let success = [
        ("text", base.clone()),
        ("text black", base.with_red(false)),
        (
            "text black bold",
            base.with_red(false).with_flags(FormatFlags::emphasized()),
        ),
    ];
    for (info, expected) in success {
        assert_eq!(
            FormatInfo::parse(info).text_format(base.clone()).unwrap(),
            expected
        );
    }
}

#[test]
fn unknown_text_option_is_named() {
    let err = FormatInfo::parse("text bold blah")
        .text_format(Format::new())
        .unwrap_err();
    assert_eq!(err, RenderError::UnknownOption("blah".to_string()));
}

#[test]
fn text_option_not_text_language() {
    let err = FormatInfo::parse("foo bold").text_format(Format::new()).unwrap_err();
    assert_eq!(err, RenderError::NotText);
}

#[test]
fn text_black_bold_sets_color_and_emphasis() {
    let f = FormatInfo::parse("text black bold")
        .text_format(Format::new().with_red(true))
        .unwrap();
    assert!(!f.red);
    assert_eq!(f.flags.bits & 0x08, 0x08);
}

#[test]
fn text_all_options() {
    let f = FormatInfo::parse("text doubleheight doublewidth strikethrough underline wide")
        .text_format(Format::new())
        .unwrap();
    assert_eq!(f.flags.bits, 0x10 | 0x20 | 0x80);
    assert!(f.strikethrough);
}

#[test]
fn parse_splits_unicode_whitespace() {
    let info = FormatInfo::parse("image\u{3000}base64\u{a0}bicolor");
    assert_eq!(info.language, "image");
    assert_eq!(info.options, vec!["base64".to_string(), "bicolor".to_string()]);
}
