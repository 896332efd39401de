use bum::mime::Mime;

#[test]
fn mime_new_has_no_parameters() {
    let mime = Mime::new("image", "jpeg");
    assert_eq!(mime.top, "image");
    assert_eq!(mime.sub, "jpeg");
    assert!(mime.params.is_empty());
}

#[test]
fn mime_parse_reads_levels_and_parameters() {
    assert_eq!(Mime::parse("image/jpeg"), Some(Mime::new("image", "jpeg")));
    assert_eq!(Mime::parse("Image/PNG"), Some(Mime::new("image", "png")));
    assert_eq!(Mime::parse("application/x-thing"), Some(Mime::new("application", "x-thing")));
    assert_eq!(
        Mime::parse("text/plain; charset=utf-8"),
        Some(Mime {
            top: "text".to_string(),
            sub: "plain".to_string(),
            params: vec![("charset".to_string(), "utf-8".to_string())],
        })
    );
}

#[test]
fn mime_parse_of_what_is_no_media_type() {
    assert_eq!(Mime::parse(""), None);
    assert_eq!(Mime::parse("jpeg"), None);
    assert_eq!(Mime::parse("/jpeg"), None);
    assert_eq!(Mime::parse("image/jp eg"), None);
    assert_eq!(Mime::parse("im\u{e4}ge/jpeg"), None);
    assert_eq!(Mime::parse("image/jpeg; name=\"\u{e4}\""), None);
}

#[test]
fn mime_is_jpeg_only_without_parameters() {
    assert!(Mime::new("image", "jpeg").is_jpeg());
    assert!(Mime::parse("IMAGE/JPEG").unwrap().is_jpeg());
    assert!(!Mime::new("image", "png").is_jpeg());
    assert!(!Mime::new("text", "jpeg").is_jpeg());
    assert!(!Mime::new("image", "jpg").is_jpeg());
    assert!(!Mime::parse("image/jpeg; q=1").unwrap().is_jpeg());
}
