use bum::mime::Mime;
use bum::util::{get_helper, path_to_mimetype};

#[test]
fn mimetype_of_each_known_extension() {
    assert_eq!(path_to_mimetype("index.html"), Mime::new("text", "html"));
    assert_eq!(path_to_mimetype("/a/b.json"), Mime::new("application", "json"));
    assert_eq!(path_to_mimetype("cover.png"), Mime::new("image", "png"));
    assert_eq!(path_to_mimetype("cover.jpg"), Mime::new("image", "jpeg"));
    assert_eq!(path_to_mimetype("cover.jpeg"), Mime::new("image", "jpeg"));
    assert_eq!(path_to_mimetype("notes.txt"), Mime::new("text", "plain"));
    assert_eq!(path_to_mimetype("style.css"), Mime::new("text", "css"));
    assert_eq!(path_to_mimetype("app.js"), Mime::new("application", "javascript"));
    assert_eq!(path_to_mimetype("Cargo.toml"), Mime::new("text", "plain"));
}

#[test]
fn mimetype_of_anything_else_is_octet_stream() {
    let unknown = Mime::new("application", "octet-stream");
    assert_eq!(path_to_mimetype("song.flac"), unknown);
    assert_eq!(path_to_mimetype("README"), unknown);
    assert_eq!(path_to_mimetype(".html"), unknown);
    assert_eq!(path_to_mimetype("cover.JPG"), unknown);
    assert_eq!(path_to_mimetype("dir.html/file"), unknown);
    assert_eq!(path_to_mimetype(""), unknown);
}

#[test]
fn mimetype_goes_by_the_last_extension() {
    assert_eq!(path_to_mimetype("archive.tar.html"), Mime::new("text", "html"));
    assert_eq!(path_to_mimetype("a.html.bak"), Mime::new("application", "octet-stream"));
}

#[test]
fn helper_lies_beside_the_program() {
    assert_eq!(get_helper("/usr/local/bin/bum", "bum-tags"), Ok("/usr/local/bin/bum-tags".to_string()));
    assert_eq!(get_helper("bum", "bum-transcode"), Ok("bum-transcode".to_string()));
    assert_eq!(get_helper("./target/bum", "bum-tags"), Ok("./target/bum-tags".to_string()));
}

#[test]
fn helper_of_a_program_without_directory() {
    assert_eq!(get_helper("/", "bum-tags"), Err(()));
    assert_eq!(get_helper("", "bum-tags"), Err(()));
}
