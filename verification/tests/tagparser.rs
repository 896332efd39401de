use bum::media::Timestamp;
use bum::mime::Mime;
use bum::rpc::{encode, ProtocolError};
use bum::tagparser::{parse_number_pair, Server, Tags};
use bum::value::Value;

fn tags_of(entries: &[(&str, &str)]) -> Tags {
    Tags::new(entries.iter().map(|(k, v)| (k.to_string(), v.to_string())).collect())
}

fn bulk(text: &str) -> Value {
    Value::BufBulk(text.as_bytes().to_vec())
}

const NOW: Timestamp = Timestamp { sec: 1_700_000_000, nsec: 5 };

#[test]
fn tags_by_name() {
    let tags = tags_of(&[
        ("TITLE", "So What"),
        ("ARTIST", "Miles Davis"),
        ("ALBUM", "Kind of Blue"),
        ("DATE", "1959"),
        ("TRACKNUMBER", "1/5"),
        ("DISCNUMBER", "2/3"),
    ]);
    assert_eq!(tags.title(), Some("So What"));
    assert_eq!(tags.artist(), Some("Miles Davis"));
    assert_eq!(tags.album(), Some("Kind of Blue"));
    assert_eq!(tags.year(), Some(1959));
    assert_eq!(tags.track(), (Some(1), Some(5)));
    assert_eq!(tags.disc(), (Some(2), Some(3)));
}

#[test]
fn tags_that_are_missing() {
    let tags = tags_of(&[("GENRE", "Jazz"), ("title", "lower case is another name")]);
    assert_eq!(tags.title(), None);
    assert_eq!(tags.artist(), None);
    assert_eq!(tags.album(), None);
    assert_eq!(tags.year(), None);
    assert_eq!(tags.track(), (None, None));
    assert_eq!(tags.disc(), (None, None));
}

#[test]
fn tags_where_a_name_occurs_twice_the_later_entry_counts() {
    let tags = tags_of(&[("TITLE", "first"), ("ARTIST", "a"), ("TITLE", "second")]);
    assert_eq!(tags.title(), Some("second"));
    assert_eq!(tags.artist(), Some("a"));
}

#[test]
fn tags_year_that_is_no_number() {
    assert_eq!(tags_of(&[("DATE", "1959-08-17")]).year(), None);
    assert_eq!(tags_of(&[("DATE", "")]).year(), None);
    assert_eq!(tags_of(&[("DATE", "+1959")]).year(), Some(1959));
    assert_eq!(tags_of(&[("DATE", "4294967296")]).year(), None);
}

#[test]
fn number_pairs() {
    assert_eq!(parse_number_pair("3/12"), (Some(3), Some(12)));
    assert_eq!(parse_number_pair("3"), (Some(3), None));
    assert_eq!(parse_number_pair("3/"), (Some(3), None));
    assert_eq!(parse_number_pair("/12"), (None, Some(12)));
    assert_eq!(parse_number_pair("x/12"), (None, Some(12)));
    assert_eq!(parse_number_pair("3/x"), (Some(3), None));
    assert_eq!(parse_number_pair("3/12/99"), (Some(3), Some(12)));
    assert_eq!(parse_number_pair(""), (None, None));
    assert_eq!(parse_number_pair("/"), (None, None));
    assert_eq!(parse_number_pair("03/012"), (Some(3), Some(12)));
}

#[test]
fn number_pairs_as_std_splits_them() {
    for text in ["3/12", "3", "3/", "/12", "a/b/c", "", "/", "//", "1//2", "7/8/9/10"] {
        let mut parts = text.split('/').take(2);
        let first = parts.next().and_then(|s| s.parse::<u32>().ok());
        let second = parts.next().and_then(|s| s.parse::<u32>().ok());
        assert_eq!(parse_number_pair(text), (first, second), "{:?}", text);
    }
}

#[test]
fn request_tags_is_a_call_of_tags_with_the_path() {
    let mut stream = Vec::new();
    Server::request_tags(&mut stream, "/music/a.flac");
    assert_eq!(
        stream,
        encode(&Value::Array(vec![
            Value::String("tags".to_string()),
            Value::String("/music/a.flac".to_string())
        ]))
    );
}

#[test]
fn request_cover_is_a_call_of_cover_with_the_path() {
    let mut stream = Vec::new();
    Server::request_cover(&mut stream, "/music/a.flac");
    assert_eq!(stream, b"*2\r\n+cover\r\n+/music/a.flac\r\n".to_vec());
}

#[test]
fn receive_hands_out_the_reply_when_it_is_complete() {
    let reply = Value::Array(vec![bulk("TITLE:a"), bulk("ARTIST:b\nc")]);
    let stream = encode(&reply);
    let mut server = Server::start();
    let mut got = None;
    for line in stream.split_inclusive(|byte| *byte == b'\n') {
        assert_eq!(got, None);
        got = server.receive(line).unwrap();
    }
    assert_eq!(got, Some(reply));
}

#[test]
fn receive_reports_malformed_bytes() {
    let mut server = Server::start();
    assert_eq!(server.receive(b"what?\r\n"), Err(ProtocolError::Malformed));
}

#[test]
fn load_tags_reads_name_and_value_of_each_entry() {
    let reply = Value::Array(vec![
        bulk("TITLE:So What"),
        Value::Bulk("ARTIST:Miles Davis".to_string()),
        Value::String("COMMENT:a:b:c".to_string()),
        bulk("EMPTY:"),
        bulk(":no name"),
    ]);
    let tags = Server::load_tags(Some(reply)).unwrap();
    assert_eq!(tags.title(), Some("So What"));
    assert_eq!(tags.artist(), Some("Miles Davis"));
    assert_eq!(tags.album(), None);
    let all = format!("{:?}", tags);
    assert!(all.contains("(\"COMMENT\", \"a:b:c\")"));
    assert!(all.contains("(\"EMPTY\", \"\")"));
    assert!(all.contains("(\"\", \"no name\")"));
}

#[test]
fn load_tags_of_an_empty_array_gives_no_tags() {
    let tags = Server::load_tags(Some(Value::Array(vec![]))).unwrap();
    assert_eq!(tags.title(), None);
}

#[test]
fn load_tags_of_an_entry_without_colon() {
    let reply = Value::Array(vec![bulk("TITLE:a"), bulk("no colon here")]);
    assert_eq!(Server::load_tags(Some(reply)).unwrap_err(), "Bad response from tagserver");
}

#[test]
fn load_tags_of_an_entry_that_is_no_text() {
    let reply = Value::Array(vec![bulk("TITLE:a"), Value::Integer(1)]);
    assert_eq!(Server::load_tags(Some(reply)).unwrap_err(), "Bad response from tagserver");
    let reply = Value::Array(vec![Value::BufBulk(vec![b'a', b':', 0xff])]);
    assert_eq!(Server::load_tags(Some(reply)).unwrap_err(), "Bad response from tagserver");
}

#[test]
fn load_tags_of_an_error_reply() {
    let reply = Value::Error("Error".to_string());
    assert_eq!(Server::load_tags(Some(reply)).unwrap_err(), "Error");
}

#[test]
fn load_tags_of_a_helper_that_went_away() {
    assert_eq!(Server::load_tags(None).unwrap_err(), "No response from tagserver");
}

#[test]
fn load_tags_of_a_reply_of_the_wrong_kind() {
    for reply in [Value::Null, Value::Integer(3), bulk("TITLE:a"), Value::String("x".to_string())] {
        assert_eq!(Server::load_tags(Some(reply)).unwrap_err(), "Bad response from tagserver");
    }
}

#[test]
fn load_cover_reads_media_type_and_data() {
    let reply =
        Value::Array(vec![Value::String("image/png".to_string()), Value::BufBulk(vec![1, 2, 3])]);
    let cover = Server::load_cover(Some(reply), Some(Timestamp { sec: 12, nsec: 34 }), NOW).unwrap();
    assert_eq!(cover.data, vec![1, 2, 3]);
    assert_eq!(cover.mimetype, Mime::new("image", "png"));
    assert_eq!(cover.mtime, Timestamp { sec: 12, nsec: 34 });
}

#[test]
fn load_cover_without_file_time_takes_the_present_time() {
    let reply = Value::Array(vec![Value::String("IMAGE/JPEG".to_string()), Value::BufBulk(vec![])]);
    let cover = Server::load_cover(Some(reply), None, NOW).unwrap();
    assert_eq!(cover.mimetype, Mime::new("image", "jpeg"));
    assert_eq!(cover.mtime, NOW);
}

#[test]
fn load_cover_takes_an_array_of_exactly_two_elements() {
    for reply in [
        Value::Array(vec![]),
        Value::Array(vec![Value::BufBulk(vec![1])]),
        Value::Array(vec![Value::String("image/png".to_string())]),
        Value::Array(vec![
            Value::Integer(0),
            Value::String("image/gif".to_string()),
            Value::BufBulk(vec![9]),
        ]),
        Value::Array(vec![
            Value::String("x".to_string()),
            Value::String("image/png".to_string()),
            Value::BufBulk(vec![9]),
        ]),
        Value::Array(vec![
            Value::String("image/png".to_string()),
            Value::BufBulk(vec![9]),
            Value::BufBulk(vec![9]),
        ]),
    ] {
        assert_eq!(
            Server::load_cover(Some(reply), None, NOW).unwrap_err(),
            "Bad response from tagserver"
        );
    }
}

#[test]
fn load_cover_of_bad_data() {
    for reply in [
        Value::Array(vec![Value::String("image/png".to_string()), Value::Bulk("x".to_string())]),
        Value::Array(vec![
            Value::String("image/png".to_string()),
            Value::String("image/png".to_string()),
        ]),
        Value::Array(vec![Value::BufBulk(vec![1]), Value::String("image/png".to_string())]),
    ] {
        assert_eq!(
            Server::load_cover(Some(reply), None, NOW).unwrap_err(),
            "Bad data response from tagserver"
        );
    }
}

#[test]
fn load_cover_of_a_bad_media_type() {
    for reply in [
        Value::Array(vec![Value::BufBulk(b"image/png".to_vec()), Value::BufBulk(vec![1])]),
        Value::Array(vec![Value::Bulk("image/png".to_string()), Value::BufBulk(vec![1])]),
        Value::Array(vec![Value::Integer(1), Value::BufBulk(vec![1])]),
    ] {
        assert_eq!(
            Server::load_cover(Some(reply), None, NOW).unwrap_err(),
            "Bad mimetype response from tagserver"
        );
    }
}

#[test]
fn load_cover_of_a_media_type_that_cannot_be_read() {
    for text in ["", "image", "/png", "image/p ng", "im\u{e9}ge/png"] {
        let reply = Value::Array(vec![Value::String(text.to_string()), Value::BufBulk(vec![1])]);
        assert_eq!(
            Server::load_cover(Some(reply), None, NOW).unwrap_err(),
            "Error parsing mimetype response from tagserver",
            "{:?}",
            text
        );
    }
}

#[test]
fn load_cover_of_an_error_reply() {
    let reply = Value::Error("no artwork".to_string());
    assert_eq!(Server::load_cover(Some(reply), None, NOW).unwrap_err(), "no artwork");
}

#[test]
fn load_cover_of_a_helper_that_went_away() {
    assert_eq!(
        Server::load_cover(None, None, NOW).unwrap_err(),
        "No response from tagserver loading cover"
    );
}

#[test]
fn load_cover_of_a_reply_of_the_wrong_kind() {
    assert_eq!(
        Server::load_cover(Some(Value::Integer(1)), None, NOW).unwrap_err(),
        "Bad response from tagserver"
    );
}
