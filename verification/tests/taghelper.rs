use bum::rpc::{encode, Call, RPCInterface};
use bum::taghelper::{cover_to_value, parse_request, tags_to_value, RequestError, TagRequest};
use bum::tagparser::Server;
use bum::value::Value;

fn call_of(method: &str, args: Vec<Value>) -> Call {
    Call { method: method.to_string(), args }
}

fn over_the_wire(value: &Value) -> Option<Value> {
    let mut rpc = RPCInterface::new();
    let mut cursor = 0;
    rpc.read_value(&encode(value), &mut cursor).unwrap()
}

#[test]
fn parse_request_of_tags_and_cover() {
    let path = Value::String("/music/a.flac".to_string());
    assert_eq!(
        parse_request(&call_of("tags", vec![path.clone()])),
        Ok(TagRequest::Tags("/music/a.flac".to_string()))
    );
    assert_eq!(
        parse_request(&call_of("cover", vec![path, Value::Integer(1)])),
        Ok(TagRequest::Cover("/music/a.flac".to_string()))
    );
}

#[test]
fn parse_request_names_what_is_illegal() {
    assert_eq!(parse_request(&call_of("tags", vec![])), Err(RequestError::IllegalTags));
    assert_eq!(
        parse_request(&call_of("tags", vec![Value::Bulk("/a".to_string())])),
        Err(RequestError::IllegalTags)
    );
    assert_eq!(parse_request(&call_of("cover", vec![])), Err(RequestError::IllegalCover));
    assert_eq!(
        parse_request(&call_of("cover", vec![Value::Integer(1), Value::String("/a".to_string())])),
        Err(RequestError::IllegalCover)
    );
    assert_eq!(
        parse_request(&call_of("quit", vec![Value::String("/a".to_string())])),
        Err(RequestError::IllegalCommand)
    );
    assert_eq!(parse_request(&call_of("TAGS", vec![])), Err(RequestError::IllegalCommand));
}

#[test]
fn tags_to_value_joins_name_and_value_with_a_colon() {
    let tags = vec![
        ("TITLE".to_string(), "So What".to_string()),
        ("DATE".to_string(), "".to_string()),
    ];
    assert_eq!(
        tags_to_value(&tags),
        Value::Array(vec![Value::Bulk("TITLE:So What".to_string()), Value::Bulk("DATE:".to_string())])
    );
}

#[test]
fn cover_to_value_is_media_type_then_data() {
    assert_eq!(
        cover_to_value("image/png".to_string(), vec![1, 2]),
        Value::Array(vec![Value::String("image/png".to_string()), Value::BufBulk(vec![1, 2])])
    );
}

#[test]
fn tags_travel_from_helper_to_server() {
    let tags = vec![
        ("TITLE".to_string(), "Caf\u{e9}: a\nb".to_string()),
        ("ARTIST".to_string(), "Miles Davis".to_string()),
        ("ALBUM".to_string(), "Kind of Blue".to_string()),
        ("TRACKNUMBER".to_string(), "2/5".to_string()),
    ];
    let reply = over_the_wire(&tags_to_value(&tags));
    let read = Server::load_tags(reply).unwrap();
    assert_eq!(read.title(), Some("Caf\u{e9}: a\nb"));
    assert_eq!(read.artist(), Some("Miles Davis"));
    assert_eq!(read.album(), Some("Kind of Blue"));
    assert_eq!(read.track(), (Some(2), Some(5)));
}

#[test]
fn cover_travels_from_helper_to_server() {
    let data: Vec<u8> = (0..=255).chain([10, 13, 10]).collect();
    let reply = over_the_wire(&cover_to_value("image/jpeg".to_string(), data.clone()));
    let now = bum::media::Timestamp { sec: 1, nsec: 2 };
    let cover = Server::load_cover(reply, None, now).unwrap();
    assert_eq!(cover.data, data);
    assert!(cover.mimetype.is_jpeg());
}
