use bum::rpc::{
    call, encode, next_line, parse_call, reply, value_to_string, Call, ProtocolError,
    RPCInterface,
};
use bum::value::Value;

fn text(s: &str) -> String {
    s.to_string()
}

fn decode_all(stream: &[u8]) -> Result<Option<Value>, ProtocolError> {
    let mut rpc = RPCInterface::new();
    let mut cursor = 0;
    rpc.read_value(stream, &mut cursor)
}

fn samples() -> Vec<Value> {
    vec![
        Value::Null,
        Value::NullArray,
        Value::String(text("")),
        Value::String(text("OK")),
        Value::String(text("caf\u{e9} \u{4e2d}\u{6587}")),
        Value::Error(text("Error")),
        Value::Integer(0),
        Value::Integer(-42),
        Value::Integer(i64::MAX),
        Value::Integer(i64::MIN),
        Value::BufBulk(vec![]),
        Value::BufBulk(b"TITLE:So What".to_vec()),
        Value::BufBulk(vec![0, 10, 13, 10, 255, 10, 10]),
        Value::BufBulk((0..=255).collect()),
        Value::Array(vec![]),
        Value::Array(vec![Value::String(text("tags")), Value::String(text("/music/a.flac"))]),
        Value::Array(vec![
            Value::String(text("image/jpeg")),
            Value::BufBulk(vec![255, 216, 255, 10, 10, 13, 10, 0]),
        ]),
        Value::Array(vec![
            Value::Array(vec![Value::Integer(1), Value::Null]),
            Value::Array(vec![]),
            Value::Array(vec![Value::Array(vec![Value::BufBulk(b"\n".to_vec())])]),
            Value::Error(text("deep")),
        ]),
    ]
}

#[test]
fn encode_simple_string() {
    assert_eq!(encode(&Value::String(text("OK"))), b"+OK\r\n".to_vec());
}

#[test]
fn encode_of_each_kind_of_value() {
    assert_eq!(encode(&Value::Null), b"$-1\r\n".to_vec());
    assert_eq!(encode(&Value::NullArray), b"*-1\r\n".to_vec());
    assert_eq!(encode(&Value::Error(text("Error"))), b"-Error\r\n".to_vec());
    assert_eq!(encode(&Value::Integer(-7)), b":-7\r\n".to_vec());
    assert_eq!(encode(&Value::Bulk(text("a:b"))), b"$3\r\na:b\r\n".to_vec());
    assert_eq!(encode(&Value::BufBulk(vec![1, 10, 2])), b"$3\r\n\x01\n\x02\r\n".to_vec());
    assert_eq!(
        encode(&Value::Array(vec![Value::String(text("a")), Value::Array(vec![])])),
        b"*2\r\n+a\r\n*0\r\n".to_vec()
    );
}

#[test]
fn write_appends_to_the_stream() {
    let mut stream = b"+first\r\n".to_vec();
    bum::rpc::write(&mut stream, &Value::Integer(5));
    assert_eq!(stream, b"+first\r\n:5\r\n".to_vec());
}

#[test]
fn call_writes_method_then_arguments() {
    let mut stream = Vec::new();
    call(&mut stream, "tags", vec![Value::String(text("/music/a.flac"))]);
    assert_eq!(stream, b"*2\r\n+tags\r\n+/music/a.flac\r\n".to_vec());
}

#[test]
fn call_without_arguments() {
    let mut stream = Vec::new();
    call(&mut stream, "ping", vec![]);
    assert_eq!(stream, b"*1\r\n+ping\r\n".to_vec());
}

#[test]
fn read_value_round_trip_of_a_binary_payload() {
    let value = Value::Array(vec![
        Value::String(text("image/jpeg")),
        Value::BufBulk(vec![0, 10, 13, 10, 255, 10]),
    ]);
    let mut stream = Vec::new();
    bum::rpc::write(&mut stream, &value);
    let mut rpc = RPCInterface::new();
    let mut cursor = 0;
    assert_eq!(rpc.read_value(&stream, &mut cursor), Ok(Some(value)));
    assert_eq!(cursor, stream.len());
}

#[test]
fn decode_gives_back_what_encode_was_given() {
    for value in samples() {
        assert_eq!(decode_all(&encode(&value)), Ok(Some(value)));
    }
}

#[test]
fn decode_keeps_a_bulk_string_as_bytes() {
    let stream = encode(&Value::Bulk(text("ARTIST:Miles Davis")));
    assert_eq!(decode_all(&stream), Ok(Some(Value::BufBulk(b"ARTIST:Miles Davis".to_vec()))));
}

#[test]
fn decode_needs_more_data_on_every_cut_of_a_value() {
    for value in samples() {
        let stream = encode(&value);
        for cut in 0..stream.len() {
            assert_eq!(decode_all(&stream[..cut]), Ok(None));
        }
    }
}

#[test]
fn decode_goes_on_where_it_stopped() {
    for value in samples() {
        let stream = encode(&value);
        for cut in 0..stream.len() {
            let mut rpc = RPCInterface::new();
            let mut cursor = 0;
            assert_eq!(rpc.read_value(&stream[..cut], &mut cursor), Ok(None));
            assert_eq!(cursor, cut);
            let mut cursor = 0;
            assert_eq!(rpc.read_value(&stream[cut..], &mut cursor), Ok(Some(value.clone())));
        }
    }
}

#[test]
fn read_value_takes_one_value_at_a_time() {
    let mut stream = Vec::new();
    for value in samples() {
        bum::rpc::write(&mut stream, &value);
    }
    let mut rpc = RPCInterface::new();
    let mut cursor = 0;
    for value in samples() {
        assert_eq!(rpc.read_value(&stream, &mut cursor), Ok(Some(value)));
    }
    assert_eq!(rpc.read_value(&stream, &mut cursor), Ok(None));
    assert_eq!(cursor, stream.len());
}

#[test]
fn read_value_rejects_malformed_bytes() {
    assert_eq!(decode_all(b"?what\r\n"), Err(ProtocolError::Malformed));
    assert_eq!(decode_all(b"$abc\r\n"), Err(ProtocolError::Malformed));
    assert_eq!(decode_all(b"*-5\r\n"), Err(ProtocolError::Malformed));
    assert_eq!(decode_all(b"$3\r\nabcde\r\n"), Err(ProtocolError::Malformed));
}

#[test]
fn feed_line_hands_out_the_value_that_a_line_completes() {
    let mut rpc = RPCInterface::new();
    assert_eq!(rpc.feed_line(b"*2\r\n"), Ok(None));
    assert_eq!(rpc.feed_line(b"+cover\r\n"), Ok(None));
    assert_eq!(
        rpc.feed_line(b"+/a.mp3\r\n"),
        Ok(Some(Value::Array(vec![Value::String(text("cover")), Value::String(text("/a.mp3"))])))
    );
    assert_eq!(rpc.feed_line(b""), Ok(None));
}

#[test]
fn next_line_ends_behind_the_line_feed() {
    assert_eq!(next_line(b"ab\ncd", 0), 3);
    assert_eq!(next_line(b"ab\ncd", 2), 3);
    assert_eq!(next_line(b"ab\ncd", 3), 5);
    assert_eq!(next_line(b"\n\n", 0), 1);
    assert_eq!(next_line(b"ab\ncd", 5), 5);
    assert_eq!(next_line(b"ab\ncd", 9), 5);
}

#[test]
fn parse_call_splits_method_and_arguments() {
    let value = Value::Array(vec![
        Value::String(text("tags")),
        Value::String(text("/a.mp3")),
        Value::Integer(3),
    ]);
    assert_eq!(
        parse_call(value),
        Ok(Call { method: text("tags"), args: vec![Value::String(text("/a.mp3")), Value::Integer(3)] })
    );
}

#[test]
fn parse_call_names_each_violation() {
    assert_eq!(parse_call(Value::Array(vec![])), Err(ProtocolError::EmptyCall));
    assert_eq!(
        parse_call(Value::Array(vec![Value::Bulk(text("tags"))])),
        Err(ProtocolError::BadMethod)
    );
    assert_eq!(parse_call(Value::Array(vec![Value::Integer(1)])), Err(ProtocolError::BadMethod));
    assert_eq!(parse_call(Value::String(text("tags"))), Err(ProtocolError::NotACall));
    assert_eq!(parse_call(Value::Null), Err(ProtocolError::NotACall));
}

#[test]
fn next_call_reads_calls_until_the_input_ends() {
    let mut stream = Vec::new();
    call(&mut stream, "tags", vec![Value::String(text("/a.mp3"))]);
    call(&mut stream, "cover", vec![Value::String(text("/b.mp3"))]);
    let mut rpc = RPCInterface::new();
    let mut cursor = 0;
    assert_eq!(
        rpc.next_call(&stream, &mut cursor),
        Ok(Some(Call { method: text("tags"), args: vec![Value::String(text("/a.mp3"))] }))
    );
    assert_eq!(
        rpc.next_call(&stream, &mut cursor),
        Ok(Some(Call { method: text("cover"), args: vec![Value::String(text("/b.mp3"))] }))
    );
    assert_eq!(rpc.next_call(&stream, &mut cursor), Ok(None));
}

#[test]
fn next_call_fails_on_a_value_that_is_no_call() {
    for (stream, error) in [
        (encode(&Value::Array(vec![])), ProtocolError::EmptyCall),
        (encode(&Value::Integer(1)), ProtocolError::NotACall),
        (encode(&Value::Array(vec![Value::Integer(1)])), ProtocolError::BadMethod),
        (b"!\r\n".to_vec(), ProtocolError::Malformed),
    ] {
        let mut rpc = RPCInterface::new();
        let mut cursor = 0;
        assert!(!rpc.failed());
        assert_eq!(rpc.next_call(&stream, &mut cursor), Err(error));
        assert!(rpc.failed());
    }
}

#[test]
fn a_reading_side_fails_for_good_on_malformed_bytes() {
    let mut rpc = RPCInterface::new();
    assert_eq!(rpc.feed_line(b"+fine\r\n"), Ok(Some(Value::String(text("fine")))));
    assert!(!rpc.failed());
    assert_eq!(rpc.feed_line(b"?\r\n"), Err(ProtocolError::Malformed));
    assert!(rpc.failed());
}

#[test]
fn value_to_string_of_each_kind_of_value() {
    assert_eq!(value_to_string(Value::String(text("a"))), Ok(text("a")));
    assert_eq!(value_to_string(Value::Bulk(text("b"))), Ok(text("b")));
    assert_eq!(value_to_string(Value::BufBulk("caf\u{e9}".as_bytes().to_vec())), Ok(text("caf\u{e9}")));
    assert_eq!(value_to_string(Value::BufBulk(vec![0xff, 0xfe])), Err(()));
    assert_eq!(value_to_string(Value::Error(text("e"))), Err(()));
    assert_eq!(value_to_string(Value::Integer(1)), Err(()));
    assert_eq!(value_to_string(Value::Null), Err(()));
    assert_eq!(value_to_string(Value::NullArray), Err(()));
    assert_eq!(value_to_string(Value::Array(vec![])), Err(()));
}

#[test]
fn reply_writes_the_value_or_an_error() {
    let mut stream = Vec::new();
    reply(&mut stream, Ok(Value::Integer(1)));
    reply(&mut stream, Err(()));
    assert_eq!(stream, b":1\r\n-Error\r\n".to_vec());
}

#[test]
fn clone_of_a_value_is_equal_to_it() {
    for value in samples() {
        assert_eq!(value.clone(), value);
    }
}

#[test]
fn read_loop_answers_every_call_in_order() {
    let mut input = Vec::new();
    call(&mut input, "double", vec![Value::Integer(4)]);
    call(&mut input, "fail", vec![]);
    call(&mut input, "double", vec![Value::Integer(-1)]);
    let handler = |call: &Call| -> Result<Value, ()> {
        match (call.method.as_str(), call.args.first()) {
            ("double", Some(Value::Integer(n))) => Ok(Value::Integer(2 * n)),
            _ => Err(()),
        }
    };
    let mut rpc = RPCInterface::new();
    let mut output = b"old".to_vec();
    assert_eq!(rpc.read_loop(&input, &mut output, handler), Ok(()));
    assert_eq!(output, b"old:8\r\n-Error\r\n:-2\r\n".to_vec());
}

#[test]
fn read_loop_goes_on_with_the_next_piece_of_input() {
    let mut input = Vec::new();
    call(&mut input, "echo", vec![Value::BufBulk(b"a\nb".to_vec())]);
    let handler = |call: &Call| -> Result<Value, ()> { Ok(call.args[0].clone()) };
    let mut rpc = RPCInterface::new();
    let mut output = Vec::new();
    for line in input.split_inclusive(|byte| *byte == b'\n') {
        assert_eq!(output, Vec::<u8>::new());
        assert_eq!(rpc.read_loop(line, &mut output, &handler), Ok(()));
    }
    assert_eq!(output, encode(&Value::BufBulk(b"a\nb".to_vec())));
}

#[test]
fn read_loop_stops_at_the_first_value_that_is_no_call() {
    let mut input = Vec::new();
    call(&mut input, "one", vec![]);
    bum::rpc::write(&mut input, &Value::Array(vec![]));
    call(&mut input, "two", vec![]);
    let handler = |call: &Call| -> Result<Value, ()> { Ok(Value::String(call.method.clone())) };
    let mut rpc = RPCInterface::new();
    let mut output = Vec::new();
    assert_eq!(rpc.read_loop(&input, &mut output, handler), Err(ProtocolError::EmptyCall));
    assert_eq!(output, b"+one\r\n".to_vec());
    assert!(rpc.failed());
    for (stream, error) in [
        (b"+hello\r\n".to_vec(), ProtocolError::NotACall),
        (b"*1\r\n:1\r\n".to_vec(), ProtocolError::BadMethod),
        (b"%\r\n".to_vec(), ProtocolError::Malformed),
    ] {
        let mut output = Vec::new();
        let mut rpc = RPCInterface::new();
        assert_eq!(rpc.read_loop(&stream, &mut output, handler), Err(error));
        assert_eq!(output, Vec::<u8>::new());
        assert!(rpc.failed());
    }
}

/// Feeds the pieces one after the other and collects every value that comes
/// out. Nothing is fed after an error.
fn feed_all(pieces: &[&[u8]]) -> (Vec<Value>, bool) {
    let mut rpc = RPCInterface::new();
    let mut values = Vec::new();
    for piece in pieces {
        let mut next = rpc.feed_line(piece);
        loop {
            match next {
                Ok(Some(value)) => values.push(value),
                Ok(None) => break,
                Err(_) => return (values, true),
            }
            next = rpc.feed_line(b"");
        }
    }
    (values, false)
}

#[test]
fn feeding_in_pieces_gives_what_feeding_at_once_gives() {
    let mut streams: Vec<Vec<u8>> = Vec::new();
    let mut all = Vec::new();
    for value in samples() {
        streams.push(encode(&value));
        all.extend(encode(&value));
    }
    streams.push(all.clone());
    streams.push(b"$3\r\nab".to_vec());
    streams.push(b"*3\r\n:1\r\n".to_vec());
    for stream in streams {
        let at_once = feed_all(&[&stream]);
        assert!(!at_once.1);
        let bytes: Vec<&[u8]> = stream.chunks(1).collect();
        assert_eq!(feed_all(&bytes), at_once);
        let triples: Vec<&[u8]> = stream.chunks(3).collect();
        assert_eq!(feed_all(&triples), at_once);
        for cut in 0..stream.len() {
            assert_eq!(feed_all(&[&stream[..cut], &stream[cut..]]), at_once);
        }
    }
}

#[test]
fn feeding_in_pieces_meets_malformed_bytes_where_feeding_at_once_does() {
    for stream in [&b"+a\r\n?\r\n+never\r\n"[..], &b"*2\r\n+a\r\n?x\r\n"[..], &b"$x\r\n"[..]] {
        assert!(feed_all(&[stream]).1);
        let bytes: Vec<&[u8]> = stream.chunks(1).collect();
        assert!(feed_all(&bytes).1);
        for cut in 0..stream.len() {
            assert!(feed_all(&[&stream[..cut], &stream[cut..]]).1);
        }
    }
}
