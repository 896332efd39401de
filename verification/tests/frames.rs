use bum::frames::{parse_frame, write_frame, Frame, FrameError};
use byteorder::ByteOrder;

#[test]
fn write_frame_puts_lengths_before_path_and_data() {
    let mut stream = Vec::new();
    assert_eq!(write_frame(&mut stream, b"ab", b"xyz"), Ok(()));
    assert_eq!(stream, vec![0, 0, 0, 2, 0, 0, 0, 3, b'a', b'b', b'x', b'y', b'z']);
}

#[test]
fn write_frame_lengths_are_big_endian() {
    let mut stream = Vec::new();
    let path = vec![b'p'; 258];
    let data = vec![7u8; 0x1_02_03];
    assert_eq!(write_frame(&mut stream, &path, &data), Ok(()));
    assert_eq!(&stream[..8], &[0, 0, 1, 2, 0, 1, 2, 3]);
    assert_eq!(stream.len(), 8 + 258 + 0x1_02_03);
}

#[test]
fn parse_frame_reads_back_what_was_written() {
    let mut stream = b"junk".to_vec();
    write_frame(&mut stream, b"/covers/one.jpg", &[1, 2, 3, 0, 255]).unwrap();
    write_frame(&mut stream, b"", b"").unwrap();
    write_frame(&mut stream, b"x", b"").unwrap();
    let (frame, next) = parse_frame(&stream, 4).unwrap().unwrap();
    assert_eq!(frame, Frame { path: b"/covers/one.jpg".to_vec(), data: vec![1, 2, 3, 0, 255] });
    let (frame, next) = parse_frame(&stream, next).unwrap().unwrap();
    assert_eq!(frame, Frame { path: vec![], data: vec![] });
    let (frame, next) = parse_frame(&stream, next).unwrap().unwrap();
    assert_eq!(frame, Frame { path: b"x".to_vec(), data: vec![] });
    assert_eq!(next, stream.len());
    assert_eq!(parse_frame(&stream, next), Ok(None));
}

#[test]
fn parse_frame_at_the_end_of_the_input() {
    assert_eq!(parse_frame(b"", 0), Ok(None));
    assert_eq!(parse_frame(&[0, 0, 0], 0), Ok(None));
    assert_eq!(parse_frame(&[9, 9, 9, 9, 9], 5), Ok(None));
    assert_eq!(parse_frame(&[9, 9, 9, 9, 9], 6), Ok(None));
}

#[test]
fn parse_frame_of_an_input_that_ends_inside_a_record() {
    assert_eq!(parse_frame(&[0, 0, 0, 1], 0), Err(FrameError::Truncated));
    assert_eq!(parse_frame(&[0, 0, 0, 1, 0, 0, 0], 0), Err(FrameError::Truncated));
    assert_eq!(parse_frame(&[0, 0, 0, 1, 0, 0, 0, 0], 0), Err(FrameError::Truncated));
    assert_eq!(parse_frame(&[0, 0, 0, 1, 0, 0, 0, 2, b'a', 1], 0), Err(FrameError::Truncated));
    assert_eq!(
        parse_frame(&[255, 255, 255, 255, 255, 255, 255, 255, 1, 2, 3], 0),
        Err(FrameError::Truncated)
    );
}

#[test]
fn lengths_are_written_as_byteorder_writes_them() {
    for (path_len, data_len) in [(0usize, 0usize), (1, 255), (256, 65_536), (70_000, 3)] {
        let mut stream = Vec::new();
        write_frame(&mut stream, &vec![1u8; path_len], &vec![2u8; data_len]).unwrap();
        assert_eq!(byteorder::BigEndian::read_u32(&stream[0..4]) as usize, path_len);
        assert_eq!(byteorder::BigEndian::read_u32(&stream[4..8]) as usize, data_len);
        let mut header = [0u8; 8];
        byteorder::BigEndian::write_u32(&mut header[0..4], path_len as u32);
        byteorder::BigEndian::write_u32(&mut header[4..8], data_len as u32);
        let mut record = header.to_vec();
        record.extend(vec![1u8; path_len]);
        record.extend(vec![2u8; data_len]);
        assert_eq!(parse_frame(&record, 0).unwrap().unwrap().1, record.len());
        assert_eq!(record, stream);
    }
}
