//! The records that the batch image tool reads and writes: two lengths of 32
//! bits each, most significant byte first, then a path and then data.

use vstd::prelude::*;

verus! {

/// The number that four bytes write, most significant byte first.
pub open spec fn be_u32(bytes: Seq<u8>) -> nat
    recommends
        bytes.len() >= 4,
{
    (bytes[0] as nat) * 0x100_0000 + (bytes[1] as nat) * 0x1_0000 + (bytes[2] as nat) * 0x100 + (
    bytes[3] as nat)
}

/// The four bytes that write a number, most significant byte first.
pub open spec fn be_bytes(n: u32) -> Seq<u8> {
    seq![
        (n / 0x100_0000) as u8,
        (n / 0x1_0000 % 0x100) as u8,
        (n / 0x100 % 0x100) as u8,
        (n % 0x100) as u8,
    ]
}

/// Reading the four bytes of a number gives the number back.
pub proof fn lemma_be_round_trip(n: u32)
    ensures
        be_bytes(n).len() == 4,
        be_u32(be_bytes(n)) == n,
{
}

/// Reads the number that the first four bytes write, most significant byte
/// first.
fn read_be_u32(bytes: &[u8]) -> (n: u32)
    requires
        bytes@.len() >= 4,
    ensures
        n == be_u32(bytes@),
{
    let high: u32 = bytes[0] as u32 * 0x100_0000 + bytes[1] as u32 * 0x1_0000;
    high + bytes[2] as u32 * 0x100 + bytes[3] as u32
}

/// One record: a path and the data that goes with it.
#[derive(Debug, PartialEq, Eq)]
pub struct Frame {
    pub path: Vec<u8>,
    pub data: Vec<u8>,
}

/// The mathematical content of a [`Frame`].
pub struct FrameView {
    pub path: Seq<u8>,
    pub data: Seq<u8>,
}

impl View for Frame {
    type V = FrameView;

    open spec fn view(&self) -> FrameView {
        FrameView { path: self.path@, data: self.data@ }
    }
}

/// What is wrong with a record.
#[derive(Clone, Copy, Debug, PartialEq, Eq, Structural)]
pub enum FrameError {
    /// The input ends inside a record.
    Truncated,
    /// A path or the data is too long for a length of 32 bits.
    TooLong,
}

/// Whether a record's parts are short enough for their lengths to be
/// written.
pub open spec fn fits(frame: FrameView) -> bool {
    frame.path.len() <= u32::MAX && frame.data.len() <= u32::MAX
}

/// The bytes of a record: the length of the path, the length of the data, the
/// path, the data.
pub open spec fn frame_bytes(frame: FrameView) -> Seq<u8>
    recommends
        fits(frame),
{
    be_bytes(frame.path.len() as u32) + be_bytes(frame.data.len() as u32) + frame.path
        + frame.data
}

/// What reading one record gives.
pub enum Parsed {
    /// Fewer than four bytes are left: the clean end of the input.
    End,
    /// The input ends inside a record.
    Truncated,
    /// A record, and the index behind it.
    Record(FrameView, int),
}

/// Reading one record of `input` at `from`.
pub open spec fn parse_at(input: Seq<u8>, from: int) -> Parsed {
    if input.len() - from < 4 {
        Parsed::End
    } else if input.len() - from < 8 {
        Parsed::Truncated
    } else {
        let path_len = be_u32(input.subrange(from, from + 4));
        let data_len = be_u32(input.subrange(from + 4, from + 8));
        if input.len() - from - 8 < path_len + data_len {
            Parsed::Truncated
        } else {
            Parsed::Record(
                FrameView {
                    path: input.subrange(from + 8, from + 8 + path_len),
                    data: input.subrange(from + 8 + path_len, from + 8 + path_len + data_len),
                },
                from + 8 + path_len + data_len,
            )
        }
    }
}

/// Reads the record of `input` that starts at `from`. `Ok(None)` is the clean
/// end of the input.
pub fn parse_frame(input: &[u8], from: usize) -> (parsed: Result<Option<(Frame, usize)>, FrameError>)
    ensures
        match parse_at(input@, from as int) {
            Parsed::End => parsed == Ok::<Option<(Frame, usize)>, FrameError>(None),
            Parsed::Truncated => parsed == Err::<Option<(Frame, usize)>, FrameError>(
                FrameError::Truncated,
            ),
            Parsed::Record(frame, next) => {
                &&& parsed is Ok
                &&& parsed->Ok_0 is Some
                &&& parsed->Ok_0->Some_0.0@ == frame
                &&& parsed->Ok_0->Some_0.1 == next
            },
        },
{
    if from > input.len() {
        return Ok(None);
    }
    let left = input.len() - from;
    if left < 4 {
        return Ok(None);
    }
    if left < 8 {
        return Err(FrameError::Truncated);
    }
    let path_len = read_be_u32(&input[from..from + 4]) as usize;
    let data_len = read_be_u32(&input[from + 4..from + 8]) as usize;
    let body = left - 8;
    if body < path_len || body - path_len < data_len {
        return Err(FrameError::Truncated);
    }
    let path_start = from + 8;
    let data_start = path_start + path_len;
    let next = data_start + data_len;
    let path = copy_of(&input[path_start..data_start]);
    let data = copy_of(&input[data_start..next]);
    Ok(Some((Frame { path, data }, next)))
}

fn copy_of(bytes: &[u8]) -> (copy: Vec<u8>)
    ensures
        copy@ == bytes@,
{
    let mut copy: Vec<u8> = Vec::new();
    let mut i: usize = 0;
    while i < bytes.len()
        invariant
            i <= bytes@.len(),
            copy@ == bytes@.take(i as int),
        decreases bytes@.len() - i,
    {
        copy.push(bytes[i]);
        assert(bytes@.take(i + 1) =~= bytes@.take(i as int).push(bytes@[i as int]));
        i += 1;
    }
    assert(bytes@.take(i as int) =~= bytes@);
    copy
}

fn length_bytes(n: u32) -> (bytes: Vec<u8>)
    ensures
        bytes@ == be_bytes(n),
{
    let mut bytes: Vec<u8> = Vec::new();
    bytes.push((n / 0x100_0000) as u8);
    bytes.push((n / 0x1_0000 % 0x100) as u8);
    bytes.push((n / 0x100 % 0x100) as u8);
    bytes.push((n % 0x100) as u8);
    assert(bytes@ =~= be_bytes(n));
    bytes
}

/// Appends the record of `path` and `data` to what is to be sent. Nothing is
/// appended where one of the two is too long for its length to be written.
pub fn write_frame(stream: &mut Vec<u8>, path: &[u8], data: &[u8]) -> (written: Result<
    (),
    FrameError,
>)
    ensures
        fits(FrameView { path: path@, data: data@ }) ==> written is Ok && final(stream)@ == old(
            stream,
        )@ + frame_bytes(FrameView { path: path@, data: data@ }),
        !fits(FrameView { path: path@, data: data@ }) ==> written == Err::<(), FrameError>(
            FrameError::TooLong,
        ) && final(stream)@ == old(stream)@,
{
    if path.len() > 0xffff_ffff || data.len() > 0xffff_ffff {
        return Err(FrameError::TooLong);
    }
    let ghost before = stream@;
    let mut path_len = length_bytes(path.len() as u32);
    let mut data_len = length_bytes(data.len() as u32);
    let mut path_copy = copy_of(path);
    let mut data_copy = copy_of(data);
    stream.append(&mut path_len);
    stream.append(&mut data_len);
    stream.append(&mut path_copy);
    stream.append(&mut data_copy);
    assert(stream@ =~= before + frame_bytes(FrameView { path: path@, data: data@ }));
    Ok(())
}

/// A record that was written is read back as it was, whatever follows it.
pub proof fn lemma_frame_round_trip(before: Seq<u8>, frame: FrameView, after: Seq<u8>)
    requires
        fits(frame),
    ensures
        parse_at(before + frame_bytes(frame) + after, before.len() as int) == Parsed::Record(
            frame,
            (before.len() + frame_bytes(frame).len()) as int,
        ),
        frame_bytes(frame).len() == 8 + frame.path.len() + frame.data.len(),
{
    let input = before + frame_bytes(frame) + after;
    let from = before.len() as int;
    lemma_be_round_trip(frame.path.len() as u32);
    lemma_be_round_trip(frame.data.len() as u32);
    assert(input.subrange(from, from + 4) =~= be_bytes(frame.path.len() as u32));
    assert(input.subrange(from + 4, from + 8) =~= be_bytes(frame.data.len() as u32));
    assert(input.subrange(from + 8, from + 8 + frame.path.len()) =~= frame.path);
    assert(input.subrange(
        from + 8 + frame.path.len(),
        from + 8 + frame.path.len() + frame.data.len(),
    ) =~= frame.data);
}

/// The bytes of a run of records, one behind the other.
pub open spec fn frames_bytes(frames: Seq<FrameView>) -> Seq<u8>
    decreases frames.len(),
{
    if frames.len() == 0 {
        Seq::empty()
    } else {
        frame_bytes(frames[0]) + frames_bytes(frames.drop_first())
    }
}

/// Whether reading `input` from `from` to its end gives exactly the records
/// `frames`, one after the other, and then the clean end.
pub open spec fn reads_as(input: Seq<u8>, from: int, frames: Seq<FrameView>) -> bool
    decreases frames.len(),
{
    if frames.len() == 0 {
        parse_at(input, from) == Parsed::End && from == input.len()
    } else {
        match parse_at(input, from) {
            Parsed::Record(frame, next) => frame == frames[0] && reads_as(
                input,
                next,
                frames.drop_first(),
            ),
            _ => false,
        }
    }
}

/// Records that were written one behind the other, each as a whole, are read
/// back one by one in the order in which they were written: no record mixes
/// with its neighbours.
pub proof fn lemma_stream_round_trip(before: Seq<u8>, frames: Seq<FrameView>)
    requires
        forall|i: int| 0 <= i < frames.len() ==> fits(#[trigger] frames[i]),
    ensures
        reads_as(before + frames_bytes(frames), before.len() as int, frames),
    decreases frames.len(),
{
    let input = before + frames_bytes(frames);
    if frames.len() == 0 {
        assert(input =~= before);
    } else {
        let first = frame_bytes(frames[0]);
        let rest = frames_bytes(frames.drop_first());
        lemma_frame_round_trip(before, frames[0], rest);
        assert(before + first + rest =~= input);
        assert forall|i: int| 0 <= i < frames.drop_first().len() implies fits(
            #[trigger] frames.drop_first()[i],
        ) by {
            assert(frames.drop_first()[i] == frames[i + 1]);
        }
        lemma_stream_round_trip(before + first, frames.drop_first());
        assert((before + first) + rest =~= input);
    }
}

} // verus!
