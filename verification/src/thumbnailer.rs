//! The batch image tool: the size that a cover is scaled to, how a cover is
//! compressed, and what becomes of one job.

use crate::frames::{
    fits, frame_bytes, frames_bytes, lemma_stream_round_trip, reads_as, write_frame, Frame,
    FrameError, FrameView,
};
use crate::imaging::{
    announces_jpeg, decode, decoded_image, encode_mozjpeg, has_jpeg_signature, mozjpeg_encoding,
    resize, resized_image, Filter, ScanMode,
};
use vstd::prelude::*;

verus! {

/// The longest side of a thumbnail, in pixels.
pub const THUMBNAIL_SIZE: usize = 200;

/// The width of a full cover, in pixels.
pub const FULLSIZE_WIDTH: usize = 2048;

/// The longest side that a JPEG file can have, in pixels.
pub const JPEG_MAX_SIDE: u32 = 65500;

/// One side of a picture after scaling: the side times the limit, divided by
/// the governing side and rounded down, and no more than the largest size
/// there is. Where the governing side is zero, a side of zero stays zero and
/// any other side becomes as large as can be.
pub open spec fn scaled_side(side: nat, limit: nat, governing: nat) -> nat {
    if governing == 0 {
        if side == 0 {
            0
        } else {
            usize::MAX as nat
        }
    } else if side * limit / governing > usize::MAX {
        usize::MAX as nat
    } else {
        side * limit / governing
    }
}

/// The side that governs the scaling: for a thumbnail the longer one, for a
/// full cover the width.
pub open spec fn governing_side(width: nat, height: nat, thumbnail: bool) -> nat {
    if thumbnail {
        if width > height {
            width
        } else {
            height
        }
    } else {
        width
    }
}

/// The limit that the governing side is scaled to.
pub open spec fn side_limit(thumbnail: bool) -> nat {
    if thumbnail {
        THUMBNAIL_SIZE as nat
    } else {
        FULLSIZE_WIDTH as nat
    }
}

/// The size that a picture is scaled to. A thumbnail fits a square of 200
/// pixels, a full cover is 2048 pixels wide; both keep the aspect ratio.
pub open spec fn target_size(width: nat, height: nat, thumbnail: bool) -> (nat, nat) {
    let governing = governing_side(width, height, thumbnail);
    let limit = side_limit(thumbnail);
    (scaled_side(width, limit, governing), scaled_side(height, limit, governing))
}

fn scale(side: usize, limit: usize, governing: usize) -> (scaled: usize)
    requires
        limit <= 2048,
    ensures
        scaled == scaled_side(side as nat, limit as nat, governing as nat),
{
    if governing == 0 {
        if side == 0 {
            0
        } else {
            usize::MAX
        }
    } else {
        assert(side * limit <= usize::MAX * 2048) by (nonlinear_arith)
            requires
                side <= usize::MAX,
                limit <= 2048,
        ;
        let scaled: u128 = side as u128 * limit as u128 / governing as u128;
        if scaled > usize::MAX as u128 {
            usize::MAX
        } else {
            scaled as usize
        }
    }
}

/// Computes the size that a picture of `width` by `height` pixels is scaled
/// to.
pub fn get_target_size(width: usize, height: usize, thumbnail: bool) -> (size: (usize, usize))
    ensures
        size.0 == target_size(width as nat, height as nat, thumbnail).0,
        size.1 == target_size(width as nat, height as nat, thumbnail).1,
{
    let governing = if thumbnail {
        if width > height {
            width
        } else {
            height
        }
    } else {
        width
    };
    let limit = if thumbnail {
        THUMBNAIL_SIZE
    } else {
        FULLSIZE_WIDTH
    };
    (scale(width, limit, governing), scale(height, limit, governing))
}

/// The target of a thumbnail fits the square of 200 pixels, and its longer
/// side is exactly 200 pixels. The target of a full cover is exactly 2048
/// pixels wide. This holds of every picture that has pixels.
pub proof fn lemma_target_size(width: nat, height: nat)
    requires
        width >= 1,
        height >= 1,
    ensures
        target_size(width, height, true).0 <= THUMBNAIL_SIZE,
        target_size(width, height, true).1 <= THUMBNAIL_SIZE,
        width >= height ==> target_size(width, height, true).0 == THUMBNAIL_SIZE,
        height >= width ==> target_size(width, height, true).1 == THUMBNAIL_SIZE,
        target_size(width, height, false).0 == FULLSIZE_WIDTH,
{
    let longer = governing_side(width, height, true);
    assert(width * 200 / longer <= 200) by (nonlinear_arith)
        requires
            1 <= width <= longer,
    ;
    assert(height * 200 / longer <= 200) by (nonlinear_arith)
        requires
            1 <= height <= longer,
    ;
    assert(longer * 200 / longer == 200) by (nonlinear_arith)
        requires
            longer >= 1,
    ;
    assert(width * 2048 / width == 2048) by (nonlinear_arith)
        requires
            width >= 1,
    ;
}

/// Scaling keeps the aspect ratio as far as whole pixels allow: the scaled
/// side, multiplied back, misses the exact value by less than one governing
/// side.
pub proof fn lemma_scaled_side_exact(side: nat, limit: nat, governing: nat)
    requires
        governing >= 1,
        side * limit / governing <= usize::MAX,
    ensures
        scaled_side(side, limit, governing) * governing <= side * limit,
        side * limit < (scaled_side(side, limit, governing) + 1) * governing,
{
    let product = side * limit;
    assert((product / governing) * governing <= product && product < (product / governing + 1)
        * governing) by (nonlinear_arith)
        requires
            governing >= 1,
            product >= 0,
    ;
}

/// Why a cover could not be compressed.
#[derive(Clone, Copy, Debug, PartialEq, Eq, Structural)]
pub enum CompressError {
    /// The bytes are no picture that can be read.
    Undecodable,
    /// The picture has no pixels.
    Empty,
    /// The scaled picture would have a side that a JPEG file cannot have.
    TooLarge,
    /// The encoder failed.
    Encoder,
}

/// What compressing a cover gives. A JPEG file that would not get smaller in
/// pixels is handed back as it is. Every other picture is decoded, scaled to
/// its target size and written as JPEG with optimized scans, unless it has no
/// pixels or a side of its target or of the scaled picture is longer than a
/// JPEG file can hold.
pub open spec fn compressed(source: Seq<u8>, thumbnail: bool) -> Result<Seq<u8>, CompressError> {
    match decoded_image(source) {
        None => Err(CompressError::Undecodable),
        Some(image) => {
            let target = target_size(image.width, image.height, thumbnail);
            if target.0 >= image.width && has_jpeg_signature(source) {
                Ok(source)
            } else if image.width == 0 || image.height == 0 {
                Err(CompressError::Empty)
            } else if target.0 > JPEG_MAX_SIDE || target.1 > JPEG_MAX_SIDE {
                Err(CompressError::TooLarge)
            } else {
                let scaled = resized_image(
                    image,
                    target.0 as u32,
                    target.1 as u32,
                    Filter::CatmullRom,
                );
                if scaled.width > JPEG_MAX_SIDE || scaled.height > JPEG_MAX_SIDE {
                    Err(CompressError::TooLarge)
                } else {
                    match mozjpeg_encoding(scaled, ScanMode::Auto, true, true) {
                        Some(file) => Ok(file),
                        None => Err(CompressError::Encoder),
                    }
                }
            }
        },
    }
}

/// Compresses a cover, given as the bytes of an image file, to a thumbnail
/// or to a full cover.
pub fn compress(source: &[u8], thumbnail: bool) -> (file: Result<Vec<u8>, CompressError>)
    ensures
        match compressed(source@, thumbnail) {
            Ok(expected) => file is Ok && file->Ok_0@ == expected,
            Err(error) => file == Err::<Vec<u8>, CompressError>(error),
        },
{
    let jpeg = announces_jpeg(source);
    let image = match decode(source) {
        Some(image) => image,
        None => {
            return Err(CompressError::Undecodable);
        },
    };
    let (width, height) = get_target_size(image.width as usize, image.height as usize, thumbnail);
    if width >= image.width as usize && jpeg {
        let mut file: Vec<u8> = Vec::new();
        file.extend_from_slice(source);
        assert(file@ =~= source@);
        return Ok(file);
    }
    if image.width == 0 || image.height == 0 {
        return Err(CompressError::Empty);
    }
    if width > JPEG_MAX_SIDE as usize || height > JPEG_MAX_SIDE as usize {
        return Err(CompressError::TooLarge);
    }
    let scaled = resize(&image, width as u32, height as u32, Filter::CatmullRom);
    if scaled.width > JPEG_MAX_SIDE || scaled.height > JPEG_MAX_SIDE {
        return Err(CompressError::TooLarge);
    }
    match encode_mozjpeg(&scaled, ScanMode::Auto, true, true) {
        Some(file) => Ok(file),
        None => Err(CompressError::Encoder),
    }
}

/// One unit of work: the path of a cover and, where the client sent them, the
/// bytes of the image file. Without them the file at the path is read.
#[derive(Debug, PartialEq, Eq)]
pub struct Job {
    pub path: Vec<u8>,
    pub payload: Option<Vec<u8>>,
}

/// The job that a record stands for: a record without data asks for the file
/// at the path.
pub fn job_of(frame: Frame) -> (job: Job)
    ensures
        job.path == frame.path,
        frame.data@.len() == 0 ==> job.payload is None,
        frame.data@.len() > 0 ==> job.payload == Some(frame.data),
{
    if frame.data.len() == 0 {
        Job { path: frame.path, payload: None }
    } else {
        Job { path: frame.path, payload: Some(frame.data) }
    }
}

/// The data of the record that answers a job: the compressed cover, or
/// nothing where compressing failed or gave more than a record can hold.
pub open spec fn result_data(source: Seq<u8>, thumbnail: bool) -> Seq<u8> {
    match compressed(source, thumbnail) {
        Ok(file) => if file.len() <= u32::MAX {
            file
        } else {
            Seq::empty()
        },
        Err(_) => Seq::empty(),
    }
}

/// Does one job: compresses the cover, whose image file holds the bytes
/// `source`, and appends the record that answers the job to what is to be
/// sent. Every job gets exactly one record, which carries the job's path,
/// and no data where compressing failed. Only a path that is too long for a
/// record, which no job that came in a record has, is answered by nothing.
pub fn handle_job(stream: &mut Vec<u8>, path: &[u8], source: &[u8], thumbnail: bool) -> (written:
    Result<(), FrameError>)
    ensures
        path@.len() <= u32::MAX ==> written is Ok && final(stream)@ == old(stream)@ + frame_bytes(
            answer(path@, source@, thumbnail),
        ),
        path@.len() > u32::MAX ==> written == Err::<(), FrameError>(FrameError::TooLong)
            && final(stream)@ == old(stream)@,
{
    let data = match compress(source, thumbnail) {
        Ok(file) => if file.len() <= 0xffff_ffff {
            file
        } else {
            Vec::new()
        },
        Err(_) => Vec::new(),
    };
    write_frame(stream, path, data.as_slice())
}

/// The record that answers a job.
pub open spec fn answer(path: Seq<u8>, source: Seq<u8>, thumbnail: bool) -> FrameView {
    FrameView { path, data: result_data(source, thumbnail) }
}

/// The records that answer a run of jobs, each given as its path and the
/// bytes of its image file.
pub open spec fn answers(jobs: Seq<(Seq<u8>, Seq<u8>)>, thumbnail: bool) -> Seq<FrameView> {
    Seq::new(jobs.len(), |i: int| answer(jobs[i].0, jobs[i].1, thumbnail))
}

/// One record for each job: where every job is answered once and each answer
/// is written as a whole, in whatever order, what was written reads back as
/// exactly one record for each job, with that job's path.
pub proof fn lemma_one_record_for_each_job(
    before: Seq<u8>,
    jobs: Seq<(Seq<u8>, Seq<u8>)>,
    thumbnail: bool,
)
    requires
        forall|i: int| 0 <= i < jobs.len() ==> (#[trigger] jobs[i]).0.len() <= u32::MAX,
    ensures
        answers(jobs, thumbnail).len() == jobs.len(),
        forall|i: int|
            0 <= i < jobs.len() ==> (#[trigger] answers(jobs, thumbnail)[i]).path == jobs[i].0,
        reads_as(
            before + frames_bytes(answers(jobs, thumbnail)),
            before.len() as int,
            answers(jobs, thumbnail),
        ),
{
    let written = answers(jobs, thumbnail);
    assert forall|i: int| 0 <= i < written.len() implies fits(#[trigger] written[i]) by {
        assert(written[i] == answer(jobs[i].0, jobs[i].1, thumbnail));
    }
    lemma_stream_round_trip(before, written);
}

} // verus!
