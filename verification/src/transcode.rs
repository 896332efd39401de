//! The audio transcoding helper: its quality levels and its command line.

use crate::text::{decimal, same_text, to_decimal};
use crate::util::{extension, path_extension};
use vstd::prelude::*;
use vstd::string::StringExecFns;

verus! {

/// Encoding profile of the transcoding helper.
#[derive(Clone, Copy, Debug, PartialEq, Eq, Structural)]
pub enum Quality {
    Low,
    Medium,
    High,
}

impl Quality {
    /// The number that stands for this quality on the helper's command line.
    pub open spec fn level(self) -> int {
        match self {
            Quality::Low => 0,
            Quality::Medium => 1,
            Quality::High => 2,
        }
    }

    /// The quality that a requested number selects: everything up to zero is
    /// `Low`, one is `Medium`, everything above is `High`.
    pub open spec fn of_level(n: int) -> Quality {
        if n <= 0 {
            Quality::Low
        } else if n == 1 {
            Quality::Medium
        } else {
            Quality::High
        }
    }

    /// The quality that a requested number selects.
    pub fn from_int(n: i64) -> (quality: Quality)
        ensures
            quality == Quality::of_level(n as int),
    {
        if n <= 0 {
            Quality::Low
        } else if n == 1 {
            Quality::Medium
        } else {
            Quality::High
        }
    }

    /// The number that stands for this quality.
    pub fn to_int(&self) -> (n: i8)
        ensures
            n as int == self.level(),
    {
        match *self {
            Quality::Low => 0,
            Quality::Medium => 1,
            Quality::High => 2,
        }
    }
}

/// Converting a quality to its number and back gives the same quality, and
/// every number in the helper's range survives the round trip.
pub proof fn lemma_quality_round_trip(quality: Quality, n: int)
    ensures
        Quality::of_level(quality.level()) == quality,
        0 <= n <= 2 ==> Quality::of_level(n).level() == n,
        0 <= quality.level() <= 2,
{
}

/// The quality of a stream for which the client asked for the given number,
/// or for none: without a number the quality is `Medium`.
pub fn stream_quality(requested: Option<i64>) -> (quality: Quality)
    ensures
        quality == match requested {
            Some(n) => Quality::of_level(n as int),
            None => Quality::Medium,
        },
{
    match requested {
        Some(n) => Quality::from_int(n),
        None => Quality::Medium,
    }
}

/// The arguments that the transcoding helper is started with: the quality as
/// a number, then the path of the file.
pub fn transcode_arguments(path: &str, quality: Quality) -> (arguments: Vec<String>)
    ensures
        arguments@.len() == 2,
        arguments@[0]@ == decimal(quality.level() as nat),
        arguments@[1]@ == path@,
{
    let mut arguments: Vec<String> = Vec::new();
    arguments.push(to_decimal(quality.to_int() as u64));
    arguments.push(String::from_str(path));
    arguments
}

/// Whether files with this extension hold video, which the transcoding
/// helper treats otherwise than music.
pub open spec fn is_video_extension(extension: Seq<char>) -> bool {
    ||| extension == "mp4"@
    ||| extension == "webm"@
    ||| extension == "ogg"@
    ||| extension == "ogv"@
    ||| extension == "wmv"@
    ||| extension == "mkv"@
}

/// Whether the transcoding helper treats the file at `path` as video.
pub fn is_video_file(path: &str) -> (video: bool)
    ensures
        video == match path_extension(path@) {
            Some(extension) => is_video_extension(extension),
            None => false,
        },
{
    match extension(path) {
        Some(ext) => {
            let ext = ext.as_str();
            same_text(ext, "mp4") || same_text(ext, "webm") || same_text(ext, "ogg") || same_text(
                ext,
                "ogv",
            ) || same_text(ext, "wmv") || same_text(ext, "mkv")
        },
        None => false,
    }
}

/// The container that audio is transcoded to.
#[derive(Clone, Copy, Debug, PartialEq, Eq, Structural)]
pub enum TranscodeFormat {
    WebM,
    Ogg,
}

impl TranscodeFormat {
    /// The format that a name on the command line stands for.
    pub open spec fn named(name: Seq<char>) -> Result<TranscodeFormat, ()> {
        if name == "webm"@ {
            Ok(TranscodeFormat::WebM)
        } else if name == "ogg"@ {
            Ok(TranscodeFormat::Ogg)
        } else {
            Err(())
        }
    }

    /// The encoder and the muxer of the format, as the pipeline description
    /// names them.
    pub open spec fn elements(self) -> Seq<char> {
        match self {
            TranscodeFormat::WebM => "audioresample ! opusenc bitrate=128000 ! webmmux"@,
            TranscodeFormat::Ogg => "vorbisenc quality=0.5 ! oggmux"@,
        }
    }

    /// Reads the name of a format.
    pub fn parse(name: &str) -> (format: Result<TranscodeFormat, ()>)
        ensures
            format == TranscodeFormat::named(name@),
    {
        if same_text(name, "webm") {
            Ok(TranscodeFormat::WebM)
        } else if same_text(name, "ogg") {
            Ok(TranscodeFormat::Ogg)
        } else {
            Err(())
        }
    }

    /// The encoder and the muxer of the format.
    pub fn get_element_definitions(&self) -> (definitions: &'static str)
        ensures
            definitions@ == self.elements(),
    {
        match self {
            TranscodeFormat::WebM => "audioresample ! opusenc bitrate=128000 ! webmmux",
            TranscodeFormat::Ogg => "vorbisenc quality=0.5 ! oggmux",
        }
    }
}

/// What the batch tool is asked to do.
#[derive(Clone, Copy, Debug, PartialEq, Eq, Structural)]
pub enum Command {
    TranscodeAudio,
    GetThumbnails,
    GetCover,
}

impl Command {
    /// The command that a name on the command line stands for.
    pub open spec fn named(name: Seq<char>) -> Option<Command> {
        if name == "transcode-audio"@ {
            Some(Command::TranscodeAudio)
        } else if name == "get-thumbnails"@ {
            Some(Command::GetThumbnails)
        } else if name == "get-cover"@ {
            Some(Command::GetCover)
        } else {
            None
        }
    }

    /// Reads the name of a command.
    pub fn parse(name: &str) -> (command: Option<Command>)
        ensures
            command == Command::named(name@),
    {
        if same_text(name, "transcode-audio") {
            Some(Command::TranscodeAudio)
        } else if same_text(name, "get-thumbnails") {
            Some(Command::GetThumbnails)
        } else if same_text(name, "get-cover") {
            Some(Command::GetCover)
        } else {
            None
        }
    }
}

} // verus!
