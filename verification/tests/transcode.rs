use bum::transcode::{
    is_video_file, stream_quality, transcode_arguments, Command, Quality, TranscodeFormat,
};

#[test]
fn quality_from_int() {
    assert_eq!(Quality::from_int(i64::MIN), Quality::Low);
    assert_eq!(Quality::from_int(-1), Quality::Low);
    assert_eq!(Quality::from_int(0), Quality::Low);
    assert_eq!(Quality::from_int(1), Quality::Medium);
    assert_eq!(Quality::from_int(2), Quality::High);
    assert_eq!(Quality::from_int(3), Quality::High);
    assert_eq!(Quality::from_int(i64::MAX), Quality::High);
}

#[test]
fn quality_to_int() {
    assert_eq!(Quality::Low.to_int(), 0);
    assert_eq!(Quality::Medium.to_int(), 1);
    assert_eq!(Quality::High.to_int(), 2);
}

#[test]
fn quality_survives_the_round_trip() {
    for quality in [Quality::Low, Quality::Medium, Quality::High] {
        assert_eq!(Quality::from_int(quality.to_int() as i64), quality);
    }
}

#[test]
fn stream_quality_defaults_to_medium() {
    assert_eq!(stream_quality(None), Quality::Medium);
    assert_eq!(stream_quality(Some(0)), Quality::Low);
    assert_eq!(stream_quality(Some(7)), Quality::High);
}

#[test]
fn transcode_arguments_are_quality_then_path() {
    assert_eq!(
        transcode_arguments("/music/a b.flac", Quality::High),
        vec!["2".to_string(), "/music/a b.flac".to_string()]
    );
    assert_eq!(transcode_arguments("x", Quality::Low), vec!["0".to_string(), "x".to_string()]);
}

#[test]
fn video_files_by_extension() {
    for name in ["a.mp4", "a.webm", "a.ogg", "a.ogv", "a.wmv", "a.mkv"] {
        assert!(is_video_file(name), "{}", name);
    }
    for name in ["a.mp3", "a.flac", "a.MP4", "mp4", "a.mp4.txt", ""] {
        assert!(!is_video_file(name), "{}", name);
    }
}

#[test]
fn transcode_format_by_name() {
    assert_eq!(TranscodeFormat::parse("webm"), Ok(TranscodeFormat::WebM));
    assert_eq!(TranscodeFormat::parse("ogg"), Ok(TranscodeFormat::Ogg));
    assert_eq!(TranscodeFormat::parse("mp3"), Err(()));
    assert_eq!(TranscodeFormat::parse("WebM"), Err(()));
    assert_eq!(TranscodeFormat::parse(""), Err(()));
}

#[test]
fn transcode_format_elements() {
    assert_eq!(
        TranscodeFormat::WebM.get_element_definitions(),
        "audioresample ! opusenc bitrate=128000 ! webmmux"
    );
    assert_eq!(TranscodeFormat::Ogg.get_element_definitions(), "vorbisenc quality=0.5 ! oggmux");
}

#[test]
fn command_by_name() {
    assert_eq!(Command::parse("transcode-audio"), Some(Command::TranscodeAudio));
    assert_eq!(Command::parse("get-thumbnails"), Some(Command::GetThumbnails));
    assert_eq!(Command::parse("get-cover"), Some(Command::GetCover));
    assert_eq!(Command::parse("get-covers"), None);
    assert_eq!(Command::parse(""), None);
}
