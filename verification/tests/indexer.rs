use bum::indexer::{Event, Indexer, Phase, Request, Unexpected};
use bum::media::{make_album_id, make_song_id, Cover, MediaDatabase, Timestamp};
use bum::mime::Mime;
use bum::tagparser::Tags;

fn tags_of(entries: &[(&str, &str)]) -> Result<Tags, String> {
    Ok(Tags::new(entries.iter().map(|(k, v)| (k.to_string(), v.to_string())).collect()))
}

fn cover(data: &[u8]) -> Cover {
    Cover { data: data.to_vec(), mimetype: Mime::new("image", "jpeg"), mtime: Timestamp { sec: 1, nsec: 0 } }
}

/// A file system and a tag helper made of plain data.
struct World {
    tags: Vec<(&'static str, Result<Tags, String>)>,
    cover_files: Vec<(&'static str, Option<Cover>)>,
    embedded: Vec<(&'static str, Cover)>,
    asked: Vec<String>,
}

impl World {
    fn take_tags(&mut self, path: &str) -> Result<Tags, String> {
        let at = self.tags.iter().position(|(p, _)| *p == path).unwrap();
        self.tags.remove(at).1
    }

    fn run(&mut self, paths: &[&str]) -> (MediaDatabase, Vec<String>) {
        let mut indexer = Indexer::new(paths.iter().map(|p| p.to_string()).collect());
        loop {
            let request = format!("{:?}", indexer.request());
            let event = match indexer.request() {
                Request::ReadTags(files) => {
                    let files: Vec<String> = files.clone();
                    Event::Tags(files.iter().map(|path| self.take_tags(path)).collect())
                }
                Request::ProbeCovers(candidates) => Event::Present(
                    candidates
                        .iter()
                        .map(|path| self.cover_files.iter().any(|(p, _)| p == path))
                        .collect(),
                ),
                Request::ReadCover(path) => Event::Cover(
                    self.cover_files.iter().find(|(p, _)| *p == path).and_then(|(_, c)| {
                        c.as_ref().map(|c| cover(&c.data))
                    }),
                ),
                Request::ReadEmbedded(path) => Event::Cover(
                    self.embedded.iter().find(|(p, _)| *p == path).map(|(_, c)| cover(&c.data)),
                ),
                Request::Done => break,
            };
            self.asked.push(request);
            assert_eq!(indexer.advance(event), Ok(()));
        }
        indexer.finish().unwrap()
    }
}

fn track(title: &str, disc: &str, track: &str) -> Result<Tags, String> {
    tags_of(&[
        ("TITLE", title),
        ("ARTIST", "Artist"),
        ("ALBUM", "Album"),
        ("DISCNUMBER", disc),
        ("TRACKNUMBER", track),
    ])
}

#[test]
fn indexer_without_music_is_ready_at_once() {
    let mut indexer = Indexer::new(vec!["/m/readme.txt".to_string(), "/m".to_string()]);
    assert_eq!(indexer.request(), Request::Done);
    assert_eq!(indexer.advance(Event::Cover(None)), Err(Unexpected));
    let (db, warnings) = indexer.finish().unwrap();
    assert!(db.songs().is_empty());
    assert!(db.albums().is_empty());
    assert!(warnings.is_empty());
}

#[test]
fn indexer_is_not_finished_before_it_is_ready() {
    let indexer = Indexer::new(vec!["/m/a/1.mp3".to_string()]);
    assert!(indexer.finish().is_none());
}

#[test]
fn indexer_orders_the_tracks_of_a_directory() {
    let mut world = World {
        tags: vec![
            ("/m/a/x.flac", track("x", "1", "2")),
            ("/m/a/y.flac", track("y", "1", "1")),
            ("/m/a/z.flac", track("z", "2", "1")),
        ],
        cover_files: vec![],
        embedded: vec![],
        asked: vec![],
    };
    let (db, warnings) = world.run(&["/m/a/x.flac", "/m/a/y.flac", "/m/a/z.flac"]);
    assert!(warnings.is_empty());
    let album = db.get_album(&make_album_id("Artist", "Album", 3)).unwrap();
    let order: Vec<(u32, u32)> = album
        .tracks
        .iter()
        .map(|id| {
            let song = db.get_song(id).unwrap();
            (song.disc, song.track)
        })
        .collect();
    assert_eq!(order, vec![(1, 1), (1, 2), (2, 1)]);
    assert_eq!(album.tracks[0], make_song_id("Artist", "y", None, 1, 1));
    assert_eq!(album.cover, None);
}

#[test]
fn indexer_asks_in_order_tags_cover_files_and_embedded_artwork() {
    let mut world = World {
        tags: vec![("/m/a/2.mp3", track("two", "1", "2")), ("/m/a/1.mp3", track("one", "1", "1"))],
        cover_files: vec![],
        embedded: vec![("/m/a/1.mp3", cover(b"embedded"))],
        asked: vec![],
    };
    let (db, _) = world.run(&["/m/a/2.mp3", "/m/a/1.mp3"]);
    assert_eq!(
        world.asked,
        vec![
            "ReadTags([\"/m/a/2.mp3\", \"/m/a/1.mp3\"])".to_string(),
            "ProbeCovers([\"/m/a/cover.jpg\", \"/m/a/cover.png\"])".to_string(),
            "ReadEmbedded(\"/m/a/1.mp3\")".to_string(),
        ]
    );
    assert_eq!(db.albums()[0].cover, Some(cover(b"embedded")));
}

#[test]
fn indexer_takes_the_cover_file_before_embedded_artwork() {
    let mut world = World {
        tags: vec![("/m/a/1.mp3", track("one", "1", "1"))],
        cover_files: vec![("/m/a/cover.jpg", Some(cover(b"file")))],
        embedded: vec![("/m/a/1.mp3", cover(b"embedded"))],
        asked: vec![],
    };
    let (db, _) = world.run(&["/m/a/1.mp3"]);
    assert_eq!(db.albums()[0].cover, Some(cover(b"file")));
    assert_eq!(world.asked.last().unwrap(), "ReadCover(\"/m/a/cover.jpg\")");
}

#[test]
fn indexer_takes_the_jpg_before_the_png() {
    let mut world = World {
        tags: vec![("/m/a/1.mp3", track("one", "1", "1"))],
        cover_files: vec![
            ("/m/a/cover.png", Some(cover(b"png"))),
            ("/m/a/cover.jpg", Some(cover(b"jpg"))),
        ],
        embedded: vec![],
        asked: vec![],
    };
    let (db, _) = world.run(&["/m/a/1.mp3"]);
    assert_eq!(db.albums()[0].cover, Some(cover(b"jpg")));
    let mut world = World {
        tags: vec![("/m/a/1.mp3", track("one", "1", "1"))],
        cover_files: vec![("/m/a/cover.png", Some(cover(b"png")))],
        embedded: vec![],
        asked: vec![],
    };
    let (db, _) = world.run(&["/m/a/1.mp3"]);
    assert_eq!(db.albums()[0].cover, Some(cover(b"png")));
}

#[test]
fn indexer_asks_for_embedded_artwork_when_the_cover_file_cannot_be_read() {
    let mut world = World {
        tags: vec![("/m/a/1.mp3", track("one", "1", "1"))],
        cover_files: vec![("/m/a/cover.jpg", None), ("/m/a/cover.png", Some(cover(b"png")))],
        embedded: vec![("/m/a/1.mp3", cover(b"embedded"))],
        asked: vec![],
    };
    let (db, _) = world.run(&["/m/a/1.mp3"]);
    assert_eq!(db.albums()[0].cover, Some(cover(b"embedded")));
    assert_eq!(
        world.asked[2..],
        ["ReadCover(\"/m/a/cover.jpg\")".to_string(), "ReadEmbedded(\"/m/a/1.mp3\")".to_string()]
    );
}

#[test]
fn indexer_goes_on_after_a_file_that_gives_no_song() {
    let mut world = World {
        tags: vec![
            ("/m/a/1.mp3", Err("Error".to_string())),
            ("/m/a/2.mp3", tags_of(&[("TITLE", "t"), ("ARTIST", "a")])),
            ("/m/a/3.mp3", track("three", "1", "3")),
            ("/m/b/1.ogg", Err("No response from tagserver".to_string())),
            ("/m/c/1.ogg", tags_of(&[("TITLE", "c"), ("ARTIST", "Artist"), ("ALBUM", "Other")])),
        ],
        cover_files: vec![],
        embedded: vec![],
        asked: vec![],
    };
    let (db, warnings) =
        world.run(&["/m/a/1.mp3", "/m/b/1.ogg", "/m/a/2.mp3", "/m/c/1.ogg", "/m/a/3.mp3"]);
    assert_eq!(
        warnings,
        vec![
            "Failed to parse file \"/m/a/1.mp3\": Error".to_string(),
            "Need valid 'album' in track \"/m/a/2.mp3\"".to_string(),
            "Failed to parse file \"/m/b/1.ogg\": No response from tagserver".to_string(),
        ]
    );
    assert_eq!(db.songs().len(), 2);
    assert_eq!(db.albums().len(), 3);
    let empty = db.get_album(&make_album_id("Various Artists", "", 0)).unwrap();
    assert!(empty.tracks.is_empty());
    let asked_for_embedded: Vec<&String> =
        world.asked.iter().filter(|request| request.starts_with("ReadEmbedded")).collect();
    assert_eq!(
        asked_for_embedded,
        vec!["ReadEmbedded(\"/m/a/3.mp3\")", "ReadEmbedded(\"/m/c/1.ogg\")"]
    );
}

#[test]
fn indexer_refuses_an_event_that_does_not_answer_its_request() {
    let mut indexer = Indexer::new(vec!["/m/a/1.mp3".to_string(), "/m/a/2.mp3".to_string()]);
    assert_eq!(indexer.advance(Event::Cover(None)), Err(Unexpected));
    assert_eq!(indexer.advance(Event::Present(vec![true, false])), Err(Unexpected));
    assert_eq!(indexer.advance(Event::Tags(vec![track("one", "1", "1")])), Err(Unexpected));
    assert_eq!(
        indexer.request(),
        Request::ReadTags(&vec!["/m/a/1.mp3".to_string(), "/m/a/2.mp3".to_string()])
    );
    assert_eq!(
        indexer.advance(Event::Tags(vec![track("one", "1", "1"), track("two", "1", "2")])),
        Ok(())
    );
    assert_eq!(indexer.advance(Event::Present(vec![true])), Err(Unexpected));
    assert_eq!(indexer.advance(Event::Tags(vec![])), Err(Unexpected));
    assert_eq!(indexer.advance(Event::Present(vec![false, true])), Ok(()));
    assert_eq!(indexer.request(), Request::ReadCover("/m/a/cover.png"));
    assert_eq!(indexer.advance(Event::Present(vec![false, true])), Err(Unexpected));
    assert_eq!(indexer.advance(Event::Cover(Some(cover(b"c")))), Ok(()));
    assert_eq!(indexer.request(), Request::Done);
    assert_eq!(indexer.advance(Event::Cover(None)), Err(Unexpected));
    let (db, _) = indexer.finish().unwrap();
    assert_eq!(db.albums()[0].cover, Some(cover(b"c")));
}

#[test]
fn indexer_warns_of_a_song_and_of_an_album_that_are_in_the_catalog_already() {
    let mut world = World {
        tags: vec![
            ("/m/a/1.mp3", track("one", "1", "1")),
            ("/m/a/copy.mp3", track("one", "1", "1")),
            ("/m/a/2.mp3", track("two", "1", "2")),
            ("/m/b/1.mp3", track("three", "1", "1")),
            ("/m/b/2.mp3", track("four", "1", "2")),
        ],
        cover_files: vec![],
        embedded: vec![],
        asked: vec![],
    };
    let (db, warnings) =
        world.run(&["/m/a/1.mp3", "/m/a/copy.mp3", "/m/a/2.mp3", "/m/b/1.mp3", "/m/b/2.mp3"]);
    assert_eq!(
        warnings,
        vec![
            "Song is already in the catalog: \"/m/a/copy.mp3\"".to_string(),
            "Album is already in the catalog: \"/m/b\"".to_string(),
        ]
    );
    assert_eq!(db.albums().len(), 1);
    assert_eq!(db.songs().len(), 2);
    for song in db.songs() {
        assert!(db.get_album_by_song(&song.id).unwrap().tracks.contains(&song.id));
    }
}

#[test]
fn phases_are_told_apart() {
    assert_ne!(Phase::Grouping, Phase::Ready);
}
