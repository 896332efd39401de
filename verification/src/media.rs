//! The catalog of songs and albums, and how it is built from tagged files.

use crate::imaging::{
    decode, decoded_image, encode_jpeg, jpeg_encoding, resize, resized_image, Filter, Raster,
    RasterView,
};
use crate::lists::reversed;
use crate::mime::{plain_mime, Mime, MimeView};
use crate::table::{text_precedes, Table};
use crate::tagparser::{optional_number, optional_number_pair, Tags};
use crate::text::{decimal, same_text, to_decimal};
use crate::util::{extension, join, parent, path_extension, path_joined, path_parent};
use std::collections::hash_map::DefaultHasher;
use std::hash::Hasher;
use vstd::prelude::*;
use vstd::std_specs::hash::DefaultHasherAdditionalSpecFns;
use vstd::string::StringExecFns;
use vstd::utf8::encode_utf8;

verus! {

/// The name that stands in for an album's artist where no artist has enough
/// of its tracks.
pub open spec fn various_artists() -> Seq<char> {
    "Various Artists"@
}

/// A point in time: seconds since the epoch and the nanoseconds within the
/// second.
#[derive(Clone, Copy, Debug, PartialEq, Eq, Structural)]
pub struct Timestamp {
    pub sec: i64,
    pub nsec: i32,
}

/// One song of the catalog.
#[derive(Debug, PartialEq, Eq)]
pub struct Song {
    pub id: String,
    pub title: String,
    pub album_title: String,
    /// The number of the track on its disc; 0 where the file does not say.
    pub track: u32,
    /// The number of the disc; 0 where the file does not say.
    pub disc: u32,
    pub artist: String,
    pub year: Option<u32>,
    pub path: String,
}

/// The hash of a run of texts: each text is written to the hasher as its
/// UTF-8 bytes and closed with the byte 255, which no text contains. The
/// hasher starts from fixed keys, so the same texts always give the same
/// hash.
pub open spec fn keyed_hash(texts: Seq<Seq<char>>) -> u64 {
    DefaultHasher::spec_finish(hash_input(texts))
}

/// What is written to the hasher for a run of texts.
pub open spec fn hash_input(texts: Seq<Seq<char>>) -> Seq<Seq<u8>>
    decreases texts.len(),
{
    if texts.len() == 0 {
        Seq::empty()
    } else {
        hash_input(texts.drop_last()).push(encode_utf8(texts.last())).push(seq![255u8])
    }
}

/// The identifier of a song: the hash of artist and title, then year (0 where
/// unknown), track and disc, all in decimal and joined by hyphens.
pub open spec fn song_id(
    artist: Seq<char>,
    title: Seq<char>,
    year: Option<u32>,
    track: u32,
    disc: u32,
) -> Seq<char> {
    decimal(keyed_hash(seq![artist, title]) as nat) + seq!['-'] + decimal(
        match year {
            Some(year) => year as nat,
            None => 0,
        },
    ) + seq!['-'] + decimal(track as nat) + seq!['-'] + decimal(disc as nat)
}

/// The identifier of an album: the hash of the album artist, the hash of the
/// title and the number of tracks, in decimal and joined by hyphens.
pub open spec fn album_id(album_artist: Seq<char>, title: Seq<char>, tracks: nat) -> Seq<char> {
    decimal(keyed_hash(seq![album_artist]) as nat) + seq!['-'] + decimal(
        keyed_hash(seq![title]) as nat,
    ) + seq!['-'] + decimal(tracks)
}

fn hash_text(hasher: &mut DefaultHasher, text: &str)
    ensures
        final(hasher)@ == old(hasher)@.push(encode_utf8(text@)).push(seq![255u8]),
{
    hasher.write(text.as_bytes());
    let end: [u8; 1] = [255u8];
    hasher.write(end.as_slice());
    assert(end@ =~= seq![255u8]);
}

/// The hash of artist and title that starts a song's identifier.
pub fn hash_pair(first: &str, second: &str) -> (hash: u64)
    ensures
        hash == keyed_hash(seq![first@, second@]),
{
    let mut hasher = DefaultHasher::new();
    hash_text(&mut hasher, first);
    hash_text(&mut hasher, second);
    proof {
        let texts = seq![first@, second@];
        assert(texts.drop_last() =~= seq![first@]);
        assert(texts.drop_last().drop_last() =~= Seq::<Seq<char>>::empty());
        reveal_with_fuel(hash_input, 3);
        assert(hasher@ =~= hash_input(texts));
    }
    hasher.finish()
}

/// The hash of one text.
pub fn hash_one(text: &str) -> (hash: u64)
    ensures
        hash == keyed_hash(seq![text@]),
{
    let mut hasher = DefaultHasher::new();
    hash_text(&mut hasher, text);
    proof {
        let texts = seq![text@];
        assert(texts.drop_last() =~= Seq::<Seq<char>>::empty());
        reveal_with_fuel(hash_input, 2);
        assert(hasher@ =~= hash_input(texts));
    }
    hasher.finish()
}

/// Builds the identifier of a song.
pub fn make_song_id(artist: &str, title: &str, year: Option<u32>, track: u32, disc: u32) -> (id:
    String)
    ensures
        id@ == song_id(artist@, title@, year, track, disc),
{
    proof {
        reveal_strlit("-");
    }
    let year: u32 = match year {
        Some(year) => year,
        None => 0,
    };
    let mut id = to_decimal(hash_pair(artist, title));
    id.append("-");
    id.append(to_decimal(year as u64).as_str());
    id.append("-");
    id.append(to_decimal(track as u64).as_str());
    id.append("-");
    id.append(to_decimal(disc as u64).as_str());
    assert(id@ =~= song_id(artist@, title@, Some(year), track, disc));
    id
}

/// Builds the identifier of an album.
pub fn make_album_id(album_artist: &str, title: &str, tracks: usize) -> (id: String)
    ensures
        id@ == album_id(album_artist@, title@, tracks as nat),
{
    proof {
        reveal_strlit("-");
    }
    let mut id = to_decimal(hash_one(album_artist));
    id.append("-");
    id.append(to_decimal(hash_one(title)).as_str());
    id.append("-");
    id.append(to_decimal(tracks as u64).as_str());
    assert(id@ =~= album_id(album_artist@, title@, tracks as nat));
    id
}

/// Why a file whose tags could not be read is left out of the catalog.
pub open spec fn unreadable_message(path: Seq<char>, reason: Seq<char>) -> Seq<char> {
    "Failed to parse file \""@ + path + "\": "@ + reason
}

/// Why a file without a required tag is left out of the catalog.
pub open spec fn missing_message(field: Seq<char>, path: Seq<char>) -> Seq<char> {
    "Need valid '"@ + field + "' in track \""@ + path + "\""@
}

/// Whether a required tag is there and not empty.
pub open spec fn usable(tag: Option<Seq<char>>) -> bool {
    tag is Some && tag->Some_0.len() > 0
}

/// The number that a tag gives, or 0 where it gives none.
pub open spec fn number_or_zero(number: Option<u32>) -> u32 {
    match number {
        Some(number) => number,
        None => 0,
    }
}

/// Whether `song` is the song that the file at `path` with the tags `tags`
/// stands for.
pub open spec fn is_song_of(song: Song, path: Seq<char>, tags: Tags) -> bool {
    &&& song.title@ == tags.get("TITLE"@)->Some_0
    &&& song.album_title@ == tags.get("ALBUM"@)->Some_0
    &&& song.artist@ == tags.get("ARTIST"@)->Some_0
    &&& song.year == optional_number(tags.get("DATE"@))
    &&& song.track == number_or_zero(optional_number_pair(tags.get("TRACKNUMBER"@)).0)
    &&& song.disc == number_or_zero(optional_number_pair(tags.get("DISCNUMBER"@)).0)
    &&& song.path@ == path
    &&& song.id@ == song_id(song.artist@, song.title@, song.year, song.track, song.disc)
}

/// Whether `parsed` is what the file at `path` comes to, given what the tag
/// helper said of it: the message of the helper's failure, the message that
/// names the first of title, album and artist that is missing or empty, or
/// the song.
pub open spec fn is_parse_of(
    parsed: Result<Song, String>,
    path: Seq<char>,
    tags: Result<Tags, String>,
) -> bool {
    match tags {
        Err(reason) => parsed is Err && parsed->Err_0@ == unreadable_message(path, reason@),
        Ok(tags) => if !usable(tags.get("TITLE"@)) {
            parsed is Err && parsed->Err_0@ == missing_message("title"@, path)
        } else if !usable(tags.get("ALBUM"@)) {
            parsed is Err && parsed->Err_0@ == missing_message("album"@, path)
        } else if !usable(tags.get("ARTIST"@)) {
            parsed is Err && parsed->Err_0@ == missing_message("artist"@, path)
        } else {
            parsed is Ok && is_song_of(parsed->Ok_0, path, tags)
        },
    }
}

/// The same file with the same tags always gives the same song, identifier
/// included: nothing but the path and the tags goes into a song.
pub proof fn lemma_song_is_determined(a: Song, b: Song, path: Seq<char>, tags: Tags)
    requires
        is_song_of(a, path, tags),
        is_song_of(b, path, tags),
    ensures
        a.id@ == b.id@,
        a.title@ == b.title@,
        a.album_title@ == b.album_title@,
        a.artist@ == b.artist@,
        a.year == b.year,
        a.track == b.track,
        a.disc == b.disc,
        a.path@ == b.path@,
{
}

fn missing(field: &str, path: &str) -> (message: String)
    ensures
        message@ == missing_message(field@, path@),
{
    let mut message = String::from_str("Need valid '");
    message.append(field);
    message.append("' in track \"");
    message.append(path);
    message.append("\"");
    assert(message@ =~= missing_message(field@, path@));
    message
}

/// Makes the song of one file from what the tag helper said of it. A file
/// whose tags could not be read, or that lacks a title, an album or an
/// artist, gives the message that goes into the list of warnings.
pub fn parse_song(path: &str, tags: Result<Tags, String>) -> (parsed: Result<Song, String>)
    ensures
        is_parse_of(parsed, path@, tags),
{
    let tags = match tags {
        Ok(tags) => tags,
        Err(reason) => {
            let mut message = String::from_str("Failed to parse file \"");
            message.append(path);
            message.append("\": ");
            message.append(reason.as_str());
            assert(message@ =~= unreadable_message(path@, reason@));
            return Err(message);
        },
    };
    let title = match tags.title() {
        Some(title) if !title.is_empty() => title,
        _ => {
            return Err(missing("title", path));
        },
    };
    let album_title = match tags.album() {
        Some(album) if !album.is_empty() => album,
        _ => {
            return Err(missing("album", path));
        },
    };
    let year = tags.year();
    let artist = match tags.artist() {
        Some(artist) if !artist.is_empty() => artist,
        _ => {
            return Err(missing("artist", path));
        },
    };
    let track = match tags.track().0 {
        Some(track) => track,
        None => 0,
    };
    let disc = match tags.disc().0 {
        Some(disc) => disc,
        None => 0,
    };
    let id = make_song_id(artist, title, year, track, disc);
    Ok(
        Song {
            id,
            title: String::from_str(title),
            album_title: String::from_str(album_title),
            track,
            disc,
            artist: String::from_str(artist),
            year,
            path: String::from_str(path),
        },
    )
}

/// Whether song `a` may stand before song `b` in a track list: its disc
/// comes first, or they share the disc and its track does not come later.
pub open spec fn in_order(a: Song, b: Song) -> bool {
    a.disc < b.disc || (a.disc == b.disc && a.track <= b.track)
}

/// Whether two songs have the same place in a track list.
pub open spec fn same_place(a: Song, b: Song) -> bool {
    a.disc == b.disc && a.track == b.track
}

/// Whether `ordered` holds the songs of `songs` in track order: `origin`
/// tells for each place in `ordered` which song of `songs` stands there. Each
/// song is used once, discs and tracks ascend, and songs with the same disc
/// and track keep the order they had in `songs`.
pub open spec fn is_track_order(songs: Seq<Song>, ordered: Seq<Song>, origin: Seq<int>) -> bool {
    &&& ordered.len() == songs.len()
    &&& origin.len() == songs.len()
    &&& forall|i: int| 0 <= i < origin.len() ==> 0 <= #[trigger] origin[i] < songs.len()
    &&& forall|i: int, j: int|
        0 <= i < j < origin.len() ==> #[trigger] origin[i] != #[trigger] origin[j]
    &&& forall|i: int| 0 <= i < ordered.len() ==> #[trigger] ordered[i] == songs[origin[i]]
    &&& forall|i: int, j: int|
        0 <= i < j < ordered.len() ==> in_order(#[trigger] ordered[i], #[trigger] ordered[j])
    &&& forall|i: int, j: int|
        0 <= i < j < ordered.len() && same_place(ordered[i], ordered[j]) ==> #[trigger] origin[i]
            < #[trigger] origin[j]
}

/// Puts the songs of an album in track order: by disc, then by track. Songs
/// that share disc and track stay in the order in which they were given.
pub fn sort_tracks(songs: Vec<Song>) -> (ordered: Vec<Song>)
    ensures
        exists|origin: Seq<int>| is_track_order(songs@, ordered@, origin),
{
    let ghost given = songs@;
    let mut rest = songs;
    let mut ordered: Vec<Song> = Vec::new();
    let ghost mut origin: Seq<int> = Seq::empty();
    while rest.len() > 0
        invariant
            rest@ == given.take(rest@.len() as int),
            rest@.len() <= given.len(),
            ordered@.len() == given.len() - rest@.len(),
            origin.len() == ordered@.len(),
            forall|i: int| 0 <= i < origin.len() ==> rest@.len() <= #[trigger] origin[i] < given.len(),
            forall|i: int, j: int|
                0 <= i < j < origin.len() ==> #[trigger] origin[i] != #[trigger] origin[j],
            forall|i: int| 0 <= i < ordered@.len() ==> #[trigger] ordered@[i] == given[origin[i]],
            forall|i: int, j: int|
                0 <= i < j < ordered@.len() ==> in_order(
                    #[trigger] ordered@[i],
                    #[trigger] ordered@[j],
                ),
            forall|i: int, j: int|
                0 <= i < j < ordered@.len() && same_place(ordered@[i], ordered@[j])
                    ==> #[trigger] origin[i] < #[trigger] origin[j],
        decreases rest@.len(),
    {
        let ghost from = rest@.len() - 1;
        let song = rest.pop().unwrap();
        assert(song == given[from]);
        assert(rest@ =~= given.take(from));
        let mut at: usize = 0;
        while at < ordered.len() && (ordered[at].disc < song.disc || (ordered[at].disc == song.disc
            && ordered[at].track < song.track))
            invariant
                at <= ordered@.len(),
                forall|i: int|
                    0 <= i < at ==> in_order(#[trigger] ordered@[i], song) && !same_place(
                        ordered@[i],
                        song,
                    ),
            decreases ordered@.len() - at,
        {
            at += 1;
        }
        let ghost before = ordered@;
        let ghost before_origin = origin;
        ordered.insert(at, song);
        proof {
            origin = origin.insert(at as int, from);
            assert forall|i: int| 0 <= i < ordered@.len() implies #[trigger] ordered@[i]
                == given[origin[i]] by {
                if i < at {
                    assert(ordered@[i] == before[i]);
                } else if i > at {
                    assert(ordered@[i] == before[i - 1]);
                }
            }
            assert forall|i: int| 0 <= i < origin.len() implies rest@.len() <= #[trigger] origin[i]
                < given.len() by {
                if i < at {
                    assert(origin[i] == before_origin[i]);
                } else if i > at {
                    assert(origin[i] == before_origin[i - 1]);
                }
            }
            assert forall|i: int, j: int| 0 <= i < j < origin.len() implies #[trigger] origin[i]
                != #[trigger] origin[j] by {
                let oi = if i < at { i } else { i - 1 };
                let oj = if j < at { j } else { j - 1 };
                if i != at && j != at {
                    assert(before_origin[oi] != before_origin[oj]);
                } else if i == at {
                    assert(before_origin[oj] > from);
                } else {
                    assert(before_origin[oi] > from);
                }
            }
            assert forall|i: int, j: int| 0 <= i < j < ordered@.len() implies in_order(
                #[trigger] ordered@[i],
                #[trigger] ordered@[j],
            ) by {
                let oi = if i < at { i } else { i - 1 };
                let oj = if j < at { j } else { j - 1 };
                if i != at && j != at {
                    assert(in_order(before[oi], before[oj]));
                } else if i == at {
                    if at < before.len() {
                        assert(in_order(before[at as int], before[oj]) || oj == at);
                    }
                }
            }
            assert forall|i: int, j: int|
                0 <= i < j < ordered@.len() && same_place(ordered@[i], ordered@[j])
                    implies #[trigger] origin[i] < #[trigger] origin[j] by {
                let oi = if i < at { i } else { i - 1 };
                let oj = if j < at { j } else { j - 1 };
                if i != at && j != at {
                    assert(before_origin[oi] < before_origin[oj]);
                } else if i == at {
                    assert(before_origin[oj] > from);
                }
            }
        }
    }
    proof {
        assert(is_track_order(given, ordered@, origin));
    }
    ordered
}

/// The longest side of a thumbnail, in pixels.
pub const THUMBNAIL_SIZE: u32 = 200;

/// The largest cover, in bytes, that is served without a thumbnail.
pub const SERVABLE_SIZE: usize = 50000;

/// An album's artwork: an image file as it was found.
#[derive(Debug, PartialEq, Eq)]
pub struct Cover {
    pub data: Vec<u8>,
    pub mimetype: Mime,
    pub mtime: Timestamp,
}

/// Whether a cover with this content can be sent to clients as it is: at most
/// 50 000 bytes of JPEG.
pub open spec fn is_servable(data: Seq<u8>, mimetype: MimeView) -> bool {
    data.len() <= SERVABLE_SIZE && mimetype == plain_mime("image"@, "jpeg"@)
}

/// The picture of the thumbnail of a cover: the cover decoded and scaled to
/// fit 200 by 200 pixels. `None` where the cover cannot be decoded or has no
/// pixels.
pub open spec fn thumbnail_image(data: Seq<u8>) -> Option<RasterView> {
    match decoded_image(data) {
        Some(image) => if image.width >= 1 && image.height >= 1 {
            Some(resized_image(image, THUMBNAIL_SIZE, THUMBNAIL_SIZE, Filter::Lanczos3))
        } else {
            None
        },
        None => None,
    }
}

/// Decodes a cover and scales it to a thumbnail, which is never larger than
/// 200 by 200 pixels.
pub fn scale_to_thumbnail(data: &[u8]) -> (scaled: Option<Raster>)
    ensures
        match thumbnail_image(data@) {
            Some(image) => {
                &&& scaled is Some
                &&& scaled->Some_0@ == image
                &&& scaled->Some_0.wf()
                &&& 1 <= scaled->Some_0.width <= THUMBNAIL_SIZE
                &&& 1 <= scaled->Some_0.height <= THUMBNAIL_SIZE
            },
            None => scaled is None,
        },
{
    match decode(data) {
        Some(image) => if image.width >= 1 && image.height >= 1 {
            Some(resize(&image, THUMBNAIL_SIZE, THUMBNAIL_SIZE, Filter::Lanczos3))
        } else {
            None
        },
        None => None,
    }
}

impl Cover {
    /// Whether the cover can be sent to clients as it is.
    pub fn servable(&self) -> (servable: bool)
        ensures
            servable == is_servable(self.data@, self.mimetype@),
    {
        if self.data.len() > SERVABLE_SIZE {
            return false;
        }
        self.mimetype.is_jpeg()
    }

    /// Makes the thumbnail of this cover: the cover decoded, scaled to fit
    /// 200 by 200 pixels and written as JPEG, with the cover's modification
    /// time. Every cover that can be decoded and has pixels gets one.
    pub fn resize(&self) -> (thumbnail: Result<Cover, String>)
        ensures
            match thumbnail_image(self.data@) {
                Some(image) => {
                    &&& thumbnail is Ok
                    &&& jpeg_encoding(image) == Some(thumbnail->Ok_0.data@)
                    &&& thumbnail->Ok_0.mimetype@ == plain_mime("image"@, "jpeg"@)
                    &&& thumbnail->Ok_0.mtime == self.mtime
                },
                None => thumbnail is Err && thumbnail->Err_0@ == "Cannot make a thumbnail"@,
            },
    {
        let scaled = match scale_to_thumbnail(self.data.as_slice()) {
            Some(scaled) => scaled,
            None => {
                return Err(String::from_str("Cannot make a thumbnail"));
            },
        };
        match encode_jpeg(&scaled) {
            Some(data) => Ok(Cover { data, mimetype: Mime::new("image", "jpeg"), mtime: self.mtime }),
            None => Err(String::from_str("Cannot make a thumbnail")),
        }
    }
}

/// The index of the first candidate for a cover file that is there. The
/// entries tell for each candidate, in the order in which they are tried,
/// whether a file of that name exists.
pub open spec fn first_present(present: Seq<bool>, from: int) -> int
    decreases present.len() - from,
{
    if from >= present.len() {
        present.len() as int
    } else if present[from] {
        from
    } else {
        first_present(present, from + 1)
    }
}

/// Picks the cover file of a directory: the first candidate that exists.
pub fn pick_cover_file(present: &Vec<bool>) -> (picked: Option<usize>)
    ensures
        match picked {
            Some(index) => index == first_present(present@, 0) && index < present@.len(),
            None => first_present(present@, 0) == present@.len(),
        },
{
    let mut i: usize = 0;
    while i < present.len()
        invariant
            i <= present@.len(),
            first_present(present@, i as int) == first_present(present@, 0),
        decreases present@.len() - i,
    {
        if present[i] {
            return Some(i);
        }
        i += 1;
    }
    None
}

/// One album of the catalog.
#[derive(Debug, PartialEq, Eq)]
pub struct Album {
    pub id: String,
    pub title: String,
    pub album_artist: String,
    pub year: Option<u32>,
    /// The identifiers of the album's songs in track order.
    pub tracks: Vec<String>,
    pub cover: Option<Cover>,
    /// A smaller rendition of the cover, kept only where the cover itself
    /// is not servable.
    pub thumbnail: Option<Cover>,
}

/// The artists of a run of songs.
pub open spec fn artists_of(songs: Seq<Song>) -> Seq<Seq<char>> {
    Seq::new(songs.len(), |i: int| songs[i].artist@)
}

/// The identifiers of a run of songs.
pub open spec fn ids_of(songs: Seq<Song>) -> Seq<Seq<char>> {
    Seq::new(songs.len(), |i: int| songs[i].id@)
}

/// How often `who` occurs among `artists`.
pub open spec fn occurrences(artists: Seq<Seq<char>>, who: Seq<char>) -> nat
    decreases artists.len(),
{
    if artists.len() == 0 {
        0
    } else {
        occurrences(artists.drop_last(), who) + if artists.last() == who {
            1nat
        } else {
            0nat
        }
    }
}

/// Whether the artist of track `i` has at least half of the tracks, the half
/// rounded down.
pub open spec fn has_share(artists: Seq<Seq<char>>, i: int) -> bool {
    occurrences(artists, artists[i]) >= artists.len() / 2
}

/// The first track at or after `from` whose artist has at least half of the
/// tracks, or the number of tracks where there is none.
pub open spec fn first_with_share(artists: Seq<Seq<char>>, from: int) -> int
    decreases artists.len() - from,
{
    if from >= artists.len() {
        artists.len() as int
    } else if has_share(artists, from) {
        from
    } else {
        first_with_share(artists, from + 1)
    }
}

/// The artist of an album whose tracks have the given artists: the artist of
/// the first track whose artist has at least half of the tracks (the half
/// rounded down), or "Various Artists" where no artist has that many.
pub open spec fn album_artist(artists: Seq<Seq<char>>) -> Seq<char> {
    let i = first_with_share(artists, 0);
    if i < artists.len() {
        artists[i]
    } else {
        various_artists()
    }
}

fn count_artist(songs: &Vec<Song>, who: &String) -> (count: usize)
    ensures
        count == occurrences(artists_of(songs@), who@),
{
    let ghost artists = artists_of(songs@);
    let mut count: usize = 0;
    let mut i: usize = 0;
    assert(artists.take(0) =~= Seq::<Seq<char>>::empty());
    while i < songs.len()
        invariant
            i <= songs@.len(),
            artists == artists_of(songs@),
            count <= i,
            count == occurrences(artists.take(i as int), who@),
        decreases songs@.len() - i,
    {
        assert(artists.take(i + 1).drop_last() =~= artists.take(i as int));
        assert(artists.take(i + 1).last() == songs@[i as int].artist@);
        if songs[i].artist == *who {
            count += 1;
        }
        i += 1;
    }
    assert(artists.take(i as int) =~= artists);
    count
}

/// Finds the artist of an album.
pub fn resolve_album_artist(songs: &Vec<Song>) -> (artist: String)
    ensures
        artist@ == album_artist(artists_of(songs@)),
{
    let ghost artists = artists_of(songs@);
    let threshold = songs.len() / 2;
    let mut i: usize = 0;
    while i < songs.len()
        invariant
            i <= songs@.len(),
            artists == artists_of(songs@),
            threshold == songs@.len() / 2,
            first_with_share(artists, i as int) == first_with_share(artists, 0),
        decreases songs@.len() - i,
    {
        if count_artist(songs, &songs[i].artist) >= threshold {
            return songs[i].artist.clone();
        }
        i += 1;
    }
    String::from_str("Various Artists")
}

/// Where an album's title and year come from: the first song that has the
/// disc and track of the last song in track order.
pub open spec fn title_source(ordered: Seq<Song>, from: int) -> int
    decreases ordered.len() - from,
{
    if from >= ordered.len() {
        ordered.len() as int
    } else if same_place(ordered[from], ordered.last()) {
        from
    } else {
        title_source(ordered, from + 1)
    }
}

/// The title of an album: that of its title source. An album without songs
/// has an empty title.
pub open spec fn album_title(ordered: Seq<Song>) -> Seq<char> {
    if ordered.len() == 0 {
        Seq::empty()
    } else {
        ordered[title_source(ordered, 0)].album_title@
    }
}

/// The year of an album: that of its title source.
pub open spec fn album_year(ordered: Seq<Song>) -> Option<u32> {
    if ordered.len() == 0 {
        None
    } else {
        ordered[title_source(ordered, 0)].year
    }
}

/// The title source lies among the songs.
pub proof fn lemma_title_source(ordered: Seq<Song>, from: int)
    requires
        0 <= from < ordered.len(),
    ensures
        from <= title_source(ordered, from) < ordered.len(),
    decreases ordered.len() - from,
{
    if !same_place(ordered[from], ordered.last()) {
        lemma_title_source(ordered, from + 1);
    }
}

fn find_title_source(ordered: &Vec<Song>) -> (at: usize)
    requires
        ordered@.len() > 0,
    ensures
        at == title_source(ordered@, 0),
        at < ordered@.len(),
{
    let last = ordered.len() - 1;
    let mut i: usize = 0;
    proof {
        lemma_title_source(ordered@, 0);
    }
    while !(ordered[i].disc == ordered[last].disc && ordered[i].track == ordered[last].track)
        invariant
            last == ordered@.len() - 1,
            i <= last,
            title_source(ordered@, i as int) == title_source(ordered@, 0),
        decreases last - i,
    {
        i += 1;
    }
    i
}

/// The identifiers in the track list of an album.
pub open spec fn track_ids(album: Album) -> Seq<Seq<char>> {
    Seq::new(album.tracks@.len(), |i: int| album.tracks@[i]@)
}

/// What an album looks like that is made of the given songs, in the order
/// given, with the given cover.
pub open spec fn is_album_of(album: Album, ordered: Seq<Song>, cover: Option<Cover>) -> bool {
    &&& album.title@ == album_title(ordered)
    &&& album.year == album_year(ordered)
    &&& album.album_artist@ == album_artist(artists_of(ordered))
    &&& album.id@ == album_id(album.album_artist@, album.title@, ordered.len())
    &&& track_ids(album) == ids_of(ordered)
    &&& album.cover == cover
    &&& match cover {
        Some(cover) => if is_servable(cover.data@, cover.mimetype@) {
            album.thumbnail is None
        } else {
            match thumbnail_image(cover.data@) {
                Some(image) => {
                    &&& album.thumbnail is Some
                    &&& jpeg_encoding(image) == Some(album.thumbnail->Some_0.data@)
                    &&& album.thumbnail->Some_0.mimetype@ == plain_mime("image"@, "jpeg"@)
                    &&& album.thumbnail->Some_0.mtime == cover.mtime
                },
                None => album.thumbnail is None,
            }
        },
        None => album.thumbnail is None,
    }
}

/// Makes the album of the given songs, which stand in track order: title and
/// year, the album artist, the identifier, the track list, and a thumbnail
/// where the cover needs one.
pub fn make_album(ordered: &Vec<Song>, cover: Option<Cover>) -> (album: Album)
    ensures
        is_album_of(album, ordered@, cover),
{
    let (title, year) = if ordered.len() == 0 {
        (String::new(), None)
    } else {
        let source = find_title_source(ordered);
        (ordered[source].album_title.clone(), ordered[source].year)
    };
    let album_artist = resolve_album_artist(ordered);
    let id = make_album_id(album_artist.as_str(), title.as_str(), ordered.len());
    let mut tracks: Vec<String> = Vec::new();
    let mut i: usize = 0;
    while i < ordered.len()
        invariant
            i <= ordered@.len(),
            tracks@.len() == i,
            forall|k: int| 0 <= k < i ==> tracks@[k]@ == ordered@[k].id@,
        decreases ordered@.len() - i,
    {
        tracks.push(ordered[i].id.clone());
        i += 1;
    }
    let thumbnail = match &cover {
        Some(cover) => if cover.servable() {
            None
        } else {
            match cover.resize() {
                Ok(thumbnail) => Some(thumbnail),
                Err(_) => None,
            }
        },
        None => None,
    };
    let ghost listed = Seq::new(tracks@.len(), |i: int| tracks@[i]@);
    assert(listed =~= ids_of(ordered@));
    Album { id, title, album_artist, year, tracks, cover, thumbnail }
}

/// The identifier of the album that is made of the given songs.
pub open spec fn album_id_of(ordered: Seq<Song>) -> Seq<char> {
    album_id(album_artist(artists_of(ordered)), album_title(ordered), ordered.len())
}

/// Whether `song` occurs among `songs`.
pub open spec fn occurs(songs: Seq<Song>, song: Song) -> bool {
    exists|j: int| 0 <= j < songs.len() && #[trigger] songs[j] == song
}

/// Whether every song stands before the songs behind it in track order.
pub open spec fn ascends(songs: Seq<Song>) -> bool {
    forall|i: int, j: int|
        0 <= i < j < songs.len() ==> in_order(#[trigger] songs[i], #[trigger] songs[j])
}

/// The catalog: every song by its identifier, every album by its identifier,
/// and for every song the album it belongs to.
pub struct MediaDatabase {
    songs: Table<Song>,
    albums: Table<Album>,
    index_song_album: Table<String>,
}

/// The songs among `ordered` that can go into the catalog `db`: those whose
/// identifier is not in the catalog and does not occur earlier among
/// `ordered`. They keep their order.
pub open spec fn admitted(db: MediaDatabase, ordered: Seq<Song>) -> Seq<Song>
    decreases ordered.len(),
{
    if ordered.len() == 0 {
        Seq::empty()
    } else if db.has_song(ordered.last().id@) || ids_of(ordered.drop_last()).contains(
        ordered.last().id@,
    ) {
        admitted(db, ordered.drop_last())
    } else {
        admitted(db, ordered.drop_last()).push(ordered.last())
    }
}

/// The songs among `ordered` that cannot go into the catalog `db`, because
/// their identifier is taken. They keep their order.
pub open spec fn left_out(db: MediaDatabase, ordered: Seq<Song>) -> Seq<Song>
    decreases ordered.len(),
{
    if ordered.len() == 0 {
        Seq::empty()
    } else if db.has_song(ordered.last().id@) || ids_of(ordered.drop_last()).contains(
        ordered.last().id@,
    ) {
        left_out(db, ordered.drop_last()).push(ordered.last())
    } else {
        left_out(db, ordered.drop_last())
    }
}

/// An identifier occurs among songs where it occurs among all but the last,
/// or is the identifier of the last.
pub proof fn lemma_ids_of_last(songs: Seq<Song>, id: Seq<char>)
    requires
        songs.len() > 0,
    ensures
        ids_of(songs).contains(id) <==> ids_of(songs.drop_last()).contains(id) || songs.last().id@
            == id,
{
    let ids = ids_of(songs);
    let shorter = ids_of(songs.drop_last());
    if ids.contains(id) {
        let i = choose|i: int| 0 <= i < ids.len() && ids[i] == id;
        if i < songs.len() - 1 {
            assert(shorter[i] == id);
        }
    }
    if shorter.contains(id) {
        let i = choose|i: int| 0 <= i < shorter.len() && shorter[i] == id;
        assert(ids[i] == id);
    }
    if songs.last().id@ == id {
        assert(ids[songs.len() - 1] == id);
    }
}

/// What holds of the admitted songs: none has an identifier that the catalog
/// has, no two share an identifier, each is one of the given songs, an
/// identifier that occurs among the given songs is in the catalog or among
/// the admitted songs, and where the given songs ascend in track order, so
/// do the admitted.
pub proof fn lemma_admitted(db: MediaDatabase, ordered: Seq<Song>)
    ensures
        forall|i: int|
            0 <= i < admitted(db, ordered).len() ==> !db.has_song(
                (#[trigger] admitted(db, ordered)[i]).id@,
            ) && occurs(ordered, admitted(db, ordered)[i]),
        forall|i: int, j: int|
            0 <= i < j < admitted(db, ordered).len() ==> (#[trigger] admitted(db, ordered)[i]).id@
                != (#[trigger] admitted(db, ordered)[j]).id@,
        forall|id: Seq<char>|
            #![trigger ids_of(ordered).contains(id)]
            #![trigger ids_of(admitted(db, ordered)).contains(id)]
            (db.has_song(id) || ids_of(admitted(db, ordered)).contains(id)) <==> (db.has_song(id)
                || ids_of(ordered).contains(id)),
        ascends(ordered) ==> ascends(admitted(db, ordered)),
    decreases ordered.len(),
{
    let all = admitted(db, ordered);
    if ordered.len() > 0 {
        let shorter = ordered.drop_last();
        let last = ordered.last();
        let fewer = admitted(db, shorter);
        lemma_admitted(db, shorter);
        assert forall|i: int| 0 <= i < all.len() implies !db.has_song((#[trigger] all[i]).id@)
            && occurs(ordered, all[i]) by {
            if i < fewer.len() {
                assert(all[i] == fewer[i]);
                assert(occurs(shorter, fewer[i]));
                let j = choose|j: int| 0 <= j < shorter.len() && #[trigger] shorter[j] == fewer[i];
                assert(ordered[j] == all[i]);
            } else {
                assert(ordered[ordered.len() - 1] == all[i]);
            }
        }
        assert forall|i: int, j: int| 0 <= i < j < all.len() implies (#[trigger] all[i]).id@ != (
        #[trigger] all[j]).id@ by {
            if j < fewer.len() {
                assert(all[i] == fewer[i] && all[j] == fewer[j]);
            } else {
                assert(all[i] == fewer[i]);
                assert(occurs(shorter, fewer[i]));
                let k = choose|k: int| 0 <= k < shorter.len() && #[trigger] shorter[k] == fewer[i];
                assert(ids_of(shorter)[k] == fewer[i].id@);
            }
        }
        assert forall|id: Seq<char>|
            #![trigger ids_of(ordered).contains(id)]
            #![trigger ids_of(all).contains(id)]
            (db.has_song(id) || ids_of(all).contains(id)) <==> (db.has_song(id) || ids_of(
                ordered,
            ).contains(id)) by {
            lemma_ids_of_last(ordered, id);
            if all.len() > fewer.len() {
                assert(all.drop_last() =~= fewer);
                lemma_ids_of_last(all, id);
            }
        }
        if ascends(ordered) {
            assert(ascends(shorter)) by {
                assert forall|i: int, j: int| 0 <= i < j < shorter.len() implies in_order(
                    #[trigger] shorter[i],
                    #[trigger] shorter[j],
                ) by {
                    assert(shorter[i] == ordered[i] && shorter[j] == ordered[j]);
                }
            }
            assert forall|i: int, j: int| 0 <= i < j < all.len() implies in_order(
                #[trigger] all[i],
                #[trigger] all[j],
            ) by {
                if j < fewer.len() {
                    assert(all[i] == fewer[i] && all[j] == fewer[j]);
                } else {
                    assert(all[i] == fewer[i]);
                    assert(occurs(shorter, fewer[i]));
                    let k = choose|k: int|
                        0 <= k < shorter.len() && #[trigger] shorter[k] == fewer[i];
                    assert(ordered[k] == all[i]);
                    assert(ordered[ordered.len() - 1] == all[j]);
                }
            }
        }
    }
}

/// Whether `after` is the catalog `before` with the album of the songs
/// `kept` taken in: the album made of them and of `cover` stands under its
/// identifier, each of the songs stands under its identifier and belongs to
/// the album, and every other song and album is as it was.
pub open spec fn is_admitted_insertion(
    before: MediaDatabase,
    kept: Seq<Song>,
    cover: Option<Cover>,
    after: MediaDatabase,
) -> bool {
    &&& after.has_album(album_id_of(kept))
    &&& is_album_of(after.album(album_id_of(kept)), kept, cover)
    &&& forall|id: Seq<char>|
        id != album_id_of(kept) ==> (after.has_album(id) <==> before.has_album(id))
    &&& forall|id: Seq<char>| before.has_album(id) ==> after.album(id) == before.album(id)
    &&& forall|i: int|
        0 <= i < kept.len() ==> {
            &&& after.has_song((#[trigger] kept[i]).id@)
            &&& after.song(kept[i].id@) == kept[i]
            &&& after.album_of_song(kept[i].id@) == album_id_of(kept)
        }
    &&& forall|id: Seq<char>|
        !ids_of(kept).contains(id) ==> (after.has_song(id) <==> before.has_song(id))
    &&& forall|id: Seq<char>|
        before.has_song(id) ==> {
            &&& after.song(id) == before.song(id)
            &&& after.album_of_song(id) == before.album_of_song(id)
        }
}

/// Whether `after` and `rejected` are what taking in the album of the songs
/// `ordered`, which stand in track order, makes of the catalog `before`.
/// Songs whose identifier is taken are left out. The album of the others
/// goes into the catalog, unless its identifier is taken: then the catalog
/// stays as it is and every song is rejected, the left out last.
pub open spec fn is_insertion(
    before: MediaDatabase,
    ordered: Seq<Song>,
    cover: Option<Cover>,
    after: MediaDatabase,
    rejected: Seq<Song>,
) -> bool {
    let kept = admitted(before, ordered);
    if before.has_album(album_id_of(kept)) {
        after == before && rejected == kept + left_out(before, ordered)
    } else {
        rejected == left_out(before, ordered) && is_admitted_insertion(before, kept, cover, after)
    }
}

/// Whether the track list of an album of the catalog ascends by disc and
/// track.
pub open spec fn track_list_ascends(db: MediaDatabase, album: Seq<char>) -> bool {
    forall|i: int, j: int|
        0 <= i < j < track_ids(db.album(album)).len() ==> in_order(
            db.song(#[trigger] track_ids(db.album(album))[i]),
            db.song(#[trigger] track_ids(db.album(album))[j]),
        )
}

impl MediaDatabase {
    /// Whether the catalog has a song with this identifier.
    pub closed spec fn has_song(&self, id: Seq<char>) -> bool {
        self.songs.contains(id)
    }

    /// The song with this identifier.
    pub closed spec fn song(&self, id: Seq<char>) -> Song {
        self.songs.value(id)
    }

    /// The identifiers of all songs, in ascending order.
    pub closed spec fn song_ids(&self) -> Seq<Seq<char>> {
        self.songs.keys()
    }

    /// Whether the catalog has an album with this identifier.
    pub closed spec fn has_album(&self, id: Seq<char>) -> bool {
        self.albums.contains(id)
    }

    /// The album with this identifier.
    pub closed spec fn album(&self, id: Seq<char>) -> Album {
        self.albums.value(id)
    }

    /// The identifiers of all albums, in ascending order.
    pub closed spec fn album_ids(&self) -> Seq<Seq<char>> {
        self.albums.keys()
    }

    /// The identifier of the album that the song `id` belongs to.
    pub closed spec fn album_of_song(&self, id: Seq<char>) -> Seq<char> {
        self.index_song_album.value(id)@
    }

    /// The three tables are in order and fit together: each song belongs to
    /// one album, which lists it, each album lists songs of its own and none
    /// twice, and the track lists ascend by disc and track.
    pub closed spec fn wf(&self) -> bool {
        &&& self.songs.wf()
        &&& self.albums.wf()
        &&& self.index_song_album.wf()
        &&& forall|id: Seq<char>| self.songs.contains(id) <==> self.index_song_album.contains(id)
        &&& forall|id: Seq<char>| #[trigger]
            self.index_song_album.contains(id) ==> self.albums.contains(
                self.index_song_album.value(id)@,
            ) && track_ids(self.albums.value(self.index_song_album.value(id)@)).contains(id)
        &&& forall|id: Seq<char>, i: int|
            self.albums.contains(id) && 0 <= i < track_ids(self.albums.value(id)).len() ==> {
                &&& self.songs.contains(#[trigger] track_ids(self.albums.value(id))[i])
                &&& self.index_song_album.value(track_ids(self.albums.value(id))[i])@ == id
            }
        &&& forall|id: Seq<char>, i: int, j: int|
            self.albums.contains(id) && 0 <= i < j < track_ids(self.albums.value(id)).len() ==> {
                &&& #[trigger] track_ids(self.albums.value(id))[i] != #[trigger] track_ids(
                    self.albums.value(id),
                )[j]
                &&& in_order(
                    self.songs.value(track_ids(self.albums.value(id))[i]),
                    self.songs.value(track_ids(self.albums.value(id))[j]),
                )
            }
        &&& forall|id: Seq<char>| #[trigger]
            self.songs.contains(id) ==> self.songs.value(id).id@ == id
        &&& forall|id: Seq<char>| #[trigger]
            self.albums.contains(id) ==> self.albums.value(id).id@ == id
    }

    /// What holds of every catalog: each song belongs to exactly one album,
    /// which is in the catalog and has the song in its track list; each
    /// entry of a track list is a song of the catalog that belongs to that
    /// album; no track list has a song twice; every track list ascends by
    /// disc and track; songs and albums stand under their own identifiers;
    /// and the lists of identifiers ascend and hold exactly the songs and
    /// albums there are.
    pub proof fn lemma_invariant(&self)
        requires
            self.wf(),
        ensures
            forall|id: Seq<char>| #[trigger]
                self.has_song(id) ==> self.has_album(self.album_of_song(id)) && track_ids(
                    self.album(self.album_of_song(id)),
                ).contains(id),
            forall|id: Seq<char>, i: int|
                self.has_album(id) && 0 <= i < track_ids(self.album(id)).len() ==> {
                    &&& self.has_song(#[trigger] track_ids(self.album(id))[i])
                    &&& self.album_of_song(track_ids(self.album(id))[i]) == id
                },
            forall|id: Seq<char>, i: int, j: int|
                self.has_album(id) && 0 <= i < j < track_ids(self.album(id)).len()
                    ==> #[trigger] track_ids(self.album(id))[i] != #[trigger] track_ids(
                    self.album(id),
                )[j],
            forall|id: Seq<char>| #[trigger] self.has_album(id) ==> track_list_ascends(*self, id),
            forall|id: Seq<char>| #[trigger] self.has_song(id) ==> self.song(id).id@ == id,
            forall|id: Seq<char>| #[trigger] self.has_album(id) ==> self.album(id).id@ == id,
            forall|i: int, j: int|
                0 <= i < j < self.song_ids().len() ==> text_precedes(
                    #[trigger] self.song_ids()[i],
                    #[trigger] self.song_ids()[j],
                ),
            forall|i: int, j: int|
                0 <= i < j < self.album_ids().len() ==> text_precedes(
                    #[trigger] self.album_ids()[i],
                    #[trigger] self.album_ids()[j],
                ),
            forall|i: int|
                0 <= i < self.song_ids().len() ==> self.has_song(#[trigger] self.song_ids()[i]),
            forall|i: int|
                0 <= i < self.album_ids().len() ==> self.has_album(#[trigger] self.album_ids()[i]),
            forall|id: Seq<char>| #[trigger] self.has_song(id) ==> self.song_ids().contains(id),
            forall|id: Seq<char>| #[trigger] self.has_album(id) ==> self.album_ids().contains(id),
    {
        assert forall|id: Seq<char>| #[trigger] self.has_song(id) implies self.has_album(
            self.album_of_song(id),
        ) && track_ids(self.album(self.album_of_song(id))).contains(id) by {
            assert(self.index_song_album.contains(id));
        }
    }

    /// A catalog without songs and albums.
    pub fn new() -> (db: MediaDatabase)
        ensures
            db.wf(),
            forall|id: Seq<char>| !db.has_song(id),
            forall|id: Seq<char>| !db.has_album(id),
            db.song_ids().len() == 0,
            db.album_ids().len() == 0,
    {
        MediaDatabase {
            songs: Table::new(),
            albums: Table::new(),
            index_song_album: Table::new(),
        }
    }

    /// Parts the songs of an album, which stand in track order, into those
    /// that can go into the catalog and those whose identifier is taken.
    pub fn part(&self, ordered: Vec<Song>) -> (parted: (Vec<Song>, Vec<Song>))
        requires
            self.wf(),
        ensures
            parted.0@ == admitted(*self, ordered@),
            parted.1@ == left_out(*self, ordered@),
    {
        let ghost given = ordered@;
        let mut rest = reversed(ordered);
        let mut kept: Vec<Song> = Vec::new();
        let mut left: Vec<Song> = Vec::new();
        let ghost mut done: int = 0;
        assert(given.take(0) =~= Seq::<Song>::empty());
        while rest.len() > 0
            invariant
                self.wf(),
                0 <= done <= given.len(),
                rest@.len() + done == given.len(),
                forall|i: int| 0 <= i < rest@.len() ==> rest@[i] == given[given.len() - 1 - i],
                kept@ == admitted(*self, given.take(done)),
                left@ == left_out(*self, given.take(done)),
            decreases rest@.len(),
        {
            let song = rest.pop().unwrap();
            proof {
                assert(song == given[done]);
                assert(given.take(done + 1).drop_last() =~= given.take(done));
                assert(given.take(done + 1).last() == song);
                lemma_admitted(*self, given.take(done));
            }
            let taken = self.songs.get(song.id.as_str()).is_some() || has_id(
                &kept,
                song.id.as_str(),
            );
            if taken {
                left.push(song);
            } else {
                kept.push(song);
            }
            proof {
                done = done + 1;
            }
        }
        assert(given.take(done) =~= given);
        (kept, left)
    }

    /// Takes in the album of songs that were admitted: they stand in track
    /// order, none has an identifier that is taken, and neither has the
    /// album.
    pub(crate) fn insert_admitted(&mut self, kept: Vec<Song>, cover: Option<Cover>)
        requires
            old(self).wf(),
            ascends(kept@),
            forall|i: int| 0 <= i < kept@.len() ==> !old(self).has_song((#[trigger] kept@[i]).id@),
            forall|i: int, j: int|
                0 <= i < j < kept@.len() ==> (#[trigger] kept@[i]).id@ != (#[trigger] kept@[j]).id@,
            !old(self).has_album(album_id_of(kept@)),
        ensures
            final(self).wf(),
            is_admitted_insertion(*old(self), kept@, cover, *final(self)),
    {
        let ghost given = kept@;
        let ghost ids = ids_of(given);
        let ghost target = album_id_of(given);
        let total = kept.len();
        let album = make_album(&kept, cover);
        let mut rest = reversed(kept);
        let mut done: usize = 0;
        while rest.len() > 0
            invariant
                ids == ids_of(given),
                album.id@ == target,
                done + rest@.len() == given.len(),
                given.len() == total,
                forall|i: int| 0 <= i < rest@.len() ==> rest@[i] == given[given.len() - 1 - i],
                forall|i: int| 0 <= i < given.len() ==> !old(self).songs.contains(
                    #[trigger] ids[i],
                ),
                forall|i: int, j: int|
                    0 <= i < j < given.len() ==> #[trigger] ids[i] != #[trigger] ids[j],
                self.songs.wf(),
                self.albums.wf(),
                self.index_song_album.wf(),
                self.albums == old(self).albums,
                old(self).wf(),
                forall|id: Seq<char>|
                    self.songs.contains(id) <==> self.index_song_album.contains(id),
                forall|id: Seq<char>| #[trigger]
                    self.songs.contains(id) ==> self.songs.value(id).id@ == id,
                forall|id: Seq<char>|
                    self.songs.contains(id) <==> (old(self).songs.contains(id) || ids.take(
                        done as int,
                    ).contains(id)),
                forall|i: int|
                    0 <= i < done ==> {
                        &&& self.songs.contains(#[trigger] ids[i])
                        &&& self.songs.value(ids[i]) == given[i]
                        &&& self.index_song_album.value(ids[i])@ == target
                    },
                forall|id: Seq<char>| #[trigger]
                    old(self).songs.contains(id) ==> {
                        &&& self.songs.value(id) == old(self).songs.value(id)
                        &&& self.index_song_album.value(id) == old(self).index_song_album.value(id)
                    },
            decreases rest@.len(),
        {
            let ghost before = *self;
            let song = rest.pop().unwrap();
            assert(song == given[done as int]);
            let ghost id = ids[done as int];
            assert(song.id@ == id);
            self.index_song_album.insert(song.id.clone(), album.id.clone());
            self.songs.insert(song.id.clone(), song);
            proof {
                let shorter = ids.take(done as int);
                let longer = ids.take(done + 1);
                assert(longer =~= shorter.push(id));
                assert forall|other: Seq<char>| longer.contains(other) <==> (shorter.contains(other)
                    || other == id) by {
                    if longer.contains(other) {
                        let k = choose|k: int| 0 <= k < longer.len() && longer[k] == other;
                        if k < done {
                            assert(shorter[k] == other);
                        }
                    }
                    if shorter.contains(other) {
                        let k = choose|k: int| 0 <= k < shorter.len() && shorter[k] == other;
                        assert(longer[k] == other);
                    }
                    assert(longer[done as int] == id);
                }
                assert forall|i: int| 0 <= i < done + 1 implies {
                    &&& self.songs.contains(#[trigger] ids[i])
                    &&& self.songs.value(ids[i]) == given[i]
                    &&& self.index_song_album.value(ids[i])@ == target
                } by {
                    if i < done {
                        assert(ids[i] != id);
                        assert(before.songs.contains(ids[i]));
                        assert(before.index_song_album.contains(ids[i]));
                    }
                }
                assert forall|other: Seq<char>| #[trigger]
                    old(self).songs.contains(other) implies {
                    &&& self.songs.value(other) == old(self).songs.value(other)
                    &&& self.index_song_album.value(other) == old(self).index_song_album.value(
                        other,
                    )
                } by {
                    assert(other != id);
                    assert(before.songs.contains(other));
                    assert(before.index_song_album.contains(other));
                }
                assert forall|other: Seq<char>| #[trigger]
                    self.songs.contains(other) implies self.songs.value(other).id@ == other by {
                    if other != id {
                        assert(before.songs.contains(other));
                    }
                }
            }
            done += 1;
        }
        assert(ids.take(done as int) =~= ids);
        self.albums.insert(album.id.clone(), album);
        proof {
            let listed = track_ids(self.albums.value(target));
            assert(listed == ids);
            assert forall|id: Seq<char>| old(self).albums.contains(id) implies self.albums.value(
                id,
            ) == old(self).albums.value(id) && self.albums.contains(id) by {
                assert(id != target);
            }
            assert forall|id: Seq<char>| #[trigger]
                self.index_song_album.contains(id) implies self.albums.contains(
                self.index_song_album.value(id)@,
            ) && track_ids(self.albums.value(self.index_song_album.value(id)@)).contains(id) by {
                if ids.contains(id) {
                    let k = choose|k: int| 0 <= k < ids.len() && ids[k] == id;
                    assert(self.index_song_album.value(ids[k])@ == target);
                    assert(listed[k] == id);
                } else {
                    assert(old(self).songs.contains(id));
                    assert(old(self).index_song_album.contains(id));
                    let home = old(self).index_song_album.value(id)@;
                    assert(old(self).albums.contains(home));
                    assert(track_ids(old(self).albums.value(home)).contains(id));
                }
            }
            assert forall|id: Seq<char>, i: int|
                self.albums.contains(id) && 0 <= i < track_ids(self.albums.value(id)).len() implies {
                &&& self.songs.contains(#[trigger] track_ids(self.albums.value(id))[i])
                &&& self.index_song_album.value(track_ids(self.albums.value(id))[i])@ == id
            } by {
                if id == target {
                    assert(listed[i] == ids[i]);
                } else {
                    assert(old(self).albums.contains(id));
                    let track = track_ids(old(self).albums.value(id))[i];
                    assert(old(self).songs.contains(track));
                }
            }
            assert forall|id: Seq<char>, i: int, j: int|
                self.albums.contains(id) && 0 <= i < j < track_ids(self.albums.value(id)).len() implies {
                &&& #[trigger] track_ids(self.albums.value(id))[i] != #[trigger] track_ids(
                    self.albums.value(id),
                )[j]
                &&& in_order(
                    self.songs.value(track_ids(self.albums.value(id))[i]),
                    self.songs.value(track_ids(self.albums.value(id))[j]),
                )
            } by {
                if id == target {
                    assert(listed[i] == ids[i] && listed[j] == ids[j]);
                    assert(self.songs.value(ids[i]) == given[i]);
                    assert(self.songs.value(ids[j]) == given[j]);
                    assert(in_order(given[i], given[j]));
                } else {
                    assert(old(self).albums.contains(id));
                    let a = track_ids(old(self).albums.value(id))[i];
                    let b = track_ids(old(self).albums.value(id))[j];
                    assert(old(self).songs.contains(a));
                    assert(old(self).songs.contains(b));
                }
            }
            assert forall|id: Seq<char>| #[trigger]
                self.albums.contains(id) implies self.albums.value(id).id@ == id by {
                if id != target {
                    assert(old(self).albums.contains(id));
                }
            }
            assert forall|i: int| 0 <= i < given.len() implies {
                &&& self.has_song((#[trigger] given[i]).id@)
                &&& self.song(given[i].id@) == given[i]
                &&& self.album_of_song(given[i].id@) == target
            } by {
                assert(ids[i] == given[i].id@);
            }
        }
    }

    /// Takes in one album: its songs, in any order, and its cover. The songs
    /// are put in track order, by disc and then by track. A song whose
    /// identifier is in the catalog already, or is that of a song before it,
    /// is left out. The others make the album, which goes into the catalog
    /// unless its identifier is taken; then nothing changes. What did not go
    /// in is handed back.
    pub fn insert_album(&mut self, songs: Vec<Song>, cover: Option<Cover>) -> (rejected: Vec<Song>)
        requires
            old(self).wf(),
        ensures
            final(self).wf(),
            exists|ordered: Seq<Song>, origin: Seq<int>|
                is_track_order(songs@, ordered, origin) && is_insertion(
                    *old(self),
                    ordered,
                    cover,
                    *final(self),
                    rejected@,
                ),
            forall|id: Seq<char>| #[trigger]
                final(self).has_album(id) ==> track_list_ascends(*final(self), id),
    {
        let ghost given = songs@;
        let ordered = sort_tracks(songs);
        let ghost sorted = ordered@;
        proof {
            let origin = choose|origin: Seq<int>| is_track_order(given, sorted, origin);
            assert(ascends(sorted));
            lemma_admitted(*self, sorted);
        }
        let (kept, left) = self.part(ordered);
        let id = album_key(&kept);
        let rejected = if self.albums.get(id.as_str()).is_some() {
            let mut rejected = kept;
            let mut left = left;
            rejected.append(&mut left);
            rejected
        } else {
            self.insert_admitted(kept, cover);
            left
        };
        proof {
            self.lemma_invariant();
        }
        rejected
    }
}

/// Whether one of the songs has the identifier `id`.
pub fn has_id(songs: &Vec<Song>, id: &str) -> (found: bool)
    ensures
        found == ids_of(songs@).contains(id@),
{
    let mut i: usize = 0;
    while i < songs.len()
        invariant
            i <= songs@.len(),
            forall|k: int| 0 <= k < i ==> ids_of(songs@)[k] != id@,
        decreases songs@.len() - i,
    {
        if same_text(songs[i].id.as_str(), id) {
            assert(ids_of(songs@)[i as int] == id@);
            return true;
        }
        i += 1;
    }
    false
}

/// The identifier of the album that is made of the given songs.
pub fn album_key(ordered: &Vec<Song>) -> (id: String)
    ensures
        id@ == album_id_of(ordered@),
{
    let album_artist = resolve_album_artist(ordered);
    if ordered.len() == 0 {
        proof {
            reveal_strlit("");
            assert(""@ =~= Seq::<char>::empty());
        }
        make_album_id(album_artist.as_str(), "", 0)
    } else {
        let source = find_title_source(ordered);
        make_album_id(album_artist.as_str(), ordered[source].album_title.as_str(), ordered.len())
    }
}

impl MediaDatabase {
    /// The song with the identifier `song_id`.
    pub fn get_song(&self, song_id: &str) -> (song: Option<&Song>)
        requires
            self.wf(),
        ensures
            song is Some <==> self.has_song(song_id@),
            song is Some ==> *song->Some_0 == self.song(song_id@),
    {
        self.songs.get(song_id)
    }

    /// The album with the identifier `album_id`.
    pub fn get_album(&self, album_id: &str) -> (album: Option<&Album>)
        requires
            self.wf(),
        ensures
            album is Some <==> self.has_album(album_id@),
            album is Some ==> *album->Some_0 == self.album(album_id@),
    {
        self.albums.get(album_id)
    }

    /// The album that the song with the identifier `song_id` belongs to.
    pub fn get_album_by_song(&self, song_id: &str) -> (album: Option<&Album>)
        requires
            self.wf(),
        ensures
            album is Some <==> self.has_song(song_id@),
            album is Some ==> *album->Some_0 == self.album(self.album_of_song(song_id@)),
    {
        match self.index_song_album.get(song_id) {
            Some(album_id) => self.albums.get(album_id.as_str()),
            None => None,
        }
    }

    /// All songs, in the order of their identifiers.
    pub fn songs(&self) -> (songs: Vec<&Song>)
        requires
            self.wf(),
        ensures
            songs@.len() == self.song_ids().len(),
            forall|i: int|
                0 <= i < songs@.len() ==> *(#[trigger] songs@[i]) == self.song(self.song_ids()[i]),
    {
        let mut songs: Vec<&Song> = Vec::new();
        let mut i: usize = 0;
        while i < self.songs.len()
            invariant
                self.wf(),
                i <= self.song_ids().len(),
                songs@.len() == i,
                forall|k: int|
                    0 <= k < i ==> *(#[trigger] songs@[k]) == self.song(self.song_ids()[k]),
            decreases self.song_ids().len() - i,
        {
            proof {
                self.songs.lemma_value_at(i as int);
            }
            songs.push(self.songs.value_at(i));
            i += 1;
        }
        songs
    }

    /// All albums, in the order of their identifiers.
    pub fn albums(&self) -> (albums: Vec<&Album>)
        requires
            self.wf(),
        ensures
            albums@.len() == self.album_ids().len(),
            forall|i: int|
                0 <= i < albums@.len() ==> *(#[trigger] albums@[i]) == self.album(
                    self.album_ids()[i],
                ),
    {
        let mut albums: Vec<&Album> = Vec::new();
        let mut i: usize = 0;
        while i < self.albums.len()
            invariant
                self.wf(),
                i <= self.album_ids().len(),
                albums@.len() == i,
                forall|k: int|
                    0 <= k < i ==> *(#[trigger] albums@[k]) == self.album(self.album_ids()[k]),
            decreases self.album_ids().len() - i,
        {
            proof {
                self.albums.lemma_value_at(i as int);
            }
            albums.push(self.albums.value_at(i));
            i += 1;
        }
        albums
    }
}

/// Whether files with this extension are music.
pub open spec fn is_music_extension(extension: Seq<char>) -> bool {
    ||| extension == "opus"@
    ||| extension == "ogg"@
    ||| extension == "oga"@
    ||| extension == "flac"@
    ||| extension == "mp3"@
    ||| extension == "mp4"@
    ||| extension == "m4a"@
    ||| extension == "wma"@
}

/// Whether the file at `path` is music, judged by its extension.
pub open spec fn is_music(path: Seq<char>) -> bool {
    match path_extension(path) {
        Some(extension) => is_music_extension(extension),
        None => false,
    }
}

/// Whether the file at `path` is music, judged by its extension.
pub fn is_music_file(path: &str) -> (music: bool)
    ensures
        music == is_music(path@),
{
    match extension(path) {
        Some(ext) => {
            let ext = ext.as_str();
            same_text(ext, "opus") || same_text(ext, "ogg") || same_text(ext, "oga") || same_text(
                ext,
                "flac",
            ) || same_text(ext, "mp3") || same_text(ext, "mp4") || same_text(ext, "m4a")
                || same_text(ext, "wma")
        },
        None => false,
    }
}

/// The files that may hold the cover of the album in the directory `prefix`,
/// in the order in which they are tried.
pub fn cover_candidates(prefix: &str) -> (candidates: Vec<String>)
    ensures
        candidates@.len() == 2,
        candidates@[0]@ == path_joined(prefix@, "cover.jpg"@),
        candidates@[1]@ == path_joined(prefix@, "cover.png"@),
{
    let mut candidates: Vec<String> = Vec::new();
    candidates.push(join(prefix, "cover.jpg"));
    candidates.push(join(prefix, "cover.png"));
    candidates
}

/// The music files of one directory, which make one album.
#[derive(Debug, PartialEq, Eq)]
pub struct Directory {
    pub prefix: String,
    pub files: Vec<String>,
}

/// Whether the file at `path` is music that lies in the directory `prefix`.
pub open spec fn belongs(path: Seq<char>, prefix: Seq<char>) -> bool {
    is_music(path) && path_parent(path) == Some(prefix)
}

/// The music files among `paths` that lie in the directory `prefix`, in the
/// order of `paths`.
pub open spec fn members(paths: Seq<Seq<char>>, prefix: Seq<char>) -> Seq<Seq<char>>
    decreases paths.len(),
{
    if paths.len() == 0 {
        Seq::empty()
    } else if belongs(paths.last(), prefix) {
        members(paths.drop_last(), prefix).push(paths.last())
    } else {
        members(paths.drop_last(), prefix)
    }
}

/// The texts of a run of strings.
pub open spec fn texts(strings: Seq<String>) -> Seq<Seq<char>> {
    Seq::new(strings.len(), |i: int| strings[i]@)
}

/// The index of the first music file at or after `from` that lies in the
/// directory `prefix`, or the number of paths where there is none.
pub open spec fn first_member(paths: Seq<Seq<char>>, prefix: Seq<char>, from: int) -> int
    decreases paths.len() - from,
{
    if from >= paths.len() {
        paths.len() as int
    } else if belongs(paths[from], prefix) {
        from
    } else {
        first_member(paths, prefix, from + 1)
    }
}

/// Whether the groups stand in the order in which their directories first
/// occur among `paths`.
pub open spec fn in_walk_order(groups: Seq<Directory>, paths: Seq<Seq<char>>) -> bool {
    forall|i: int, j: int|
        0 <= i < j < groups.len() ==> first_member(paths, (#[trigger] groups[i]).prefix@, 0)
            < first_member(paths, (#[trigger] groups[j]).prefix@, 0)
}

/// `first_member` lies between its start and the number of paths, and
/// inside the paths it points at a member.
pub proof fn lemma_first_member(paths: Seq<Seq<char>>, prefix: Seq<char>, from: int)
    requires
        0 <= from <= paths.len(),
    ensures
        from <= first_member(paths, prefix, from) <= paths.len(),
        first_member(paths, prefix, from) < paths.len() ==> belongs(
            paths[first_member(paths, prefix, from)],
            prefix,
        ),
    decreases paths.len() - from,
{
    if from < paths.len() && !belongs(paths[from], prefix) {
        lemma_first_member(paths, prefix, from + 1);
    }
}

/// What one more path does to `first_member`: nothing where a member was
/// found before; else the new path is the first member, if it is one.
pub proof fn lemma_first_member_push(
    paths: Seq<Seq<char>>,
    extra: Seq<char>,
    prefix: Seq<char>,
    from: int,
)
    requires
        0 <= from <= paths.len(),
    ensures
        first_member(paths.push(extra), prefix, from) == if first_member(paths, prefix, from)
            < paths.len() {
            first_member(paths, prefix, from)
        } else if belongs(extra, prefix) {
            paths.len() as int
        } else {
            (paths.len() + 1) as int
        },
    decreases paths.len() - from,
{
    let longer = paths.push(extra);
    if from < paths.len() {
        assert(longer[from] == paths[from]);
        if !belongs(paths[from], prefix) {
            lemma_first_member_push(paths, extra, prefix, from + 1);
        }
    } else {
        assert(longer[from] == extra);
        assert(first_member(longer, prefix, from + 1) == longer.len());
    }
}

/// A directory has members among the paths exactly where it has a first
/// member.
pub proof fn lemma_members_have_a_first(paths: Seq<Seq<char>>, prefix: Seq<char>)
    ensures
        members(paths, prefix).len() > 0 <==> first_member(paths, prefix, 0) < paths.len(),
    decreases paths.len(),
{
    if paths.len() > 0 {
        let shorter = paths.drop_last();
        lemma_members_have_a_first(shorter, prefix);
        lemma_first_member_push(shorter, paths.last(), prefix, 0);
        assert(shorter.push(paths.last()) =~= paths);
    }
}

/// One more path keeps the groups in walk order, where the groups stay as
/// they are or get one more group, at the end, for a directory that the path
/// is the first member of.
proof fn lemma_walk_order_extends(
    before: Seq<Directory>,
    after: Seq<Directory>,
    seen: Seq<Seq<char>>,
    path: Seq<char>,
)
    requires
        in_walk_order(before, seen),
        forall|i: int|
            0 <= i < before.len() ==> members(seen, (#[trigger] before[i]).prefix@).len() > 0,
        after.len() == before.len() || after.len() == before.len() + 1,
        forall|i: int| 0 <= i < before.len() ==> (#[trigger] after[i]).prefix@ == before[i].prefix@,
        after.len() == before.len() + 1 ==> members(seen, after.last().prefix@).len() == 0
            && belongs(path, after.last().prefix@),
    ensures
        in_walk_order(after, seen.push(path)),
{
    let next = seen.push(path);
    assert forall|i: int, j: int| 0 <= i < j < after.len() implies first_member(
        next,
        (#[trigger] after[i]).prefix@,
        0,
    ) < first_member(next, (#[trigger] after[j]).prefix@, 0) by {
        assert(after[i].prefix@ == before[i].prefix@);
        lemma_members_have_a_first(seen, before[i].prefix@);
        lemma_first_member_push(seen, path, before[i].prefix@, 0);
        if j < before.len() {
            assert(after[j].prefix@ == before[j].prefix@);
            lemma_members_have_a_first(seen, before[j].prefix@);
            lemma_first_member_push(seen, path, before[j].prefix@, 0);
        } else {
            lemma_members_have_a_first(seen, after[j].prefix@);
            lemma_first_member(seen, after[j].prefix@, 0);
            lemma_first_member_push(seen, path, after[j].prefix@, 0);
        }
    }
}

/// Whether `groups` is the grouping of `paths` by directory: no directory
/// occurs twice, each group holds the music files of its directory in the
/// order of `paths` and is not empty, every directory with a music file has
/// its group, and the groups stand in the order in which their directories
/// first occur.
pub open spec fn is_grouping(groups: Seq<Directory>, paths: Seq<Seq<char>>) -> bool {
    &&& forall|i: int, j: int|
        0 <= i < j < groups.len() ==> (#[trigger] groups[i]).prefix@ != (
        #[trigger] groups[j]).prefix@
    &&& forall|i: int|
        0 <= i < groups.len() ==> texts((#[trigger] groups[i]).files@) == members(
            paths,
            groups[i].prefix@,
        ) && groups[i].files@.len() > 0
    &&& forall|prefix: Seq<char>|
        members(paths, prefix).len() > 0 ==> exists|i: int|
            0 <= i < groups.len() && (#[trigger] groups[i]).prefix@ == prefix
    &&& in_walk_order(groups, paths)
}

/// Groups the music files among `paths` by the directory they lie in. Files
/// that are no music are left out. The groups stand in the order in which
/// their directories first occur among the paths.
pub fn group_by_directory(paths: Vec<String>) -> (groups: Vec<Directory>)
    ensures
        is_grouping(groups@, texts(paths@)),
{
    let ghost all = texts(paths@);
    let mut groups: Vec<Directory> = Vec::new();
    let mut k: usize = 0;
    assert(all.take(0) =~= Seq::<Seq<char>>::empty());
    while k < paths.len()
        invariant
            k <= paths@.len(),
            all == texts(paths@),
            is_grouping(groups@, all.take(k as int)),
        decreases paths@.len() - k,
    {
        let ghost seen = all.take(k as int);
        let ghost next = all.take(k + 1);
        let ghost path = all[k as int];
        assert(next.drop_last() =~= seen);
        assert(next.last() == path);
        assert(next =~= seen.push(path));
        let ghost earlier = groups@;
        let prefix = if is_music_file(paths[k].as_str()) {
            parent(paths[k].as_str())
        } else {
            None
        };
        match prefix {
            None => {
                assert(forall|prefix: Seq<char>| !belongs(path, prefix));
                assert(forall|prefix: Seq<char>| members(next, prefix) == members(seen, prefix));
                proof {
                    lemma_walk_order_extends(earlier, groups@, seen, path);
                }
            },
            Some(prefix) => {
                assert(belongs(path, prefix@));
                assert(forall|other: Seq<char>|
                    other != prefix@ ==> members(next, other) == members(seen, other));
                let mut at: usize = 0;
                while at < groups.len() && !same_text(
                    groups[at].prefix.as_str(),
                    prefix.as_str(),
                )
                    invariant
                        at <= groups@.len(),
                        forall|i: int| 0 <= i < at ==> (#[trigger] groups@[i]).prefix@ != prefix@,
                    decreases groups@.len() - at,
                {
                    at += 1;
                }
                let ghost before = groups@;
                if at < groups.len() {
                    let mut group = groups.remove(at);
                    group.files.push(paths[k].clone());
                    groups.insert(at, group);
                    proof {
                        assert(texts(groups@[at as int].files@) =~= texts(
                            before[at as int].files@,
                        ).push(path));
                        assert forall|i: int| 0 <= i < groups@.len() implies texts(
                            (#[trigger] groups@[i]).files@,
                        ) == members(next, groups@[i].prefix@) && groups@[i].files@.len() > 0 by {
                            if i != at {
                                assert(groups@[i] == before[i]);
                            }
                        }
                        assert forall|i: int, j: int| 0 <= i < j < groups@.len() implies (
                        #[trigger] groups@[i]).prefix@ != (#[trigger] groups@[j]).prefix@ by {
                            assert(groups@[i].prefix@ == before[i].prefix@);
                            assert(groups@[j].prefix@ == before[j].prefix@);
                        }
                        assert forall|other: Seq<char>| members(next, other).len() > 0 implies exists|
                            i: int,
                        |
                            0 <= i < groups@.len() && (#[trigger] groups@[i]).prefix@ == other by {
                            if other == prefix@ {
                                assert(groups@[at as int].prefix@ == other);
                            } else {
                                let i = choose|i: int|
                                    0 <= i < before.len() && (#[trigger] before[i]).prefix@
                                        == other;
                                assert(groups@[i].prefix@ == other);
                            }
                        }
                        assert forall|i: int| 0 <= i < before.len() implies (
                        #[trigger] groups@[i]).prefix@ == before[i].prefix@ by {
                            if i != at {
                                assert(groups@[i] == before[i]);
                            }
                        }
                        lemma_walk_order_extends(before, groups@, seen, path);
                    }
                } else {
                    let mut files: Vec<String> = Vec::new();
                    files.push(paths[k].clone());
                    proof {
                        if members(seen, prefix@).len() > 0 {
                            let i = choose|i: int|
                                0 <= i < before.len() && (#[trigger] before[i]).prefix@ == prefix@;
                            assert(false);
                        }
                        assert(members(seen, prefix@) =~= Seq::<Seq<char>>::empty());
                        assert(texts(files@) =~= members(next, prefix@));
                    }
                    groups.push(Directory { prefix, files });
                    proof {
                        assert forall|i: int| 0 <= i < groups@.len() implies texts(
                            (#[trigger] groups@[i]).files@,
                        ) == members(next, groups@[i].prefix@) && groups@[i].files@.len() > 0 by {
                            if i < before.len() {
                                assert(groups@[i] == before[i]);
                            }
                        }
                        assert forall|i: int, j: int| 0 <= i < j < groups@.len() implies (
                        #[trigger] groups@[i]).prefix@ != (#[trigger] groups@[j]).prefix@ by {
                            assert(groups@[i] == before[i]);
                            if j < before.len() {
                                assert(groups@[j] == before[j]);
                            }
                        }
                        assert forall|other: Seq<char>| members(next, other).len() > 0 implies exists|
                            i: int,
                        |
                            0 <= i < groups@.len() && (#[trigger] groups@[i]).prefix@ == other by {
                            if other == prefix@ {
                                assert(groups@[before.len() as int].prefix@ == other);
                            } else {
                                let i = choose|i: int|
                                    0 <= i < before.len() && (#[trigger] before[i]).prefix@
                                        == other;
                                assert(groups@[i].prefix@ == other);
                            }
                        }
                        assert forall|i: int| 0 <= i < before.len() implies (
                        #[trigger] groups@[i]).prefix@ == before[i].prefix@ by {
                            assert(groups@[i] == before[i]);
                        }
                        assert(groups@.last().prefix@ == prefix@);
                        lemma_walk_order_extends(before, groups@, seen, path);
                    }
                }
            },
        }
        k += 1;
    }
    assert(all.take(k as int) =~= all);
    groups
}

/// The songs among the outcomes of parsing, in order.
pub open spec fn songs_among(outcomes: Seq<Result<Song, String>>) -> Seq<Song>
    decreases outcomes.len(),
{
    if outcomes.len() == 0 {
        Seq::empty()
    } else {
        match outcomes.last() {
            Ok(song) => songs_among(outcomes.drop_last()).push(song),
            Err(_) => songs_among(outcomes.drop_last()),
        }
    }
}

/// The messages among the outcomes of parsing, in order.
pub open spec fn warnings_among(outcomes: Seq<Result<Song, String>>) -> Seq<Seq<char>>
    decreases outcomes.len(),
{
    if outcomes.len() == 0 {
        Seq::empty()
    } else {
        match outcomes.last() {
            Ok(_) => warnings_among(outcomes.drop_last()),
            Err(message) => warnings_among(outcomes.drop_last()).push(message@),
        }
    }
}

/// Whether `outcomes` holds, file by file, what the files come to.
pub open spec fn are_parses_of(
    outcomes: Seq<Result<Song, String>>,
    files: Seq<(String, Result<Tags, String>)>,
) -> bool {
    &&& outcomes.len() == files.len()
    &&& forall|i: int|
        0 <= i < files.len() ==> is_parse_of(#[trigger] outcomes[i], files[i].0@, files[i].1)
}

/// Makes the songs of the files of one directory, each file given with what
/// the tag helper said of it. A file that gives no song leaves its message in
/// `warnings` and is left out; the others stay in the order of the files.
pub fn collect_songs(files: Vec<(String, Result<Tags, String>)>, warnings: &mut Vec<String>) -> (songs:
    Vec<Song>)
    ensures
        exists|outcomes: Seq<Result<Song, String>>|
            {
                &&& are_parses_of(outcomes, files@)
                &&& songs@ == songs_among(outcomes)
                &&& texts(final(warnings)@) == texts(old(warnings)@) + warnings_among(outcomes)
            },
{
    let ghost given = files@;
    let mut rest = reversed(files);
    let mut songs: Vec<Song> = Vec::new();
    let ghost mut outcomes: Seq<Result<Song, String>> = Seq::empty();
    while rest.len() > 0
        invariant
            rest@.len() + outcomes.len() == given.len(),
            forall|i: int| 0 <= i < rest@.len() ==> rest@[i] == given[given.len() - 1 - i],
            forall|i: int|
                0 <= i < outcomes.len() ==> is_parse_of(
                    #[trigger] outcomes[i],
                    given[i].0@,
                    given[i].1,
                ),
            songs@ == songs_among(outcomes),
            texts(warnings@) == texts(old(warnings)@) + warnings_among(outcomes),
        decreases rest@.len(),
    {
        let ghost at = outcomes.len() as int;
        let (path, tags) = rest.pop().unwrap();
        assert((path, tags) == given[at]);
        let ghost before = warnings@;
        let ghost earlier = outcomes;
        match parse_song(path.as_str(), tags) {
            Ok(song) => {
                proof {
                    outcomes = outcomes.push(Ok(song));
                    assert(outcomes.drop_last() =~= earlier);
                }
                songs.push(song);
            },
            Err(message) => {
                proof {
                    outcomes = outcomes.push(Err(message));
                    assert(outcomes.drop_last() =~= earlier);
                }
                warnings.push(message);
                assert(texts(warnings@) =~= texts(before).push(message@));
                assert(texts(warnings@) =~= texts(old(warnings)@) + warnings_among(outcomes));
            },
        }
    }
    proof {
        assert(are_parses_of(outcomes, given));
    }
    songs
}

} // verus!
