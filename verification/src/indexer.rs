//! Building the catalog step by step.
//!
//! The indexer decides what is to be done next; whoever drives it does the
//! work outside (asks the tag helper, looks at the file system) and hands
//! back what came of it. Directories are taken one after the other: first
//! the tags of the files, then the cover files beside them, then, if none of
//! those gave a cover, the artwork embedded in the first track.

use crate::lists::{reversed, zip};
use crate::media::{
    admitted, album_id_of, album_key, are_parses_of, ascends, collect_songs, cover_candidates,
    first_present, group_by_directory, is_admitted_insertion, is_grouping, is_parse_of,
    is_track_order, left_out, lemma_admitted, pick_cover_file, songs_among, sort_tracks, texts,
    warnings_among, Cover, Directory, MediaDatabase, Song,
};
use vstd::string::StringExecFns;
use crate::tagparser::Tags;
use crate::util::path_joined;
use vstd::prelude::*;

verus! {

/// The warning about a song that is left out because its identifier is in
/// the catalog already, or is that of a song before it in its album.
pub open spec fn taken_message(path: Seq<char>) -> Seq<char> {
    "Song is already in the catalog: \""@ + path + "\""@
}

/// The warning about a directory whose album is left out because its
/// identifier is in the catalog already.
pub open spec fn album_taken_message(prefix: Seq<char>) -> Seq<char> {
    "Album is already in the catalog: \""@ + prefix + "\""@
}

/// The warnings about songs that are left out, one for each.
pub open spec fn taken_warnings(songs: Seq<Song>) -> Seq<Seq<char>> {
    Seq::new(songs.len(), |i: int| taken_message(songs[i].path@))
}

/// Where the indexer stands.
#[derive(Clone, Copy, Debug, PartialEq, Eq, Structural)]
pub enum Phase {
    /// The tags of the files of a directory are awaited.
    Grouping,
    /// The presence of the cover files of the directory is awaited.
    ProbeCovers,
    /// The content of a cover file is awaited.
    ReadCover,
    /// The artwork embedded in the first track is awaited.
    ReadEmbedded,
    /// Every directory is in the catalog.
    Ready,
}

/// What the indexer needs next.
#[derive(Debug, PartialEq, Eq)]
pub enum Request<'a> {
    /// For each of these files, what the tag helper says of its tags.
    ReadTags(&'a Vec<String>),
    /// For each of these files, whether it exists.
    ProbeCovers(&'a Vec<String>),
    /// The cover that the file at this path holds.
    ReadCover(&'a str),
    /// The cover that is embedded in the file at this path.
    ReadEmbedded(&'a str),
    /// Nothing: the catalog is complete.
    Done,
}

/// What came of the last request.
pub enum Event {
    /// What the tag helper said of each file, in the order of the request.
    Tags(Vec<Result<Tags, String>>),
    /// Whether each file exists, in the order of the request.
    Present(Vec<bool>),
    /// The cover that was asked for, if it could be had.
    Cover(Option<Cover>),
}

/// An event that does not answer the request that was open.
#[derive(Clone, Copy, Debug, PartialEq, Eq, Structural)]
pub struct Unexpected;

/// Builds the catalog from the files of a directory tree.
pub struct Indexer {
    db: MediaDatabase,
    warnings: Vec<String>,
    /// The directories that are still to come, the next one last.
    waiting: Vec<Directory>,
    phase: Phase,
    /// The directory under work.
    prefix: String,
    /// Its music files.
    files: Vec<String>,
    /// Its songs in track order, once the tags are in.
    songs: Vec<Song>,
    /// The files that may hold its cover.
    candidates: Vec<String>,
    /// The cover file that is being read.
    picked: usize,
}

impl Indexer {
    /// The catalog as far as it is built.
    pub closed spec fn db(&self) -> MediaDatabase {
        self.db
    }

    /// The messages about the files that were left out so far.
    pub closed spec fn warnings(&self) -> Seq<Seq<char>> {
        texts(self.warnings@)
    }

    /// The directories that are still to come, the next one first.
    pub closed spec fn waiting(&self) -> Seq<Directory> {
        self.waiting@.reverse()
    }

    /// Where the indexer stands.
    pub closed spec fn phase(&self) -> Phase {
        self.phase
    }

    /// The directory under work.
    pub closed spec fn prefix(&self) -> Seq<char> {
        self.prefix@
    }

    /// The music files of the directory under work.
    pub closed spec fn files(&self) -> Seq<Seq<char>> {
        texts(self.files@)
    }

    /// The songs of the directory under work, in track order.
    pub closed spec fn songs(&self) -> Seq<Song> {
        self.songs@
    }

    /// The files that may hold the cover of the directory under work.
    pub closed spec fn candidates(&self) -> Seq<Seq<char>> {
        texts(self.candidates@)
    }

    /// The index of the cover file that is being read.
    pub closed spec fn picked(&self) -> int {
        self.picked as int
    }

    /// The catalog is in order, what a phase needs is there, and the songs of
    /// the directory under work stand in track order and can go into the
    /// catalog: none has an identifier that is taken.
    pub closed spec fn wf(&self) -> bool {
        &&& self.db.wf()
        &&& self.phase == Phase::ReadCover ==> self.picked < self.candidates@.len()
        &&& self.phase == Phase::ReadEmbedded ==> self.songs@.len() > 0
        &&& ascends(self.songs@)
        &&& forall|i: int|
            0 <= i < self.songs@.len() ==> !self.db.has_song((#[trigger] self.songs@[i]).id@)
        &&& forall|i: int, j: int|
            0 <= i < j < self.songs@.len() ==> (#[trigger] self.songs@[i]).id@ != (
            #[trigger] self.songs@[j]).id@
    }

    /// Whether the indexer stands at the start of the given directories: at
    /// work on the first of them, with the others still to come, or ready
    /// where there is none.
    pub open spec fn starts_with(&self, groups: Seq<Directory>) -> bool {
        if groups.len() == 0 {
            self.phase() == Phase::Ready && self.waiting().len() == 0
        } else {
            &&& self.phase() == Phase::Grouping
            &&& self.prefix() == groups[0].prefix@
            &&& self.files() == texts(groups[0].files@)
            &&& self.waiting() == groups.drop_first()
        }
    }

    /// The indexer for the files at `paths`, which is what a walk through the
    /// directory tree found. It starts with an empty catalog and with the
    /// directories that hold music, in the order in which the walk met them.
    pub fn new(paths: Vec<String>) -> (indexer: Indexer)
        ensures
            indexer.wf(),
            indexer.db().song_ids().len() == 0,
            indexer.db().album_ids().len() == 0,
            indexer.warnings().len() == 0,
            exists|groups: Seq<Directory>|
                is_grouping(groups, texts(paths@)) && indexer.starts_with(groups),
    {
        let groups = group_by_directory(paths);
        let ghost all = groups@;
        let mut waiting = reversed(groups);
        let db = MediaDatabase::new();
        match waiting.pop() {
            Some(first) => {
                let indexer = Indexer {
                    db,
                    warnings: Vec::new(),
                    waiting,
                    phase: Phase::Grouping,
                    prefix: first.prefix,
                    files: first.files,
                    songs: Vec::new(),
                    candidates: Vec::new(),
                    picked: 0,
                };
                proof {
                    assert(first == all[0]);
                    assert(indexer.waiting() =~= all.drop_first());
                    assert(indexer.warnings() =~= Seq::<Seq<char>>::empty());
                    assert(indexer.starts_with(all));
                }
                indexer
            },
            None => {
                let indexer = Indexer {
                    db,
                    warnings: Vec::new(),
                    waiting,
                    phase: Phase::Ready,
                    prefix: String::new(),
                    files: Vec::new(),
                    songs: Vec::new(),
                    candidates: Vec::new(),
                    picked: 0,
                };
                proof {
                    assert(all.len() == 0);
                    assert(indexer.waiting() =~= Seq::<Directory>::empty());
                    assert(indexer.warnings() =~= Seq::<Seq<char>>::empty());
                    assert(indexer.starts_with(all));
                }
                indexer
            },
        }
    }

    /// What the indexer needs next.
    pub fn request(&self) -> (request: Request<'_>)
        requires
            self.wf(),
        ensures
            match self.phase() {
                Phase::Grouping => request is ReadTags && texts(request->ReadTags_0@)
                    == self.files(),
                Phase::ProbeCovers => request is ProbeCovers && texts(request->ProbeCovers_0@)
                    == self.candidates(),
                Phase::ReadCover => request is ReadCover && request->ReadCover_0@
                    == self.candidates()[self.picked()],
                Phase::ReadEmbedded => request is ReadEmbedded && request->ReadEmbedded_0@
                    == self.songs()[0].path@,
                Phase::Ready => request is Done,
            },
    {
        match self.phase {
            Phase::Grouping => Request::ReadTags(&self.files),
            Phase::ProbeCovers => Request::ProbeCovers(&self.candidates),
            Phase::ReadCover => Request::ReadCover(self.candidates[self.picked].as_str()),
            Phase::ReadEmbedded => Request::ReadEmbedded(self.songs[0].path.as_str()),
            Phase::Ready => Request::Done,
        }
    }

    /// Whether `event` answers the request that is open.
    pub open spec fn expects(&self, event: Event) -> bool {
        match (self.phase(), event) {
            (Phase::Grouping, Event::Tags(results)) => results@.len() == self.files().len(),
            (Phase::ProbeCovers, Event::Present(present)) => present@.len()
                == self.candidates().len(),
            (Phase::ReadCover, Event::Cover(_)) => true,
            (Phase::ReadEmbedded, Event::Cover(_)) => true,
            _ => false,
        }
    }

    /// Whether the two indexers work on the same album with the same catalog.
    pub open spec fn same_album(&self, after: Indexer) -> bool {
        &&& after.db() == self.db()
        &&& after.warnings() == self.warnings()
        &&& after.waiting() == self.waiting()
        &&& after.prefix() == self.prefix()
        &&& after.files() == self.files()
        &&& after.songs() == self.songs()
        &&& after.candidates() == self.candidates()
    }

    /// Whether `outcomes` holds what the files of the directory under work
    /// come to with the given tags, `ordered` has the songs among them in
    /// track order, `origin` telling where each came from, and `after` has
    /// those of them whose identifier is free, and behind the warnings that
    /// were there the warnings among the outcomes and one for each song whose
    /// identifier is taken.
    pub open spec fn is_sorting(
        &self,
        results: Seq<Result<Tags, String>>,
        outcomes: Seq<Result<Song, String>>,
        ordered: Seq<Song>,
        origin: Seq<int>,
        after: Indexer,
    ) -> bool {
        &&& outcomes.len() == results.len()
        &&& forall|i: int|
            0 <= i < results.len() ==> is_parse_of(
                #[trigger] outcomes[i],
                self.files()[i],
                results[i],
            )
        &&& is_track_order(songs_among(outcomes), ordered, origin)
        &&& after.songs() == admitted(self.db(), ordered)
        &&& after.warnings() == self.warnings() + warnings_among(outcomes) + taken_warnings(
            left_out(self.db(), ordered),
        )
    }

    /// The step that the tags of a directory's files bring: the files that
    /// give a song whose identifier is free become the songs of the album, in
    /// track order, the others leave a warning, and the cover files of the
    /// directory are looked for next.
    pub open spec fn is_grouped(&self, results: Seq<Result<Tags, String>>, after: Indexer) -> bool {
        &&& after.phase() == Phase::ProbeCovers
        &&& after.db() == self.db()
        &&& after.waiting() == self.waiting()
        &&& after.prefix() == self.prefix()
        &&& after.files() == self.files()
        &&& after.candidates() == seq![
            path_joined(self.prefix(), "cover.jpg"@),
            path_joined(self.prefix(), "cover.png"@),
        ]
        &&& exists|outcomes: Seq<Result<Song, String>>, ordered: Seq<Song>, origin: Seq<int>|
            self.is_sorting(results, outcomes, ordered, origin, after)
    }

    /// The step that ends the work on a directory: its album goes into the
    /// catalog with the given cover, unless the identifier of the album is
    /// taken, which leaves a warning and the catalog as it is. Then the next
    /// directory is begun, or the catalog is complete.
    pub open spec fn is_album_done(&self, cover: Option<Cover>, after: Indexer) -> bool {
        &&& if self.db().has_album(album_id_of(self.songs())) {
            &&& after.db() == self.db()
            &&& after.warnings() == self.warnings().push(album_taken_message(self.prefix()))
        } else {
            &&& is_admitted_insertion(self.db(), self.songs(), cover, after.db())
            &&& after.warnings() == self.warnings()
        }
        &&& after.songs().len() == 0
        &&& if self.waiting().len() > 0 {
            &&& after.phase() == Phase::Grouping
            &&& after.prefix() == self.waiting()[0].prefix@
            &&& after.files() == texts(self.waiting()[0].files@)
            &&& after.waiting() == self.waiting().drop_first()
        } else {
            after.phase() == Phase::Ready && after.waiting().len() == 0
        }
    }

    /// The step that follows once it is known what the cover files gave:
    /// without a cover from them, and with a first track to ask, the
    /// embedded artwork is asked for; else the album is done.
    pub open spec fn is_sibling_known(&self, sibling: Option<Cover>, after: Indexer) -> bool {
        if sibling is None && self.songs().len() > 0 {
            after.phase() == Phase::ReadEmbedded && self.same_album(after)
        } else {
            self.is_album_done(sibling, after)
        }
    }

    /// Whether `after` is what `event` makes of this indexer.
    pub open spec fn is_step(&self, event: Event, after: Indexer) -> bool {
        match (self.phase(), event) {
            (Phase::Grouping, Event::Tags(results)) => self.is_grouped(results@, after),
            (Phase::ProbeCovers, Event::Present(present)) => {
                let first = first_present(present@, 0);
                if first < present@.len() {
                    &&& after.phase() == Phase::ReadCover
                    &&& after.picked() == first
                    &&& self.same_album(after)
                } else {
                    self.is_sibling_known(None, after)
                }
            },
            (Phase::ReadCover, Event::Cover(cover)) => self.is_sibling_known(cover, after),
            (Phase::ReadEmbedded, Event::Cover(cover)) => self.is_album_done(cover, after),
            _ => false,
        }
    }

    fn finish_album(&mut self, cover: Option<Cover>)
        requires
            old(self).wf(),
        ensures
            final(self).wf(),
            old(self).is_album_done(cover, *final(self)),
    {
        let mut songs: Vec<Song> = Vec::new();
        std::mem::swap(&mut songs, &mut self.songs);
        let id = album_key(&songs);
        if self.db.get_album(id.as_str()).is_some() {
            let ghost before = self.warnings@;
            let mut message = String::from_str("Album is already in the catalog: \"");
            message.append(self.prefix.as_str());
            message.append("\"");
            assert(message@ =~= album_taken_message(self.prefix@));
            self.warnings.push(message);
            assert(texts(self.warnings@) =~= texts(before).push(album_taken_message(self.prefix@)));
        } else {
            self.db.insert_admitted(songs, cover);
        }
        let ghost left = self.waiting@;
        match self.waiting.pop() {
            Some(next) => {
                self.prefix = next.prefix;
                self.files = next.files;
                self.phase = Phase::Grouping;
                proof {
                    assert(left.reverse()[0] == next);
                    assert(self.waiting@.reverse() =~= left.reverse().drop_first());
                }
            },
            None => {
                self.phase = Phase::Ready;
                proof {
                    assert(left.reverse().len() == 0);
                }
            },
        }
    }

    fn sibling_known(&mut self, sibling: Option<Cover>)
        requires
            old(self).wf(),
        ensures
            final(self).wf(),
            old(self).is_sibling_known(sibling, *final(self)),
    {
        if sibling.is_none() && self.songs.len() > 0 {
            self.phase = Phase::ReadEmbedded;
        } else {
            self.finish_album(sibling);
        }
    }

    /// Takes in what came of the open request and moves on. An event that
    /// does not answer the open request is refused and changes nothing.
    pub fn advance(&mut self, event: Event) -> (taken: Result<(), Unexpected>)
        requires
            old(self).wf(),
        ensures
            final(self).wf(),
            old(self).expects(event) ==> taken is Ok && old(self).is_step(event, *final(self)),
            !old(self).expects(event) ==> taken is Err && *final(self) == *old(self),
    {
        match event {
            Event::Tags(results) => {
                if !(self.phase == Phase::Grouping && results.len() == self.files.len()) {
                    return Err(Unexpected);
                }
                let ghost given = results@;
                let mut paths: Vec<String> = Vec::new();
                let mut i: usize = 0;
                while i < self.files.len()
                    invariant
                        i <= self.files@.len(),
                        paths@.len() == i,
                        forall|k: int| 0 <= k < i ==> (#[trigger] paths@[k])@ == self.files@[k]@,
                    decreases self.files@.len() - i,
                {
                    paths.push(self.files[i].clone());
                    i += 1;
                }
                let files = zip(paths, results);
                let ghost before = self.warnings@;
                let songs = collect_songs(files, &mut self.warnings);
                let ghost unordered = songs@;
                let ghost parsed = self.warnings@;
                let ordered = sort_tracks(songs);
                let ghost sorted = ordered@;
                let (kept, left) = self.db.part(ordered);
                let mut notes: Vec<String> = Vec::new();
                let mut i: usize = 0;
                while i < left.len()
                    invariant
                        i <= left@.len(),
                        texts(notes@) == taken_warnings(left@.take(i as int)),
                    decreases left@.len() - i,
                {
                    let ghost so_far = notes@;
                    let mut message = String::from_str("Song is already in the catalog: \"");
                    message.append(left[i].path.as_str());
                    message.append("\"");
                    assert(message@ =~= taken_message(left@[i as int].path@));
                    notes.push(message);
                    assert(texts(notes@) =~= texts(so_far).push(
                        taken_message(left@[i as int].path@),
                    ));
                    assert(taken_warnings(left@.take(i + 1)) =~= taken_warnings(
                        left@.take(i as int),
                    ).push(taken_message(left@[i as int].path@)));
                    i += 1;
                }
                let ghost noted = notes@;
                self.warnings.append(&mut notes);
                assert(texts(self.warnings@) =~= texts(parsed) + texts(noted));
                assert(left@.take(i as int) =~= left@);
                proof {
                    let origin = choose|origin: Seq<int>|
                        is_track_order(unordered, sorted, origin);
                    assert(ascends(sorted));
                    lemma_admitted(self.db, sorted);
                }
                self.songs = kept;
                self.candidates = cover_candidates(self.prefix.as_str());
                self.phase = Phase::ProbeCovers;
                proof {
                    let outcomes = choose|outcomes: Seq<Result<Song, String>>|
                        {
                            &&& are_parses_of(outcomes, files@)
                            &&& unordered == songs_among(outcomes)
                            &&& texts(parsed) == texts(before) + warnings_among(outcomes)
                        };
                    let origin = choose|origin: Seq<int>|
                        is_track_order(unordered, sorted, origin);
                    assert forall|i: int| 0 <= i < given.len() implies is_parse_of(
                        #[trigger] outcomes[i],
                        old(self).files()[i],
                        given[i],
                    ) by {
                        assert(files@[i] == (paths@[i], given[i]));
                    }
                    assert(texts(self.warnings@) =~= old(self).warnings() + warnings_among(
                        outcomes,
                    ) + taken_warnings(left_out(old(self).db(), sorted)));
                    assert(old(self).is_sorting(given, outcomes, sorted, origin, *self));
                    assert(self.candidates() =~= seq![
                        path_joined(old(self).prefix(), "cover.jpg"@),
                        path_joined(old(self).prefix(), "cover.png"@),
                    ]);
                    assert(old(self).is_grouped(given, *self));
                }
                Ok(())
            },
            Event::Present(present) => {
                if !(self.phase == Phase::ProbeCovers && present.len() == self.candidates.len()) {
                    return Err(Unexpected);
                }
                match pick_cover_file(&present) {
                    Some(index) => {
                        self.picked = index;
                        self.phase = Phase::ReadCover;
                    },
                    None => {
                        self.sibling_known(None);
                    },
                }
                Ok(())
            },
            Event::Cover(cover) => {
                if self.phase == Phase::ReadCover {
                    self.sibling_known(cover);
                    Ok(())
                } else if self.phase == Phase::ReadEmbedded {
                    self.finish_album(cover);
                    Ok(())
                } else {
                    Err(Unexpected)
                }
            },
        }
    }

    /// Hands out the catalog and the warnings, once every directory is in
    /// the catalog.
    pub fn finish(self) -> (catalog: Option<(MediaDatabase, Vec<String>)>)
        requires
            self.wf(),
        ensures
            catalog is Some <==> self.phase() == Phase::Ready,
            catalog is Some ==> {
                &&& catalog->Some_0.0 == self.db()
                &&& catalog->Some_0.0.wf()
                &&& texts(catalog->Some_0.1@) == self.warnings()
            },
    {
        if self.phase == Phase::Ready {
            Some((self.db, self.warnings))
        } else {
            None
        }
    }
}

/// A cover file beside the tracks comes before embedded artwork: once the
/// file has given a cover, the first track is not asked for its artwork, and
/// the album goes into the catalog with that cover, unless the identifier of
/// the album is taken.
pub proof fn lemma_cover_file_comes_first(before: Indexer, cover: Cover, after: Indexer)
    requires
        before.phase() == Phase::ReadCover,
        before.is_step(Event::Cover(Some(cover)), after),
    ensures
        after.phase() != Phase::ReadEmbedded,
        !before.db().has_album(album_id_of(before.songs())) ==> {
            &&& after.db().has_album(album_id_of(before.songs()))
            &&& after.db().album(album_id_of(before.songs())).cover == Some(cover)
        },
{
}

/// Embedded artwork is asked for exactly where the cover files gave nothing
/// and the album has a first track.
pub proof fn lemma_embedded_artwork_is_the_fallback(
    before: Indexer,
    sibling: Option<Cover>,
    after: Indexer,
)
    requires
        before.phase() == Phase::ReadCover,
        before.is_step(Event::Cover(sibling), after),
    ensures
        after.phase() == Phase::ReadEmbedded <==> sibling is None && before.songs().len() > 0,
{
}

} // verus!
