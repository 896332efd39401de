//! The tag helper as the server sees it: the tags of one file, and what the
//! helper's replies mean.

use crate::media::{Cover, Timestamp};
use crate::mime::{is_ascii_text, mime_parsing, Mime, MimeView};
use crate::rpc::{
    call, call_view, feed, outcome_view, text_of, value_to_string, ProtocolError, RPCInterface,
};
use crate::wire::resp_encoding;
use crate::text::{find_char, parse_u32, parsed_u32, position, same_text};
use crate::value::{lemma_array_view, views, Value, ValueView};
use vstd::prelude::*;
use vstd::string::{StrSliceExecFns, StringExecFns};

verus! {

/// The value that the last entry with the given key holds, if any entry has
/// that key: entries that come later replace earlier ones.
pub open spec fn lookup(entries: Seq<(Seq<char>, Seq<char>)>, key: Seq<char>) -> Option<
    Seq<char>,
>
    decreases entries.len(),
{
    if entries.len() == 0 {
        None
    } else if entries.last().0 == key {
        Some(entries.last().1)
    } else {
        lookup(entries.drop_last(), key)
    }
}

/// The two numbers of a text such as `3/12`: the part before the first slash
/// and the part between the first and the second slash, each read as a
/// decimal number. A part that is missing or is no number gives `None`.
pub open spec fn number_pair(text: Seq<char>) -> (Option<u32>, Option<u32>) {
    let first_end = position(text, '/', 0);
    let first = parsed_u32(text.subrange(0, first_end));
    if first_end < text.len() {
        let second_end = position(text, '/', first_end + 1);
        (first, parsed_u32(text.subrange(first_end + 1, second_end)))
    } else {
        (first, None)
    }
}

/// The pair of numbers that an entry holds, or two times `None` where the
/// entry is missing.
pub open spec fn optional_number_pair(text: Option<Seq<char>>) -> (Option<u32>, Option<u32>) {
    match text {
        Some(text) => number_pair(text),
        None => (None, None),
    }
}

/// The number that an entry holds, where the entry is there and writes one.
pub open spec fn optional_number(text: Option<Seq<char>>) -> Option<u32> {
    match text {
        Some(text) => parsed_u32(text),
        None => None,
    }
}

/// The tags of one audio file, by name.
#[derive(Debug)]
pub struct Tags {
    entries: Vec<(String, String)>,
}

impl Tags {
    /// The entries in the order in which they were given.
    pub closed spec fn entries(&self) -> Seq<(Seq<char>, Seq<char>)> {
        Seq::new(self.entries@.len(), |i: int| (self.entries@[i].0@, self.entries@[i].1@))
    }

    /// The value of the tag `key`, if the file has that tag.
    pub open spec fn get(&self, key: Seq<char>) -> Option<Seq<char>> {
        lookup(self.entries(), key)
    }

    /// The tags that hold the given entries. Where a name occurs twice, the
    /// later entry counts.
    pub fn new(entries: Vec<(String, String)>) -> (tags: Tags)
        ensures
            tags.entries() == Seq::new(entries@.len(), |i: int| (entries@[i].0@, entries@[i].1@)),
    {
        Tags { entries }
    }

    fn find(&self, key: &str) -> (found: Option<&str>)
        ensures
            match self.get(key@) {
                Some(value) => found is Some && found->Some_0@ == value,
                None => found is None,
            },
    {
        let mut i: usize = self.entries.len();
        assert(self.entries().take(i as int) =~= self.entries());
        while i > 0
            invariant
                i <= self.entries@.len(),
                lookup(self.entries(), key@) == lookup(self.entries().take(i as int), key@),
            decreases i,
        {
            i -= 1;
            let ghost shorter = self.entries().take(i + 1);
            assert(shorter.drop_last() =~= self.entries().take(i as int));
            assert(shorter.last() == self.entries()[i as int]);
            if same_text(self.entries[i].0.as_str(), key) {
                return Some(self.entries[i].1.as_str());
            }
        }
        assert(self.entries().take(0).len() == 0);
        None
    }

    /// The title of the song.
    pub fn title(&self) -> (title: Option<&str>)
        ensures
            match self.get("TITLE"@) {
                Some(value) => title is Some && title->Some_0@ == value,
                None => title is None,
            },
    {
        self.find("TITLE")
    }

    /// The artist of the song.
    pub fn artist(&self) -> (artist: Option<&str>)
        ensures
            match self.get("ARTIST"@) {
                Some(value) => artist is Some && artist->Some_0@ == value,
                None => artist is None,
            },
    {
        self.find("ARTIST")
    }

    /// The title of the album that the song belongs to.
    pub fn album(&self) -> (album: Option<&str>)
        ensures
            match self.get("ALBUM"@) {
                Some(value) => album is Some && album->Some_0@ == value,
                None => album is None,
            },
    {
        self.find("ALBUM")
    }

    /// The year of the song, where the date tag is a plain number.
    pub fn year(&self) -> (year: Option<u32>)
        ensures
            year == optional_number(self.get("DATE"@)),
    {
        match self.find("DATE") {
            Some(text) => parse_u32(text),
            None => None,
        }
    }

    /// The track's number and the number of tracks.
    pub fn track(&self) -> (track: (Option<u32>, Option<u32>))
        ensures
            track == optional_number_pair(self.get("TRACKNUMBER"@)),
    {
        match self.find("TRACKNUMBER") {
            Some(text) => parse_number_pair(text),
            None => (None, None),
        }
    }

    /// The disc's number and the number of discs.
    pub fn disc(&self) -> (disc: (Option<u32>, Option<u32>))
        ensures
            disc == optional_number_pair(self.get("DISCNUMBER"@)),
    {
        match self.find("DISCNUMBER") {
            Some(text) => parse_number_pair(text),
            None => (None, None),
        }
    }
}

/// Reads the two numbers of a text such as `3/12`.
pub fn parse_number_pair(text: &str) -> (pair: (Option<u32>, Option<u32>))
    ensures
        pair == number_pair(text@),
{
    let len = text.unicode_len();
    let first_end = find_char(text, '/', 0);
    let first = parse_u32(text.substring_char(0, first_end));
    if first_end < len {
        let second_end = find_char(text, '/', first_end + 1);
        (first, parse_u32(text.substring_char(first_end + 1, second_end)))
    } else {
        (first, None)
    }
}

/// The view of what was received: a value, or nothing.
pub open spec fn received_view(reply: Option<Value>) -> Option<ValueView> {
    match reply {
        Some(value) => Some(value@),
        None => None,
    }
}

/// The tag that one element of the helper's reply holds: the element carries
/// text with a colon in it; the name stands before the first colon, the value
/// behind it.
pub open spec fn entry_of(item: ValueView) -> Option<(Seq<char>, Seq<char>)> {
    match text_of(item) {
        Some(text) => {
            let colon = position(text, ':', 0);
            if colon < text.len() {
                Some((text.subrange(0, colon), text.subrange(colon + 1, text.len() as int)))
            } else {
                None
            }
        },
        None => None,
    }
}

/// What the helper's reply to a request for tags means: the entries of an
/// array whose elements all hold a tag, the message of an error value, or the
/// message that tells what is wrong with the reply. `None` stands for a
/// helper that closed its side without a reply.
pub open spec fn tags_reply(reply: Option<ValueView>) -> Result<
    Seq<(Seq<char>, Seq<char>)>,
    Seq<char>,
> {
    match reply {
        Some(ValueView::Array(items)) => if forall|i: int|
            0 <= i < items.len() ==> entry_of(#[trigger] items[i]) is Some {
            Ok(Seq::new(items.len(), |i: int| entry_of(items[i])->Some_0))
        } else {
            Err("Bad response from tagserver"@)
        },
        Some(ValueView::Error(message)) => Err(message),
        Some(_) => Err("Bad response from tagserver"@),
        None => Err("No response from tagserver"@),
    }
}

/// What the helper's reply to a request for a cover means: the data and the
/// media type, or the message that tells what is wrong. A cover comes as an
/// array of exactly two elements: first the media type, a simple string that
/// writes a media type, then the data, a run of bytes. Every other array is
/// an error.
pub open spec fn cover_reply(reply: Option<ValueView>) -> Result<(Seq<u8>, MimeView), Seq<char>> {
    match reply {
        Some(ValueView::Array(items)) => if items.len() != 2 {
            Err("Bad response from tagserver"@)
        } else if !(items[1] is BufBulk) {
            Err("Bad data response from tagserver"@)
        } else if !(items[0] is String) {
            Err("Bad mimetype response from tagserver"@)
        } else {
            let text = items[0]->String_0;
            if is_ascii_text(text) && mime_parsing(text) is Some {
                Ok((items[1]->BufBulk_0, mime_parsing(text)->Some_0))
            } else {
                Err("Error parsing mimetype response from tagserver"@)
            }
        },
        Some(ValueView::Error(message)) => Err(message),
        Some(_) => Err("Bad response from tagserver"@),
        None => Err("No response from tagserver loading cover"@),
    }
}

/// The modification time that goes with an embedded cover: that of the file
/// it comes from, or the present time where the file's time cannot be had.
pub open spec fn cover_mtime(file_mtime: Option<Timestamp>, now: Timestamp) -> Timestamp {
    match file_mtime {
        Some(mtime) => mtime,
        None => now,
    }
}

fn parse_entry(item: &Value) -> (entry: Option<(String, String)>)
    ensures
        match entry_of(item@) {
            Some((name, value)) => entry is Some && entry->Some_0.0@ == name && entry->Some_0.1@
                == value,
            None => entry is None,
        },
{
    let text = match value_to_string(item.clone()) {
        Ok(text) => text,
        Err(_) => {
            return None;
        },
    };
    let text = text.as_str();
    let len = text.unicode_len();
    let colon = find_char(text, ':', 0);
    if colon < len {
        Some(
            (
                String::from_str(text.substring_char(0, colon)),
                String::from_str(text.substring_char(colon + 1, len)),
            ),
        )
    } else {
        None
    }
}

/// The tag helper as the server sees it: the reading side of the channel to
/// it, the requests that go to it, and the meaning of its replies. One
/// request is under way at a time.
pub struct Server {
    rpc: RPCInterface,
}

impl Server {
    /// The channel is in order.
    pub closed spec fn wf(&self) -> bool {
        self.rpc.wf()
    }

    /// Bytes received from the helper that belong to a reply not yet
    /// complete.
    pub closed spec fn pending(&self) -> Seq<u8> {
        self.rpc.pending()
    }

    /// Values received from the helper in full and not yet handed out.
    pub closed spec fn ready(&self) -> Seq<ValueView> {
        self.rpc.ready()
    }

    /// The state of the channel to a helper that has just been started.
    pub fn start() -> (server: Server)
        ensures
            server.wf(),
            server.pending() == Seq::<u8>::empty(),
            server.ready() == Seq::<ValueView>::empty(),
    {
        Server { rpc: RPCInterface::new() }
    }

    /// Appends the request for the tags of the file at `path` to what is to
    /// be sent to the helper.
    pub fn request_tags(stream: &mut Vec<u8>, path: &str)
        ensures
            final(stream)@ == old(stream)@ + resp_encoding(
                call_view("tags"@, seq![ValueView::String(path@)]),
            ),
    {
        let mut args: Vec<Value> = Vec::new();
        args.push(Value::String(String::from_str(path)));
        assert(views(args@) =~= seq![ValueView::String(path@)]);
        call(stream, "tags", args);
    }

    /// Appends the request for the cover of the file at `path` to what is to
    /// be sent to the helper.
    pub fn request_cover(stream: &mut Vec<u8>, path: &str)
        ensures
            final(stream)@ == old(stream)@ + resp_encoding(
                call_view("cover"@, seq![ValueView::String(path@)]),
            ),
    {
        let mut args: Vec<Value> = Vec::new();
        args.push(Value::String(String::from_str(path)));
        assert(views(args@) =~= seq![ValueView::String(path@)]);
        call(stream, "cover", args);
    }

    /// Takes in one line as it came from the helper and hands out the reply
    /// that is complete with it, if one is. After malformed bytes the channel
    /// is of no further use.
    pub fn receive(&mut self, line: &[u8]) -> (outcome: Result<Option<Value>, ProtocolError>)
        requires
            old(self).wf(),
        ensures
            final(self).wf() <==> outcome is Ok,
            ({
                let fed = feed(old(self).pending(), old(self).ready(), line@);
                &&& outcome_view(outcome) == fed.outcome
                &&& final(self).pending() == fed.pending
                &&& final(self).ready() == fed.ready
            }),
    {
        self.rpc.feed_line(line)
    }

    /// Reads the helper's reply to a request for tags. `None` stands for a
    /// helper that closed its side without a reply.
    pub fn load_tags(reply: Option<Value>) -> (tags: Result<Tags, String>)
        ensures
            match tags_reply(received_view(reply)) {
                Ok(entries) => tags is Ok && tags->Ok_0.entries() == entries,
                Err(message) => tags is Err && tags->Err_0@ == message,
            },
    {
        match reply {
            Some(Value::Array(items)) => {
                proof {
                    lemma_array_view(items);
                }
                let mut entries: Vec<(String, String)> = Vec::new();
                let mut i: usize = 0;
                while i < items.len()
                    invariant
                        i <= items@.len(),
                        entries@.len() == i,
                        received_view(reply) == Some(ValueView::Array(views(items@))),
                        forall|k: int| 0 <= k < i ==> entry_of(#[trigger] views(items@)[k]) is Some,
                        forall|k: int|
                            0 <= k < i ==> (#[trigger] entries@[k]).0@ == entry_of(
                                views(items@)[k],
                            )->Some_0.0 && entries@[k].1@ == entry_of(views(items@)[k])->Some_0.1,
                    decreases items@.len() - i,
                {
                    assert(views(items@)[i as int] == items@[i as int]@);
                    match parse_entry(&items[i]) {
                        Some(entry) => {
                            entries.push(entry);
                        },
                        None => {
                            assert(entry_of(views(items@)[i as int]) is None);
                            return Err(String::from_str("Bad response from tagserver"));
                        },
                    }
                    i += 1;
                }
                let tags = Tags::new(entries);
                assert(tags.entries() =~= Seq::new(
                    items@.len(),
                    |i: int| entry_of(views(items@)[i])->Some_0,
                ));
                Ok(tags)
            },
            Some(Value::Error(message)) => Err(message),
            Some(_) => Err(String::from_str("Bad response from tagserver")),
            None => Err(String::from_str("No response from tagserver")),
        }
    }

    /// Reads the helper's reply to a request for a cover: an array of the
    /// media type and the data, and nothing else. `None` stands for a helper
    /// that closed its side without a reply. The cover gets the
    /// modification time of the file it comes from, or the present time
    /// where that cannot be had.
    pub fn load_cover(reply: Option<Value>, file_mtime: Option<Timestamp>, now: Timestamp) -> (cover:
        Result<Cover, String>)
        ensures
            match cover_reply(received_view(reply)) {
                Ok((data, mimetype)) => {
                    &&& cover is Ok
                    &&& cover->Ok_0.data@ == data
                    &&& cover->Ok_0.mimetype@ == mimetype
                    &&& cover->Ok_0.mtime == cover_mtime(file_mtime, now)
                },
                Err(message) => cover is Err && cover->Err_0@ == message,
            },
    {
        match reply {
            Some(Value::Array(items)) => {
                proof {
                    lemma_array_view(items);
                }
                let ghost all = views(items@);
                if items.len() != 2 {
                    return Err(String::from_str("Bad response from tagserver"));
                }
                let mut items = items;
                let ghost given = items@;
                assert(all[1] == given[1]@);
                assert(all[0] == given[0]@);
                let data = match items.pop() {
                    Some(Value::BufBulk(data)) => data,
                    _ => {
                        return Err(String::from_str("Bad data response from tagserver"));
                    },
                };
                let text = match items.pop() {
                    Some(Value::String(text)) => text,
                    _ => {
                        return Err(String::from_str("Bad mimetype response from tagserver"));
                    },
                };
                let mimetype = match Mime::parse(text.as_str()) {
                    Some(mimetype) => mimetype,
                    None => {
                        return Err(
                            String::from_str("Error parsing mimetype response from tagserver"),
                        );
                    },
                };
                let mtime = match file_mtime {
                    Some(mtime) => mtime,
                    None => now,
                };
                Ok(Cover { data, mimetype, mtime })
            },
            Some(Value::Error(message)) => Err(message),
            Some(_) => Err(String::from_str("Bad response from tagserver")),
            None => Err(String::from_str("No response from tagserver loading cover")),
        }
    }
}

} // verus!
