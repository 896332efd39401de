//! What the web layer decides before it answers: whether a file has to be
//! sent again, which rendition of a cover is sent, and which files the static
//! handler may serve.

use crate::media::{Album, Cover, Timestamp};
use crate::text::{parse_i64, parsed_i64};
use crate::util::{join, path_joined};
use vstd::prelude::*;
use vstd::string::StrSliceExecFns;

verus! {

/// Whether the point in time `a` lies before `b`.
pub open spec fn earlier(a: Timestamp, b: Timestamp) -> bool {
    a.sec < b.sec || (a.sec == b.sec && a.nsec < b.nsec)
}

/// Whether a file that was last modified at `mtime` has to be sent to a
/// client that holds a copy from `if_modified_since`: it has to where the
/// client names no time, or a time before the modification.
pub fn should_serve_file(mtime: Timestamp, if_modified_since: Option<Timestamp>) -> (send: bool)
    ensures
        send == match if_modified_since {
            Some(held) => earlier(held, mtime),
            None => true,
        },
{
    match if_modified_since {
        Some(held) => held.sec < mtime.sec || (held.sec == mtime.sec && held.nsec < mtime.nsec),
        None => true,
    }
}

/// The rendition of an album's cover that is sent: the thumbnail where one is
/// asked for and the album has one, else the cover itself. An album without
/// cover has nothing to send.
pub fn cover_to_serve(album: &Album, thumbnail: bool) -> (cover: Option<&Cover>)
    ensures
        match album.cover {
            None => cover is None,
            Some(full) => cover is Some && *cover->Some_0 == (if thumbnail
                && album.thumbnail is Some {
                album.thumbnail->Some_0
            } else {
                full
            }),
        },
{
    match &album.cover {
        None => None,
        Some(full) => if thumbnail {
            match &album.thumbnail {
                Some(small) => Some(small),
                None => Some(full),
            }
        } else {
            Some(full)
        },
    }
}

/// The number that a query parameter holds, where the parameter is there and
/// writes a number.
pub fn param_i64(value: Option<&str>) -> (number: Option<i64>)
    ensures
        number == match value {
            Some(text) => parsed_i64(text@),
            None => None,
        },
{
    match value {
        Some(text) => parse_i64(text),
        None => None,
    }
}

/// The index of the first character of `text` that is no slash, or the length
/// of `text` where it holds only slashes.
pub open spec fn leading_slashes(text: Seq<char>, from: int) -> int
    decreases text.len() - from,
{
    if from >= text.len() {
        text.len() as int
    } else if text[from] != '/' {
        from
    } else {
        leading_slashes(text, from + 1)
    }
}

/// Serves the files below one directory.
pub struct StaticHandler {
    root: String,
}

/// `std::path::Path::starts_with`: whether `base` is a prefix of `path`,
/// going by whole components.
pub uninterp spec fn path_starts_with(path: Seq<char>, base: Seq<char>) -> bool;

/// `std::path::Path::starts_with`, on paths given as text.
#[verifier::external_body]
fn starts_with(path: &str, base: &str) -> (below: bool)
    ensures
        below == path_starts_with(path@, base@),
{
    std::path::Path::new(path).starts_with(base)
}

impl StaticHandler {
    /// The directory that is served.
    pub closed spec fn root(&self) -> Seq<char> {
        self.root@
    }

    /// A handler for the directory `root`, which is given in canonical form.
    pub fn new(root: String) -> (handler: StaticHandler)
        ensures
            handler.root() == root@,
    {
        StaticHandler { root }
    }

    /// The path of the file that a request names: the requested path without
    /// its leading slashes, below the root.
    pub fn requested(&self, raw_path: &str) -> (path: String)
        ensures
            path@ == path_joined(
                self.root(),
                raw_path@.subrange(leading_slashes(raw_path@, 0), raw_path@.len() as int),
            ),
    {
        let len = raw_path.unicode_len();
        let mut start: usize = 0;
        while start < len && raw_path.get_char(start) == '/'
            invariant
                len == raw_path@.len(),
                start <= len,
                leading_slashes(raw_path@, start as int) == leading_slashes(raw_path@, 0),
            decreases len - start,
        {
            start += 1;
        }
        join(self.root.as_str(), raw_path.substring_char(start, len))
    }

    /// Whether the file at `path`, given in canonical form, may be served: it
    /// has to lie below the root.
    pub fn serves(&self, path: &str) -> (allowed: bool)
        ensures
            allowed == path_starts_with(path@, self.root()),
    {
        starts_with(path, self.root.as_str())
    }
}

} // verus!
