//! Paths as text, the place of the helper programs, and the media type that
//! a file name stands for.

use crate::mime::{plain_mime, Mime, MimeView};
use crate::text::same_text;
use vstd::prelude::*;

verus! {

/// The extension of a path, as `std::path::Path::extension` tells it on the
/// platform the library is built for: the part of the file name behind its
/// last dot.
pub uninterp spec fn path_extension(path: Seq<char>) -> Option<Seq<char>>;

/// The directory that holds a path, as `std::path::Path::parent` tells it.
pub uninterp spec fn path_parent(path: Seq<char>) -> Option<Seq<char>>;

/// The path of `name` below `base`, as `std::path::Path::join` builds it.
pub uninterp spec fn path_joined(base: Seq<char>, name: Seq<char>) -> Seq<char>;

/// The view of a text that may be missing.
pub open spec fn text_view(text: Option<String>) -> Option<Seq<char>> {
    match text {
        Some(text) => Some(text@),
        None => None,
    }
}

/// `std::path::Path::extension`, on a path given as text.
#[verifier::external_body]
pub(crate) fn extension(path: &str) -> (found: Option<String>)
    ensures
        text_view(found) == path_extension(path@),
{
    std::path::Path::new(path).extension().map(|part| part.to_string_lossy().into_owned())
}

/// `std::path::Path::parent`, on a path given as text.
#[verifier::external_body]
pub(crate) fn parent(path: &str) -> (found: Option<String>)
    ensures
        text_view(found) == path_parent(path@),
{
    std::path::Path::new(path).parent().map(|part| part.to_string_lossy().into_owned())
}

/// `std::path::Path::join`, on paths given as text.
#[verifier::external_body]
pub(crate) fn join(base: &str, name: &str) -> (joined: String)
    ensures
        joined@ == path_joined(base@, name@),
{
    std::path::Path::new(base).join(name).to_string_lossy().into_owned()
}

/// Where the helper program `name` lies: beside the running program, whose
/// own path is `current_exe`. A program path without a directory has no
/// helpers.
pub open spec fn helper_path(current_exe: Seq<char>, name: Seq<char>) -> Result<Seq<char>, ()> {
    match path_parent(current_exe) {
        Some(dir) => Ok(path_joined(dir, name)),
        None => Err(()),
    }
}

/// The path of the helper program `name`, given the path of the running
/// program.
pub fn get_helper(current_exe: &str, name: &str) -> (path: Result<String, ()>)
    ensures
        match helper_path(current_exe@, name@) {
            Ok(expected) => path is Ok && path->Ok_0@ == expected,
            Err(_) => path is Err,
        },
{
    match parent(current_exe) {
        Some(dir) => Ok(join(dir.as_str(), name)),
        None => Err(()),
    }
}

/// The media type that goes with a file extension. An extension that is not
/// known, and no extension at all, give `application/octet-stream`.
pub open spec fn extension_mimetype(extension: Option<Seq<char>>) -> MimeView {
    match extension {
        Some(ext) => if ext == "html"@ {
            plain_mime("text"@, "html"@)
        } else if ext == "json"@ {
            plain_mime("application"@, "json"@)
        } else if ext == "png"@ {
            plain_mime("image"@, "png"@)
        } else if ext == "jpg"@ || ext == "jpeg"@ {
            plain_mime("image"@, "jpeg"@)
        } else if ext == "txt"@ {
            plain_mime("text"@, "plain"@)
        } else if ext == "css"@ {
            plain_mime("text"@, "css"@)
        } else if ext == "js"@ {
            plain_mime("application"@, "javascript"@)
        } else if ext == "toml"@ {
            plain_mime("text"@, "plain"@)
        } else {
            plain_mime("application"@, "octet-stream"@)
        },
        None => plain_mime("application"@, "octet-stream"@),
    }
}

/// The media type of the file at `path`, judged by its extension.
pub fn path_to_mimetype(path: &str) -> (mimetype: Mime)
    ensures
        mimetype@ == extension_mimetype(path_extension(path@)),
{
    match extension(path) {
        Some(ext) => {
            let ext = ext.as_str();
            if same_text(ext, "html") {
                Mime::new("text", "html")
            } else if same_text(ext, "json") {
                Mime::new("application", "json")
            } else if same_text(ext, "png") {
                Mime::new("image", "png")
            } else if same_text(ext, "jpg") || same_text(ext, "jpeg") {
                Mime::new("image", "jpeg")
            } else if same_text(ext, "txt") {
                Mime::new("text", "plain")
            } else if same_text(ext, "css") {
                Mime::new("text", "css")
            } else if same_text(ext, "js") {
                Mime::new("application", "javascript")
            } else if same_text(ext, "toml") {
                Mime::new("text", "plain")
            } else {
                Mime::new("application", "octet-stream")
            }
        },
        None => Mime::new("application", "octet-stream"),
    }
}

} // verus!
