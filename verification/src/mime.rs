//! Media types, as they stand in a `Content-Type` header.

use crate::text::same_text;
use hyper::mime::Mime as ParsedMime;
use vstd::prelude::*;

verus! {

/// A media type: top level, sub level and parameters, all in lower case as
/// far as case does not matter.
#[derive(Debug, PartialEq, Eq)]
pub struct Mime {
    pub top: String,
    pub sub: String,
    pub params: Vec<(String, String)>,
}

/// The mathematical content of a [`Mime`].
pub struct MimeView {
    pub top: Seq<char>,
    pub sub: Seq<char>,
    pub params: Seq<(Seq<char>, Seq<char>)>,
}

impl View for Mime {
    type V = MimeView;

    open spec fn view(&self) -> MimeView {
        MimeView {
            top: self.top@,
            sub: self.sub@,
            params: Seq::new(
                self.params@.len(),
                |i: int| (self.params@[i].0@, self.params@[i].1@),
            ),
        }
    }
}

/// The media type `top/sub` without parameters.
pub open spec fn plain_mime(top: Seq<char>, sub: Seq<char>) -> MimeView {
    MimeView { top, sub, params: Seq::empty() }
}

/// Whether every character of a text is in the ASCII range.
pub open spec fn is_ascii_text(text: Seq<char>) -> bool {
    vstd::utf8::is_ascii_chars(text)
}

/// What `hyper`'s parser makes of an ASCII text: the media type that it
/// writes, or `None` where it writes none.
pub uninterp spec fn mime_parsing(text: Seq<char>) -> Option<MimeView>;

/// `str::parse::<hyper::mime::Mime>`, the `FromStr` of `hyper`'s media type,
/// with the three parts of the result copied out as text. The parser slices
/// its input by character counts, so it is only handed ASCII text.
#[verifier::external_body]
fn parse_with_hyper(text: &str) -> (parsed: Option<Mime>)
    requires
        is_ascii_text(text@),
    ensures
        match mime_parsing(text@) {
            Some(mime) => parsed is Some && parsed->Some_0@ == mime,
            None => parsed is None,
        },
{
    let parsed = text.parse::<ParsedMime>().ok()?;
    Some(Mime {
        top: parsed.0.as_str().to_owned(),
        sub: parsed.1.as_str().to_owned(),
        params: parsed.2.iter().map(|p| (p.0.as_str().to_owned(), p.1.as_str().to_owned())).collect(),
    })
}

impl Mime {
    /// The media type `top/sub` without parameters.
    pub fn new(top: &str, sub: &str) -> (mime: Mime)
        ensures
            mime@ == plain_mime(top@, sub@),
    {
        let mime = Mime { top: top.to_owned(), sub: sub.to_owned(), params: Vec::new() };
        assert(mime@.params =~= Seq::empty());
        mime
    }

    /// Reads a media type. Text outside ASCII is no media type.
    pub fn parse(text: &str) -> (mime: Option<Mime>)
        ensures
            match mime {
                Some(mime) => is_ascii_text(text@) && mime_parsing(text@) == Some(mime@),
                None => !is_ascii_text(text@) || mime_parsing(text@) is None,
            },
    {
        if !text.is_ascii() {
            return None;
        }
        parse_with_hyper(text)
    }

    /// Whether this is `image/jpeg` without parameters.
    pub fn is_jpeg(&self) -> (jpeg: bool)
        ensures
            jpeg == (self@ == plain_mime("image"@, "jpeg"@)),
    {
        let jpeg = self.params.len() == 0 && same_text(self.top.as_str(), "image") && same_text(
            self.sub.as_str(),
            "jpeg",
        );
        proof {
            if self.params@.len() == 0 {
                assert(self@.params =~= Seq::empty());
            } else {
                assert(self@.params.len() != 0);
            }
        }
        jpeg
    }
}

} // verus!
