//! The tag helper's own side of the protocol: the requests it understands and
//! the replies it gives.

use crate::rpc::Call;
use crate::tagparser::{cover_reply, entry_of, tags_reply};
use crate::text::{lemma_position, position, same_text};
use crate::value::{lemma_array_view, views, Value, ValueView};
use crate::mime::{is_ascii_text, mime_parsing};
use vstd::prelude::*;
use vstd::string::StringExecFns;

verus! {

/// What the server asks of the helper.
#[derive(Debug, PartialEq, Eq)]
pub enum TagRequest {
    /// The tags of the file at the path.
    Tags(String),
    /// The cover that is embedded in the file at the path.
    Cover(String),
}

/// Why a call is no request that the helper understands.
#[derive(Clone, Copy, Debug, PartialEq, Eq, Structural)]
pub enum RequestError {
    /// A call of `tags` whose first argument is no simple string.
    IllegalTags,
    /// A call of `cover` whose first argument is no simple string.
    IllegalCover,
    /// A call of a method that the helper does not have.
    IllegalCommand,
}

/// The path that a request names: the first argument, which has to be a
/// simple string.
pub open spec fn path_argument(args: Seq<ValueView>) -> Option<Seq<char>> {
    if args.len() > 0 && args[0] is String {
        Some(args[0]->String_0)
    } else {
        None
    }
}

/// Whether `request` is the request that a call of `method` with `args`
/// stands for.
pub open spec fn is_request_of(
    request: Result<TagRequest, RequestError>,
    method: Seq<char>,
    args: Seq<ValueView>,
) -> bool {
    if method == "tags"@ {
        match path_argument(args) {
            Some(path) => request is Ok && request->Ok_0 is Tags && request->Ok_0->Tags_0@ == path,
            None => request == Err::<TagRequest, RequestError>(RequestError::IllegalTags),
        }
    } else if method == "cover"@ {
        match path_argument(args) {
            Some(path) => request is Ok && request->Ok_0 is Cover && request->Ok_0->Cover_0@
                == path,
            None => request == Err::<TagRequest, RequestError>(RequestError::IllegalCover),
        }
    } else {
        request == Err::<TagRequest, RequestError>(RequestError::IllegalCommand)
    }
}

fn first_path(args: &Vec<Value>) -> (path: Option<String>)
    ensures
        match path_argument(views(args@)) {
            Some(expected) => path is Some && path->Some_0@ == expected,
            None => path is None,
        },
{
    if args.len() == 0 {
        return None;
    }
    match &args[0] {
        Value::String(path) => Some(path.clone()),
        _ => None,
    }
}

/// Reads a call as a request to the helper.
pub fn parse_request(call: &Call) -> (request: Result<TagRequest, RequestError>)
    ensures
        is_request_of(request, call.method@, views(call.args@)),
{
    if same_text(call.method.as_str(), "tags") {
        match first_path(&call.args) {
            Some(path) => Ok(TagRequest::Tags(path)),
            None => Err(RequestError::IllegalTags),
        }
    } else if same_text(call.method.as_str(), "cover") {
        match first_path(&call.args) {
            Some(path) => Ok(TagRequest::Cover(path)),
            None => Err(RequestError::IllegalCover),
        }
    } else {
        Err(RequestError::IllegalCommand)
    }
}

/// The reply that carries the tags of a file: an array with one bulk string
/// per tag, which holds the name, a colon and the value.
pub open spec fn tags_value(tags: Seq<(Seq<char>, Seq<char>)>) -> ValueView {
    ValueView::Array(Seq::new(tags.len(), |i: int| ValueView::Bulk(tags[i].0 + seq![':'] + tags[i].1)))
}

/// The reply that carries a cover: an array of the media type as a simple
/// string and the image file as a run of bytes.
pub open spec fn cover_value(mimetype: Seq<char>, data: Seq<u8>) -> ValueView {
    ValueView::Array(seq![ValueView::String(mimetype), ValueView::BufBulk(data)])
}

/// Makes the reply that carries the tags of a file.
pub fn tags_to_value(tags: &Vec<(String, String)>) -> (value: Value)
    ensures
        value@ == tags_value(Seq::new(tags@.len(), |i: int| (tags@[i].0@, tags@[i].1@))),
{
    proof {
        reveal_strlit(":");
    }
    let mut items: Vec<Value> = Vec::new();
    let mut i: usize = 0;
    while i < tags.len()
        invariant
            i <= tags@.len(),
            items@.len() == i,
            ":"@ == seq![':'],
            forall|k: int|
                0 <= k < i ==> (#[trigger] items@[k])@ == ValueView::Bulk(
                    tags@[k].0@ + seq![':'] + tags@[k].1@,
                ),
        decreases tags@.len() - i,
    {
        let mut text = tags[i].0.clone();
        text.append(":");
        text.append(tags[i].1.as_str());
        items.push(Value::Bulk(text));
        i += 1;
    }
    proof {
        lemma_array_view(items);
        let pairs = Seq::new(tags@.len(), |i: int| (tags@[i].0@, tags@[i].1@));
        assert(views(items@) =~= Seq::new(
            pairs.len(),
            |i: int| ValueView::Bulk(pairs[i].0 + seq![':'] + pairs[i].1),
        ));
    }
    Value::Array(items)
}

/// Makes the reply that carries a cover.
pub fn cover_to_value(mimetype: String, data: Vec<u8>) -> (value: Value)
    ensures
        value@ == cover_value(mimetype@, data@),
{
    let mut items: Vec<Value> = Vec::new();
    items.push(Value::String(mimetype));
    items.push(Value::BufBulk(data));
    proof {
        lemma_array_view(items);
        assert(views(items@) =~= seq![ValueView::String(mimetype@), ValueView::BufBulk(data@)]);
    }
    Value::Array(items)
}

/// The server reads the tags out of the helper's reply as the helper put
/// them in, as long as no name of a tag holds a colon.
pub proof fn lemma_tags_reply_round_trip(tags: Seq<(Seq<char>, Seq<char>)>)
    requires
        forall|i: int| 0 <= i < tags.len() ==> !(#[trigger] tags[i]).0.contains(':'),
    ensures
        tags_reply(Some(tags_value(tags))) == Ok::<Seq<(Seq<char>, Seq<char>)>, Seq<char>>(tags),
{
    let items = tags_value(tags)->Array_0;
    assert forall|i: int| 0 <= i < items.len() implies entry_of(#[trigger] items[i]) == Some(
        tags[i],
    ) by {
        let name = tags[i].0;
        let value = tags[i].1;
        let text = name + seq![':'] + value;
        lemma_position(text, ':', 0);
        let colon = position(text, ':', 0);
        assert(text[name.len() as int] == ':');
        if colon < name.len() {
            assert(name[colon] == ':');
            assert(name.contains(':'));
        }
        assert(colon == name.len());
        assert(text.subrange(0, colon) =~= name);
        assert(text.subrange(colon + 1, text.len() as int) =~= value);
    }
    assert(Seq::new(items.len(), |i: int| entry_of(items[i])->Some_0) =~= tags);
}

/// The server reads a cover out of the helper's reply as the helper put it
/// in, as long as the media type is one that can be read.
pub proof fn lemma_cover_reply_round_trip(mimetype: Seq<char>, data: Seq<u8>)
    requires
        is_ascii_text(mimetype),
        mime_parsing(mimetype) is Some,
    ensures
        cover_reply(Some(cover_value(mimetype, data))) == Ok::<
            (Seq<u8>, crate::mime::MimeView),
            Seq<char>,
        >((data, mime_parsing(mimetype)->Some_0)),
{
}

} // verus!
