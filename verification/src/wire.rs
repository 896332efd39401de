//! The wire format of protocol values, as the `resp` crate reads and writes it.
//!
//! Nothing in this file is proved: each function is a call into `resp`, and
//! each contract repeats what the source of `resp` shows of that call.

use crate::value::{Value, ValueView};
use resp::Value as WireValue;
use vstd::prelude::*;

verus! {

/// `resp::Value`, the form in which `resp` holds a protocol value.
#[verifier::external_type_specification]
#[verifier::external_body]
pub struct ExWireValue(WireValue);

/// `resp::Decoder`, the streaming decoder.
#[verifier::external_type_specification]
#[verifier::external_body]
pub struct ExDecoder(resp::Decoder);

/// `resp::Error`, what the decoder reports on malformed input.
#[verifier::external_type_specification]
#[verifier::external_body]
pub struct ExWireError(resp::Error);

/// What `resp::Decoder` makes of a run of bytes that starts at a value
/// boundary.
pub struct Decoded {
    /// The complete values at the front of the bytes, in order.
    pub values: Seq<ValueView>,
    /// The bytes behind the last complete value, which are the start of a
    /// value that has not ended yet. Empty where the bytes are malformed.
    pub rest: Seq<u8>,
    /// Whether the decoder met bytes that no value can start with or continue
    /// with.
    pub malformed: bool,
}

/// The content of a `resp::Value`.
pub uninterp spec fn wire_view(value: WireValue) -> ValueView;

/// The bytes that `resp::encode` gives for a value.
pub uninterp spec fn resp_encoding(value: ValueView) -> Seq<u8>;

/// What a `resp::Decoder` that keeps bulk strings as bytes takes from the
/// front of `bytes`.
pub uninterp spec fn resp_decoding(bytes: Seq<u8>) -> Decoded;

/// The bytes that a decoder has been fed and has not turned into a value yet.
pub uninterp spec fn decoder_pending(decoder: resp::Decoder) -> Seq<u8>;

/// The values that a decoder has completed and not handed out yet.
pub uninterp spec fn decoder_ready(decoder: resp::Decoder) -> Seq<ValueView>;

/// Whether a decoder keeps bulk strings as bytes.
pub uninterp spec fn decoder_keeps_bytes(decoder: resp::Decoder) -> bool;

/// Builds the `resp::Value` with the same content, variant by variant.
#[verifier::external_body]
pub(crate) fn to_wire(value: &Value) -> (wire: WireValue)
    ensures
        wire_view(wire) == value@,
{
    match value {
        Value::Null => WireValue::Null,
        Value::NullArray => WireValue::NullArray,
        Value::String(text) => WireValue::String(text.clone()),
        Value::Error(text) => WireValue::Error(text.clone()),
        Value::Integer(number) => WireValue::Integer(*number),
        Value::Bulk(text) => WireValue::Bulk(text.clone()),
        Value::BufBulk(bytes) => WireValue::BufBulk(bytes.clone()),
        Value::Array(items) => WireValue::Array(items.iter().map(to_wire).collect()),
    }
}

/// Builds the library's value with the same content as a `resp::Value`,
/// variant by variant.
#[verifier::external_body]
pub(crate) fn from_wire(wire: WireValue) -> (value: Value)
    ensures
        value@ == wire_view(wire),
{
    match wire {
        WireValue::Null => Value::Null,
        WireValue::NullArray => Value::NullArray,
        WireValue::String(text) => Value::String(text),
        WireValue::Error(text) => Value::Error(text),
        WireValue::Integer(number) => Value::Integer(number),
        WireValue::Bulk(text) => Value::Bulk(text),
        WireValue::BufBulk(bytes) => Value::BufBulk(bytes),
        WireValue::Array(items) => Value::Array(items.into_iter().map(from_wire).collect()),
    }
}

/// `resp::encode`: the wire bytes of one value.
#[verifier::external_body]
pub(crate) fn wire_encode(wire: &WireValue) -> (bytes: Vec<u8>)
    ensures
        bytes@ == resp_encoding(wire_view(*wire)),
{
    resp::encode(wire)
}

/// `resp::Decoder::with_buf_bulk`: a decoder that holds nothing yet and that
/// keeps bulk strings as bytes.
#[verifier::external_body]
pub(crate) fn new_decoder() -> (decoder: resp::Decoder)
    ensures
        decoder_pending(decoder) == Seq::<u8>::empty(),
        decoder_ready(decoder) == Seq::<ValueView>::empty(),
        decoder_keeps_bytes(decoder),
{
    resp::Decoder::with_buf_bulk()
}

/// `resp::Decoder::feed`: appends the bytes to what is pending and decodes
/// every value that is complete by then. The completed values join the queue
/// in order, the unfinished tail stays pending. On malformed bytes the call
/// fails and the decoder drops all that was pending.
#[verifier::external_body]
pub(crate) fn decoder_feed(decoder: &mut resp::Decoder, bytes: &[u8]) -> (fed: Result<
    (),
    resp::Error,
>)
    requires
        decoder_keeps_bytes(*old(decoder)),
    ensures
        decoder_keeps_bytes(*final(decoder)),
        decoder_ready(*final(decoder)) == decoder_ready(*old(decoder)) + resp_decoding(
            decoder_pending(*old(decoder)) + bytes@,
        ).values,
        decoder_pending(*final(decoder)) == resp_decoding(
            decoder_pending(*old(decoder)) + bytes@,
        ).rest,
        fed is Err <==> resp_decoding(decoder_pending(*old(decoder)) + bytes@).malformed,
{
    decoder.feed(bytes)
}

/// `resp::Decoder::read`: takes the oldest completed value out of the queue,
/// or gives `None` where the queue is empty. What is pending stays.
#[verifier::external_body]
pub(crate) fn decoder_read(decoder: &mut resp::Decoder) -> (taken: Option<WireValue>)
    ensures
        decoder_keeps_bytes(*final(decoder)) == decoder_keeps_bytes(*old(decoder)),
        decoder_pending(*final(decoder)) == decoder_pending(*old(decoder)),
        match taken {
            Some(wire) => {
                &&& decoder_ready(*old(decoder)).len() > 0
                &&& wire_view(wire) == decoder_ready(*old(decoder))[0]
                &&& decoder_ready(*final(decoder)) == decoder_ready(*old(decoder)).drop_first()
            },
            None => {
                &&& decoder_ready(*old(decoder)).len() == 0
                &&& decoder_ready(*final(decoder)) == decoder_ready(*old(decoder))
            },
        },
{
    decoder.read()
}

} // verus!
