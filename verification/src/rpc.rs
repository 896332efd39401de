//! Request and response framing between the server and a helper process.
//!
//! A channel is a stream of bytes in each direction. Here a stream is a run of
//! bytes in memory: what was received so far on the reading side, what is to
//! be sent on the writing side.

use crate::value::{views, lemma_array_view, Value, ValueView};
use crate::wire::{
    decoder_feed, decoder_keeps_bytes, decoder_pending, decoder_read, decoder_ready, from_wire,
    new_decoder, resp_decoding, resp_encoding, to_wire, wire_encode,
};
use crate::text::from_utf8;
use vstd::prelude::*;
use vstd::utf8::{decode_utf8, valid_utf8};

verus! {

/// How a peer can break the protocol. None of these can be recovered from:
/// the channel is of no use afterwards.
#[derive(Clone, Copy, Debug, PartialEq, Eq, Structural)]
pub enum ProtocolError {
    /// The bytes received are not the encoding of any value.
    Malformed,
    /// A call arrived as an array without elements.
    EmptyCall,
    /// The first element of a call, its method, is not a simple string.
    BadMethod,
    /// What arrived in place of a call is not an array.
    NotACall,
}

/// The index just behind the first line feed at or after `from`, or the length
/// of `input` where no line feed follows: the end of the line that starts at
/// `from`.
pub open spec fn line_end(input: Seq<u8>, from: int) -> int
    decreases input.len() - from,
{
    if from >= input.len() {
        input.len() as int
    } else if input[from] == 10u8 {
        from + 1
    } else {
        line_end(input, from + 1)
    }
}

/// A line that starts inside the input ends behind its start and inside the
/// input.
pub proof fn lemma_line_end_bounds(input: Seq<u8>, from: int)
    requires
        0 <= from < input.len(),
    ensures
        from < line_end(input, from) <= input.len(),
    decreases input.len() - from,
{
    if input[from] != 10u8 {
        if from + 1 < input.len() {
            lemma_line_end_bounds(input, from + 1);
        } else {
            assert(line_end(input, from + 1) == input.len());
        }
    }
}

/// The state of the reading side after one line was taken in, and what the
/// line gave.
pub struct Fed {
    /// Bytes fed to the decoder that belong to a value not yet complete.
    pub pending: Seq<u8>,
    /// Values that the decoder completed beyond the one handed out.
    pub ready: Seq<ValueView>,
    /// The value handed out; `Ok(None)` where none is complete yet.
    pub outcome: Result<Option<ValueView>, ProtocolError>,
}

/// The state of the reading side after one attempt to read a value, and what
/// the attempt gave.
pub struct Reading {
    /// Bytes fed to the decoder that belong to a value not yet complete.
    pub pending: Seq<u8>,
    /// Values that the decoder completed beyond the one handed out.
    pub ready: Seq<ValueView>,
    /// How far the input was consumed.
    pub cursor: int,
    /// The value read; `Ok(None)` where the input ended first.
    pub outcome: Result<Option<ValueView>, ProtocolError>,
}

/// Taking in one line with a decoder that holds `pending` and `ready`: the
/// line joins what is pending, the values that are complete by then join the
/// queue, and the oldest value of the queue is handed out. Malformed bytes
/// give the error.
pub open spec fn feed(pending: Seq<u8>, ready: Seq<ValueView>, line: Seq<u8>) -> Fed {
    let decoded = resp_decoding(pending + line);
    let queue = ready + decoded.values;
    if decoded.malformed {
        Fed { pending: decoded.rest, ready: queue, outcome: Err(ProtocolError::Malformed) }
    } else if queue.len() > 0 {
        Fed { pending: decoded.rest, ready: queue.drop_first(), outcome: Ok(Some(queue[0])) }
    } else {
        Fed { pending: decoded.rest, ready: queue, outcome: Ok(None) }
    }
}

/// Reading one value from `input`, starting at `from`, with a decoder that
/// holds `pending` and `ready`: the input is taken in line by line until a
/// line gives a value or an error. The end of the input before that gives
/// `Ok(None)`.
pub open spec fn read_from(
    pending: Seq<u8>,
    ready: Seq<ValueView>,
    input: Seq<u8>,
    from: int,
) -> Reading
    decreases input.len() - from,
{
    if from < 0 || from >= input.len() {
        Reading { pending, ready, cursor: from, outcome: Ok(None) }
    } else {
        let end = line_end(input, from);
        let fed = feed(pending, ready, input.subrange(from, end));
        if fed.outcome == Ok::<Option<ValueView>, ProtocolError>(None) {
            proof {
                lemma_line_end_bounds(input, from);
            }
            read_from(fed.pending, fed.ready, input, end)
        } else {
            Reading { pending: fed.pending, ready: fed.ready, cursor: end, outcome: fed.outcome }
        }
    }
}

/// The view of what an attempt to read handed out.
pub open spec fn outcome_view(outcome: Result<Option<Value>, ProtocolError>) -> Result<
    Option<ValueView>,
    ProtocolError,
> {
    match outcome {
        Ok(Some(value)) => Ok(Some(value@)),
        Ok(None) => Ok(None),
        Err(error) => Err(error),
    }
}

/// The reading side of a channel: a streaming decoder and the bytes it holds.
/// A reading side on which the protocol was broken has failed for good: it
/// is of no further use, and nothing reads from it again.
pub struct RPCInterface {
    decoder: resp::Decoder,
    failed: bool,
}

impl RPCInterface {
    /// The reading side can be read from: the protocol was not broken on it,
    /// and its decoder is one that keeps bulk strings as bytes, as that of
    /// every reading side made by [`RPCInterface::new`] is.
    pub closed spec fn wf(&self) -> bool {
        decoder_keeps_bytes(self.decoder) && !self.failed
    }

    /// Whether the protocol was broken on this reading side.
    pub closed spec fn has_failed(&self) -> bool {
        self.failed
    }

    /// Whether the protocol was broken on this reading side, which makes it
    /// useless.
    pub fn failed(&self) -> (failed: bool)
        ensures
            failed == self.has_failed(),
            failed ==> !self.wf(),
    {
        self.failed
    }

    /// Bytes received that belong to a value not yet complete.
    pub closed spec fn pending(&self) -> Seq<u8> {
        decoder_pending(self.decoder)
    }

    /// Values received in full and not yet handed out.
    pub closed spec fn ready(&self) -> Seq<ValueView> {
        decoder_ready(self.decoder)
    }

    /// A reading side that has received nothing.
    pub fn new() -> (rpc: RPCInterface)
        ensures
            rpc.wf(),
            !rpc.has_failed(),
            rpc.pending() == Seq::<u8>::empty(),
            rpc.ready() == Seq::<ValueView>::empty(),
    {
        RPCInterface { decoder: new_decoder(), failed: false }
    }

    /// Takes in one line as it came from the peer and hands out the value
    /// that is complete with it, if one is.
    pub fn feed_line(&mut self, line: &[u8]) -> (outcome: Result<Option<Value>, ProtocolError>)
        requires
            old(self).wf(),
        ensures
            final(self).wf() <==> outcome is Ok,
            final(self).has_failed() <==> outcome is Err,
            ({
                let fed = feed(old(self).pending(), old(self).ready(), line@);
                &&& outcome_view(outcome) == fed.outcome
                &&& final(self).pending() == fed.pending
                &&& final(self).ready() == fed.ready
            }),
    {
        match decoder_feed(&mut self.decoder, line) {
            Err(_) => {
                self.failed = true;
                Err(ProtocolError::Malformed)
            },
            Ok(()) => match decoder_read(&mut self.decoder) {
                Some(wire) => Ok(Some(from_wire(wire))),
                None => Ok(None),
            },
        }
    }

    /// Reads the next call from `input`, starting at `*cursor`, and moves the
    /// cursor behind the lines it took. `Ok(None)` is the clean end of the
    /// input: the peer has closed its side.
    pub fn next_call(&mut self, input: &[u8], cursor: &mut usize) -> (call: Result<
        Option<Call>,
        ProtocolError,
    >)
        requires
            old(self).wf(),
        ensures
            final(self).wf() <==> call is Ok,
            final(self).has_failed() <==> call is Err,
            ({
                let reading = read_from(
                    old(self).pending(),
                    old(self).ready(),
                    input@,
                    *old(cursor) as int,
                );
                &&& final(self).pending() == reading.pending
                &&& final(self).ready() == reading.ready
                &&& *final(cursor) == reading.cursor
                &&& match reading.outcome {
                    Err(error) => call == Err::<Option<Call>, ProtocolError>(error),
                    Ok(None) => call == Ok::<Option<Call>, ProtocolError>(None),
                    Ok(Some(value)) => match call_of(value) {
                        Err(error) => call == Err::<Option<Call>, ProtocolError>(error),
                        Ok((method, args)) => {
                            &&& call is Ok
                            &&& call->Ok_0 is Some
                            &&& call->Ok_0->Some_0.method@ == method
                            &&& views(call->Ok_0->Some_0.args@) == args
                        },
                    },
                }
            }),
    {
        match self.read_value(input, cursor) {
            Err(error) => Err(error),
            Ok(None) => Ok(None),
            Ok(Some(value)) => match parse_call(value) {
                Err(error) => {
                    self.failed = true;
                    Err(error)
                },
                Ok(call) => Ok(Some(call)),
            },
        }
    }

    /// Reads one value from `input`, starting at `*cursor`, and moves the
    /// cursor behind the lines it took.
    pub fn read_value(&mut self, input: &[u8], cursor: &mut usize) -> (outcome: Result<
        Option<Value>,
        ProtocolError,
    >)
        requires
            old(self).wf(),
        ensures
            final(self).wf() <==> outcome is Ok,
            final(self).has_failed() <==> outcome is Err,
            ({
                let reading = read_from(
                    old(self).pending(),
                    old(self).ready(),
                    input@,
                    *old(cursor) as int,
                );
                &&& outcome_view(outcome) == reading.outcome
                &&& final(self).pending() == reading.pending
                &&& final(self).ready() == reading.ready
                &&& *final(cursor) == reading.cursor
            }),
    {
        loop
            invariant
                self.wf(),
                read_from(self.pending(), self.ready(), input@, *cursor as int) == read_from(
                    old(self).pending(),
                    old(self).ready(),
                    input@,
                    *old(cursor) as int,
                ),
            decreases input@.len() - *cursor,
        {
            if *cursor >= input.len() {
                return Ok(None);
            }
            let end = next_line(input, *cursor);
            let outcome = self.feed_line(&input[*cursor..end]);
            *cursor = end;
            match outcome {
                Ok(None) => {},
                found => {
                    return found;
                },
            }
        }
    }
}

/// Finds the end of the line that starts at `from`.
pub fn next_line(input: &[u8], from: usize) -> (end: usize)
    ensures
        end == line_end(input@, from as int),
        end <= input@.len(),
        from < input@.len() ==> from < end,
{
    if from >= input.len() {
        return input.len();
    }
    let mut i: usize = from;
    while i < input.len() && input[i] != 10u8
        invariant
            from <= i <= input@.len(),
            line_end(input@, i as int) == line_end(input@, from as int),
        decreases input@.len() - i,
    {
        i += 1;
    }
    proof {
        lemma_line_end_bounds(input@, from as int);
    }
    if i < input.len() {
        i + 1
    } else {
        i
    }
}

/// The wire bytes of one value.
pub fn encode(value: &Value) -> (bytes: Vec<u8>)
    ensures
        bytes@ == resp_encoding(value@),
{
    let wire = to_wire(value);
    wire_encode(&wire)
}

/// Appends the wire bytes of `value` to what is to be sent.
pub fn write(stream: &mut Vec<u8>, value: &Value)
    ensures
        final(stream)@ == old(stream)@ + resp_encoding(value@),
{
    let mut bytes = encode(value);
    stream.append(&mut bytes);
}

/// The value that stands for a call on the wire: an array that holds the
/// method as a simple string and then the arguments.
pub open spec fn call_view(method: Seq<char>, args: Seq<ValueView>) -> ValueView {
    ValueView::Array(seq![ValueView::String(method)] + args)
}

/// Appends a call of `method` with `args` to what is to be sent.
pub fn call(stream: &mut Vec<u8>, method: &str, args: Vec<Value>)
    ensures
        final(stream)@ == old(stream)@ + resp_encoding(call_view(method@, views(args@))),
{
    let ghost given = args@;
    let mut args = args;
    let mut array: Vec<Value> = Vec::new();
    array.push(Value::String(method.to_owned()));
    array.append(&mut args);
    proof {
        lemma_array_view(array);
        assert(views(array@) =~= seq![ValueView::String(method@)] + views(given));
    }
    write(stream, &Value::Array(array));
}

/// The text that a value carries: that of a simple or bulk string as it is,
/// that of a run of bytes where they are valid UTF-8. No other value carries
/// text.
pub open spec fn text_of(value: ValueView) -> Option<Seq<char>> {
    match value {
        ValueView::String(text) => Some(text),
        ValueView::Bulk(text) => Some(text),
        ValueView::BufBulk(bytes) => if valid_utf8(bytes) {
            Some(decode_utf8(bytes))
        } else {
            None
        },
        _ => None,
    }
}

/// Takes the text out of a value.
pub fn value_to_string(value: Value) -> (text: Result<String, ()>)
    ensures
        match text_of(value@) {
            Some(expected) => text is Ok && text->Ok_0@ == expected,
            None => text is Err,
        },
{
    match value {
        Value::String(text) => Ok(text),
        Value::Bulk(text) => Ok(text),
        Value::BufBulk(bytes) => match from_utf8(bytes) {
            Some(text) => Ok(text),
            None => Err(()),
        },
        _ => Err(()),
    }
}

/// A call as the serving side receives it.
#[derive(Debug, PartialEq, Eq)]
pub struct Call {
    pub method: String,
    pub args: Vec<Value>,
}

/// The call that a received value stands for: it has to be an array, with at
/// least one element, whose first element is a simple string. That string is
/// the method, the other elements are the arguments.
pub open spec fn call_of(value: ValueView) -> Result<(Seq<char>, Seq<ValueView>), ProtocolError> {
    match value {
        ValueView::Array(items) => if items.len() == 0 {
            Err(ProtocolError::EmptyCall)
        } else {
            match items[0] {
                ValueView::String(method) => Ok((method, items.subrange(1, items.len() as int))),
                _ => Err(ProtocolError::BadMethod),
            }
        },
        _ => Err(ProtocolError::NotACall),
    }
}

/// Takes a received value apart into method and arguments.
pub fn parse_call(value: Value) -> (call: Result<Call, ProtocolError>)
    ensures
        match call_of(value@) {
            Ok((method, args)) => call is Ok && call->Ok_0.method@ == method && views(
                call->Ok_0.args@,
            ) == args,
            Err(error) => call == Err::<Call, ProtocolError>(error),
        },
{
    match value {
        Value::Array(items) => {
            proof {
                lemma_array_view(items);
            }
            if items.len() == 0 {
                return Err(ProtocolError::EmptyCall);
            }
            let ghost all = items@;
            let mut items = items;
            let first = items.remove(0);
            match first {
                Value::String(method) => {
                    assert(views(items@) =~= views(all).subrange(1, all.len() as int));
                    Ok(Call { method, args: items })
                },
                _ => Err(ProtocolError::BadMethod),
            }
        },
        _ => Err(ProtocolError::NotACall),
    }
}

/// The value that answers a call: what the handler returned, or an error
/// value where the handler failed.
pub open spec fn answer_view(handled: Result<Value, ()>) -> ValueView {
    match handled {
        Ok(value) => value@,
        Err(_) => ValueView::Error("Error"@),
    }
}

/// Appends the answer to a call to what is to be sent.
pub fn reply(stream: &mut Vec<u8>, handled: Result<Value, ()>)
    ensures
        final(stream)@ == old(stream)@ + resp_encoding(answer_view(handled)),
{
    match handled {
        Ok(value) => write(stream, &value),
        Err(_) => write(stream, &Value::Error("Error".to_owned())),
    }
}

/// One call of a session and what the handler made of it.
pub struct Exchange {
    pub call: Call,
    pub handled: Result<Value, ()>,
}

/// Where the reading side stands between two calls.
pub struct Position {
    pub pending: Seq<u8>,
    pub ready: Seq<ValueView>,
    pub cursor: int,
}

/// Where the reading side stands after `calls` values were read from `input`,
/// one after the other, starting from `start`.
pub open spec fn position_after(start: Position, input: Seq<u8>, calls: nat) -> Position
    decreases calls,
{
    if calls == 0 {
        start
    } else {
        let before = position_after(start, input, (calls - 1) as nat);
        let reading = read_from(before.pending, before.ready, input, before.cursor);
        Position { pending: reading.pending, ready: reading.ready, cursor: reading.cursor }
    }
}

/// What is read at a position.
pub open spec fn read_at(position: Position, input: Seq<u8>) -> Reading {
    read_from(position.pending, position.ready, input, position.cursor)
}

/// Whether what was read is the call of an exchange.
pub open spec fn is_call_of(outcome: Result<Option<ValueView>, ProtocolError>, call: Call) -> bool {
    &&& outcome is Ok
    &&& outcome->Ok_0 is Some
    &&& call_of(outcome->Ok_0->Some_0) == Ok::<(Seq<char>, Seq<ValueView>), ProtocolError>(
        (call.method@, views(call.args@)),
    )
}

/// How a session ends on what was read in place of a further call: cleanly
/// at the end of the input, with an error on anything that is no call.
pub open spec fn ending(outcome: Result<Option<ValueView>, ProtocolError>) -> Result<
    (),
    ProtocolError,
> {
    match outcome {
        Ok(None) => Ok(()),
        Ok(Some(value)) => match call_of(value) {
            Ok(_) => Ok(()),
            Err(error) => Err(error),
        },
        Err(error) => Err(error),
    }
}

/// The bytes of the answers to a run of exchanges, one behind the other.
pub open spec fn answers(log: Seq<Exchange>) -> Seq<u8>
    decreases log.len(),
{
    if log.len() == 0 {
        Seq::empty()
    } else {
        answers(log.drop_last()) + resp_encoding(answer_view(log.last().handled))
    }
}

/// How a session ended, where it left the reading side, and what is to be
/// sent after it.
pub struct Session {
    pub ended: Result<(), ProtocolError>,
    pub pending: Seq<u8>,
    pub ready: Seq<ValueView>,
    pub sent: Seq<u8>,
}

/// Whether `log` tells what happened in a session that `handler` served on
/// `input` from `start`: the calls of the log are the values that the input
/// holds, in order, each answer is one that the handler may give to its call,
/// what is read behind the last call is no call and ends the session, and
/// what is to be sent has grown by the answers.
pub open spec fn is_session<F: Fn(&Call) -> Result<Value, ()>>(
    handler: F,
    start: Position,
    input: Seq<u8>,
    log: Seq<Exchange>,
    session: Session,
    sent_before: Seq<u8>,
) -> bool {
    let last = read_at(position_after(start, input, log.len()), input);
    &&& forall|i: int|
        0 <= i < log.len() ==> is_call_of(
            read_at(position_after(start, input, i as nat), input).outcome,
            (#[trigger] log[i]).call,
        ) && call_ensures(handler, (&log[i].call,), log[i].handled)
    &&& !(last.outcome is Ok && last.outcome->Ok_0 is Some && call_of(last.outcome->Ok_0->Some_0)
        is Ok)
    &&& session.ended == ending(last.outcome)
    &&& session.pending == last.pending
    &&& session.ready == last.ready
    &&& session.sent == sent_before + answers(log)
}

impl RPCInterface {
    /// Serves the calls that arrive in `input`: reads one call after the
    /// other, hands each to `handler` and appends the answer to `output`. The
    /// session ends cleanly when the input ends. A value that is malformed or
    /// no call is fatal to the channel: the handler does not see it, nothing
    /// is skipped, the session ends with the error, and the reading side has
    /// failed for good.
    ///
    /// What happened is told by a log of exchanges: the calls are those that
    /// the input holds, in order, each answer is one that the handler may
    /// give to its call, and the output has grown by the answers.
    pub fn read_loop<F: Fn(&Call) -> Result<Value, ()>>(
        &mut self,
        input: &[u8],
        output: &mut Vec<u8>,
        handler: F,
    ) -> (ended: Result<(), ProtocolError>)
        requires
            old(self).wf(),
            forall|call: &Call| call_requires(handler, (call,)),
        ensures
            final(self).wf() <==> ended is Ok,
            final(self).has_failed() <==> ended is Err,
            exists|log: Seq<Exchange>|
                is_session(
                    handler,
                    Position { pending: old(self).pending(), ready: old(self).ready(), cursor: 0 },
                    input@,
                    log,
                    Session {
                        ended,
                        pending: final(self).pending(),
                        ready: final(self).ready(),
                        sent: final(output)@,
                    },
                    old(output)@,
                ),
    {
        let ghost start = Position { pending: self.pending(), ready: self.ready(), cursor: 0 };
        let ghost mut log: Seq<Exchange> = Seq::empty();
        let mut cursor: usize = 0;
        loop
            invariant
                self.wf(),
                forall|call: &Call| call_requires(handler, (call,)),
                start == (Position {
                    pending: old(self).pending(),
                    ready: old(self).ready(),
                    cursor: 0,
                }),
                position_after(start, input@, log.len()) == (Position {
                    pending: self.pending(),
                    ready: self.ready(),
                    cursor: cursor as int,
                }),
                forall|i: int|
                    0 <= i < log.len() ==> is_call_of(
                        read_at(position_after(start, input@, i as nat), input@).outcome,
                        (#[trigger] log[i]).call,
                    ) && call_ensures(handler, (&log[i].call,), log[i].handled),
                output@ == old(output)@ + answers(log),
            decreases input@.len() - cursor,
        {
            let ghost here = position_after(start, input@, log.len());
            let ghost before = cursor;
            let call = match self.next_call(input, &mut cursor) {
                Ok(Some(call)) => call,
                Ok(None) => {
                    proof {
                        assert(is_session(
                            handler,
                            start,
                            input@,
                            log,
                            Session {
                                ended: Ok(()),
                                pending: self.pending(),
                                ready: self.ready(),
                                sent: output@,
                            },
                            old(output)@,
                        ));
                    }
                    return Ok(());
                },
                Err(error) => {
                    proof {
                        assert(is_session(
                            handler,
                            start,
                            input@,
                            log,
                            Session {
                                ended: Err(error),
                                pending: self.pending(),
                                ready: self.ready(),
                                sent: output@,
                            },
                            old(output)@,
                        ));
                    }
                    return Err(error);
                },
            };
            proof {
                lemma_value_moves_cursor(here.pending, here.ready, input@, before as int);
            }
            let handled = handler(&call);
            let ghost earlier = log;
            let ghost sent = output@;
            reply(output, clone_handled(&handled));
            proof {
                log = log.push(Exchange { call, handled });
                assert(log.drop_last() =~= earlier);
                assert(output@ == old(output)@ + answers(log)) by {
                    assert(output@ =~= old(output)@ + (answers(earlier) + resp_encoding(
                        answer_view(handled),
                    )));
                }
                assert forall|i: int| 0 <= i < log.len() implies is_call_of(
                    read_at(position_after(start, input@, i as nat), input@).outcome,
                    (#[trigger] log[i]).call,
                ) && call_ensures(handler, (&log[i].call,), log[i].handled) by {
                    if i < earlier.len() {
                        assert(log[i] == earlier[i]);
                    }
                }
            }
        }
    }
}

/// A value is only ever read from lines, so reading one moves the cursor.
pub proof fn lemma_value_moves_cursor(
    pending: Seq<u8>,
    ready: Seq<ValueView>,
    input: Seq<u8>,
    from: int,
)
    requires
        0 <= from,
    ensures
        read_from(pending, ready, input, from).outcome is Ok && read_from(
            pending,
            ready,
            input,
            from,
        ).outcome->Ok_0 is Some ==> from < read_from(pending, ready, input, from).cursor
            <= input.len(),
    decreases input.len() - from,
{
    if from < input.len() {
        lemma_line_end_bounds(input, from);
        let end = line_end(input, from);
        let fed = feed(pending, ready, input.subrange(from, end));
        if fed.outcome == Ok::<Option<ValueView>, ProtocolError>(None) {
            lemma_value_moves_cursor(fed.pending, fed.ready, input, end);
        }
    }
}

fn clone_handled(handled: &Result<Value, ()>) -> (copy: Result<Value, ()>)
    ensures
        answer_view(copy) == answer_view(*handled),
{
    match handled {
        Ok(value) => Ok(value.clone()),
        Err(_) => Err(()),
    }
}

} // verus!
