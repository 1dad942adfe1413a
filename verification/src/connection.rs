//! The connection handler: reads exactly one command from one connection.
//!
//! The handler does no I/O. Its driver reads from the connection and reports
//! each read as a [`ReadEvent`]; the handler answers with what to do next.
//! It asks for more until a delimiter arrives or the stream ends, then hands
//! over the command as text. A failed read ends it with nothing to hand over.
//! A handler is used up by the read that ends it, so no second command is
//! ever read from a connection, and nothing is ever written back to it.

use crate::framing::{
    append_prefix, command_of, find_delimiter, has_delimiter, lemma_command_ends_in_second,
    lemma_command_len_at, lemma_command_len_whole, lemma_rest_ignored,
};
use crate::text::{decode_command, lossy_text};
use vstd::pervasive::unreached;
use vstd::prelude::*;

verus! {

/// What one read on the connection gave.
pub enum ReadEvent<'a> {
    /// The read returned these bytes.
    Bytes(&'a [u8]),
    /// The stream has ended: the read returned no bytes.
    EndOfStream,
    /// The read failed.
    Failed,
}

/// How a handler ends.
#[derive(Debug, PartialEq, Eq)]
pub enum Outcome {
    /// The command was read; this text goes to the parser.
    Forward(String),
    /// Reading failed; nothing goes to the parser.
    Abandon,
}

/// Where a handler stands after a read.
pub enum Progress {
    /// No delimiter so far: read again and report to this handler.
    Reading(ConnectionHandler),
    /// The handler is finished.
    Done(Outcome),
}

/// The state of one connection: the bytes read so far, none of them a
/// delimiter.
pub struct ConnectionHandler {
    pending: Vec<u8>,
}

impl View for ConnectionHandler {
    type V = Seq<u8>;

    /// The bytes read so far.
    closed spec fn view(&self) -> Seq<u8> {
        self.pending@
    }
}

impl ConnectionHandler {
    #[verifier::type_invariant]
    spec fn no_delimiter_pending(self) -> bool {
        !has_delimiter(self.pending@)
    }

    /// A handler for a connection from which nothing has been read.
    pub fn new() -> (handler: Self)
        ensures
            handler@ == Seq::<u8>::empty(),
    {
        ConnectionHandler { pending: Vec::new() }
    }

    /// Takes the outcome of one read and decides how to go on.
    ///
    /// Bytes without a delimiter are kept and more are asked for. Bytes with
    /// a delimiter complete the command: it is everything read so far through
    /// that delimiter, and what follows in the same read is dropped. The end
    /// of the stream completes the command with what was read, be it empty.
    /// A failed read abandons the connection, whatever was read before.
    pub fn on_read(self, event: ReadEvent<'_>) -> (progress: Progress)
        ensures
            !has_delimiter(self@),
            match event {
                ReadEvent::Bytes(chunk) => if has_delimiter(chunk@) {
                    &&& progress matches Progress::Done(Outcome::Forward(text))
                    &&& text@ == lossy_text(command_of(self@ + chunk@))
                } else {
                    &&& progress matches Progress::Reading(next)
                    &&& next@ == self@ + chunk@
                    &&& !has_delimiter(next@)
                },
                ReadEvent::EndOfStream => {
                    &&& progress matches Progress::Done(Outcome::Forward(text))
                    &&& text@ == lossy_text(self@)
                },
                ReadEvent::Failed => progress == Progress::Done(Outcome::Abandon),
            },
    {
        proof {
            use_type_invariant(&self);
        }
        match event {
            ReadEvent::Bytes(chunk) => {
                let mut pending = self.pending;
                let len: usize = chunk.len();
                proof {
                    lemma_command_ends_in_second(self@, chunk@);
                }
                match find_delimiter(chunk) {
                    Some(i) => {
                        proof {
                            lemma_command_len_at(chunk@, i as int);
                        }
                        append_prefix(&mut pending, chunk, i + 1);
                        Progress::Done(Outcome::Forward(decode_command(pending.as_slice())))
                    },
                    None => {
                        append_prefix(&mut pending, chunk, len);
                        assert(chunk@.take(len as int) =~= chunk@);
                        Progress::Reading(ConnectionHandler { pending })
                    },
                }
            },
            ReadEvent::EndOfStream => Progress::Done(
                Outcome::Forward(decode_command(self.pending.as_slice())),
            ),
            ReadEvent::Failed => Progress::Done(Outcome::Abandon),
        }
    }
}

/// What became of the command of a handler that has ended.
#[derive(Debug, Clone, Copy, PartialEq, Eq, Structural)]
pub enum Delivery {
    /// The connection was abandoned; there was nothing to deliver.
    Nothing,
    /// The queue to the parser took the command.
    Delivered,
    /// The queue to the parser is closed: the parser is gone.
    ReceiverGone,
}

/// What a handler reports to its caller once it has ended.
///
/// A failed read is no failure of the handler: it is logged and absorbed.
/// Only a command that could not be handed over is reported.
pub fn conclude(delivery: Delivery) -> (report: Result<(), ()>)
    ensures
        report is Err <==> delivery == Delivery::ReceiverGone,
{
    match delivery {
        Delivery::ReceiverGone => Err(()),
        _ => Ok(()),
    }
}

/// The pieces of a stream as byte sequences.
pub open spec fn pieces_of(chunks: Seq<Vec<u8>>) -> Seq<Seq<u8>> {
    chunks.map_values(|chunk: Vec<u8>| chunk@)
}

/// The bytes of a stream that arrives in the given pieces.
pub open spec fn stream_of(pieces: Seq<Seq<u8>>) -> Seq<u8>
    decreases pieces.len(),
{
    if pieces.len() == 0 {
        Seq::empty()
    } else {
        stream_of(pieces.drop_last()) + pieces.last()
    }
}

/// A stream in two runs of pieces is the first run's bytes followed by the
/// second's.
pub proof fn lemma_stream_of_concat(front: Seq<Seq<u8>>, back: Seq<Seq<u8>>)
    ensures
        stream_of(front + back) == stream_of(front) + stream_of(back),
    decreases back.len(),
{
    if back.len() == 0 {
        assert(front + back =~= front);
        assert(stream_of(front) + stream_of(back) =~= stream_of(front));
    } else {
        lemma_stream_of_concat(front, back.drop_last());
        assert((front + back).drop_last() =~= front + back.drop_last());
        assert((front + back).last() == back.last());
        assert(stream_of(front) + (stream_of(back.drop_last()) + back.last()) =~= (stream_of(front)
            + stream_of(back.drop_last())) + back.last());
    }
}

/// Runs a handler over a stream that arrives in the pieces `chunks` and then
/// ends, and returns the text that it hands over.
///
/// However the stream is cut into pieces, the text is that of the command at
/// the head of the whole stream.
pub fn read_command(chunks: &Vec<Vec<u8>>) -> (text: String)
    ensures
        text@ == lossy_text(command_of(stream_of(pieces_of(chunks@)))),
{
    let ghost pieces = pieces_of(chunks@);
    let mut handler = ConnectionHandler::new();
    let mut i: usize = 0;
    while i < chunks.len()
        invariant
            i <= chunks@.len(),
            pieces == pieces_of(chunks@),
            handler@ == stream_of(pieces.take(i as int)),
            !has_delimiter(handler@),
        decreases chunks@.len() - i,
    {
        let ghost seen = pieces.take(i as int);
        proof {
            assert(pieces.take(i + 1).drop_last() =~= seen);
            assert(pieces.take(i + 1).last() == chunks@[i as int]@);
        }
        match handler.on_read(ReadEvent::Bytes(chunks[i].as_slice())) {
            Progress::Reading(next) => {
                handler = next;
            },
            Progress::Done(Outcome::Forward(text)) => {
                proof {
                    let head = pieces.take(i + 1);
                    let rest = pieces.skip(i + 1);
                    assert(head + rest =~= pieces);
                    lemma_stream_of_concat(head, rest);
                    lemma_command_ends_in_second(stream_of(seen), chunks@[i as int]@);
                    lemma_rest_ignored(stream_of(head), stream_of(rest));
                }
                return text;
            },
            Progress::Done(Outcome::Abandon) => {
                return unreached();
            },
        }
        i += 1;
    }
    proof {
        assert(pieces.take(i as int) =~= pieces);
        lemma_command_len_whole(handler@);
    }
    match handler.on_read(ReadEvent::EndOfStream) {
        Progress::Done(Outcome::Forward(text)) => text,
        _ => unreached(),
    }
}

} // verus!
