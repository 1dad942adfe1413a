//! The pipeline end to end: from the bytes of one connection to the
//! statements that are handed on for it.
//!
//! The laws of this module say what a client can and cannot expect of the
//! server, framing limitation included.

use crate::connection::{pieces_of, read_command, stream_of};
use crate::framing::{
    command_of, has_delimiter, is_first_delimiter, lemma_command_len_at,
    lemma_command_len_whole, lemma_cut_at_first_delimiter, lemma_rest_ignored,
};
use crate::parser::{
    forwarded, forwarded_for, lemma_one_statement_per_command, parse_and_forward, sql_parse,
    ParseFailure,
};
use crate::text::{
    lemma_encoded_text_decodes, lemma_encoding_concat, lemma_encoding_without_delimiter,
    lemma_semicolon_is_delimiter, lossy_text,
};
use sqlparser::ast::Statement;
use vstd::prelude::*;
use vstd::utf8::encode_utf8;

verus! {

/// The text that the parser is given for a connection that delivers
/// `stream`: the command at its head, decoded.
pub open spec fn command_text(stream: Seq<u8>) -> Seq<char> {
    lossy_text(command_of(stream))
}

/// The statements that are handed on for a connection that delivers
/// `stream`.
pub open spec fn connection_statements(stream: Seq<u8>) -> Seq<Statement> {
    forwarded(sql_parse(command_text(stream)))
}

/// Serves one connection whose stream arrives in the pieces `chunks` and
/// then ends: reads the command, parses it and returns what is handed on.
pub fn serve_connection(chunks: &Vec<Vec<u8>>) -> (statements: Vec<Statement>)
    ensures
        statements@ == connection_statements(stream_of(pieces_of(chunks@))),
{
    parse_and_forward(read_command(chunks))
}

/// Only the bytes through the first delimiter count: whatever a client
/// sends after them, the same statements are handed on.
pub proof fn lemma_remainder_never_processed(head: Seq<u8>, rest: Seq<u8>)
    requires
        has_delimiter(head),
    ensures
        command_of(head + rest) == command_of(head),
        connection_statements(head + rest) == connection_statements(head),
{
    lemma_rest_ignored(head, rest);
}

/// A connection whose command does not parse has no statement handed on.
pub proof fn lemma_invalid_command_forwards_nothing(stream: Seq<u8>)
    requires
        sql_parse(command_text(stream)) is Err,
    ensures
        connection_statements(stream) == Seq::<Statement>::empty(),
{
}

/// A connection whose stream is one command, its only delimiter the last
/// byte, has handed on exactly what parsing the text of the stream gives.
pub proof fn lemma_whole_stream_is_command(stream: Seq<u8>)
    requires
        is_first_delimiter(stream, stream.len() - 1),
    ensures
        command_text(stream) == lossy_text(stream),
        connection_statements(stream) == forwarded(sql_parse(lossy_text(stream))),
{
    lemma_command_len_at(stream, stream.len() - 1);
    assert(stream.take(stream.len() as int) =~= stream);
}

/// What the parser is given when a client sends text as UTF-8: the text
/// through its first semicolon, wherever in the text that semicolon stands,
/// and the whole text where it holds none.
pub proof fn lemma_command_text_of_sent_text(body: Seq<char>, rest: Seq<char>)
    requires
        !body.contains(';'),
    ensures
        command_text(encode_utf8(body.push(';') + rest)) == body.push(';'),
        command_text(encode_utf8(body)) == body,
{
    let text = body.push(';');
    lemma_encoding_without_delimiter(body);
    lemma_semicolon_is_delimiter();
    assert(text =~= body + seq![';']);
    lemma_encoding_concat(body, seq![';']);
    lemma_encoding_concat(text, rest);
    lemma_cut_at_first_delimiter(encode_utf8(body), encode_utf8(rest));
    lemma_encoded_text_decodes(text);
    lemma_command_len_whole(encode_utf8(body));
    lemma_encoded_text_decodes(body);
}

/// A client that sends one statement without a semicolon in it, followed by
/// the delimiter, has exactly one statement handed on: the one that parsing
/// the text directly gives.
pub proof fn lemma_single_statement_forwarded(body: Seq<char>, statement: Statement)
    requires
        !body.contains(';'),
        sql_parse(body.push(';')) == Ok::<Seq<Statement>, ParseFailure>(seq![statement]),
    ensures
        connection_statements(encode_utf8(body.push(';'))) == seq![statement],
{
    lemma_command_text_of_sent_text(body, Seq::<char>::empty());
    assert(body.push(';') + Seq::<char>::empty() =~= body.push(';'));
}

/// A client that sends text which does not parse up to its first semicolon
/// has no statement handed on, whatever it sends after that semicolon.
pub proof fn lemma_invalid_text_forwards_nothing(body: Seq<char>, rest: Seq<char>)
    requires
        !body.contains(';'),
        sql_parse(body.push(';')) is Err,
    ensures
        connection_statements(encode_utf8(body.push(';') + rest)) == Seq::<Statement>::empty(),
{
    lemma_command_text_of_sent_text(body, rest);
}

/// The texts that reach the parser's queue for the connections `streams`,
/// one text per connection, in the order in which they were enqueued.
pub open spec fn queued_texts(streams: Seq<Seq<u8>>) -> Seq<Seq<char>> {
    streams.map_values(|stream: Seq<u8>| command_text(stream))
}

/// Where each of a number of connections sends what yields one statement, as
/// many statements are handed on as there are connections, in whatever order
/// their commands reach the queue.
pub proof fn lemma_one_statement_per_connection(streams: Seq<Seq<u8>>)
    requires
        forall|i: int|
            0 <= i < streams.len() ==> (#[trigger] connection_statements(streams[i])).len() == 1,
    ensures
        forwarded_for(queued_texts(streams)).len() == streams.len(),
{
    let texts = queued_texts(streams);
    assert forall|i: int| 0 <= i < texts.len() implies forwarded(
        sql_parse(#[trigger] texts[i]),
    ).len() == 1 by {
        assert(connection_statements(streams[i]).len() == 1);
    }
    lemma_one_statement_per_command(texts);
}

} // verus!
