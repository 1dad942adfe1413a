use sqld::connection::read_command;
use sqld::parser::{parse_msg, ParseError};
use sqld::pipeline::serve_connection;
use sqlparser::ast::Statement;
use sqlparser::dialect::GenericDialect;
use sqlparser::parser::Parser;

fn expected_statements(text: &str) -> Vec<Statement> {
    Parser::parse_sql(&GenericDialect {}, text).unwrap()
}

fn serve_stream(stream: &[u8]) -> Vec<Statement> {
    serve_connection(&vec![stream.to_vec()])
}

#[test]
fn valid_single_statement_is_forwarded_once() {
    let statements = serve_stream(b"SELECT 1;");
    assert_eq!(statements.len(), 1);
    assert_eq!(statements, expected_statements("SELECT 1;"));
}

#[test]
fn invalid_input_forwards_nothing() {
    assert_eq!(serve_stream(b"SELEKT;"), vec![]);
}

#[test]
fn only_first_command_of_a_write_is_processed() {
    let statements = serve_stream(b"SELECT 1; SELECT 2;");
    assert_eq!(statements, expected_statements("SELECT 1;"));
}

#[test]
fn remainder_after_delimiter_is_never_parsed() {
    assert_eq!(serve_stream(b"SELECT 1; SELEKT"), expected_statements("SELECT 1;"));
    assert_eq!(serve_stream(b"SELECT 1;\xff\xff"), expected_statements("SELECT 1;"));
}

#[test]
fn delimiter_in_string_literal_breaks_the_command() {
    assert_eq!(expected_statements("SELECT 'a;b';").len(), 1);
    assert_eq!(serve_stream(b"SELECT 'a;b';"), vec![]);
}

#[test]
fn unterminated_command_is_parsed_at_end_of_stream() {
    assert_eq!(serve_stream(b"SELECT 1"), expected_statements("SELECT 1"));
}

#[test]
fn empty_connection_forwards_nothing() {
    assert_eq!(serve_stream(b""), vec![]);
    assert_eq!(serve_connection(&vec![]), vec![]);
}

#[test]
fn chunking_does_not_change_what_is_forwarded() {
    let chunks = vec![b"SEL".to_vec(), b"ECT ".to_vec(), b"42".to_vec(), b"; SELECT 2;".to_vec()];
    assert_eq!(serve_connection(&chunks), expected_statements("SELECT 42"));
}

#[test]
fn non_ascii_text_survives_the_pipeline() {
    let statements = serve_stream("SELECT 'grüße';".as_bytes());
    assert_eq!(statements, expected_statements("SELECT 'grüße'"));
}

#[test]
fn fifty_connections_yield_fifty_statements() {
    let mut all = Vec::new();
    for n in 0..50 {
        all.extend(serve_stream(format!("SELECT {};", n).as_bytes()));
    }
    assert_eq!(all.len(), 50);
}

#[test]
fn fragment_cut_from_string_literal_does_not_parse() {
    let fragment = read_command(&vec![b"SELECT 'a;b';".to_vec()]);
    assert_eq!(fragment, "SELECT 'a;");
    assert!(matches!(parse_msg(fragment), Err(ParseError::Tokenizer(_))));
}

#[test]
fn delimiter_after_broken_encoding_still_ends_the_command() {
    let text = read_command(&vec![b"SELECT \xe6; SELECT 2;".to_vec()]);
    assert_eq!(text, "SELECT \u{FFFD};");
    assert_eq!(serve_stream(b"SELECT \xe6; SELECT 2;"), vec![]);
}
