use sqld::parser::{parse_and_forward, parse_commands, parse_msg, statements_to_forward, ParseError};
use sqlparser::ast::Statement;
use sqlparser::dialect::GenericDialect;
use sqlparser::parser::Parser;

fn parsed_directly(text: &str) -> Vec<Statement> {
    Parser::parse_sql(&GenericDialect {}, text).unwrap()
}

#[test]
fn parse_msg_single_statement() {
    let parsed = parse_msg(String::from("SELECT 1;")).unwrap();
    assert_eq!(parsed.len(), 1);
    assert_eq!(parsed, parsed_directly("SELECT 1;"));
    assert_eq!(parsed[0].to_string(), "SELECT 1");
}

#[test]
fn parse_msg_keeps_source_order() {
    let parsed = parse_msg(String::from("SELECT 1; INSERT INTO t VALUES (2); DROP TABLE t;")).unwrap();
    assert_eq!(parsed.len(), 3);
    assert_eq!(parsed[0].to_string(), "SELECT 1");
    assert_eq!(parsed[1].to_string(), "INSERT INTO t VALUES (2)");
    assert_eq!(parsed[2].to_string(), "DROP TABLE t");
}

#[test]
fn parse_msg_empty_text_has_no_statements() {
    assert_eq!(parse_msg(String::new()), Ok(vec![]));
    assert_eq!(parse_msg(String::from(";")), Ok(vec![]));
    assert_eq!(parse_msg(String::from("  ;; ")), Ok(vec![]));
}

#[test]
fn parse_msg_distinguishes_statements() {
    assert_ne!(parse_msg(String::from("SELECT 1;")), parse_msg(String::from("SELECT 2;")));
}

#[test]
fn parse_msg_syntax_error() {
    match parse_msg(String::from("SELEKT;")) {
        Err(ParseError::Syntax(message)) => assert!(message.contains("SELEKT")),
        other => panic!("unexpected: {:?}", other),
    }
}

#[test]
fn parse_msg_tokenizer_error() {
    match parse_msg(String::from("SELECT 'a;")) {
        Err(ParseError::Tokenizer(message)) => assert!(message.contains("Unterminated string literal")),
        other => panic!("unexpected: {:?}", other),
    }
}

#[test]
fn parse_msg_recursion_limit() {
    let text = format!("SELECT {}1{};", "(".repeat(500), ")".repeat(500));
    assert_eq!(parse_msg(text), Err(ParseError::RecursionLimit));
}

#[test]
fn parse_msg_failure_has_no_partial_result() {
    assert!(parse_msg(String::from("SELECT 1; SELEKT 2;")).is_err());
}

#[test]
fn forward_all_statements_of_a_success() {
    let statements = statements_to_forward(Ok(parsed_directly("SELECT 1; SELECT 2")));
    assert_eq!(statements, parsed_directly("SELECT 1; SELECT 2"));
}

#[test]
fn forward_nothing_of_a_failure() {
    assert_eq!(statements_to_forward(Err(ParseError::RecursionLimit)), vec![]);
    assert_eq!(statements_to_forward(Err(ParseError::Syntax(String::from("x")))), vec![]);
    assert_eq!(statements_to_forward(Err(ParseError::Tokenizer(String::from("x")))), vec![]);
}

#[test]
fn parse_and_forward_valid_command() {
    assert_eq!(parse_and_forward(String::from("SELECT 1;")), parsed_directly("SELECT 1"));
}

#[test]
fn parse_and_forward_invalid_command() {
    assert_eq!(parse_and_forward(String::from("SELEKT;")), vec![]);
    assert_eq!(parse_and_forward(String::from("SELECT 1; SELEKT 2;")), vec![]);
}

#[test]
fn parse_commands_forwards_in_queue_order() {
    let commands = vec![
        String::from("SELECT 1; SELECT 2;"),
        String::from("SELEKT;"),
        String::new(),
        String::from("SELECT 3;"),
    ];
    let statements = parse_commands(&commands);
    assert_eq!(statements, parsed_directly("SELECT 1; SELECT 2; SELECT 3"));
}

#[test]
fn parse_commands_of_nothing_is_nothing() {
    assert_eq!(parse_commands(&vec![]), vec![]);
}

#[test]
fn parse_commands_one_statement_per_connection() {
    let commands: Vec<String> = (0..50).map(|n| format!("SELECT {};", n)).collect();
    let statements = parse_commands(&commands);
    assert_eq!(statements.len(), 50);
    for (n, statement) in statements.iter().enumerate() {
        assert_eq!(statement.to_string(), format!("SELECT {}", n));
    }
    let reversed: Vec<String> = commands.iter().rev().cloned().collect();
    assert_eq!(parse_commands(&reversed).len(), 50);
}

#[test]
fn parse_commands_concatenates_batches() {
    let earlier = vec![String::from("SELECT 1;"), String::from("SELEKT;")];
    let later = vec![String::from("SELECT 2; SELECT 3;")];
    let mut all = earlier.clone();
    all.extend(later.iter().cloned());
    let mut expected = parse_commands(&earlier);
    expected.extend(parse_commands(&later));
    assert_eq!(parse_commands(&all), expected);
}
