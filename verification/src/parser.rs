//! The statement parser: raw command text in, structured statements out.
//!
//! Parsing is done by the `sqlparser` crate with its generic dialect. A
//! command that parses yields its statements in source order; a command that
//! does not parse yields none.

use sqlparser::ast::Statement;
use sqlparser::dialect::GenericDialect;
use sqlparser::parser::{Parser, ParserError};
use vstd::prelude::*;
use vstd::seq_lib::{lemma_multiset_commutative, to_multiset_contains, to_multiset_len, to_multiset_remove};

verus! {

/// One parsed SQL statement: `sqlparser::ast::Statement`. Opaque here: the
/// core carries statements, it never looks into one.
#[verifier::external_type_specification]
#[verifier::external_body]
pub struct ExStatement(Statement);

/// Why a command did not parse.
#[derive(Debug, PartialEq, Eq)]
pub enum ParseError {
    /// The text could not be split into tokens; the message says where.
    Tokenizer(String),
    /// The tokens do not form statements; the message says where.
    Syntax(String),
    /// The text nests deeper than the parser is willing to descend.
    RecursionLimit,
}

/// A parse error as contracts speak of it: its messages as texts.
pub enum ParseFailure {
    /// The text could not be split into tokens.
    Tokenizer(Seq<char>),
    /// The tokens do not form statements.
    Syntax(Seq<char>),
    /// The text nests too deep.
    RecursionLimit,
}

impl View for ParseError {
    type V = ParseFailure;

    open spec fn view(&self) -> ParseFailure {
        match *self {
            ParseError::Tokenizer(message) => ParseFailure::Tokenizer(message@),
            ParseError::Syntax(message) => ParseFailure::Syntax(message@),
            ParseError::RecursionLimit => ParseFailure::RecursionLimit,
        }
    }
}

/// What `sqlparser::parser::Parser::parse_sql` returns for `text` with the
/// generic dialect: the statements of the text in source order, or why the
/// text does not parse. Which texts parse, and into what, is the parser's
/// to say; nothing is assumed of it here.
pub uninterp spec fn sql_parse(text: Seq<char>) -> Result<Seq<Statement>, ParseFailure>;

/// A parse result as contracts speak of it: the statements as a sequence,
/// the error by its messages.
pub open spec fn parse_outcome(result: Result<Vec<Statement>, ParseError>) -> Result<
    Seq<Statement>,
    ParseFailure,
> {
    match result {
        Ok(statements) => Ok(statements@),
        Err(error) => Err(error@),
    }
}

/// The statements that are handed on for a parse result: all of them in
/// order after a success, none after a failure.
pub open spec fn forwarded(parsed: Result<Seq<Statement>, ParseFailure>) -> Seq<Statement> {
    match parsed {
        Ok(statements) => statements,
        Err(_) => Seq::empty(),
    }
}

/// Parses `text` with `sqlparser::parser::Parser::parse_sql` and the
/// generic dialect.
///
/// Trusted, not proved: the result depends on the text alone, so the same
/// text always gives the same statements or the same error. The three
/// variants of the parser's error are handed on one for one, messages
/// unchanged. The parser answers text that nests too deep with an error
/// instead of exhausting the stack.
#[verifier::external_body]
fn parse_sql(text: &str) -> (result: Result<Vec<Statement>, ParseError>)
    ensures
        parse_outcome(result) == sql_parse(text@),
{
    match Parser::parse_sql(&GenericDialect {}, text) {
        Ok(statements) => Ok(statements),
        Err(ParserError::TokenizerError(message)) => Err(ParseError::Tokenizer(message)),
        Err(ParserError::ParserError(message)) => Err(ParseError::Syntax(message)),
        Err(ParserError::RecursionLimitExceeded) => Err(ParseError::RecursionLimit),
    }
}

/// Parses one raw command.
pub fn parse_msg(message: String) -> (result: Result<Vec<Statement>, ParseError>)
    ensures
        parse_outcome(result) == sql_parse(message@),
{
    parse_sql(message.as_str())
}

/// Decides what is handed on for a parse result: every statement of a
/// command that parsed, nothing of one that did not.
pub fn statements_to_forward(parsed: Result<Vec<Statement>, ParseError>) -> (statements: Vec<
    Statement,
>)
    ensures
        statements@ == forwarded(parse_outcome(parsed)),
{
    match parsed {
        Ok(statements) => statements,
        Err(_) => Vec::new(),
    }
}

/// The statements handed on for one raw command.
pub fn parse_and_forward(message: String) -> (statements: Vec<Statement>)
    ensures
        statements@ == forwarded(sql_parse(message@)),
{
    statements_to_forward(parse_msg(message))
}

/// The texts of a run of raw commands.
pub open spec fn texts_of(commands: Seq<String>) -> Seq<Seq<char>> {
    commands.map_values(|command: String| command@)
}

/// Everything that is handed on for the commands `texts`, taken from the
/// queue in this order: the statements of the first command, then those of
/// the second, and so on.
pub open spec fn forwarded_for(texts: Seq<Seq<char>>) -> Seq<Statement>
    decreases texts.len(),
{
    if texts.len() == 0 {
        Seq::empty()
    } else {
        forwarded_for(texts.drop_last()) + forwarded(sql_parse(texts.last()))
    }
}

/// Works through the raw commands in the order in which they were taken
/// from the queue and returns what is handed on, in the order in which it is
/// handed on.
pub fn parse_commands(commands: &Vec<String>) -> (statements: Vec<Statement>)
    ensures
        statements@ == forwarded_for(texts_of(commands@)),
{
    let ghost texts = texts_of(commands@);
    let mut statements: Vec<Statement> = Vec::new();
    let mut i: usize = 0;
    while i < commands.len()
        invariant
            i <= commands@.len(),
            texts == texts_of(commands@),
            statements@ == forwarded_for(texts.take(i as int)),
        decreases commands@.len() - i,
    {
        let mut parsed = statements_to_forward(parse_sql(commands[i].as_str()));
        proof {
            assert(texts.take(i + 1).drop_last() =~= texts.take(i as int));
            assert(texts.take(i + 1).last() == commands@[i as int]@);
        }
        statements.append(&mut parsed);
        i += 1;
    }
    proof {
        assert(texts.take(i as int) =~= texts);
    }
    statements
}

/// A command that does not parse has no statement handed on: no partial
/// result survives a failure.
pub proof fn lemma_failure_forwards_nothing(text: Seq<char>)
    requires
        sql_parse(text) is Err,
    ensures
        forwarded(sql_parse(text)) == Seq::<Statement>::empty(),
{
}

/// A command that parses has each of its statements handed on once, in the
/// order of the source text.
pub proof fn lemma_success_forwards_all(text: Seq<char>, statements: Seq<Statement>)
    requires
        sql_parse(text) == Ok::<Seq<Statement>, ParseFailure>(statements),
    ensures
        forwarded(sql_parse(text)) == statements,
{
}

/// Commands are worked through one after the other: all statements of the
/// commands taken first are handed on before any statement of a command
/// taken later, and each command's statements stay together.
pub proof fn lemma_forwarded_for_concat(earlier: Seq<Seq<char>>, later: Seq<Seq<char>>)
    ensures
        forwarded_for(earlier + later) == forwarded_for(earlier) + forwarded_for(later),
    decreases later.len(),
{
    if later.len() == 0 {
        assert(earlier + later =~= earlier);
        assert(forwarded_for(earlier) + forwarded_for(later) =~= forwarded_for(earlier));
    } else {
        lemma_forwarded_for_concat(earlier, later.drop_last());
        assert((earlier + later).drop_last() =~= earlier + later.drop_last());
        assert((earlier + later).last() == later.last());
        assert(forwarded_for(earlier) + (forwarded_for(later.drop_last()) + forwarded(
            sql_parse(later.last()),
        )) =~= (forwarded_for(earlier) + forwarded_for(later.drop_last())) + forwarded(
            sql_parse(later.last()),
        ));
    }
}

/// Where every command yields exactly one statement, as many statements are
/// handed on as commands were taken, whatever the order in which the
/// commands reached the queue.
pub proof fn lemma_one_statement_per_command(texts: Seq<Seq<char>>)
    requires
        forall|i: int| 0 <= i < texts.len() ==> forwarded(sql_parse(#[trigger] texts[i])).len() == 1,
    ensures
        forwarded_for(texts).len() == texts.len(),
    decreases texts.len(),
{
    if texts.len() > 0 {
        assert forall|i: int| 0 <= i < texts.drop_last().len() implies forwarded(
            sql_parse(#[trigger] texts.drop_last()[i]),
        ).len() == 1 by {
            assert(texts.drop_last()[i] == texts[i]);
        }
        lemma_one_statement_per_command(texts.drop_last());
        assert(texts.last() == texts[texts.len() - 1]);
    }
}

/// Taking one command out of a run takes out its statements and no others.
proof fn lemma_forwarded_for_remove(texts: Seq<Seq<char>>, i: int)
    requires
        0 <= i < texts.len(),
    ensures
        forwarded_for(texts).to_multiset() == forwarded_for(texts.remove(i)).to_multiset().add(
            forwarded(sql_parse(texts[i])).to_multiset(),
        ),
{
    let before = texts.take(i);
    let one = seq![texts[i]];
    let after = texts.skip(i + 1);
    let statements = forwarded(sql_parse(texts[i]));
    assert(texts =~= (before + one) + after);
    assert(texts.remove(i) =~= before + after);
    lemma_forwarded_for_concat(before + one, after);
    lemma_forwarded_for_concat(before, one);
    lemma_forwarded_for_concat(before, after);
    assert(forwarded_for(one) =~= statements) by {
        assert(one.drop_last() =~= Seq::<Seq<char>>::empty());
        assert(one.last() == texts[i]);
        reveal_with_fuel(forwarded_for, 2);
    }
    lemma_multiset_commutative(forwarded_for(before) + statements, forwarded_for(after));
    lemma_multiset_commutative(forwarded_for(before), statements);
    lemma_multiset_commutative(forwarded_for(before), forwarded_for(after));
    assert(forwarded_for(before).to_multiset().add(statements.to_multiset()).add(
        forwarded_for(after).to_multiset(),
    ) =~= forwarded_for(before).to_multiset().add(forwarded_for(after).to_multiset()).add(
        statements.to_multiset(),
    ));
}

/// The order in which commands reach the queue decides the order in which
/// their statements are handed on and nothing else: the same commands in
/// another order have the same statements handed on, each as often.
pub proof fn lemma_queue_order_only_reorders(texts: Seq<Seq<char>>, reordered: Seq<Seq<char>>)
    requires
        texts.to_multiset() == reordered.to_multiset(),
    ensures
        forwarded_for(texts).to_multiset() == forwarded_for(reordered).to_multiset(),
    decreases texts.len(),
{
    to_multiset_len(texts);
    to_multiset_len(reordered);
    if texts.len() == 0 {
        assert(reordered =~= texts);
    } else {
        let last = texts.len() - 1;
        let text = texts[last];
        assert(texts.contains(text));
        to_multiset_contains(texts, text);
        to_multiset_contains(reordered, text);
        let j = choose|j: int| 0 <= j < reordered.len() && reordered[j] == text;
        to_multiset_remove(texts, last);
        to_multiset_remove(reordered, j);
        lemma_queue_order_only_reorders(texts.remove(last), reordered.remove(j));
        lemma_forwarded_for_remove(texts, last);
        lemma_forwarded_for_remove(reordered, j);
    }
}

} // verus!
